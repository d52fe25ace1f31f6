use std::rc::Rc;
use std::sync::mpsc::sync_channel;
use std::sync::mpsc::Receiver;

use klavier_core::bar::Bar;
use klavier_core::bar::Repeat;
use klavier_core::bar::RepeatSet;
use klavier_core::channel::Channel;
use klavier_core::ctrl_chg::CtrlChg;
use klavier_core::duration::Duration;
use klavier_core::key::Key;
use klavier_core::midi_events::create_midi_events;
use klavier_core::midi_events::MidiEvents;
use klavier_core::note::Note;
use klavier_core::octave::Octave;
use klavier_core::pitch::Pitch;
use klavier_core::project::ModelChangeMetadata;
use klavier_core::repeat::RenderRegionError;
use klavier_core::rhythm::Rhythm;
use klavier_core::sharp_flat::SharpFlat;
use klavier_core::solfa::Solfa;
use klavier_core::tempo::Tempo;
use klavier_core::tempo::TempoValue;
use klavier_core::velocity::Velocity;
use klavier_helper::bag_store::BagStore;
use klavier_helper::store::Store;
use klavier_jack::client::ClientStatus;
use klavier_jack::client::TestJackClientProxy;
use klavier_jack::player::close_step;
use klavier_jack::player::CloseStep;
use klavier_jack::player::Cmd;
use klavier_jack::player::CmdError;
use klavier_jack::player::CmdInfo;
use klavier_jack::player::Control;
use klavier_jack::player::PlayError;
use klavier_jack::player::PlayState;
use klavier_jack::player::Player;
use klavier_jack::player::Resp;
use klavier_jack::player::Step;
use klavier_jack::player::TryRecvError;
use klavier_jack::prepared::PreparedScore;
use klavier_jack::score::is_plain;
use klavier_jack::score::PlayStartTick;
use klavier_jack::score::ToAccumTickError;

type Notes = BagStore<u32, Rc<Note>, ModelChangeMetadata>;
type Bars = Store<u32, Bar, ModelChangeMetadata>;
type Tempos = Store<u32, Tempo, ModelChangeMetadata>;

fn one_note() -> Notes {
    let mut note_repo = BagStore::new(false);
    let note0 = Rc::new(Note {
        base_start_tick: 100,
        pitch: Pitch::new(Solfa::F, Octave::Oct4, SharpFlat::Null),
        ..Default::default()
    });
    note_repo.add(note0.start_tick(), note0.clone(), ModelChangeMetadata::default());
    note_repo
}

fn open_player(app_name: &str) -> Player {
    let proxy = TestJackClientProxy::new_test(app_name, ClientStatus::empty(), 2048, 48000);
    let (cmd_sender, _cmd_receiver) = sync_channel::<Cmd>(64);
    let (_resp_sender, resp_receiver) = sync_channel::<Resp>(64);
    let (player, _status) = Player::open(&proxy.client(), cmd_sender, resp_receiver);
    player
}

fn play_from(
    player: &Player,
    seq: usize,
    start: Option<PlayStartTick>,
    notes: &Notes,
    bars: &Bars,
    tempos: &Tempos,
) -> Result<Cmd, PlayError> {
    player
        .play(
            seq,
            start,
            Rhythm::new(2, 4),
            Key::SHARP_1,
            notes,
            bars,
            tempos,
            &Store::new(false),
            &Store::new(false),
        )
        .map(|made| made.0)
}

fn play_one_note(player: &Player, seq: usize) -> Cmd {
    play_from(player, seq, None, &one_note(), &Store::new(false), &Store::new(false)).unwrap()
}

fn take(receiver: &Receiver<Cmd>) -> Result<Cmd, TryRecvError> {
    receiver.try_recv().map_err(|error| match error {
        std::sync::mpsc::TryRecvError::Empty => TryRecvError::Empty,
        std::sync::mpsc::TryRecvError::Disconnected => TryRecvError::Disconnected,
    })
}

fn all_messages(play_data: &PreparedScore) -> Vec<&(u64, Vec<Vec<u8>>)> {
    play_data.between(0, u64::MAX).iter().collect()
}

fn rendered_one_note() -> MidiEvents {
    let (events, _warnings) = create_midi_events(
        Rhythm::new(2, 4),
        Key::SHARP_1,
        &one_note(),
        &Store::new(false),
        &Store::new(false),
        &Store::new(false),
        &Store::new(false),
    )
    .unwrap();
    events
}

/// The note is an F, sharp by the key signature. Octaves are counted from minus two, so this is
/// the seventh of them.
const F4: u8 = 6 * 12 + 6;

#[test]
fn play_send_cmd() {
    let note_repo = one_note();
    let events = rendered_one_note();
    let cycles_by_tick = events.cycles_by_accum_tick(48000, Duration::TICK_RESOLUTION as u32);
    let play_data0 = events.to_play_data(cycles_by_tick, 48000, 240);

    let mut player = open_player("my player");
    let (cmd_sender, cmd_receiver) = sync_channel::<Cmd>(64);
    player.cmd_channel = cmd_sender;

    let (cmd, _warnings) = player
        .play(
            1,
            None,
            Rhythm::new(2, 4),
            Key::SHARP_1,
            &note_repo,
            &Store::new(false),
            &Store::new(false),
            &Store::new(false),
            &Store::new(false),
        )
        .unwrap();
    let delivered = player.cmd_channel.send(cmd).is_ok();
    Player::sent(1, delivered).unwrap();

    let cmd = cmd_receiver.recv().unwrap();

    match cmd {
        Cmd::Play { seq, play_data, start_cycle: _ } => {
            assert_eq!(seq, 1);

            let midi_data0: Vec<&(u64, Vec<Vec<u8>>)> = play_data0.midi_data.iter().collect();
            let midi_data1: Vec<&(u64, Vec<Vec<u8>>)> = all_messages(&play_data);
            assert_eq!(midi_data0, midi_data1);
        }
        Cmd::Stop { seq: _ } => panic!("test failed"),
    };
}

#[test]
fn play_cmd_change_state() {
    let note_repo = one_note();
    let events = rendered_one_note();
    let cycles_by_tick = events.cycles_by_accum_tick(48000, Duration::TICK_RESOLUTION as u32);
    let play_data0 = events.to_play_data(cycles_by_tick, 48000, 240);

    let mut player = open_player("my player");
    let (cmd_sender, cmd_receiver) = sync_channel::<Cmd>(64);
    let (resp_sender, resp_receiver) = sync_channel::<Resp>(64);
    player.cmd_channel = cmd_sender;

    let cmd = play_from(&player, 1, None, &note_repo, &Store::new(false), &Store::new(false))
        .unwrap();
    player.cmd_channel.send(cmd).unwrap();

    let mut state = PlayState::Init;
    let (ctrl, resp) = Player::perform_cmd(take(&cmd_receiver), &mut state);
    resp_sender.send(resp.unwrap()).unwrap();
    assert_eq!(ctrl, Control::Continue);

    match &state {
        PlayState::Init => panic!("Should playing."),
        PlayState::Playing { seq, current_loc, play_data } => {
            assert_eq!(*seq, 1);
            assert_eq!(*current_loc, 0);
            let midi_data0: Vec<&(u64, Vec<Vec<u8>>)> = play_data0.midi_data.iter().collect();
            let midi_data1: Vec<&(u64, Vec<Vec<u8>>)> = all_messages(play_data);
            assert_eq!(midi_data0, midi_data1);
        }
        PlayState::Stopping => panic!("Should playing."),
    }
    let resp = resp_receiver.recv().unwrap();
    assert_eq!(resp, Resp::Success { seq: 1 });

    // Play again while playing.
    let cmd = play_from(&player, 2, None, &note_repo, &Store::new(false), &Store::new(false))
        .unwrap();
    player.cmd_channel.send(cmd).unwrap();

    let (ctrl, resp) = Player::perform_cmd(take(&cmd_receiver), &mut state);
    resp_sender.send(resp.unwrap()).unwrap();
    assert_eq!(ctrl, Control::Continue);

    match &state {
        PlayState::Init => panic!("Should playing."),
        PlayState::Playing { seq, current_loc, play_data } => {
            assert_eq!(*seq, 1);
            assert_eq!(*current_loc, 0);
            let midi_data0: Vec<&(u64, Vec<Vec<u8>>)> = play_data0.midi_data.iter().collect();
            let midi_data1: Vec<&(u64, Vec<Vec<u8>>)> = all_messages(play_data);
            assert_eq!(midi_data0, midi_data1);
        }
        PlayState::Stopping => panic!("Should playing."),
    }
    let resp = resp_receiver.recv().unwrap();
    assert_eq!(resp, Resp::Error { seq: Some(2), error: CmdError::AlreadyPlaying });

    // Stop playing.
    player.cmd_channel.send(player.stop(3)).unwrap();
    let (ctrl, resp) = Player::perform_cmd(take(&cmd_receiver), &mut state);
    resp_sender.send(resp.unwrap()).unwrap();
    assert_eq!(ctrl, Control::Continue);

    match &state {
        PlayState::Init => {}
        PlayState::Playing { seq: _, current_loc: _, play_data: _ } => panic!("Should init"),
        PlayState::Stopping => {}
    }
    let resp = resp_receiver.recv().unwrap();
    assert_eq!(resp, Resp::Info { seq: Some(3), info: CmdInfo::PlayingEnded });

    // Stop again.
    player.cmd_channel.send(player.stop(4)).unwrap();
    let (ctrl, resp) = Player::perform_cmd(take(&cmd_receiver), &mut state);
    resp_sender.send(resp.unwrap()).unwrap();
    assert_eq!(ctrl, Control::Continue);

    match &state {
        PlayState::Init => {}
        PlayState::Playing { seq: _, current_loc: _, play_data: _ } => panic!("Should init"),
        PlayState::Stopping => {}
    }
    let resp = resp_receiver.recv().unwrap();
    assert_eq!(resp, Resp::Success { seq: 4 });

    drop(player);
    let (ctrl, resp) = Player::perform_cmd(take(&cmd_receiver), &mut state);
    assert_eq!(ctrl, Control::Quit);
    assert!(resp.is_none());
}

#[test]
fn no_command_changes_nothing() {
    let mut state = PlayState::Stopping;
    let (ctrl, resp) = Player::perform_cmd(Err(TryRecvError::Empty), &mut state);
    assert_eq!(ctrl, Control::Continue);
    assert!(resp.is_none());
    assert!(matches!(state, PlayState::Stopping));
}

#[test]
fn score_is_played_to_its_end() {
    // At 120 quarter notes a minute and 48000 frames a second a tick takes 100 cycles. The note
    // sounds from tick 100 to tick 340.
    let player = open_player("my player");
    let mut state = PlayState::Init;
    Player::perform_cmd(Ok(play_one_note(&player, 7)), &mut state);

    let mut written: Vec<(u64, Vec<u8>)> = vec![];
    let mut callbacks = 0;
    while !matches!(state, PlayState::Init) {
        let origin: u64 = 2048 * callbacks;
        assert!(state.is_advanceable(2048, 48000));
        for message in Player::midi_out(&state, 2048) {
            assert!(message.time < 2048);
            written.push((origin + message.time as u64, message.bytes));
        }
        let resps = Player::perform_state(&mut state, vec![], 2048, 48000);
        let tick = (origin / 100) as u32;
        let expected = if matches!(state, PlayState::Init) {
            Resp::Info { seq: Some(7), info: CmdInfo::PlayingEnded }
        } else {
            Resp::Info {
                seq: Some(7),
                info: CmdInfo::CurrentLoc { seq: 7, tick, accum_tick: tick },
            }
        };
        assert_eq!(resps, vec![expected]);
        callbacks += 1;
    }
    assert_eq!(callbacks, 34000 / 2048 + 1);
    assert_eq!(written, vec![(10000, vec![0x90, F4, 64]), (34000, vec![0x90, F4, 0])]);
}

#[test]
fn message_at_the_end_of_a_buffer_is_left_for_the_next() {
    let player = open_player("my player");
    let mut state = PlayState::Init;
    Player::perform_cmd(Ok(play_one_note(&player, 1)), &mut state);
    assert_eq!(Player::midi_out(&state, 10000).len(), 0);
    Player::perform_state(&mut state, vec![], 10000, 48000);
    let writes = Player::midi_out(&state, 10000);
    assert_eq!(writes.len(), 1);
    assert_eq!(writes[0].time, 0);
    assert_eq!(writes[0].bytes, vec![0x90, F4, 64]);
}

#[test]
fn callback_answers_and_then_writes() {
    let player = open_player("my player");
    let mut state = PlayState::Init;
    let cmd = play_one_note(&player, 3);
    match Player::process(Ok(cmd), &mut state, 20000, 48000) {
        Step::Write { answer, messages } => {
            assert_eq!(answer, Some(Resp::Success { seq: 3 }));
            assert_eq!(messages.len(), 1);
            assert_eq!((messages[0].time, messages[0].bytes[2]), (10000, 64));
        }
        _ => panic!("nothing to write"),
    }
    Player::perform_state(&mut state, vec![], 20000, 48000);
    match Player::process(Ok(player.stop(4)), &mut state, 20000, 48000) {
        Step::Write { answer, messages } => {
            let ended = Resp::Info { seq: Some(4), info: CmdInfo::PlayingEnded };
            assert_eq!(answer, Some(ended));
            assert_eq!(messages.len(), 3);
        }
        _ => panic!("nothing to write"),
    }
    // The end of the channel leaves the silence unwritten.
    assert!(matches!(
        Player::process(Err(TryRecvError::Disconnected), &mut state, 20000, 48000),
        Step::Quit
    ));
    assert!(matches!(state, PlayState::Stopping));
}

#[test]
fn never_stopping_between_callbacks() {
    let player = open_player("my player");
    let commands = vec![
        Ok(player.stop(1)),
        Ok(play_one_note(&player, 2)),
        Err(TryRecvError::Empty),
        Ok(play_one_note(&player, 3)),
        Ok(player.stop(4)),
        Ok(player.stop(5)),
        Ok(play_one_note(&player, 6)),
        Ok(player.stop(7)),
        Err(TryRecvError::Disconnected),
    ];
    let playing = [false, true, true, true, false, false, true, false, false];
    let mut state = PlayState::Init;
    for (received, expected) in commands.into_iter().zip(playing) {
        if let Step::Write { .. } = Player::process(received, &mut state, 64, 48000) {
            Player::perform_state(&mut state, vec![], 64, 48000);
        }
        assert!(!matches!(state, PlayState::Stopping));
        assert_eq!(matches!(state, PlayState::Playing { .. }), expected);
    }
}

#[test]
fn callback_beyond_the_count_is_told_apart() {
    let player = open_player("my player");
    let mut state = PlayState::Init;
    Player::perform_cmd(Ok(play_one_note(&player, 3)), &mut state);
    match Player::process(Ok(play_one_note(&player, 4)), &mut state, 2048, 0) {
        Step::OutOfRange { answer } => assert_eq!(
            answer,
            Some(Resp::Error { seq: Some(4), error: CmdError::AlreadyPlaying })
        ),
        _ => panic!("a sampling rate of zero"),
    }
}

#[test]
fn empty_score_never_ends() {
    let player = open_player("my player");
    let cmd = play_from(
        &player,
        1,
        None,
        &BagStore::new(false),
        &Store::new(false),
        &Store::new(false),
    )
    .unwrap();
    let mut state = PlayState::Init;
    Player::perform_cmd(Ok(cmd), &mut state);
    for _ in 0..100 {
        assert_eq!(Player::midi_out(&state, 48000).len(), 0);
        Player::perform_state(&mut state, vec![], 48000, 48000);
        assert!(matches!(state, PlayState::Playing { .. }));
    }
    // A second is 480 ticks.
    let resps = Player::perform_state(&mut state, vec![], 48000, 48000);
    assert_eq!(
        resps,
        vec![Resp::Info {
            seq: Some(1),
            info: CmdInfo::CurrentLoc { seq: 1, tick: 48000, accum_tick: 48000 },
        }]
    );
}

#[test]
fn stopping_silences_all_channels() {
    let mut state = PlayState::Stopping;
    assert!(state.is_advanceable(64, 0));
    let writes = Player::midi_out(&state, 64);
    assert_eq!(writes.len(), 3);
    for (message, controller) in writes.iter().zip([67u8, 120, 64]) {
        assert_eq!(message.time, 0);
        assert_eq!(message.bytes.len(), 48);
        for channel in 0..16u8 {
            let at = 3 * channel as usize;
            assert_eq!(message.bytes[at..at + 3], [0xB0 + channel, controller, 0]);
        }
    }
    let resps = Player::perform_state(&mut state, vec![], 64, 48000);
    assert_eq!(resps, vec![]);
    assert!(matches!(state, PlayState::Init));
}

#[test]
fn failed_writes_are_answered_before_the_report() {
    let player = open_player("my player");
    let mut state = PlayState::Init;
    Player::perform_cmd(Ok(play_one_note(&player, 5)), &mut state);
    let errors = vec!["full".to_string(), "gone".to_string()];
    let resps = Player::perform_state(&mut state, errors, 2048, 48000);
    assert_eq!(
        resps,
        vec![
            Resp::Error { seq: None, error: CmdError::MidiWriteError("full".to_string()) },
            Resp::Error { seq: None, error: CmdError::MidiWriteError("gone".to_string()) },
            Resp::Info {
                seq: Some(5),
                info: CmdInfo::CurrentLoc { seq: 5, tick: 0, accum_tick: 0 },
            },
        ]
    );

    let mut state = PlayState::Stopping;
    let resps = Player::perform_state(&mut state, vec!["full".to_string()], 2048, 48000);
    assert_eq!(
        resps,
        vec![Resp::Error { seq: None, error: CmdError::MidiWriteError("full".to_string()) }]
    );
}

#[test]
fn idle_callback_does_nothing() {
    let mut state = PlayState::Init;
    assert_eq!(Player::midi_out(&state, 2048).len(), 0);
    assert_eq!(Player::perform_state(&mut state, vec![], 2048, 48000), vec![]);
    assert!(matches!(state, PlayState::Init));
}

fn repeated_bars() -> Bars {
    let mut bars = Store::new(false);
    let signs = RepeatSet::EMPTY.try_add(Repeat::End).unwrap();
    bars.add(480, Bar::new(480, None, None, signs), ModelChangeMetadata::default());
    bars
}

fn start_cycle(cmd: Cmd) -> u64 {
    match cmd {
        Cmd::Play { start_cycle, .. } => start_cycle,
        Cmd::Stop { .. } => panic!("not a command to play"),
    }
}

#[test]
fn start_position_counts_passes() {
    let player = open_player("my player");
    let start = |tick: u32, iter: u8| {
        play_from(
            &player,
            1,
            Some(PlayStartTick { tick, iter }),
            &one_note(),
            &repeated_bars(),
            &Store::new(false),
        )
    };
    assert_eq!(start_cycle(start(100, 1).unwrap()), 10000);
    // A pass below the first means the first.
    assert_eq!(start_cycle(start(100, 0).unwrap()), 10000);
    assert_eq!(start_cycle(start(100, 2).unwrap()), 58000);
    assert_eq!(start_cycle(start(500, 1).unwrap()), 98000);
    assert_eq!(
        start(100, 3).err().unwrap(),
        PlayError::PlayStartTickError(ToAccumTickError::CannotFind {
            specified_iter: 3,
            max_iter: 2,
        })
    );
    // A pass above the fifth means the fifth.
    assert_eq!(
        start(500, 9).err().unwrap(),
        PlayError::PlayStartTickError(ToAccumTickError::CannotFind {
            specified_iter: 5,
            max_iter: 1,
        })
    );
}

#[test]
fn start_position_is_reported_first() {
    let player = open_player("my player");
    let cmd = play_from(
        &player,
        1,
        Some(PlayStartTick { tick: 100, iter: 2 }),
        &one_note(),
        &repeated_bars(),
        &Store::new(false),
    )
    .unwrap();
    let mut state = PlayState::Init;
    Player::perform_cmd(Ok(cmd), &mut state);
    let writes = Player::midi_out(&state, 2048);
    assert_eq!(writes.len(), 1);
    assert_eq!((writes[0].time, writes[0].bytes.clone()), (0, vec![0x90, F4, 64]));
    let resps = Player::perform_state(&mut state, vec![], 2048, 48000);
    assert_eq!(
        resps,
        vec![Resp::Info {
            seq: Some(1),
            info: CmdInfo::CurrentLoc { seq: 1, tick: 100, accum_tick: 580 },
        }]
    );
}

#[test]
fn start_position_is_reported_within_a_tick() {
    let mut player = open_player("my player");
    player.sampling_rate = 44100;
    let mut tempos = Store::new(false);
    tempos.add(0, Tempo::new(0, 110), ModelChangeMetadata::default());
    let start = Some(PlayStartTick { tick: 7, iter: 1 });
    let cmd = play_from(&player, 1, start, &one_note(), &Store::new(false), &tempos).unwrap();
    let mut state = PlayState::Init;
    Player::perform_cmd(Ok(cmd), &mut state);
    let resps = Player::perform_state(&mut state, vec![], 64, 44100);
    assert_eq!(
        resps,
        vec![Resp::Info {
            seq: Some(1),
            info: CmdInfo::CurrentLoc { seq: 1, tick: 6, accum_tick: 6 },
        }]
    );
}

#[test]
fn reports_do_not_go_back() {
    let player = open_player("my player");
    let mut tempos = Store::new(false);
    tempos.add(150, Tempo::new(150, 77), ModelChangeMetadata::default());
    let cmd =
        play_from(&player, 1, None, &one_note(), &repeated_bars(), &tempos).unwrap();
    let mut state = PlayState::Init;
    Player::perform_cmd(Ok(cmd), &mut state);
    let mut last = 0;
    while !matches!(state, PlayState::Init) {
        for resp in Player::perform_state(&mut state, vec![], 333, 48000) {
            if let Resp::Info { info: CmdInfo::CurrentLoc { accum_tick, .. }, .. } = resp {
                assert!(last <= accum_tick);
                last = accum_tick;
            }
        }
    }
    // The note ends on tick 340 of the second pass.
    assert!(815 < last && last <= 820);
}

#[test]
fn tempo_change_moves_what_follows() {
    // 300 quarter notes a minute from tick 200 on: 40 cycles a tick.
    let mut tempos = Store::new(false);
    tempos.add(200, Tempo::new(200, 300), ModelChangeMetadata::default());
    let player = open_player("my player");
    let cmd = play_from(&player, 1, None, &one_note(), &Store::new(false), &tempos).unwrap();
    match &cmd {
        Cmd::Play { seq: _, play_data, start_cycle } => {
            assert_eq!(*start_cycle, 0);
            let messages = play_data.between(0, u64::MAX);
            assert_eq!(messages.len(), 2);
            assert_eq!(messages[0].0, 10000);
            assert_eq!(messages[1].0, 20000 + 140 * 40);
            assert_eq!(play_data.last_cycle(), Some(25600));
            assert_eq!(play_data.cycle_to_tick(19999, 48000), 199);
            assert_eq!(play_data.cycle_to_tick(20000, 48000), 200);
            assert_eq!(play_data.cycle_to_tick(20080, 48000), 202);
        }
        Cmd::Stop { .. } => panic!("not a command to play"),
    }
    let copy = cmd.clone();
    match (cmd, copy) {
        (Cmd::Play { play_data: first, .. }, Cmd::Play { play_data: second, .. }) => {
            assert_eq!(all_messages(&first), all_messages(&second));
            assert_eq!(first.cycle_to_tick(20080, 48000), second.cycle_to_tick(20080, 48000));
        }
        _ => panic!("not commands to play"),
    }
}

#[test]
fn wrong_repeats_are_refused() {
    let mut bars = repeated_bars();
    let signs = RepeatSet::EMPTY.try_add(Repeat::End).unwrap();
    bars.add(960, Bar::new(960, None, None, signs), ModelChangeMetadata::default());
    let player = open_player("my player");
    let error = play_from(&player, 1, None, &one_note(), &bars, &Store::new(false)).err().unwrap();
    assert_eq!(
        error,
        PlayError::RenderError(RenderRegionError::OrphanRepeatEnd { tick: 960 })
    );
    assert_eq!(error.clone(), error);
}

#[test]
fn undelivered_command_is_an_error() {
    assert_eq!(Player::sent(4, true), Ok(()));
    assert_eq!(Player::sent(4, false), Err(PlayError::SendError { seq: 4 }));
}

#[test]
fn receiver_is_taken_once() {
    let mut player = open_player("my player");
    assert!(player.get_resp().try_recv().is_err());
    assert!(player.take_resp().is_some());
    assert!(player.take_resp().is_none());
}

#[test]
fn score_that_does_not_fit_is_told_apart() {
    let mut player = open_player("my player");
    let mut events = rendered_one_note();
    assert!(player.is_playable(&events, None));
    assert!(player.is_playable(&events, Some(PlayStartTick { tick: 100, iter: 1 })));
    // Not found, so nothing is computed from it.
    assert!(player.is_playable(&events, Some(PlayStartTick { tick: 100, iter: 2 })));
    events.add_tempo(500, TempoValue::new(0));
    assert!(!player.is_playable(&events, None));

    let made = player.try_play(
        1,
        None,
        Rhythm::new(2, 4),
        Key::SHARP_1,
        &one_note(),
        &Store::new(false),
        &Store::new(false),
        &Store::new(false),
        &Store::new(false),
    );
    assert_eq!(start_cycle(made.unwrap().unwrap().0), 0);

    let mut tempos = Store::new(false);
    tempos.add(200, Tempo::new(200, 0), ModelChangeMetadata::default());
    let made = player.try_play(
        1,
        None,
        Rhythm::new(2, 4),
        Key::SHARP_1,
        &one_note(),
        &Store::new(false),
        &tempos,
        &Store::new(false),
        &Store::new(false),
    );
    assert!(made.is_none());

    player.sampling_rate = 0;
    assert!(player.is_playable(&rendered_one_note(), None));
    player.sampling_rate = u32::MAX as usize;
    assert!(player.is_playable(&rendered_one_note(), None));
}

#[test]
fn sampling_rate_of_more_than_32_bits_is_told_apart() {
    let mut player = open_player("my player");
    player.sampling_rate = 0x1_0000_0000 + 48000;
    let start = Some(PlayStartTick { tick: 100, iter: 2 });
    assert!(!player.is_playable(&rendered_one_note(), None));
    assert!(!player.is_playable(&rendered_one_note(), start));
    let made = player.try_play(
        1,
        None,
        Rhythm::new(2, 4),
        Key::SHARP_1,
        &one_note(),
        &Store::new(false),
        &Store::new(false),
        &Store::new(false),
        &Store::new(false),
    );
    assert!(made.is_none());
}

#[test]
fn plays_of_one_score_are_alike() {
    let player = open_player("my player");
    let made = |seq: usize, start: Option<PlayStartTick>| {
        let cmd = play_from(
            &player,
            seq,
            start,
            &one_note(),
            &repeated_bars(),
            &Store::new(false),
        );
        match cmd.unwrap() {
            Cmd::Play { seq, play_data, start_cycle } => (seq, play_data, start_cycle),
            Cmd::Stop { .. } => panic!("not a command to play"),
        }
    };
    let start = Some(PlayStartTick { tick: 100, iter: 2 });
    let (first, second, third) = (made(1, None), made(2, start), made(3, start));
    assert_eq!((first.0, second.0, third.0), (1, 2, 3));
    assert_eq!(all_messages(&first.1), all_messages(&second.1));
    assert_eq!((first.2, second.2, third.2), (0, 58000, 58000));
    // No cycle is there without a message, and the score ends with the last one.
    assert!(all_messages(&first.1).iter().all(|entry| !entry.1.is_empty()));
    assert_eq!(first.1.last_cycle(), Some(82000));
}

#[test]
fn plain_scores_are_told_apart() {
    let highest = 0x4000_0000;
    let note_at = |tick: u32| {
        let mut notes: Notes = BagStore::new(false);
        let note = Rc::new(Note { base_start_tick: tick, ..Default::default() });
        notes.add(tick, note, ModelChangeMetadata::default());
        notes
    };
    let bar_at = |key: u32, tick: u32, sign: Repeat| {
        let mut bars: Bars = Store::new(false);
        let signs = RepeatSet::EMPTY.try_add(sign).unwrap();
        bars.add(key, Bar::new(tick, None, None, signs), ModelChangeMetadata::default());
        bars
    };
    let tempo_at = |tick: u32| {
        let mut tempos: Tempos = Store::new(false);
        tempos.add(tick, Tempo::new(tick, 120), ModelChangeMetadata::default());
        tempos
    };
    let pedal_at = |tick: u32| {
        let mut pedals = Store::new(false);
        let pedal = CtrlChg::new(tick, Velocity::default(), Channel::default());
        pedals.add(tick, pedal, ModelChangeMetadata::default());
        pedals
    };
    let (notes, bars) = (note_at(highest), bar_at(highest, highest, Repeat::End));
    let (tempos, pedals) = (tempo_at(highest), pedal_at(highest));
    assert!(is_plain(&notes, &bars, &tempos, &pedals, &pedals));
    let player = open_player("my player");
    let made = player.try_play(
        1,
        None,
        Rhythm::new(2, 4),
        Key::SHARP_1,
        &notes,
        &bars,
        &tempos,
        &pedals,
        &pedals,
    );
    assert!(matches!(made, Some(Ok(_))));

    assert!(is_plain(&notes, &bar_at(480, 480, Repeat::Fine), &tempos, &pedals, &pedals));
    assert!(!is_plain(&note_at(highest + 1), &bars, &tempos, &pedals, &pedals));
    assert!(!is_plain(&notes, &bar_at(480, 481, Repeat::End), &tempos, &pedals, &pedals));
    assert!(!is_plain(
        &notes,
        &bar_at(highest + 1, highest + 1, Repeat::End),
        &tempos,
        &pedals,
        &pedals
    ));
    for sign in [Repeat::Dc, Repeat::Ds, Repeat::Var1] {
        assert!(!is_plain(&notes, &bar_at(480, 480, sign), &tempos, &pedals, &pedals));
    }
    assert!(!is_plain(&notes, &bars, &tempo_at(highest + 1), &pedals, &pedals));
    assert!(!is_plain(&notes, &bars, &tempos, &pedal_at(highest + 1), &pedals));
    assert!(!is_plain(&notes, &bars, &tempos, &pedals, &pedal_at(highest + 1)));
}

#[test]
fn closing_is_waited_for_so_long_only() {
    assert_eq!(close_step(0, false), CloseStep::Wait { millis: 100 });
    assert_eq!(close_step(49, false), CloseStep::Wait { millis: 100 });
    assert_eq!(close_step(50, false), CloseStep::Done);
    assert_eq!(close_step(3, true), CloseStep::Done);
}

#[test]
fn rendered_score_is_played_or_refused() {
    let player = open_player("my player");
    let (cmd, warnings) = player.play_rendered(6, None, Ok((rendered_one_note(), vec![]))).unwrap();
    assert!(warnings.is_empty());
    match cmd {
        Cmd::Play { seq, play_data, start_cycle } => {
            assert_eq!((seq, start_cycle), (6, 0));
            assert_eq!(play_data.last_cycle(), Some(34000));
        }
        Cmd::Stop { .. } => panic!("not a command to play"),
    }
    let error = RenderRegionError::NoRepeatEnd { tick: 3 };
    assert_eq!(
        player.play_rendered(6, None, Err(error.clone())).err().unwrap(),
        PlayError::RenderError(error)
    );
}

#[test]
fn position_out_of_range_is_told_apart() {
    let player = open_player("my player");
    let mut state = PlayState::Init;
    Player::perform_cmd(Ok(play_one_note(&player, 1)), &mut state);
    assert!(state.is_advanceable(2048, 48000));
    assert!(!state.is_advanceable(2048, 0));
    // The last buffer reports no position.
    assert!(state.is_advanceable(48000, 0));

    let mut state = PlayState::Init;
    let cmd = match play_one_note(&player, 1) {
        Cmd::Play { seq, play_data, start_cycle: _ } => {
            Cmd::Play { seq, play_data, start_cycle: u64::MAX }
        }
        cmd => cmd,
    };
    Player::perform_cmd(Ok(cmd), &mut state);
    // The end of the buffer has no number.
    assert!(!state.is_advanceable(1, 48000));
    assert!(state.is_advanceable(0, 48000));
}
