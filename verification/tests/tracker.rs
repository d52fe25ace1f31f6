use std::sync::mpsc::sync_channel;
use std::sync::mpsc::Receiver;

use klavier_core::bar::Bar;
use klavier_core::bar::Repeat;
use klavier_core::bar::RepeatSet;
use klavier_core::key::Key;
use klavier_core::project::ModelChangeMetadata;
use klavier_core::repeat::RenderRegionError;
use klavier_core::rhythm::Rhythm;
use klavier_core::tempo::Tempo;
use klavier_helper::bag_store::BagStore;
use klavier_helper::store::Store;
use klavier_jack::client::ClientStatus;
use klavier_jack::client::TestJackClientProxy;
use klavier_jack::messages::RawMidi;
use klavier_jack::player::Cmd;
use klavier_jack::player::CmdError;
use klavier_jack::player::CmdInfo;
use klavier_jack::player::PlayError;
use klavier_jack::player::PlayState;
use klavier_jack::player::Player;
use klavier_jack::player::Resp;
use klavier_jack::score::PlayStartTick;
use klavier_jack::score::ToAccumTickError;
use klavier_jack::tracker::Status;
use klavier_jack::tracker::Tracker;
use klavier_jack::tracker::TrackerError;

fn run_tracker(app_name: &str, status: ClientStatus) -> (Tracker, ClientStatus, Receiver<Cmd>) {
    let proxy = TestJackClientProxy::new_test(app_name, status, 2048, 48000);
    assert_eq!(proxy.app_name, app_name);
    let (cmd_sender, cmd_receiver) = sync_channel::<Cmd>(64);
    let (_resp_sender, resp_receiver) = sync_channel::<Resp>(64);
    let (player, client_status) = Player::open(&proxy.client(), cmd_sender, resp_receiver);
    let (tracker, _receiver, client_status) = Tracker::run(player, client_status);
    (tracker, client_status, cmd_receiver)
}

fn play_nothing(tracker: &Tracker) -> Result<Cmd, TrackerError> {
    play_bars(tracker, None, &Store::new(false))
}

fn play_bars(
    tracker: &Tracker,
    start: Option<PlayStartTick>,
    bars: &Store<u32, Bar, ModelChangeMetadata>,
) -> Result<Cmd, TrackerError> {
    tracker
        .play(
            start,
            Rhythm::new(2, 4),
            Key::SHARP_1,
            &BagStore::new(false),
            bars,
            &Store::new(false),
            &Store::new(false),
            &Store::new(false),
        )
        .map(|made| made.0)
}

fn number_of(cmd: &Cmd) -> usize {
    match cmd {
        Cmd::Play { seq, .. } => *seq,
        Cmd::Stop { seq } => *seq,
    }
}

#[test]
fn new() {
    let (tracker, _status, _commands) = run_tracker("app name", ClientStatus::empty());
    assert_eq!(tracker.seq, 0);
    assert_eq!(tracker.player.is_none(), false);
    assert_eq!(tracker.status(), Status::Stopped);
}

#[test]
fn disconnected_stop() {
    let (tracker, _status, _commands) = run_tracker("app name", ClientStatus::empty());
    assert_eq!(tracker.status(), Status::Stopped);
    let result = tracker.stop().err().unwrap();
    assert_eq!(result, TrackerError::NotPlaying(Status::Stopped));
}

#[test]
fn run() {
    let init_failure = ClientStatus { bits: ClientStatus::INIT_FAILURE };
    let (mut tracker, status, _commands) = run_tracker("my name", init_failure);
    assert_eq!(status, init_failure);
    let play_start_loc = None;

    let result = tracker.play(
        play_start_loc,
        Rhythm::new(2, 4),
        Key::SHARP_1,
        &BagStore::new(false),
        &Store::new(false),
        &Store::new(false),
        &Store::new(false),
        &Store::new(false),
    );
    assert_eq!(result.is_ok(), true);
    let (cmd, _warnings) = result.unwrap();
    let delivered = tracker.player.as_ref().unwrap().cmd_channel.send(cmd).is_ok();
    assert_eq!(tracker.play_sent(1, delivered).is_ok(), true);
    assert_eq!(tracker.status(), Status::StartingPlay { seq: 1 });
}

#[test]
fn receiver_goes_to_the_listener() {
    let proxy = TestJackClientProxy::new_test("app name", ClientStatus::empty(), 2048, 48000);
    assert_eq!(proxy.buffer_size(), 2048);
    assert_eq!(proxy.sampling_rate(), 48000);
    assert_eq!(proxy.client().buffer_size(), 2048);
    assert_eq!(proxy.client().sampling_rate(), 48000);
    let (cmd_sender, _cmd_receiver) = sync_channel::<Cmd>(64);
    let (resp_sender, resp_receiver) = sync_channel::<Resp>(64);
    let (player, status) = Player::open(&proxy.client(), cmd_sender, resp_receiver);
    let (tracker, receiver, _status) = Tracker::run(player, status);
    resp_sender.send(Resp::Success { seq: 8 }).unwrap();
    assert_eq!(receiver.recv().unwrap(), Resp::Success { seq: 8 });
    assert!(tracker.player.unwrap().resp_channel.is_none());
}

#[test]
fn port_without_a_server_takes_every_message() {
    let proxy = TestJackClientProxy::new_test("app name", ClientStatus::empty(), 2048, 48000);
    let mut port = proxy.midi_out_port::<u8>();
    let mut writer = port.writer();
    assert_eq!(writer.write(&RawMidi { time: 3, bytes: vec![0x90, 60, 64] }), Ok(()));
}

#[test]
fn plays_are_numbered() {
    let (mut tracker, _status, commands) = run_tracker("app name", ClientStatus::empty());
    for number in 0..3 {
        let cmd = play_nothing(&tracker).unwrap();
        let delivered = tracker.player.as_ref().unwrap().cmd_channel.send(cmd).is_ok();
        // The status has the number of the request, the command that of the tracker.
        assert_eq!(tracker.play_sent(number + 10, delivered), Ok(()));
        assert_eq!(tracker.status(), Status::StartingPlay { seq: number + 10 });
        assert_eq!(number_of(&commands.recv().unwrap()), number);
    }
}

#[test]
fn undelivered_requests_change_nothing() {
    let (mut tracker, _status, commands) = run_tracker("app name", ClientStatus::empty());
    tracker.seq = 4;
    drop(commands);
    let cmd = play_nothing(&tracker).unwrap();
    let delivered = tracker.player.as_ref().unwrap().cmd_channel.send(cmd).is_ok();
    assert_eq!(
        tracker.play_sent(9, delivered),
        Err(TrackerError::PlayerErr(PlayError::SendError { seq: 4 }))
    );
    assert_eq!((tracker.seq, tracker.status()), (4, Status::Stopped));

    tracker.status = Status::Playing { seq: 3, tick: 5, accum_tick: 6 };
    assert_eq!(
        tracker.stop_sent(9, false),
        Err(TrackerError::PlayerErr(PlayError::SendError { seq: 4 }))
    );
    assert_eq!(tracker.status(), Status::Playing { seq: 3, tick: 5, accum_tick: 6 });
}

#[test]
fn play_is_refused_while_stopping() {
    let (mut tracker, _status, _commands) = run_tracker("app name", ClientStatus::empty());
    tracker.status = Status::Playing { seq: 0, tick: 1, accum_tick: 2 };
    let cmd = tracker.stop().ok().unwrap();
    assert_eq!(number_of(&cmd), 0);
    assert_eq!(tracker.stop_sent(6, true), Ok(()));
    assert_eq!(tracker.status(), Status::StoppingPlay { seq: 6 });
    assert_eq!(play_nothing(&tracker).err().unwrap(), TrackerError::PlayerStopping { seq: 6 });
    assert_eq!(
        tracker.stop().err().unwrap(),
        TrackerError::NotPlaying(Status::StoppingPlay { seq: 6 })
    );

    let ended = Resp::Info { seq: Some(0), info: CmdInfo::PlayingEnded };
    let (status, listen_on) = Tracker::on_resp(tracker.status, Some(ended));
    assert!(listen_on);
    tracker.status = status;
    assert!(play_nothing(&tracker).is_ok());
}

#[test]
fn without_a_player_every_request_is_refused() {
    let tracker = Tracker { seq: 0, player: None, status: Status::Stopped };
    assert_eq!(play_nothing(&tracker).err().unwrap(), TrackerError::PlayerNotOpened);
    assert_eq!(tracker.stop().err().unwrap(), TrackerError::PlayerNotOpened);
    let made = tracker.try_play(
        None,
        Rhythm::new(2, 4),
        Key::SHARP_1,
        &BagStore::new(false),
        &Store::new(false),
        &Store::new(false),
        &Store::new(false),
        &Store::new(false),
    );
    assert_eq!(made.unwrap().err().unwrap(), TrackerError::PlayerNotOpened);
}

#[test]
fn errors_of_the_player_are_passed_on() {
    let (tracker, _status, _commands) = run_tracker("app name", ClientStatus::empty());
    let mut bars = Store::new(false);
    let start = RepeatSet::EMPTY.try_add(Repeat::Start).unwrap();
    bars.add(480, Bar::new(480, None, None, start), ModelChangeMetadata::default());
    assert_eq!(
        play_bars(&tracker, None, &bars).err().unwrap(),
        TrackerError::PlayerErr(PlayError::RenderError(RenderRegionError::NoRepeatEnd {
            tick: 480
        }))
    );
    assert_eq!(
        play_bars(&tracker, Some(PlayStartTick { tick: 10, iter: 2 }), &Store::new(false))
            .err()
            .unwrap(),
        TrackerError::PlayerErr(PlayError::PlayStartTickError(ToAccumTickError::CannotFind {
            specified_iter: 2,
            max_iter: 1,
        }))
    );
}

#[test]
fn score_too_long_is_told_apart() {
    let (mut tracker, _status, _commands) = run_tracker("app name", ClientStatus::empty());
    let attempt = |tracker: &Tracker, tempo: u16| {
        let mut tempos = Store::new(false);
        tempos.add(200, Tempo::new(200, tempo), ModelChangeMetadata::default());
        tracker.try_play(
            None,
            Rhythm::new(2, 4),
            Key::SHARP_1,
            &BagStore::new(false),
            &Store::new(false),
            &tempos,
            &Store::new(false),
            &Store::new(false),
        )
    };
    assert!(attempt(&tracker, 0).is_none());
    assert!(matches!(attempt(&tracker, 1), Some(Ok(_))));
    // Nothing is computed where the request is refused.
    tracker.status = Status::StoppingPlay { seq: 2 };
    assert!(matches!(
        attempt(&tracker, 0),
        Some(Err(TrackerError::PlayerStopping { seq: 2 }))
    ));
}

#[test]
fn status_follows_the_answers() {
    let playing = Status::Playing { seq: 1, tick: 2, accum_tick: 3 };
    let loc = CmdInfo::CurrentLoc { seq: 1, tick: 2, accum_tick: 3 };
    let starting = Status::StartingPlay { seq: 9 };
    assert_eq!(
        Tracker::on_resp(starting, Some(Resp::Info { seq: Some(7), info: loc })),
        (playing, true)
    );
    assert_eq!(
        Tracker::on_resp(
            playing,
            Some(Resp::Info { seq: Some(7), info: CmdInfo::PlayingEnded })
        ),
        (Status::Stopped, true)
    );
    assert_eq!(Tracker::on_resp(playing, Some(Resp::Success { seq: 1 })), (playing, true));
    assert_eq!(
        Tracker::on_resp(
            starting,
            Some(Resp::Error { seq: Some(1), error: CmdError::AlreadyPlaying })
        ),
        (starting, true)
    );
    assert_eq!(Tracker::on_resp(playing, None), (Status::Disconnected, false));
}

#[test]
fn last_report_decides() {
    let loc = |tick: u32| Resp::Info {
        seq: Some(1),
        info: CmdInfo::CurrentLoc { seq: 1, tick, accum_tick: tick },
    };
    let ended = Resp::Info { seq: Some(1), info: CmdInfo::PlayingEnded };
    let refused = Resp::Error { seq: Some(2), error: CmdError::AlreadyPlaying };
    let done = Resp::Success { seq: 3 };
    let after_all = |answers: Vec<Resp>| {
        answers.into_iter().fold(Status::StartingPlay { seq: 9 }, |status, answer| {
            Tracker::on_resp(status, Some(answer)).0
        })
    };
    assert_eq!(
        after_all(vec![loc(1), ended.clone(), loc(5), refused.clone(), done.clone()]),
        Status::Playing { seq: 1, tick: 5, accum_tick: 5 }
    );
    assert_eq!(after_all(vec![loc(1), done.clone(), ended]), Status::Stopped);
    assert_eq!(after_all(vec![done, refused]), Status::StartingPlay { seq: 9 });
}

#[test]
fn delivered_plays_are_counted() {
    let (mut tracker, _status, _commands) = run_tracker("app name", ClientStatus::empty());
    assert_eq!(tracker.play_sent(1, true), Ok(()));
    assert!(tracker.play_sent(2, false).is_err());
    assert_eq!(tracker.play_sent(3, true), Ok(()));
    assert_eq!(tracker.stop_sent(4, true), Ok(()));
    let ended = Resp::Info { seq: Some(2), info: CmdInfo::PlayingEnded };
    tracker.status = Tracker::on_resp(tracker.status, Some(ended)).0;
    assert_eq!(tracker.seq, 2);
    assert_eq!(number_of(&play_nothing(&tracker).ok().unwrap()), 2);
}

#[test]
fn stop_reaches_stopped() {
    let (mut tracker, _status, _commands) = run_tracker("app name", ClientStatus::empty());
    let mut state = PlayState::Init;
    let (_control, resp) = Player::perform_cmd(play_nothing(&tracker).ok().ok_or(
        klavier_jack::player::TryRecvError::Empty,
    ), &mut state);
    assert_eq!(tracker.play_sent(1, true), Ok(()));
    tracker.status = Tracker::on_resp(tracker.status, resp).0;
    assert_eq!(tracker.status(), Status::StartingPlay { seq: 1 });
    for resp in Player::perform_state(&mut state, vec![], 2048, 48000) {
        tracker.status = Tracker::on_resp(tracker.status, Some(resp)).0;
    }
    assert_eq!(tracker.status(), Status::Playing { seq: 0, tick: 0, accum_tick: 0 });

    let cmd = tracker.stop().ok().unwrap();
    assert_eq!(tracker.stop_sent(2, true), Ok(()));
    let (_control, resp) = Player::perform_cmd(Ok(cmd), &mut state);
    tracker.status = Tracker::on_resp(tracker.status, resp).0;
    assert_eq!(tracker.status(), Status::Stopped);
}
