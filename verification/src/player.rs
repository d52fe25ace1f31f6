//! The player: commands, the state of the process callback, and what it answers.
//!
//! The process callback of the audio server runs once for each buffer. It first takes a command,
//! if one is waiting, and answers it. Then it writes the messages of this buffer and reports
//! where in the score it is. Commands and answers travel through channels; sending and receiving
//! is left to the program around the library.
use std::rc::Rc;
use std::sync::mpsc::Receiver;
use std::sync::mpsc::SyncSender;

use klavier_core::bar::Bar;
use klavier_core::ctrl_chg::CtrlChg;
use klavier_core::global_repeat::RenderRegionWarning;
use klavier_core::key::Key;
use klavier_core::midi_events::MidiEvents;
use klavier_core::note::Note;
use klavier_core::project::ModelChangeMetadata;
use klavier_core::repeat::RenderRegionError;
use klavier_core::rhythm::Rhythm;
use klavier_core::tempo::Tempo;
use klavier_core::tempo::TempoValue;
use klavier_helper::bag_store::BagStore;
use klavier_helper::store::Store;
use vstd::prelude::*;

use crate::client::ClientStatus;
use crate::client::JackClientProxy;
use crate::messages;
use crate::messages::RawMidi;
use crate::prepared::PreparedScore;
use crate::score;
use crate::score::PlayStartTick;
use crate::score::ToAccumTickError;
use crate::timing;

verus! {

/// The sending end of a bounded channel (std)
#[verifier::external_type_specification]
#[verifier::external_body]
#[verifier::reject_recursive_types(T)]
pub struct ExSyncSender<T>(SyncSender<T>);

/// The receiving end of a channel (std)
#[verifier::external_type_specification]
#[verifier::external_body]
#[verifier::reject_recursive_types(T)]
pub struct ExReceiver<T>(Receiver<T>);

/// What the process callback can be told to do. `seq` comes back in the answer.
#[derive(Clone)]
pub enum Cmd {
    Play { seq: usize, play_data: PreparedScore, start_cycle: u64 },
    Stop { seq: usize },
}

/// What can go wrong in the process callback.
#[derive(Debug, PartialEq, Eq, Clone)]
pub enum CmdError {
    AlreadyPlaying,
    MidiWriteError(String),
}

/// What the process callback reports.
#[derive(Debug, PartialEq, Eq, Clone)]
pub enum CmdInfo {
    PlayingEnded,
    CurrentLoc { seq: usize, tick: u32, accum_tick: u32 },
}

/// An answer of the process callback.
#[derive(Debug, PartialEq, Eq, Clone)]
pub enum Resp {
    Error { seq: Option<usize>, error: CmdError },
    Info { seq: Option<usize>, info: CmdInfo },
    Success { seq: usize },
}

/// The state of the process callback. `current_loc` is the first cycle of the next buffer.
pub enum PlayState {
    Init,
    Playing { seq: usize, current_loc: u64, play_data: PreparedScore },
    Stopping,
}

/// Whether the audio server goes on calling back.
#[derive(Debug, PartialEq, Eq, Clone, Copy, Structural)]
pub enum Control {
    Continue,
    Quit,
}

/// Why there is no command to take.
#[derive(Debug, PartialEq, Eq, Clone, Copy, Structural)]
pub enum TryRecvError {
    Empty,
    Disconnected,
}

/// Why playing did not start.
#[derive(Debug, PartialEq)]
pub enum PlayError {
    RenderError(RenderRegionError),
    SendError { seq: usize },
    PlayStartTickError(ToAccumTickError),
}

impl Clone for PlayError {
    fn clone(&self) -> (copy: Self)
        ensures
            copy == *self,
    {
        match self {
            PlayError::RenderError(error) => PlayError::RenderError(error.clone()),
            PlayError::SendError { seq } => PlayError::SendError { seq: *seq },
            PlayError::PlayStartTickError(error) => PlayError::PlayStartTickError(*error),
        }
    }
}

/// What a callback does once it has looked for a command. `answer` is what there is to send.
pub enum Step {
    /// The channel of commands is gone: this was the last callback.
    Quit,
    /// The messages are to be written; `Player::perform_state` ends the buffer.
    Write { answer: Option<Resp>, messages: Vec<RawMidi> },
    /// The buffer cannot be performed: it lies beyond what can be counted.
    OutOfRange { answer: Option<Resp> },
}

/// Whether the callback goes on after it has looked for a command.
pub open spec fn control_after(received: Result<Cmd, TryRecvError>) -> Control {
    match received {
        Err(TryRecvError::Disconnected) => Control::Quit,
        _ => Control::Continue,
    }
}

/// The state after a command.
pub open spec fn state_after_cmd(
    received: Result<Cmd, TryRecvError>,
    state: PlayState,
) -> PlayState {
    match (received, state) {
        (Ok(Cmd::Play { seq, play_data, start_cycle }), PlayState::Init) => PlayState::Playing {
            seq,
            current_loc: start_cycle,
            play_data,
        },
        (Ok(Cmd::Stop { .. }), PlayState::Playing { .. }) => PlayState::Stopping,
        _ => state,
    }
}

/// The answer to a command.
pub open spec fn answer(received: Result<Cmd, TryRecvError>, state: PlayState) -> Option<Resp> {
    match received {
        Ok(Cmd::Play { seq, .. }) => if state is Init {
            Some(Resp::Success { seq })
        } else {
            Some(Resp::Error { seq: Some(seq), error: CmdError::AlreadyPlaying })
        },
        Ok(Cmd::Stop { seq }) => if state is Playing {
            Some(Resp::Info { seq: Some(seq), info: CmdInfo::PlayingEnded })
        } else {
            Some(Resp::Success { seq })
        },
        Err(_) => None,
    }
}

/// The last message lies before the end of the buffer. A score without messages never gets there.
pub open spec fn ends_before(timeline: Seq<(u64, Seq<Seq<u8>>)>, end: int) -> bool {
    timeline.len() > 0 && timeline.last().0 < end
}

impl PlayState {
    /// What is written in this buffer: offsets and bytes.
    pub open spec fn writes(self, buffer_size: u32) -> Seq<(int, Seq<u8>)> {
        match self {
            PlayState::Init => Seq::empty(),
            PlayState::Playing { current_loc, play_data, .. } => messages::writes_from(
                messages::window(
                    play_data.timeline(),
                    current_loc as int,
                    current_loc + buffer_size,
                ),
                current_loc as int,
            ),
            PlayState::Stopping => messages::silence(),
        }
    }

    /// The state after this buffer.
    pub open spec fn next(self, buffer_size: u32) -> PlayState {
        match self {
            PlayState::Playing { seq, current_loc, play_data } => if ends_before(
                play_data.timeline(),
                current_loc + buffer_size,
            ) {
                PlayState::Init
            } else {
                PlayState::Playing {
                    seq,
                    current_loc: (current_loc + buffer_size) as u64,
                    play_data,
                }
            },
            _ => PlayState::Init,
        }
    }

    /// What is reported at the end of this buffer.
    pub open spec fn reports(self, buffer_size: u32, sampling_rate: usize) -> Seq<Resp> {
        match self {
            PlayState::Playing { seq, current_loc, play_data } => if ends_before(
                play_data.timeline(),
                current_loc + buffer_size,
            ) {
                seq![Resp::Info { seq: Some(seq), info: CmdInfo::PlayingEnded }]
            } else {
                let rate = sampling_rate as u32 as int;
                seq![
                    Resp::Info {
                        seq: Some(seq),
                        info: CmdInfo::CurrentLoc {
                            seq,
                            tick: play_data.tick(current_loc as int, rate) as u32,
                            accum_tick: play_data.accum_tick(current_loc as int, rate) as u32,
                        },
                    },
                ]
            },
            _ => Seq::empty(),
        }
    }

    /// The end of the buffer can be counted in 64 bits and the position can be computed where
    /// it is reported.
    pub open spec fn can_advance(self, buffer_size: u32, sampling_rate: usize) -> bool {
        self matches PlayState::Playing { current_loc, play_data, .. } ==> {
            &&& current_loc + buffer_size <= u64::MAX
            &&& ends_before(play_data.timeline(), current_loc + buffer_size)
                || play_data.can_locate(current_loc as int, sampling_rate as u32 as int)
        }
    }
}

impl PlayState {
    /// Tells whether this buffer can be performed.
    pub fn is_advanceable(&self, buffer_size: u32, sampling_rate: usize) -> (advanceable: bool)
        ensures
            advanceable == self.can_advance(buffer_size, sampling_rate),
    {
        match self {
            PlayState::Playing { seq: _, current_loc, play_data } => {
                match current_loc.checked_add(buffer_size as u64) {
                    None => false,
                    Some(end) => {
                        let ended: bool = match play_data.last_cycle() {
                            None => false,
                            Some(cycle) => cycle < end,
                        };
                        ended || play_data.is_locatable(*current_loc, sampling_rate as u32)
                    },
                }
            },
            _ => true,
        }
    }
}

/// The answers to failed writes.
pub open spec fn write_failures(errors: Seq<String>) -> Seq<Resp> {
    errors.map_values(
        |error: String| Resp::Error { seq: None, error: CmdError::MidiWriteError(error) },
    )
}

/// The table of timed tempo changes of a rendered score.
pub open spec fn table_of(events: MidiEvents, sampling_rate: usize) -> Seq<(u32, u16, u64)> {
    timing::timed_changes(
        score::tempo_changes(events),
        sampling_rate as int,
        timing::TICKS_PER_QUARTER as int,
    )
}

/// A rendered score can be played from a start position: the sampling rate has 32 bits and all
/// that is computed on the way fits its type. Where the start position is not found nothing is computed beyond the table.
pub open spec fn playable(
    events: MidiEvents,
    start: Option<PlayStartTick>,
    sampling_rate: usize,
) -> bool {
    let rate = sampling_rate as int;
    let per_quarter = timing::TICKS_PER_QUARTER as int;
    &&& sampling_rate <= u32::MAX
    &&& timing::changes_fit(score::tempo_changes(events), rate, per_quarter)
    &&& start matches Some(s) ==> score::start_fits(score::chunks_of(events), s)
    &&& score::start_accum_tick(score::chunks_of(events), start) matches Ok(tick) ==> {
        &&& timing::cycle_fits(table_of(events, sampling_rate), rate, per_quarter, tick as int)
        &&& score::messages_fit(events, rate, per_quarter)
    }
}

/// What comes of playing a rendered score: the command for the process callback and the
/// warnings, or the error.
pub open spec fn play_outcome(
    done: Result<(Cmd, Vec<RenderRegionWarning>), PlayError>,
    sampling_rate: usize,
    seq: usize,
    start: Option<PlayStartTick>,
    rendered: Result<(MidiEvents, Seq<RenderRegionWarning>), RenderRegionError>,
) -> bool {
    match rendered {
        Err(error) => done == Err::<(Cmd, Vec<RenderRegionWarning>), PlayError>(
            PlayError::RenderError(error),
        ),
        Ok((events, warnings)) => match score::start_accum_tick(
            score::chunks_of(events),
            start,
        ) {
            Err(error) => done == Err::<(Cmd, Vec<RenderRegionWarning>), PlayError>(
                PlayError::PlayStartTickError(error),
            ),
            Ok(tick) => {
                &&& done matches Ok((
                    Cmd::Play { seq: cmd_seq, play_data, start_cycle },
                    cmd_warnings,
                ))
                &&& cmd_seq == seq
                &&& start_cycle == timing::cycle_of(
                    table_of(events, sampling_rate),
                    sampling_rate as int,
                    timing::TICKS_PER_QUARTER as int,
                    tick as int,
                )
                &&& play_data.plays(
                    events,
                    sampling_rate as int,
                    timing::TICKS_PER_QUARTER as int,
                )
                &&& cmd_warnings@ == warnings
            },
        },
    }
}

/// What comes of playing a score that klavier-core has rendered: as above, and the chunks of the
/// rendered score follow one another without overlap.
pub open spec fn score_outcome(
    done: Result<(Cmd, Vec<RenderRegionWarning>), PlayError>,
    sampling_rate: usize,
    seq: usize,
    start: Option<PlayStartTick>,
    rendered: Result<(MidiEvents, Seq<RenderRegionWarning>), RenderRegionError>,
) -> bool {
    &&& play_outcome(done, sampling_rate, seq, start, rendered)
    &&& rendered matches Ok((events, _)) ==> timing::laid_out(score::chunks_of(events))
}

/// How often a player that is being closed is waited for.
pub const CLOSE_WAITS: u32 = 50;

/// How long each wait for a player that is being closed takes, in milliseconds.
pub const CLOSE_WAIT_MILLIS: u64 = 100;

/// What to do about a player that is being closed.
#[derive(Debug, PartialEq, Eq, Clone, Copy, Structural)]
pub enum CloseStep {
    /// Wait before looking again.
    Wait { millis: u64 },
    /// It is closed, or it has been waited for long enough.
    Done,
}

/// What to do about a player that is being closed, after `waits` waits.
pub fn close_step(waits: u32, finished: bool) -> (step: CloseStep)
    ensures
        step == if finished || waits >= CLOSE_WAITS {
            CloseStep::Done
        } else {
            CloseStep::Wait { millis: CLOSE_WAIT_MILLIS }
        },
{
    if finished || waits >= CLOSE_WAITS {
        CloseStep::Done
    } else {
        CloseStep::Wait { millis: CLOSE_WAIT_MILLIS }
    }
}

/// The player as its owner holds it.
pub struct Player {
    /// Sample frames a second, such as 48000.
    pub sampling_rate: usize,
    /// Where commands go.
    pub cmd_channel: SyncSender<Cmd>,
    /// Where answers come from, until the receiver is taken.
    pub resp_channel: Option<Receiver<Resp>>,
}

impl Player {
    /// Takes a command: changes the state and says whether to go on and what to answer.
    pub fn perform_cmd(received: Result<Cmd, TryRecvError>, pstate: &mut PlayState) -> (done: (
        Control,
        Option<Resp>,
    ))
        ensures
            done.0 == control_after(received),
            done.1 == answer(received, *old(pstate)),
            *final(pstate) == state_after_cmd(received, *old(pstate)),
    {
        match received {
            Ok(cmd) => match cmd {
                Cmd::Play { seq, play_data, start_cycle } => match pstate {
                    PlayState::Init => {
                        *pstate = PlayState::Playing { seq, current_loc: start_cycle, play_data };
                        (Control::Continue, Some(Resp::Success { seq }))
                    },
                    _ => (
                        Control::Continue,
                        Some(Resp::Error { seq: Some(seq), error: CmdError::AlreadyPlaying }),
                    ),
                },
                Cmd::Stop { seq } => match pstate {
                    PlayState::Playing { .. } => {
                        *pstate = PlayState::Stopping;
                        (
                            Control::Continue,
                            Some(Resp::Info { seq: Some(seq), info: CmdInfo::PlayingEnded }),
                        )
                    },
                    _ => (Control::Continue, Some(Resp::Success { seq })),
                },
            },
            Err(error) => match error {
                TryRecvError::Disconnected => (Control::Quit, None),
                TryRecvError::Empty => (Control::Continue, None),
            },
        }
    }

    /// The messages to write in this buffer, in order.
    pub fn midi_out(pstate: &PlayState, buffer_size: u32) -> (writes: Vec<RawMidi>)
        requires
            pstate matches PlayState::Playing { current_loc, .. } ==> current_loc + buffer_size
                <= u64::MAX,
        ensures
            messages::views(writes@) == pstate.writes(buffer_size),
    {
        match pstate {
            PlayState::Init => {
                let writes: Vec<RawMidi> = Vec::new();
                assert(messages::views(writes@) =~= Seq::empty());
                writes
            },
            PlayState::Playing { seq: _, current_loc, play_data } => {
                let end: u64 = *current_loc + buffer_size as u64;
                let entries: &[(u64, Vec<Vec<u8>>)] = play_data.between(*current_loc, end);
                proof {
                    messages::lemma_window_bounds(
                        play_data.timeline(),
                        *current_loc as int,
                        end as int,
                    );
                    assert forall|i: int| 0 <= i < entries@.len() implies *current_loc <= (
                    #[trigger] entries@[i]).0 <= *current_loc + u32::MAX by {
                        assert(entries.deep_view()[i].0 == entries@[i].0);
                    }
                }
                messages::list_writes(entries, *current_loc)
            },
            PlayState::Stopping => messages::list_silence(),
        }
    }

    /// Begins a callback: takes a command and lists what to write in this buffer.
    pub fn process(
        received: Result<Cmd, TryRecvError>,
        pstate: &mut PlayState,
        buffer_size: u32,
        sampling_rate: usize,
    ) -> (step: Step)
        ensures
            *final(pstate) == state_after_cmd(received, *old(pstate)),
            match step {
                Step::Quit => control_after(received) == Control::Quit,
                Step::Write { answer: sent, messages: writes } => {
                    &&& control_after(received) == Control::Continue
                    &&& final(pstate).can_advance(buffer_size, sampling_rate)
                    &&& sent == answer(received, *old(pstate))
                    &&& messages::views(writes@) == final(pstate).writes(buffer_size)
                },
                Step::OutOfRange { answer: sent } => {
                    &&& control_after(received) == Control::Continue
                    &&& !final(pstate).can_advance(buffer_size, sampling_rate)
                    &&& sent == answer(received, *old(pstate))
                },
            },
    {
        let (control, answer): (Control, Option<Resp>) = Self::perform_cmd(received, pstate);
        if control == Control::Quit {
            return Step::Quit;
        }
        if !pstate.is_advanceable(buffer_size, sampling_rate) {
            return Step::OutOfRange { answer };
        }
        let messages: Vec<RawMidi> = Self::midi_out(pstate, buffer_size);
        Step::Write { answer, messages }
    }

    /// Ends a buffer: answers the writes that failed, moves on and reports.
    pub fn perform_state(
        pstate: &mut PlayState,
        write_errors: Vec<String>,
        buffer_size: u32,
        sampling_rate: usize,
    ) -> (resps: Vec<Resp>)
        requires
            old(pstate).can_advance(buffer_size, sampling_rate),
        ensures
            resps@ == write_failures(write_errors@) + old(pstate).reports(
                buffer_size,
                sampling_rate,
            ),
            *final(pstate) == old(pstate).next(buffer_size),
    {
        let mut resps: Vec<Resp> = answer_failures(write_errors);
        match pstate {
            PlayState::Init => {},
            PlayState::Playing { seq, current_loc, play_data } => {
                let new_loc: u64 = *current_loc + buffer_size as u64;
                let ended: bool = match play_data.last_cycle() {
                    None => false,
                    Some(cycle) => cycle < new_loc,
                };
                if ended {
                    resps.push(Resp::Info { seq: Some(*seq), info: CmdInfo::PlayingEnded });
                    *pstate = PlayState::Init;
                } else {
                    let accum_tick: u32 = play_data.cycle_to_tick(
                        *current_loc,
                        sampling_rate as u32,
                    );
                    let tick: u32 = play_data.accum_tick_to_tick(accum_tick);
                    resps.push(
                        Resp::Info {
                            seq: Some(*seq),
                            info: CmdInfo::CurrentLoc { seq: *seq, tick, accum_tick },
                        },
                    );
                    *current_loc = new_loc;
                }
            },
            PlayState::Stopping => {
                *pstate = PlayState::Init;
            },
        }
        resps
    }
}

impl Player {
    /// A player for a client of the audio server, with the ends of its two channels. Gives the
    /// status of the client too.
    pub fn open(
        client: &JackClientProxy,
        cmd_channel: SyncSender<Cmd>,
        resp_channel: Receiver<Resp>,
    ) -> (opened: (Player, ClientStatus))
        ensures
            opened.0 == (Player {
                sampling_rate: client.sampling_rate,
                cmd_channel,
                resp_channel: Some(resp_channel),
            }),
            opened.1 == client.status,
    {
        (
            Player {
                sampling_rate: client.sampling_rate(),
                cmd_channel,
                resp_channel: Some(resp_channel),
            },
            client.status,
        )
    }

    /// Makes the command that plays a score, from `play_start_loc` or from the beginning. Left
    /// out are scores on which the rendering of klavier-core panics, as it does where ticks leave
    /// 32 bits. `score::is_plain` tells of most scores that it does not; of the others nothing
    /// does short of rendering them.
    #[allow(clippy::too_many_arguments)]
    pub fn play(
        &self,
        seq: usize,
        play_start_loc: Option<PlayStartTick>,
        top_rhythm: Rhythm,
        top_key: Key,
        note_repo: &BagStore<u32, Rc<Note>, ModelChangeMetadata>,
        bar_repo: &Store<u32, Bar, ModelChangeMetadata>,
        tempo_repo: &Store<u32, Tempo, ModelChangeMetadata>,
        dumper_repo: &Store<u32, CtrlChg, ModelChangeMetadata>,
        soft_repo: &Store<u32, CtrlChg, ModelChangeMetadata>,
    ) -> (done: Result<(Cmd, Vec<RenderRegionWarning>), PlayError>)
        requires
            score::renders(
                top_rhythm,
                top_key,
                *note_repo,
                *bar_repo,
                *tempo_repo,
                *dumper_repo,
                *soft_repo,
            ),
            score::rendering(
                top_rhythm,
                top_key,
                *note_repo,
                *bar_repo,
                *tempo_repo,
                *dumper_repo,
                *soft_repo,
            ) matches Some(Ok((events, _))) ==> playable(
                events,
                play_start_loc,
                self.sampling_rate,
            ),
        ensures
            score_outcome(
                done,
                self.sampling_rate,
                seq,
                play_start_loc,
                score::rendering(
                    top_rhythm,
                    top_key,
                    *note_repo,
                    *bar_repo,
                    *tempo_repo,
                    *dumper_repo,
                    *soft_repo,
                )->0,
            ),
    {
        let rendered: Result<(MidiEvents, Vec<RenderRegionWarning>), RenderRegionError> =
            score::render(
            top_rhythm,
            top_key,
            note_repo,
            bar_repo,
            tempo_repo,
            dumper_repo,
            soft_repo,
        );
        self.play_rendered(seq, play_start_loc, rendered)
    }

    /// Makes the command that plays a rendered score.
    pub fn play_rendered(
        &self,
        seq: usize,
        play_start_loc: Option<PlayStartTick>,
        rendered: Result<(MidiEvents, Vec<RenderRegionWarning>), RenderRegionError>,
    ) -> (done: Result<(Cmd, Vec<RenderRegionWarning>), PlayError>)
        requires
            rendered matches Ok((events, _)) ==> playable(
                events,
                play_start_loc,
                self.sampling_rate,
            ),
        ensures
            play_outcome(
                done,
                self.sampling_rate,
                seq,
                play_start_loc,
                score::rendering_view(rendered),
            ),
    {
        let (events, warnings): (MidiEvents, Vec<RenderRegionWarning>) = match rendered {
            Err(error) => return Err(PlayError::RenderError(error)),
            Ok(done) => done,
        };
        let rate: u32 = self.sampling_rate as u32;
        let per_quarter: u32 = score::tick_resolution();
        let table: Store<u32, (TempoValue, u64), ()> = events.cycles_by_accum_tick(
            rate,
            per_quarter,
        );
        let start_accum_tick: u32 = match play_start_loc {
            None => 0,
            Some(start) => match score::to_accum_tick(start, &events) {
                Ok(tick) => tick,
                Err(error) => return Err(PlayError::PlayStartTickError(error)),
            },
        };
        let start_cycle: u64 = MidiEvents::accum_tick_to_cycle(
            &table,
            start_accum_tick,
            rate,
            per_quarter,
        );
        let play_data: PreparedScore = PreparedScore::new(events, table, rate, per_quarter);
        Ok((Cmd::Play { seq, play_data, start_cycle }, warnings))
    }

    /// Tells whether a rendered score can be played from a start position.
    pub fn is_playable(&self, events: &MidiEvents, start: Option<PlayStartTick>) -> (ok: bool)
        ensures
            ok == playable(*events, start, self.sampling_rate),
    {
        if self.sampling_rate > u32::MAX as usize {
            return false;
        }
        let rate: u32 = self.sampling_rate as u32;
        let per_quarter: u32 = score::tick_resolution();
        let changes: Vec<(u32, u16)> = score::read_tempo_changes(events);
        let table: Vec<(u32, u16, u64)> = match timing::checked_table(
            &changes,
            rate,
            per_quarter,
        ) {
            None => return false,
            Some(table) => table,
        };
        let tick: u32 = match start {
            None => 0,
            Some(s) => {
                let chunks: Vec<(u32, u32, u32)> = score::read_chunks(events);
                match timing::find_pass(&chunks, s.tick, timing::clamp_pass(s.iter)) {
                    None => return true,
                    Some(chunk) => match chunk.0.checked_add(s.tick) {
                        None => return false,
                        Some(sum) => {
                            proof {
                                timing::lemma_pass_contains(
                                    chunks@,
                                    s.tick as int,
                                    timing::pass_meant(s.iter) as int,
                                );
                            }
                            sum - chunk.1
                        },
                    },
                }
            },
        };
        if timing::checked_cycle_of(&table, rate, per_quarter, tick).is_none() {
            return false;
        }
        score::are_messages_fit(events, &changes, &table, rate, per_quarter)
    }

    /// As `play`, for rendered scores of any extent: `None` where what is computed from the
    /// rendered score does not fit its type.
    #[allow(clippy::too_many_arguments)]
    pub fn try_play(
        &self,
        seq: usize,
        play_start_loc: Option<PlayStartTick>,
        top_rhythm: Rhythm,
        top_key: Key,
        note_repo: &BagStore<u32, Rc<Note>, ModelChangeMetadata>,
        bar_repo: &Store<u32, Bar, ModelChangeMetadata>,
        tempo_repo: &Store<u32, Tempo, ModelChangeMetadata>,
        dumper_repo: &Store<u32, CtrlChg, ModelChangeMetadata>,
        soft_repo: &Store<u32, CtrlChg, ModelChangeMetadata>,
    ) -> (done: Option<Result<(Cmd, Vec<RenderRegionWarning>), PlayError>>)
        requires
            score::renders(
                top_rhythm,
                top_key,
                *note_repo,
                *bar_repo,
                *tempo_repo,
                *dumper_repo,
                *soft_repo,
            ),
        ensures
            done is None <==> (score::rendering(
                top_rhythm,
                top_key,
                *note_repo,
                *bar_repo,
                *tempo_repo,
                *dumper_repo,
                *soft_repo,
            ) matches Some(Ok((events, _))) && !playable(
                events,
                play_start_loc,
                self.sampling_rate,
            )),
            done matches Some(result) ==> score_outcome(
                result,
                self.sampling_rate,
                seq,
                play_start_loc,
                score::rendering(
                    top_rhythm,
                    top_key,
                    *note_repo,
                    *bar_repo,
                    *tempo_repo,
                    *dumper_repo,
                    *soft_repo,
                )->0,
            ),
    {
        let rendered: Result<(MidiEvents, Vec<RenderRegionWarning>), RenderRegionError> =
            score::render(
            top_rhythm,
            top_key,
            note_repo,
            bar_repo,
            tempo_repo,
            dumper_repo,
            soft_repo,
        );
        let ok: bool = match &rendered {
            Err(_) => true,
            Ok((events, _)) => self.is_playable(events, play_start_loc),
        };
        if ok {
            Some(self.play_rendered(seq, play_start_loc, rendered))
        } else {
            None
        }
    }

    /// The command that stops playing.
    pub fn stop(&self, seq: usize) -> (cmd: Cmd)
        ensures
            cmd == (Cmd::Stop { seq }),
    {
        Cmd::Stop { seq }
    }

    /// What comes of a command once it was handed to the channel.
    pub fn sent(seq: usize, delivered: bool) -> (done: Result<(), PlayError>)
        ensures
            done == if delivered {
                Ok(())
            } else {
                Err(PlayError::SendError { seq })
            },
    {
        if delivered {
            Ok(())
        } else {
            Err(PlayError::SendError { seq })
        }
    }

    /// The receiver to get answers from. Once it was taken there is none.
    pub fn get_resp(&self) -> (receiver: &Receiver<Resp>)
        requires
            self.resp_channel is Some,
        ensures
            *receiver == self.resp_channel->0,
    {
        self.resp_channel.as_ref().unwrap()
    }

    /// Takes the receiver of answers. Whoever takes it has to receive the answers from there on.
    /// `None` where it was taken before.
    pub fn take_resp(&mut self) -> (receiver: Option<Receiver<Resp>>)
        ensures
            receiver == old(self).resp_channel,
            final(self).resp_channel is None,
            final(self).sampling_rate == old(self).sampling_rate,
            final(self).cmd_channel == old(self).cmd_channel,
    {
        self.resp_channel.take()
    }
}

fn answer_failures(write_errors: Vec<String>) -> (resps: Vec<Resp>)
    ensures
        resps@ == write_failures(write_errors@),
{
    let mut resps: Vec<Resp> = Vec::new();
    for error in errors: write_errors
        invariant
            errors.seq() == write_errors@,
            resps@ == write_failures(write_errors@.take(errors.index())),
    {
        resps.push(Resp::Error { seq: None, error: CmdError::MidiWriteError(error) });
        assert(resps@ =~= write_failures(write_errors@.take(errors.index() + 1)));
    }
    assert(write_errors@.take(write_errors@.len() as int) =~= write_errors@);
    resps
}

} // verus!
