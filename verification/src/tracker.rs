//! The tracker: one step above the player, it keeps track of what is being played.
//!
//! Requests go to the player's command channel; each of them is made in two steps, one before
//! and one after the command is handed to the channel. A listener takes the answers of the
//! process callback and brings the status up to date.
use std::rc::Rc;
use std::sync::mpsc::Receiver;

use klavier_core::bar::Bar;
use klavier_core::ctrl_chg::CtrlChg;
use klavier_core::global_repeat::RenderRegionWarning;
use klavier_core::key::Key;
use klavier_core::midi_events::MidiEvents;
use klavier_core::note::Note;
use klavier_core::project::ModelChangeMetadata;
use klavier_core::repeat::RenderRegionError;
use klavier_core::rhythm::Rhythm;
use klavier_core::tempo::Tempo;
use klavier_helper::bag_store::BagStore;
use klavier_helper::store::Store;
use vstd::prelude::*;

use crate::client::ClientStatus;
use crate::player;
use crate::player::Cmd;
use crate::player::CmdInfo;
use crate::player::PlayError;
use crate::player::Player;
use crate::player::Resp;
use crate::score;
use crate::score::PlayStartTick;

verus! {

/// What is being played.
#[derive(Debug, PartialEq, Eq, Clone, Copy, Structural)]
pub enum Status {
    Stopped,
    StartingPlay { seq: usize },
    StoppingPlay { seq: usize },
    Playing { seq: usize, tick: u32, accum_tick: u32 },
    Disconnected,
}

/// Why a request was refused.
#[derive(Debug, PartialEq)]
pub enum TrackerError {
    PlayerNotOpened,
    PlayerStopping { seq: usize },
    PlayerErr(PlayError),
    NotPlaying(Status),
}

/// A player and what it is playing. `seq` is the number of the next command.
pub struct Tracker {
    pub seq: usize,
    pub player: Option<Player>,
    pub status: Status,
}

/// The status after an answer. `None` stands for the end of the channel.
pub open spec fn status_after(status: Status, received: Option<Resp>) -> Status {
    match received {
        Some(Resp::Info { info: CmdInfo::PlayingEnded, .. }) => Status::Stopped,
        Some(Resp::Info { info: CmdInfo::CurrentLoc { seq, tick, accum_tick }, .. }) =>
            Status::Playing { seq, tick, accum_tick },
        Some(_) => status,
        None => Status::Disconnected,
    }
}

impl Tracker {
    /// A request to play is handed to the player.
    pub open spec fn admits_play(self) -> bool {
        self.player is Some && !(self.status is StoppingPlay)
    }

    /// The tracker after the command to play was handed to the channel, or could not be.
    pub open spec fn after_play_sent(self, seq: usize, delivered: bool) -> Tracker {
        if delivered {
            Tracker {
                seq: (self.seq + 1) as usize,
                player: self.player,
                status: Status::StartingPlay { seq },
            }
        } else {
            self
        }
    }

    /// The tracker after the command to stop was handed to the channel, or could not be.
    pub open spec fn after_stop_sent(self, seq: usize, delivered: bool) -> Tracker {
        if delivered {
            Tracker { seq: self.seq, player: self.player, status: Status::StoppingPlay { seq } }
        } else {
            self
        }
    }

    /// What comes of a request to play: the command and the warnings, or the reason why not.
    pub open spec fn play_outcome(
        self,
        done: Result<(Cmd, Vec<RenderRegionWarning>), TrackerError>,
        start: Option<PlayStartTick>,
        rendered: Result<(MidiEvents, Seq<RenderRegionWarning>), RenderRegionError>,
    ) -> bool {
        match (self.player, self.status) {
            (None, _) => done == Err::<(Cmd, Vec<RenderRegionWarning>), TrackerError>(
                TrackerError::PlayerNotOpened,
            ),
            (Some(_), Status::StoppingPlay { seq }) => done == Err::<
                (Cmd, Vec<RenderRegionWarning>),
                TrackerError,
            >(TrackerError::PlayerStopping { seq }),
            (Some(player), _) => match done {
                Ok(made) => player::score_outcome(
                    Ok(made),
                    player.sampling_rate,
                    self.seq,
                    start,
                    rendered,
                ),
                Err(TrackerError::PlayerErr(error)) => player::score_outcome(
                    Err(error),
                    player.sampling_rate,
                    self.seq,
                    start,
                    rendered,
                ),
                Err(_) => false,
            },
        }
    }
}

impl Tracker {
    /// A tracker of a player that was just opened. It takes the receiver of answers, which is
    /// for the listener.
    pub fn run(player: Player, client_status: ClientStatus) -> (running: (
        Tracker,
        Receiver<Resp>,
        ClientStatus,
    ))
        requires
            player.resp_channel is Some,
        ensures
            running.0.seq == 0,
            running.0.player == Some((Player { resp_channel: None, ..player })),
            running.0.status == Status::Stopped,
            running.1 == player.resp_channel->0,
            running.2 == client_status,
    {
        let mut player = player;
        let receiver: Receiver<Resp> = player.take_resp().unwrap();
        (Tracker { seq: 0, player: Some(player), status: Status::Stopped }, receiver, client_status)
    }

    /// Takes an answer, or the end of the channel. Gives the new status and whether to listen on.
    pub fn on_resp(status: Status, received: Option<Resp>) -> (next: (Status, bool))
        ensures
            next.0 == status_after(status, received),
            next.1 == (received is Some),
    {
        match received {
            Some(resp) => match resp {
                Resp::Info { seq: _, info } => match info {
                    CmdInfo::PlayingEnded => (Status::Stopped, true),
                    CmdInfo::CurrentLoc { seq, tick, accum_tick } => (
                        Status::Playing { seq, tick, accum_tick },
                        true,
                    ),
                },
                Resp::Error { .. } => (status, true),
                Resp::Success { .. } => (status, true),
            },
            None => (Status::Disconnected, false),
        }
    }

    /// Asks to play: the command, unless there is no player or it is stopping. Left out are
    /// scores that `Player::play` leaves out.
    #[allow(clippy::too_many_arguments)]
    pub fn play(
        &self,
        play_start_tick: Option<PlayStartTick>,
        top_rhythm: Rhythm,
        top_key: Key,
        note_repo: &BagStore<u32, Rc<Note>, ModelChangeMetadata>,
        bar_repo: &Store<u32, Bar, ModelChangeMetadata>,
        tempo_repo: &Store<u32, Tempo, ModelChangeMetadata>,
        dumper_repo: &Store<u32, CtrlChg, ModelChangeMetadata>,
        soft_repo: &Store<u32, CtrlChg, ModelChangeMetadata>,
    ) -> (done: Result<(Cmd, Vec<RenderRegionWarning>), TrackerError>)
        requires
            self.admits_play() ==> score::renders(
                top_rhythm,
                top_key,
                *note_repo,
                *bar_repo,
                *tempo_repo,
                *dumper_repo,
                *soft_repo,
            ),
            self.admits_play() ==> (score::rendering(
                top_rhythm,
                top_key,
                *note_repo,
                *bar_repo,
                *tempo_repo,
                *dumper_repo,
                *soft_repo,
            ) matches Some(Ok((events, _))) ==> player::playable(
                events,
                play_start_tick,
                self.player->0.sampling_rate,
            )),
        ensures
            self.play_outcome(
                done,
                play_start_tick,
                score::rendering(
                    top_rhythm,
                    top_key,
                    *note_repo,
                    *bar_repo,
                    *tempo_repo,
                    *dumper_repo,
                    *soft_repo,
                )->0,
            ),
    {
        match &self.player {
            Some(player) => {
                if let Status::StoppingPlay { seq } = self.status {
                    return Err(TrackerError::PlayerStopping { seq });
                }
                match player.play(
                    self.seq,
                    play_start_tick,
                    top_rhythm,
                    top_key,
                    note_repo,
                    bar_repo,
                    tempo_repo,
                    dumper_repo,
                    soft_repo,
                ) {
                    Ok(made) => Ok(made),
                    Err(error) => Err(TrackerError::PlayerErr(error)),
                }
            },
            None => Err(TrackerError::PlayerNotOpened),
        }
    }

    /// As `play`, for rendered scores of any extent: `None` where what is computed from the
    /// rendered score does not fit its type.
    #[allow(clippy::too_many_arguments)]
    pub fn try_play(
        &self,
        play_start_tick: Option<PlayStartTick>,
        top_rhythm: Rhythm,
        top_key: Key,
        note_repo: &BagStore<u32, Rc<Note>, ModelChangeMetadata>,
        bar_repo: &Store<u32, Bar, ModelChangeMetadata>,
        tempo_repo: &Store<u32, Tempo, ModelChangeMetadata>,
        dumper_repo: &Store<u32, CtrlChg, ModelChangeMetadata>,
        soft_repo: &Store<u32, CtrlChg, ModelChangeMetadata>,
    ) -> (done: Option<Result<(Cmd, Vec<RenderRegionWarning>), TrackerError>>)
        requires
            self.admits_play() ==> score::renders(
                top_rhythm,
                top_key,
                *note_repo,
                *bar_repo,
                *tempo_repo,
                *dumper_repo,
                *soft_repo,
            ),
        ensures
            done is None <==> self.admits_play() && (score::rendering(
                top_rhythm,
                top_key,
                *note_repo,
                *bar_repo,
                *tempo_repo,
                *dumper_repo,
                *soft_repo,
            ) matches Some(Ok((events, _))) && !player::playable(
                events,
                play_start_tick,
                self.player->0.sampling_rate,
            )),
            done matches Some(result) ==> self.play_outcome(
                result,
                play_start_tick,
                score::rendering(
                    top_rhythm,
                    top_key,
                    *note_repo,
                    *bar_repo,
                    *tempo_repo,
                    *dumper_repo,
                    *soft_repo,
                )->0,
            ),
    {
        match &self.player {
            Some(player) => {
                if let Status::StoppingPlay { seq } = self.status {
                    return Some(Err(TrackerError::PlayerStopping { seq }));
                }
                match player.try_play(
                    self.seq,
                    play_start_tick,
                    top_rhythm,
                    top_key,
                    note_repo,
                    bar_repo,
                    tempo_repo,
                    dumper_repo,
                    soft_repo,
                ) {
                    None => None,
                    Some(Ok(made)) => Some(Ok(made)),
                    Some(Err(error)) => Some(Err(TrackerError::PlayerErr(error))),
                }
            },
            None => Some(Err(TrackerError::PlayerNotOpened)),
        }
    }

    /// Asks to stop: the command, if something is being played.
    pub fn stop(&self) -> (done: Result<Cmd, TrackerError>)
        ensures
            done == if self.player is None {
                Err(TrackerError::PlayerNotOpened)
            } else if self.status is Playing {
                Ok((Cmd::Stop { seq: self.seq }))
            } else {
                Err(TrackerError::NotPlaying(self.status))
            },
    {
        match &self.player {
            Some(player) => match self.status {
                Status::Playing { .. } => Ok(player.stop(self.seq)),
                _ => Err(TrackerError::NotPlaying(self.status)),
            },
            None => Err(TrackerError::PlayerNotOpened),
        }
    }

    /// Notes that the command to stop was handed to the channel, or that it could not be.
    pub fn stop_sent(&mut self, seq: usize, delivered: bool) -> (done: Result<(), TrackerError>)
        ensures
            done == if delivered {
                Ok(())
            } else {
                Err(TrackerError::PlayerErr(PlayError::SendError { seq: old(self).seq }))
            },
            *final(self) == old(self).after_stop_sent(seq, delivered),
    {
        match Player::sent(self.seq, delivered) {
            Ok(()) => {
                self.status = Status::StoppingPlay { seq };
                Ok(())
            },
            Err(error) => Err(TrackerError::PlayerErr(error)),
        }
    }

    /// Notes that the command to play was handed to the channel, or that it could not be.
    pub fn play_sent(&mut self, seq: usize, delivered: bool) -> (done: Result<(), TrackerError>)
        requires
            delivered ==> old(self).seq < usize::MAX,
        ensures
            done == if delivered {
                Ok(())
            } else {
                Err(TrackerError::PlayerErr(PlayError::SendError { seq: old(self).seq }))
            },
            *final(self) == old(self).after_play_sent(seq, delivered),
    {
        match Player::sent(self.seq, delivered) {
            Ok(()) => {
                self.status = Status::StartingPlay { seq };
                self.seq = self.seq + 1;
                Ok(())
            },
            Err(error) => Err(TrackerError::PlayerErr(error)),
        }
    }

    /// What is being played.
    pub fn status(&self) -> (status: Status)
        ensures
            status == self.status,
    {
        self.status
    }
}

} // verus!
