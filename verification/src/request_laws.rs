//! What comes of requests to play and to stop, and what the tracker makes of the answers.
//!
//! As in `call_laws`, each law takes calls as given and says what holds of them.
use std::rc::Rc;
use std::sync::mpsc::Receiver;

use klavier_core::bar::Bar;
use klavier_core::ctrl_chg::CtrlChg;
use klavier_core::global_repeat::RenderRegionWarning;
use klavier_core::key::Key;
use klavier_core::midi_events::MidiEvents;
use klavier_core::note::Note;
use klavier_core::project::ModelChangeMetadata;
use klavier_core::repeat::RenderRegionError;
use klavier_core::rhythm::Rhythm;
use klavier_core::tempo::Tempo;
use klavier_helper::bag_store::BagStore;
use klavier_helper::store::Store;
use vstd::prelude::*;

use crate::client::ClientStatus;
use crate::client::JackClientProxy;
use crate::client::TestJackClientProxy;
use crate::laws;
use crate::laws::TrackerEvent;
use crate::messages;
use crate::player;
use crate::player::Cmd;
use crate::player::CmdError;
use crate::player::CmdInfo;
use crate::player::Control;
use crate::player::PlayError;
use crate::player::PlayState;
use crate::player::Player;
use crate::player::Resp;
use crate::score;
use crate::score::PlayStartTick;
use crate::score::ToAccumTickError;
use crate::timing;
use crate::timing_laws;
use crate::tracker::Status;
use crate::tracker::Tracker;
use crate::tracker::TrackerError;

verus! {

/// The pass that a start position asks for, from the first to the fifth.
pub open spec fn asked_pass(iter: u8) -> int {
    if iter < 1 {
        1
    } else if iter > 5 {
        5
    } else {
        iter as int
    }
}

/// The tick is played as often as the start position asks for.
pub open spec fn is_found(events: MidiEvents, start: Option<PlayStartTick>) -> bool {
    start matches Some(s) ==> timing::passes(score::chunks_of(events), s.tick as int)
        >= asked_pass(s.iter)
}

/// The accumulated tick of a start position that is found: as far into the chunk of the pass as the
/// tick lies from the chunk's first.
pub open spec fn asked_tick(events: MidiEvents, start: Option<PlayStartTick>) -> int {
    match start {
        None => 0,
        Some(s) => {
            let chunk = timing::nth_pass(
                score::chunks_of(events),
                s.tick as int,
                asked_pass(s.iter),
            )->0;
            chunk.0 + (s.tick - chunk.1)
        },
    }
}

/// The cycle on which an accumulated tick of a rendered score falls.
pub open spec fn cycle_on(events: MidiEvents, rate: int, tick: int) -> int {
    timing::cycle_of(
        timing::timed_changes(score::tempo_changes(events), rate, 240),
        rate,
        240,
        tick,
    )
}

/// A command plays a rendered score, whole, from a start position, under a number.
pub open spec fn plays_from(
    cmd: Cmd,
    rate: int,
    seq: usize,
    start: Option<PlayStartTick>,
    events: MidiEvents,
) -> bool {
    &&& cmd is Play
    &&& laws::number_of(cmd) == seq
    &&& cmd->start_cycle == cycle_on(events, rate, asked_tick(events, start))
    &&& start is None ==> cmd->start_cycle == 0
    &&& messages::ascending_cycles(cmd->play_data.timeline())
    &&& forall|i: int|
        0 <= i < cmd->play_data.timeline().len() ==> (
        #[trigger] cmd->play_data.timeline()[i]).1.len() > 0
    &&& forall|cycle: int| #[trigger]
        messages::messages_at(cmd->play_data.timeline(), cycle) == messages::messages_at(
            score::timed_messages(
                score::event_messages(events),
                timing::timed_changes(score::tempo_changes(events), rate, 240),
                rate,
                240,
            ),
            cycle,
        )
    &&& cmd->play_data.points() == timing_laws::points_of(score::tempo_changes(events), rate)
    &&& cmd->play_data.chunks() == score::chunks_of(events)
}

/// What a request to play a score comes to: the error of the rendering; or, where the start
/// position is not found, how often the tick is played; or else the command and the warnings.
pub open spec fn is_right(
    done: Result<(Cmd, Vec<RenderRegionWarning>), PlayError>,
    rate: int,
    seq: usize,
    start: Option<PlayStartTick>,
    rendered: Result<(MidiEvents, Seq<RenderRegionWarning>), RenderRegionError>,
) -> bool {
    match rendered {
        Err(error) => done matches Err(PlayError::RenderError(e)) && e == error,
        Ok((events, warnings)) => {
            &&& is_found(events, start) <==> done is Ok
            &&& !is_found(events, start) ==> (done matches Err(
                PlayError::PlayStartTickError(ToAccumTickError::CannotFind {
                    specified_iter,
                    max_iter,
                }),
            ) && specified_iter == asked_pass(start->0.iter) && max_iter == timing::passes(
                score::chunks_of(events),
                start->0.tick as int,
            ))
            &&& done matches Ok((cmd, listed)) ==> plays_from(cmd, rate, seq, start, events)
                && listed@ == warnings
        },
    }
}

proof fn lemma_outcome(
    done: Result<(Cmd, Vec<RenderRegionWarning>), PlayError>,
    sampling_rate: usize,
    seq: usize,
    start: Option<PlayStartTick>,
    rendered: Result<(MidiEvents, Seq<RenderRegionWarning>), RenderRegionError>,
)
    requires
        player::play_outcome(done, sampling_rate, seq, start, rendered),
        rendered matches Ok((events, _)) ==> player::playable(events, start, sampling_rate),
    ensures
        is_right(done, sampling_rate as int, seq, start, rendered),
{
    if let Ok((events, warnings)) = rendered {
        let chunks = score::chunks_of(events);
        if let Some(s) = start {
            let pass = asked_pass(s.iter);
            timing_laws::law_pass_is_found_if_played(chunks, s.tick as int, pass);
            timing::lemma_pass_contains(chunks, s.tick as int, pass);
        } else if let Ok((cmd, listed)) = done {
            timing_laws::law_beginning_is_cycle_zero(
                score::tempo_changes(events),
                sampling_rate as int,
                240,
            );
        }
    }
}

/// What klavier-core makes of a score.
pub open spec fn rendered_of(
    top_rhythm: Rhythm,
    top_key: Key,
    note_repo: &BagStore<u32, Rc<Note>, ModelChangeMetadata>,
    bar_repo: &Store<u32, Bar, ModelChangeMetadata>,
    tempo_repo: &Store<u32, Tempo, ModelChangeMetadata>,
    dumper_repo: &Store<u32, CtrlChg, ModelChangeMetadata>,
    soft_repo: &Store<u32, CtrlChg, ModelChangeMetadata>,
) -> Result<(MidiEvents, Seq<RenderRegionWarning>), RenderRegionError> {
    score::rendering(
        top_rhythm,
        top_key,
        *note_repo,
        *bar_repo,
        *tempo_repo,
        *dumper_repo,
        *soft_repo,
    )->0
}

/// A rendered score that is not too long for its sampling rate: up to `bound` ticks can be timed in
/// 64 bits, and no tick lies beyond; no tempo is zero.
pub open spec fn ordinary(
    events: MidiEvents,
    start: Option<PlayStartTick>,
    sampling_rate: usize,
    bound: u32,
) -> bool {
    let changes = score::tempo_changes(events);
    let entries = score::event_messages(events);
    let chunks = score::chunks_of(events);
    &&& sampling_rate <= u32::MAX
    &&& bound * sampling_rate * 60 <= u64::MAX
    &&& timing::ascending_changes(changes)
    &&& forall|k: int|
        0 <= k < changes.len() ==> (#[trigger] changes[k]).1 > 0 && changes[k].0 <= bound
    &&& forall|k: int| 0 <= k < entries.len() ==> (#[trigger] entries[k]).0 <= bound
    &&& start matches Some(s) ==> forall|k: int|
        0 <= k < chunks.len() && (#[trigger] chunks[k]).1 <= s.tick < chunks[k].2 ==> chunks[k].0
            + s.tick <= u32::MAX && chunks[k].0 + (s.tick - chunks[k].1) <= bound
}

proof fn lemma_ordinary(
    events: MidiEvents,
    start: Option<PlayStartTick>,
    sampling_rate: usize,
    bound: u32,
)
    requires
        ordinary(events, start, sampling_rate, bound),
    ensures
        player::playable(events, start, sampling_rate),
{
    let rate = sampling_rate as int;
    let changes = score::tempo_changes(events);
    let entries = score::event_messages(events);
    let chunks = score::chunks_of(events);
    timing_laws::law_ticks_within_bound_fit(changes, rate, 240, bound, 0);
    let table = timing::timed_changes(changes, rate, 240);
    assert forall|i: int| 0 <= i < entries.len() implies timing::cycle_fits(
        table,
        rate,
        240,
        (#[trigger] entries[i]).0 as int,
    ) by {
        timing_laws::law_ticks_within_bound_fit(changes, rate, 240, bound, entries[i].0);
    }
    assert forall|i: int| 0 <= i < changes.len() implies timing::cycle_fits(
        table,
        rate,
        240,
        (#[trigger] changes[i]).0 as int,
    ) by {
        timing_laws::law_ticks_within_bound_fit(changes, rate, 240, bound, changes[i].0);
    }
    if let Some(s) = start {
        let pass = timing::pass_meant(s.iter) as int;
        if timing::nth_pass(chunks, s.tick as int, pass) is Some {
            let n = timing_laws::lemma_pass_index(chunks, s.tick as int, pass);
            assert(chunks[n].1 <= s.tick < chunks[n].2);
            let tick = (chunks[n].0 + s.tick - chunks[n].1) as u32;
            timing_laws::law_ticks_within_bound_fit(changes, rate, 240, bound, tick);
        }
    }
}

/// A score of ordinary length can be played, from any start position that lies within it.
pub proof fn law_ordinary_scores_can_be_played(
    player: Player,
    events: MidiEvents,
    start: Option<PlayStartTick>,
    bound: u32,
    ok: bool,
)
    requires
        call_ensures(Player::is_playable, (&player, &events, start), ok),
        ordinary(events, start, player.sampling_rate, bound),
    ensures
        ok,
        player::playable(events, start, player.sampling_rate),
{
    lemma_ordinary(events, start, player.sampling_rate, bound);
}

/// A score whose ticks are up to a quarter of what 32 bits hold, whose notes have at most seven dots
/// and whose bar lines bring neither jumps nor variations is plain, and a plain score can be handed
/// to a player and to a tracker.
pub proof fn law_plain_scores_can_be_handed_over(
    player: Player,
    tracker: Tracker,
    seq: usize,
    start: Option<PlayStartTick>,
    top_rhythm: Rhythm,
    top_key: Key,
    note_repo: &BagStore<u32, Rc<Note>, ModelChangeMetadata>,
    bar_repo: &Store<u32, Bar, ModelChangeMetadata>,
    tempo_repo: &Store<u32, Tempo, ModelChangeMetadata>,
    dumper_repo: &Store<u32, CtrlChg, ModelChangeMetadata>,
    soft_repo: &Store<u32, CtrlChg, ModelChangeMetadata>,
    ok: bool,
)
    requires
        call_ensures(
            score::is_plain,
            (note_repo, bar_repo, tempo_repo, dumper_repo, soft_repo),
            ok,
        ),
        forall|i: int|
            0 <= i < score::note_marks(*note_repo).len() ==> (#[trigger] score::note_marks(
                *note_repo,
            )[i]).0 <= 0x4000_0000 && score::note_marks(*note_repo)[i].1 <= 7,
        forall|i: int|
            0 <= i < score::bar_marks(*bar_repo).len() ==> {
                let bar = #[trigger] score::bar_marks(*bar_repo)[i];
                bar.0 == bar.1 && bar.1 <= 0x4000_0000 && !bar.2 && !bar.3 && !bar.4
            },
        forall|i: int|
            0 <= i < score::tempo_ticks(*tempo_repo).len() ==> (#[trigger] score::tempo_ticks(
                *tempo_repo,
            )[i]) <= 0x4000_0000,
        forall|i: int|
            0 <= i < score::pedal_ticks(*dumper_repo).len() ==> (#[trigger] score::pedal_ticks(
                *dumper_repo,
            )[i]) <= 0x4000_0000,
        forall|i: int|
            0 <= i < score::pedal_ticks(*soft_repo).len() ==> (#[trigger] score::pedal_ticks(
                *soft_repo,
            )[i]) <= 0x4000_0000,
    ensures
        ok,
        call_requires(
            Player::try_play,
            (
                &player,
                seq,
                start,
                top_rhythm,
                top_key,
                note_repo,
                bar_repo,
                tempo_repo,
                dumper_repo,
                soft_repo,
            ),
        ),
        call_requires(
            Tracker::try_play,
            (
                &tracker,
                start,
                top_rhythm,
                top_key,
                note_repo,
                bar_repo,
                tempo_repo,
                dumper_repo,
                soft_repo,
            ),
        ),
{
}

/// A rendered score is played from the start position, or it is said why not.
pub proof fn law_rendered_score_is_played_or_refused(
    player: Player,
    seq: usize,
    start: Option<PlayStartTick>,
    rendered: Result<(MidiEvents, Vec<RenderRegionWarning>), RenderRegionError>,
    done: Result<(Cmd, Vec<RenderRegionWarning>), PlayError>,
)
    requires
        call_ensures(Player::play_rendered, (&player, seq, start, rendered), done),
        rendered matches Ok((events, _)) ==> player::playable(events, start, player.sampling_rate),
    ensures
        is_right(
            done,
            player.sampling_rate as int,
            seq,
            start,
            match rendered {
                Ok((events, warnings)) => Ok((events, warnings@)),
                Err(error) => Err(error),
            },
        ),
{
    lemma_outcome(done, player.sampling_rate, seq, start, score::rendering_view(rendered));
}

/// A score is played as klavier-core renders it, from the start position, or it is said why not.
pub proof fn law_score_is_played_or_refused(
    player: Player,
    seq: usize,
    start: Option<PlayStartTick>,
    top_rhythm: Rhythm,
    top_key: Key,
    note_repo: &BagStore<u32, Rc<Note>, ModelChangeMetadata>,
    bar_repo: &Store<u32, Bar, ModelChangeMetadata>,
    tempo_repo: &Store<u32, Tempo, ModelChangeMetadata>,
    dumper_repo: &Store<u32, CtrlChg, ModelChangeMetadata>,
    soft_repo: &Store<u32, CtrlChg, ModelChangeMetadata>,
    done: Result<(Cmd, Vec<RenderRegionWarning>), PlayError>,
)
    requires
        call_ensures(
            Player::play,
            (
                &player,
                seq,
                start,
                top_rhythm,
                top_key,
                note_repo,
                bar_repo,
                tempo_repo,
                dumper_repo,
                soft_repo,
            ),
            done,
        ),
        rendered_of(
            top_rhythm,
            top_key,
            note_repo,
            bar_repo,
            tempo_repo,
            dumper_repo,
            soft_repo,
        ) matches Ok((events, _)) ==> player::playable(events, start, player.sampling_rate),
    ensures
        is_right(
            done,
            player.sampling_rate as int,
            seq,
            start,
            rendered_of(
                top_rhythm,
                top_key,
                note_repo,
                bar_repo,
                tempo_repo,
                dumper_repo,
                soft_repo,
            ),
        ),
{
    lemma_outcome(
        done,
        player.sampling_rate,
        seq,
        start,
        rendered_of(
            top_rhythm,
            top_key,
            note_repo,
            bar_repo,
            tempo_repo,
            dumper_repo,
            soft_repo,
        ),
    );
}

/// The same holds where the extent of the score is tested first; and a score of ordinary length
/// passes the test.
pub proof fn law_tested_score_is_played_or_refused(
    player: Player,
    seq: usize,
    start: Option<PlayStartTick>,
    top_rhythm: Rhythm,
    top_key: Key,
    note_repo: &BagStore<u32, Rc<Note>, ModelChangeMetadata>,
    bar_repo: &Store<u32, Bar, ModelChangeMetadata>,
    tempo_repo: &Store<u32, Tempo, ModelChangeMetadata>,
    dumper_repo: &Store<u32, CtrlChg, ModelChangeMetadata>,
    soft_repo: &Store<u32, CtrlChg, ModelChangeMetadata>,
    bound: u32,
    done: Option<Result<(Cmd, Vec<RenderRegionWarning>), PlayError>>,
)
    requires
        call_ensures(
            Player::try_play,
            (
                &player,
                seq,
                start,
                top_rhythm,
                top_key,
                note_repo,
                bar_repo,
                tempo_repo,
                dumper_repo,
                soft_repo,
            ),
            done,
        ),
        score::rendering(
            top_rhythm,
            top_key,
            *note_repo,
            *bar_repo,
            *tempo_repo,
            *dumper_repo,
            *soft_repo,
        ) is Some,
    ensures
        done matches Some(result) ==> is_right(
            result,
            player.sampling_rate as int,
            seq,
            start,
            rendered_of(
                top_rhythm,
                top_key,
                note_repo,
                bar_repo,
                tempo_repo,
                dumper_repo,
                soft_repo,
            ),
        ),
        rendered_of(
            top_rhythm,
            top_key,
            note_repo,
            bar_repo,
            tempo_repo,
            dumper_repo,
            soft_repo,
        ) is Err ==> done is Some,
        rendered_of(
            top_rhythm,
            top_key,
            note_repo,
            bar_repo,
            tempo_repo,
            dumper_repo,
            soft_repo,
        ) matches Ok((events, _)) ==> ordinary(events, start, player.sampling_rate, bound)
            ==> done is Some,
{
    let rendered = rendered_of(
        top_rhythm,
        top_key,
        note_repo,
        bar_repo,
        tempo_repo,
        dumper_repo,
        soft_repo,
    );
    if let Ok((events, warnings)) = rendered {
        if ordinary(events, start, player.sampling_rate, bound) {
            lemma_ordinary(events, start, player.sampling_rate, bound);
        }
    }
    if let Some(result) = done {
        lemma_outcome(result, player.sampling_rate, seq, start, rendered);
    }
}

/// What the player said, where a tracker passes it on.
pub open spec fn of_player(
    done: Result<(Cmd, Vec<RenderRegionWarning>), TrackerError>,
) -> Option<Result<(Cmd, Vec<RenderRegionWarning>), PlayError>> {
    match done {
        Ok(made) => Some(Ok(made)),
        Err(TrackerError::PlayerErr(error)) => Some(Err(error)),
        Err(_) => None,
    }
}

/// A tracker refuses a request to play if it has no player, or while the player is stopping. Else it
/// hands the score and the start position to the player, under its own count, and passes on what
/// comes of it.
pub open spec fn is_handed_over(
    tracker: Tracker,
    done: Result<(Cmd, Vec<RenderRegionWarning>), TrackerError>,
    start: Option<PlayStartTick>,
    rendered: Result<(MidiEvents, Seq<RenderRegionWarning>), RenderRegionError>,
) -> bool {
    if tracker.player is None {
        done matches Err(error) && error is PlayerNotOpened
    } else if tracker.status matches Status::StoppingPlay { seq } {
        done == Err::<(Cmd, Vec<RenderRegionWarning>), TrackerError>(
            TrackerError::PlayerStopping { seq: tracker.status->StoppingPlay_seq },
        )
    } else {
        &&& of_player(done) is Some
        &&& is_right(
            of_player(done)->0,
            tracker.player->0.sampling_rate as int,
            tracker.seq,
            start,
            rendered,
        )
    }
}

proof fn lemma_handed_over(
    tracker: Tracker,
    done: Result<(Cmd, Vec<RenderRegionWarning>), TrackerError>,
    start: Option<PlayStartTick>,
    rendered: Result<(MidiEvents, Seq<RenderRegionWarning>), RenderRegionError>,
)
    requires
        tracker.play_outcome(done, start, rendered),
        tracker.player is Some && !(tracker.status is StoppingPlay) ==> (rendered matches Ok(
            (events, _),
        ) ==> player::playable(events, start, tracker.player->0.sampling_rate)),
    ensures
        is_handed_over(tracker, done, start, rendered),
{
    if tracker.player is Some && !(tracker.status is StoppingPlay) {
        lemma_outcome(
            of_player(done)->0,
            tracker.player->0.sampling_rate,
            tracker.seq,
            start,
            rendered,
        );
    }
}

/// A tracker hands a score with its start position to the player, or refuses the request.
pub proof fn law_tracker_hands_the_score_over(
    tracker: Tracker,
    start: Option<PlayStartTick>,
    top_rhythm: Rhythm,
    top_key: Key,
    note_repo: &BagStore<u32, Rc<Note>, ModelChangeMetadata>,
    bar_repo: &Store<u32, Bar, ModelChangeMetadata>,
    tempo_repo: &Store<u32, Tempo, ModelChangeMetadata>,
    dumper_repo: &Store<u32, CtrlChg, ModelChangeMetadata>,
    soft_repo: &Store<u32, CtrlChg, ModelChangeMetadata>,
    done: Result<(Cmd, Vec<RenderRegionWarning>), TrackerError>,
)
    requires
        call_ensures(
            Tracker::play,
            (
                &tracker,
                start,
                top_rhythm,
                top_key,
                note_repo,
                bar_repo,
                tempo_repo,
                dumper_repo,
                soft_repo,
            ),
            done,
        ),
        tracker.player is Some && !(tracker.status is StoppingPlay) ==> (rendered_of(
            top_rhythm,
            top_key,
            note_repo,
            bar_repo,
            tempo_repo,
            dumper_repo,
            soft_repo,
        ) matches Ok((events, _)) ==> player::playable(
            events,
            start,
            tracker.player->0.sampling_rate,
        )),
    ensures
        is_handed_over(
            tracker,
            done,
            start,
            rendered_of(
                top_rhythm,
                top_key,
                note_repo,
                bar_repo,
                tempo_repo,
                dumper_repo,
                soft_repo,
            ),
        ),
{
    lemma_handed_over(
        tracker,
        done,
        start,
        rendered_of(
            top_rhythm,
            top_key,
            note_repo,
            bar_repo,
            tempo_repo,
            dumper_repo,
            soft_repo,
        ),
    );
}

/// The same holds where the extent of the score is tested first. A request that is refused, a score
/// that could not be rendered and a score of ordinary length all pass the test.
pub proof fn law_tracker_hands_the_tested_score_over(
    tracker: Tracker,
    start: Option<PlayStartTick>,
    top_rhythm: Rhythm,
    top_key: Key,
    note_repo: &BagStore<u32, Rc<Note>, ModelChangeMetadata>,
    bar_repo: &Store<u32, Bar, ModelChangeMetadata>,
    tempo_repo: &Store<u32, Tempo, ModelChangeMetadata>,
    dumper_repo: &Store<u32, CtrlChg, ModelChangeMetadata>,
    soft_repo: &Store<u32, CtrlChg, ModelChangeMetadata>,
    bound: u32,
    done: Option<Result<(Cmd, Vec<RenderRegionWarning>), TrackerError>>,
)
    requires
        call_ensures(
            Tracker::try_play,
            (
                &tracker,
                start,
                top_rhythm,
                top_key,
                note_repo,
                bar_repo,
                tempo_repo,
                dumper_repo,
                soft_repo,
            ),
            done,
        ),
        score::rendering(
            top_rhythm,
            top_key,
            *note_repo,
            *bar_repo,
            *tempo_repo,
            *dumper_repo,
            *soft_repo,
        ) is Some,
    ensures
        done matches Some(result) ==> is_handed_over(
            tracker,
            result,
            start,
            rendered_of(
                top_rhythm,
                top_key,
                note_repo,
                bar_repo,
                tempo_repo,
                dumper_repo,
                soft_repo,
            ),
        ),
        tracker.player is None || tracker.status is StoppingPlay ==> done is Some,
        rendered_of(
            top_rhythm,
            top_key,
            note_repo,
            bar_repo,
            tempo_repo,
            dumper_repo,
            soft_repo,
        ) is Err ==> done is Some,
        rendered_of(
            top_rhythm,
            top_key,
            note_repo,
            bar_repo,
            tempo_repo,
            dumper_repo,
            soft_repo,
        ) matches Ok((events, _)) ==> ordinary(
            events,
            start,
            tracker.player->0.sampling_rate,
            bound,
        ) ==> done is Some,
{
    let rendered = rendered_of(
        top_rhythm,
        top_key,
        note_repo,
        bar_repo,
        tempo_repo,
        dumper_repo,
        soft_repo,
    );
    if let Ok((events, warnings)) = rendered {
        if ordinary(events, start, tracker.player->0.sampling_rate, bound) {
            lemma_ordinary(events, start, tracker.player->0.sampling_rate, bound);
        }
    }
    if let Some(result) = done {
        lemma_handed_over(tracker, result, start, rendered);
    }
}

/// A request that is handed over starts playing where it was asked for: the player, idle, takes the
/// command and reports, with the first buffer that does not end the score, the accumulated tick of
/// the start position or the one before, under the tracker's count. Where a tick takes whole cycles
/// it is the very tick that was asked for, and, where the chunks do not overlap, it stands in the
/// score where it was asked for.
pub proof fn law_tracker_starts_where_asked(
    tracker: Tracker,
    start: PlayStartTick,
    cmd: Cmd,
    warnings: Vec<RenderRegionWarning>,
    events: MidiEvents,
    idle: &mut PlayState,
    taken: (Control, Option<Resp>),
    playing: &mut PlayState,
    buffer_size: u32,
    write_errors: Vec<String>,
    resps: Vec<Resp>,
)
    requires
        tracker.player is Some,
        !(tracker.status is StoppingPlay),
        tracker.play_outcome(Ok((cmd, warnings)), Some(start), Ok((events, warnings@))),
        player::playable(events, Some(start), tracker.player->0.sampling_rate),
        *old(idle) is Init,
        call_ensures(Player::perform_cmd, (Ok(cmd), idle), taken),
        *old(playing) == *final(idle),
        call_ensures(
            Player::perform_state,
            (playing, write_errors, buffer_size, tracker.player->0.sampling_rate),
            resps,
        ),
        write_errors@.len() == 0,
        !player::ends_before(cmd->play_data.timeline(), cmd->start_cycle + buffer_size),
        timing_laws::a_cycle_or_more(120, tracker.player->0.sampling_rate as int),
        forall|k: int|
            0 <= k < score::tempo_changes(events).len() ==> timing_laws::a_cycle_or_more(
                (#[trigger] score::tempo_changes(events)[k]).1 as int,
                tracker.player->0.sampling_rate as int,
            ),
    ensures
        taken.1 == Some((Resp::Success { seq: tracker.seq })),
        resps@.len() == 1,
        resps@[0] matches Resp::Info { seq, info: CmdInfo::CurrentLoc { seq: of, tick, accum_tick } }
            && seq == Some(tracker.seq) && of == tracker.seq && {
            let asked = asked_tick(events, Some(start));
            let rate = tracker.player->0.sampling_rate as int;
            let whole = timing_laws::whole_cycles(120, rate) && forall|k: int|
                0 <= k < score::tempo_changes(events).len() ==> timing_laws::whole_cycles(
                    (#[trigger] score::tempo_changes(events)[k]).1 as int,
                    rate,
                );
            &&& asked - 1 <= accum_tick <= asked
            &&& whole ==> accum_tick == asked
            &&& whole && timing::laid_out(score::chunks_of(events)) ==> tick == start.tick
        },
{
    let sampling_rate = tracker.player->0.sampling_rate;
    let done = Ok::<(Cmd, Vec<RenderRegionWarning>), TrackerError>((cmd, warnings));
    lemma_handed_over(tracker, done, Some(start), Ok((events, warnings@)));
    laws::law_first_report_is_near_the_start(
        cmd,
        warnings,
        tracker.seq,
        Some(start),
        events,
        buffer_size,
        sampling_rate,
    );
    let rate = sampling_rate as int;
    let pass = asked_pass(start.iter);
    let chunks = score::chunks_of(events);
    timing::lemma_pass_contains(chunks, start.tick as int, pass);
    if timing_laws::whole_cycles(120, rate) && forall|k: int|
        0 <= k < score::tempo_changes(events).len() ==> timing_laws::whole_cycles(
            (#[trigger] score::tempo_changes(events)[k]).1 as int,
            rate,
        ) {
        timing_laws::law_tick_is_reported_on_its_cycle(
            score::tempo_changes(events),
            rate,
            asked_tick(events, Some(start)) as u32,
        );
        if timing::laid_out(chunks) {
            timing_laws::law_start_leads_back(chunks, start);
        }
    }
}

/// A request to stop is taken while something is being played, under the tracker's count, and at no
/// other time.
pub proof fn law_stop_is_asked_while_playing(
    tracker: Tracker,
    done: Result<Cmd, TrackerError>,
)
    requires
        call_ensures(Tracker::stop, (&tracker,), done),
    ensures
        done is Ok <==> tracker.player is Some && tracker.status is Playing,
        done matches Ok(cmd) ==> cmd == (Cmd::Stop { seq: tracker.seq }),
        tracker.player is None ==> done == Err::<Cmd, TrackerError>(TrackerError::PlayerNotOpened),
        tracker.player is Some && !(tracker.status is Playing) ==> done == Err::<
            Cmd,
            TrackerError,
        >(TrackerError::NotPlaying(tracker.status)),
{
}

/// A delivered command to play counts and shows as a start under the number of the request; one that
/// could not be delivered leaves everything as it was and is an error under its own number.
pub proof fn law_delivered_play_is_starting(
    tracker: &mut Tracker,
    seq: usize,
    delivered: bool,
    done: Result<(), TrackerError>,
)
    requires
        call_ensures(Tracker::play_sent, (tracker, seq, delivered), done),
        old(tracker).seq < usize::MAX,
    ensures
        done is Ok <==> delivered,
        delivered ==> final(tracker).status == (Status::StartingPlay { seq })
            && final(tracker).seq == old(tracker).seq + 1 && final(tracker).player == old(
            tracker,
        ).player,
        !delivered ==> *final(tracker) == *old(tracker) && done == Err::<(), TrackerError>(
            TrackerError::PlayerErr(PlayError::SendError { seq: old(tracker).seq }),
        ),
{
}

/// A delivered command to stop shows as a stop under the number of the request; one that could not
/// be delivered leaves everything as it was and is an error under its own number.
pub proof fn law_delivered_stop_is_stopping(
    tracker: &mut Tracker,
    seq: usize,
    delivered: bool,
    done: Result<(), TrackerError>,
)
    requires
        call_ensures(Tracker::stop_sent, (tracker, seq, delivered), done),
    ensures
        done is Ok <==> delivered,
        delivered ==> final(tracker).status == (Status::StoppingPlay { seq })
            && final(tracker).seq == old(tracker).seq && final(tracker).player == old(
            tracker,
        ).player,
        !delivered ==> *final(tracker) == *old(tracker) && done == Err::<(), TrackerError>(
            TrackerError::PlayerErr(PlayError::SendError { seq: old(tracker).seq }),
        ),
{
}

/// Once the channel of answers has ended the status is `Disconnected`, whatever it was and whatever
/// happened before, and there is nothing more to listen to.
pub proof fn law_end_of_answers_disconnects(
    status: Status,
    next: (Status, bool),
    tracker: Tracker,
    events: Seq<TrackerEvent>,
)
    requires
        call_ensures(Tracker::on_resp, (status, None::<Resp>), next),
        events.len() > 0,
        events.last() == (TrackerEvent::Answer { received: None }),
    ensures
        next.0 == Status::Disconnected,
        !next.1,
        laws::after_events(tracker, events).status == Status::Disconnected,
{
}

/// A report decides the status, whatever it was: what is being played with its position, or that
/// playing has ended. Listening goes on.
pub proof fn law_report_decides_the_status(
    status: Status,
    seq: Option<usize>,
    info: CmdInfo,
    next: (Status, bool),
)
    requires
        call_ensures(Tracker::on_resp, (status, Some(Resp::Info { seq, info })), next),
    ensures
        info is PlayingEnded ==> next.0 == Status::Stopped,
        info matches CmdInfo::CurrentLoc { seq: of, tick, accum_tick } ==> next.0 == (
        Status::Playing { seq: of, tick, accum_tick }),
        next.1,
{
}

/// An answer that reports nothing leaves the status as it is. Listening goes on.
pub proof fn law_answer_without_report_keeps_the_status(
    status: Status,
    seq: Option<usize>,
    error: CmdError,
    done: usize,
    after_error: (Status, bool),
    after_success: (Status, bool),
)
    requires
        call_ensures(Tracker::on_resp, (status, Some(Resp::Error { seq, error })), after_error),
        call_ensures(Tracker::on_resp, (status, Some(Resp::Success { seq: done })), after_success),
    ensures
        after_error == (status, true),
        after_success == (status, true),
{
}

/// A tracker starts to count at zero with nothing being played. It keeps the player as it was but for
/// the receiver, which is handed out, and the status of the client is handed on.
pub proof fn law_tracker_starts_stopped(
    player: Player,
    client_status: ClientStatus,
    running: (Tracker, Receiver<Resp>, ClientStatus),
    status: Status,
)
    requires
        player.resp_channel is Some,
        call_ensures(Tracker::run, (player, client_status), running),
        call_ensures(Tracker::status, (&running.0,), status),
    ensures
        status == Status::Stopped,
        running.0.seq == 0,
        running.0.player matches Some(kept) && kept.sampling_rate == player.sampling_rate
            && kept.cmd_channel == player.cmd_channel && kept.resp_channel is None,
        Some(running.1) == player.resp_channel,
        running.2 == client_status,
{
}

/// The status that a tracker shows is the one it has.
pub proof fn law_status_is_shown(tracker: Tracker, status: Status)
    requires
        call_ensures(Tracker::status, (&tracker,), status),
    ensures
        status == tracker.status,
{
}

/// Requests can be made at any time, of any score that can be rendered and, where its extent is not
/// tested, played.
pub proof fn law_requests_are_open(
    player: Player,
    tracker: Tracker,
    seq: usize,
    start: Option<PlayStartTick>,
    top_rhythm: Rhythm,
    top_key: Key,
    note_repo: &BagStore<u32, Rc<Note>, ModelChangeMetadata>,
    bar_repo: &Store<u32, Bar, ModelChangeMetadata>,
    tempo_repo: &Store<u32, Tempo, ModelChangeMetadata>,
    dumper_repo: &Store<u32, CtrlChg, ModelChangeMetadata>,
    soft_repo: &Store<u32, CtrlChg, ModelChangeMetadata>,
)
    requires
        tracker.player == Some(player),
        score::rendering(
            top_rhythm,
            top_key,
            *note_repo,
            *bar_repo,
            *tempo_repo,
            *dumper_repo,
            *soft_repo,
        ) is Some,
    ensures
        call_requires(
            Player::try_play,
            (
                &player,
                seq,
                start,
                top_rhythm,
                top_key,
                note_repo,
                bar_repo,
                tempo_repo,
                dumper_repo,
                soft_repo,
            ),
        ),
        call_requires(
            Tracker::try_play,
            (
                &tracker,
                start,
                top_rhythm,
                top_key,
                note_repo,
                bar_repo,
                tempo_repo,
                dumper_repo,
                soft_repo,
            ),
        ),
        (rendered_of(
            top_rhythm,
            top_key,
            note_repo,
            bar_repo,
            tempo_repo,
            dumper_repo,
            soft_repo,
        ) matches Ok((events, _)) ==> player::playable(events, start, player.sampling_rate))
            ==> call_requires(
            Player::play,
            (
                &player,
                seq,
                start,
                top_rhythm,
                top_key,
                note_repo,
                bar_repo,
                tempo_repo,
                dumper_repo,
                soft_repo,
            ),
        ) && call_requires(
            Tracker::play,
            (
                &tracker,
                start,
                top_rhythm,
                top_key,
                note_repo,
                bar_repo,
                tempo_repo,
                dumper_repo,
                soft_repo,
            ),
        ),
        call_requires(Tracker::stop, (&tracker,)),
        call_requires(Player::stop, (&player, seq)),
{
}

/// Whether a command was delivered can be noted at any time, as long as the count goes on, and every
/// answer can be taken.
pub proof fn law_tracker_takes_every_event(
    tracker: &mut Tracker,
    other: &mut Tracker,
    seq: usize,
    delivered: bool,
    status: Status,
    received: Option<Resp>,
)
    ensures
        old(tracker).seq < usize::MAX ==> call_requires(
            Tracker::play_sent,
            (tracker, seq, delivered),
        ),
        call_requires(Tracker::stop_sent, (other, seq, delivered)),
        call_requires(Tracker::on_resp, (status, received)),
{
}

/// A client shows the values that it was described with.
pub proof fn law_client_shows_its_values(client: JackClientProxy, size: u32, rate: usize)
    requires
        call_ensures(JackClientProxy::buffer_size, (&client,), size),
        call_ensures(JackClientProxy::sampling_rate, (&client,), rate),
    ensures
        size == client.buffer_size,
        rate == client.sampling_rate,
{
}

/// A client without a server shows the values that it was made with, and a player sees the same.
pub proof fn law_double_shows_its_values(
    app_name: &str,
    status: ClientStatus,
    buffer_size: u32,
    sampling_rate: usize,
    proxy: TestJackClientProxy,
    size: u32,
    rate: usize,
    client: JackClientProxy,
)
    requires
        call_ensures(
            TestJackClientProxy::new_test,
            (app_name, status, buffer_size, sampling_rate),
            proxy,
        ),
        call_ensures(TestJackClientProxy::buffer_size, (&proxy,), size),
        call_ensures(TestJackClientProxy::sampling_rate, (&proxy,), rate),
        call_ensures(TestJackClientProxy::client, (&proxy,), client),
    ensures
        proxy.app_name@ == app_name@,
        size == buffer_size,
        rate == sampling_rate,
        client.status == status,
        client.buffer_size == buffer_size,
        client.sampling_rate == sampling_rate,
{
}

} // verus!
