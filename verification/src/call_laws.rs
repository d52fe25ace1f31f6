//! What a caller of the operations can count on, whatever the state and the arguments.
//!
//! Each law takes calls as given, by their arguments and results, and says what holds of them.
use std::sync::mpsc::Receiver;
use std::sync::mpsc::SyncSender;

use vstd::prelude::*;

use crate::laws;
use crate::messages;
use crate::messages::RawMidi;
use crate::player;
use crate::player::CloseStep;
use crate::player::Cmd;
use crate::player::CmdError;
use crate::player::CmdInfo;
use crate::player::Control;
use crate::player::PlayError;
use crate::player::PlayState;
use crate::player::Player;
use crate::player::Resp;
use crate::player::Step;
use crate::player::TryRecvError;
use crate::prepared::PreparedScore;
use crate::timing;

verus! {

/// A command to play is taken when the player is idle: playing starts with the score and the cycle
/// of the command. At any other time it is refused and nothing changes.
pub proof fn law_play_is_taken_when_idle(
    seq: usize,
    play_data: PreparedScore,
    start_cycle: u64,
    state: &mut PlayState,
    done: (Control, Option<Resp>),
)
    requires
        call_ensures(
            Player::perform_cmd,
            (Ok(Cmd::Play { seq, play_data, start_cycle }), state),
            done,
        ),
    ensures
        done.0 == Control::Continue,
        *old(state) is Init ==> done.1 == Some((Resp::Success { seq })) && *final(state) == (
        PlayState::Playing { seq, current_loc: start_cycle, play_data }),
        !(*old(state) is Init) ==> done.1 == Some(
            (Resp::Error { seq: Some(seq), error: CmdError::AlreadyPlaying }),
        ) && *final(state) == *old(state),
{
}

/// A command to stop ends what is being played, and says so. At any other time it is confirmed and
/// nothing changes.
pub proof fn law_stop_is_always_taken(
    seq: usize,
    state: &mut PlayState,
    done: (Control, Option<Resp>),
)
    requires
        call_ensures(Player::perform_cmd, (Ok(Cmd::Stop { seq }), state), done),
    ensures
        done.0 == Control::Continue,
        *old(state) is Playing ==> done.1 == Some(
            (Resp::Info { seq: Some(seq), info: CmdInfo::PlayingEnded }),
        ) && *final(state) is Stopping,
        !(*old(state) is Playing) ==> done.1 == Some((Resp::Success { seq })) && *final(state)
            == *old(state),
{
}

/// Where no command waits nothing is answered and nothing changes; the callback ends if and only
/// if the channel has.
pub proof fn law_no_command_is_no_change(
    error: TryRecvError,
    state: &mut PlayState,
    done: (Control, Option<Resp>),
)
    requires
        call_ensures(Player::perform_cmd, (Err(error), state), done),
    ensures
        done.0 == Control::Quit <==> error is Disconnected,
        done.1 is None,
        *final(state) == *old(state),
{
}

/// A callback treats a command as `perform_cmd` does: the same answer, the same state, and it is the
/// last one in the same case.
pub proof fn law_callback_takes_the_command(
    received: Result<Cmd, TryRecvError>,
    state: &mut PlayState,
    buffer_size: u32,
    sampling_rate: usize,
    step: Step,
    other: &mut PlayState,
    done: (Control, Option<Resp>),
)
    requires
        call_ensures(Player::process, (received, state, buffer_size, sampling_rate), step),
        call_ensures(Player::perform_cmd, (received, other), done),
        *old(other) == *old(state),
    ensures
        *final(state) == *final(other),
        step is Quit <==> done.0 == Control::Quit,
        step matches Step::Write { answer, .. } ==> answer == done.1,
        step matches Step::OutOfRange { answer } ==> answer == done.1,
{
}

/// A callback writes what `midi_out` lists for the state after the command, message for message.
pub proof fn law_callback_writes_the_buffer(
    received: Result<Cmd, TryRecvError>,
    state: &mut PlayState,
    buffer_size: u32,
    sampling_rate: usize,
    answer: Option<Resp>,
    messages: Vec<RawMidi>,
    listed: Vec<RawMidi>,
)
    requires
        call_ensures(
            Player::process,
            (received, state, buffer_size, sampling_rate),
            Step::Write { answer, messages },
        ),
        call_ensures(Player::midi_out, (&*final(state), buffer_size), listed),
    ensures
        messages@.len() == listed@.len(),
        forall|i: int|
            0 <= i < messages@.len() ==> (#[trigger] messages@[i]).time == listed@[i].time
                && messages@[i].bytes@ == listed@[i].bytes@,
{
    lemma_views(messages@, listed@);
}

proof fn lemma_views(first: Seq<RawMidi>, second: Seq<RawMidi>)
    requires
        messages::views(first) == messages::views(second),
    ensures
        first.len() == second.len(),
        forall|i: int|
            0 <= i < first.len() ==> (#[trigger] first[i]).time == second[i].time
                && first[i].bytes@ == second[i].bytes@,
{
    assert(messages::views(first).len() == first.len());
    assert(messages::views(second).len() == second.len());
    assert forall|i: int| 0 <= i < first.len() implies (#[trigger] first[i]).time
        == second[i].time && first[i].bytes@ == second[i].bytes@ by {
        assert(messages::views(first)[i] == first[i]@);
        assert(messages::views(second)[i] == second[i]@);
    }
}

/// The messages that are listed for one offset, in order, as bytes.
pub open spec fn bytes_at(writes: Seq<RawMidi>, offset: int) -> Seq<Seq<u8>>
    decreases writes.len(),
{
    if writes.len() == 0 {
        Seq::empty()
    } else {
        bytes_at(writes.drop_last(), offset) + if writes.last().time == offset {
            seq![writes.last().bytes@]
        } else {
            Seq::empty()
        }
    }
}

proof fn lemma_bytes_at(writes: Seq<RawMidi>, offset: int)
    ensures
        bytes_at(writes, offset) == laws::bytes_on(messages::views(writes), offset),
    decreases writes.len(),
{
    if writes.len() > 0 {
        lemma_bytes_at(writes.drop_last(), offset);
        assert(messages::views(writes).drop_last() =~= messages::views(writes.drop_last()));
    }
}

/// Offsets do not go back along a timeline.
proof fn lemma_offsets_in_order(timeline: Seq<(u64, Seq<Seq<u8>>)>, start: int, bound: int)
    requires
        messages::ascending_cycles(timeline),
        forall|i: int| 0 <= i < timeline.len() ==> start <= (#[trigger] timeline[i]).0 < bound,
    ensures
        forall|i: int|
            0 <= i < messages::writes_from(timeline, start).len() ==> 0 <= (
            #[trigger] messages::writes_from(timeline, start)[i]).0 < bound - start,
        forall|i: int, j: int|
            0 <= i <= j < messages::writes_from(timeline, start).len() ==> (
            #[trigger] messages::writes_from(timeline, start)[i]).0 <= (
            #[trigger] messages::writes_from(timeline, start)[j]).0,
    decreases timeline.len(),
{
    if timeline.len() > 0 {
        let rest = timeline.drop_last();
        let last = timeline.last();
        assert forall|i: int| 0 <= i < rest.len() implies start <= (#[trigger] rest[i]).0
            < last.0 by {
            assert(start <= timeline[i].0);
            assert(timeline[i].0 < timeline[timeline.len() - 1].0);
        }
        assert(start <= timeline[timeline.len() - 1].0 < bound);
        lemma_offsets_in_order(rest, start, last.0 as int);
        let before = messages::writes_from(rest, start);
        let writes = messages::writes_from(timeline, start);
        assert(writes == before + messages::stamped(last, start));
        assert forall|i: int| 0 <= i < writes.len() implies 0 <= (#[trigger] writes[i]).0 < bound
            - start by {
            if i < before.len() {
                assert(writes[i] == before[i]);
            } else {
                assert(writes[i] == messages::stamped(last, start)[i - before.len()]);
            }
        }
        assert forall|i: int, j: int| 0 <= i <= j < writes.len() implies (
        #[trigger] writes[i]).0 <= (#[trigger] writes[j]).0 by {
            if j < before.len() {
                assert(writes[i] == before[i]);
                assert(writes[j] == before[j]);
            } else {
                assert(writes[j] == messages::stamped(last, start)[j - before.len()]);
                if i < before.len() {
                    assert(writes[i] == before[i]);
                } else {
                    assert(writes[i] == messages::stamped(last, start)[i - before.len()]);
                }
            }
        }
    }
}

/// A window of a timeline is in order too.
proof fn lemma_window_ascends(timeline: Seq<(u64, Seq<Seq<u8>>)>, from: int, to: int)
    requires
        messages::ascending_cycles(timeline),
    ensures
        messages::ascending_cycles(messages::window(timeline, from, to)),
        forall|i: int|
            0 <= i < messages::window(timeline, from, to).len() && timeline.len() > 0 ==> (
            #[trigger] messages::window(timeline, from, to)[i]).0 <= timeline.last().0,
    decreases timeline.len(),
{
    reveal(Seq::filter);
    if timeline.len() > 0 {
        let rest = timeline.drop_last();
        lemma_window_ascends(rest, from, to);
        let part = messages::window(rest, from, to);
        if rest.len() > 0 {
            assert(timeline[rest.len() - 1].0 < timeline.last().0);
        }
        assert forall|i: int| 0 <= i < part.len() implies (#[trigger] part[i]).0
            < timeline.last().0 by {
            assert(rest.len() > 0);
        }
        if from <= timeline.last().0 < to {
            assert(messages::window(timeline, from, to) == part.push(timeline.last()));
        } else {
            assert(messages::window(timeline, from, to) == part);
        }
    }
}

/// While a score is being played a buffer is written as the score stands: at every offset the
/// messages of the cycle there, in their order, nothing beyond the buffer, and earlier offsets
/// before later ones.
pub proof fn law_buffer_is_written_as_the_score_stands(
    seq: usize,
    current_loc: u64,
    play_data: PreparedScore,
    buffer_size: u32,
    writes: Vec<RawMidi>,
    offset: u32,
)
    requires
        call_ensures(
            Player::midi_out,
            (&(PlayState::Playing { seq, current_loc, play_data }), buffer_size),
            writes,
        ),
        messages::ascending_cycles(play_data.timeline()),
    ensures
        bytes_at(writes@, offset as int) == if offset < buffer_size {
            messages::messages_at(play_data.timeline(), current_loc + offset)
        } else {
            Seq::empty()
        },
        forall|i: int| 0 <= i < writes@.len() ==> (#[trigger] writes@[i]).time < buffer_size,
        forall|i: int, j: int|
            0 <= i <= j < writes@.len() ==> (#[trigger] writes@[i]).time <= (
            #[trigger] writes@[j]).time,
{
    let timeline = play_data.timeline();
    let from = current_loc as int;
    let to = current_loc + buffer_size;
    let part = messages::window(timeline, from, to);
    let views = messages::views(writes@);
    assert(views == messages::writes_from(part, from));
    lemma_bytes_at(writes@, offset as int);
    laws::lemma_bytes_of_timeline(part, from, offset as int);
    laws::lemma_messages_in_window(timeline, from, to, from + offset);
    messages::lemma_window_bounds(timeline, from, to);
    lemma_window_ascends(timeline, from, to);
    lemma_offsets_in_order(part, from, to);
    assert forall|i: int| 0 <= i < writes@.len() implies (#[trigger] writes@[i]).time
        < buffer_size by {
        assert(views[i] == writes@[i]@);
    }
    assert forall|i: int, j: int| 0 <= i <= j < writes@.len() implies (
    #[trigger] writes@[i]).time <= (#[trigger] writes@[j]).time by {
        assert(views[i] == writes@[i]@);
        assert(views[j] == writes@[j]@);
    }
}

/// An idle player writes nothing, whatever the buffer.
pub proof fn law_idle_buffer_is_empty(buffer_size: u32, writes: Vec<RawMidi>)
    requires
        call_ensures(Player::midi_out, (&PlayState::Init, buffer_size), writes),
    ensures
        writes@.len() == 0,
{
    assert(messages::views(writes@).len() == writes@.len());
}

/// Stopping turns soft pedal, sound and damper pedal off on every one of the sixteen channels, at
/// once.
pub proof fn law_stopping_reaches_every_channel(
    buffer_size: u32,
    writes: Vec<RawMidi>,
    channel: int,
)
    requires
        call_ensures(Player::midi_out, (&PlayState::Stopping, buffer_size), writes),
        0 <= channel < 16,
    ensures
        writes@.len() == 3,
        forall|k: int|
            0 <= k < 3 ==> {
                &&& (#[trigger] writes@[k]).time == 0
                &&& writes@[k].bytes@.len() == 48
                &&& writes@[k].bytes@[3 * channel] == 0xB0 + channel
                &&& writes@[k].bytes@[3 * channel + 1] == if k == 0 {
                    67u8
                } else if k == 1 {
                    120u8
                } else {
                    64u8
                }
                &&& writes@[k].bytes@[3 * channel + 2] == 0
            },
{
    let views = messages::views(writes@);
    assert(views.len() == writes@.len());
    assert forall|k: int| 0 <= k < 3 implies (#[trigger] writes@[k]).time == 0
        && writes@[k].bytes@ == messages::silence()[k].1 by {
        assert(views[k] == writes@[k]@);
        assert(views[k] == messages::silence()[k]);
    }
}

/// Every write that failed is answered, in order and before anything else; what follows is one
/// report while a score is being played, and nothing otherwise.
pub proof fn law_failures_are_answered_in_order(
    state: &mut PlayState,
    write_errors: Vec<String>,
    buffer_size: u32,
    sampling_rate: usize,
    resps: Vec<Resp>,
)
    requires
        call_ensures(
            Player::perform_state,
            (state, write_errors, buffer_size, sampling_rate),
            resps,
        ),
    ensures
        resps@.len() == write_errors@.len() + if *old(state) is Playing {
            1int
        } else {
            0
        },
        forall|i: int|
            0 <= i < write_errors@.len() ==> (#[trigger] resps@[i]) == (Resp::Error {
                seq: None,
                error: CmdError::MidiWriteError(write_errors@[i]),
            }),
        !(*old(state) is Playing) ==> *final(state) is Init,
{
}

/// While a score is being played the buffer that holds the last message ends it: where there is a
/// message and every one lies before the end of the buffer, the end is reported and the player is
/// idle. In no other buffer is that so.
pub proof fn law_last_buffer_ends_the_score(
    seq: usize,
    current_loc: u64,
    play_data: PreparedScore,
    state: &mut PlayState,
    write_errors: Vec<String>,
    buffer_size: u32,
    sampling_rate: usize,
    resps: Vec<Resp>,
)
    requires
        *old(state) == (PlayState::Playing { seq, current_loc, play_data }),
        current_loc + buffer_size <= u64::MAX,
        messages::ascending_cycles(play_data.timeline()),
        call_ensures(
            Player::perform_state,
            (state, write_errors, buffer_size, sampling_rate),
            resps,
        ),
    ensures
        ({
            let over = is_over(play_data, current_loc + buffer_size);
            let ended = Resp::Info { seq: Some(seq), info: CmdInfo::PlayingEnded };
            &&& resps@.len() == write_errors@.len() + 1
            &&& over <==> resps@.last() == ended
            &&& over <==> *final(state) is Init
        }),
{
    lemma_over(play_data, current_loc + buffer_size);
}

/// A buffer that does not end the score reports the position of its first cycle, as
/// `cycle_to_tick` and `accum_tick_to_tick` give it, and the next one starts where it ends.
pub proof fn law_other_buffers_go_on(
    seq: usize,
    current_loc: u64,
    play_data: PreparedScore,
    state: &mut PlayState,
    write_errors: Vec<String>,
    buffer_size: u32,
    sampling_rate: usize,
    resps: Vec<Resp>,
    accum_tick: u32,
    tick: u32,
)
    requires
        *old(state) == (PlayState::Playing { seq, current_loc, play_data }),
        current_loc + buffer_size <= u64::MAX,
        messages::ascending_cycles(play_data.timeline()),
        !is_over(play_data, current_loc + buffer_size),
        call_ensures(
            Player::perform_state,
            (state, write_errors, buffer_size, sampling_rate),
            resps,
        ),
        call_ensures(
            PreparedScore::cycle_to_tick,
            (&play_data, current_loc, sampling_rate as u32),
            accum_tick,
        ),
        call_ensures(PreparedScore::accum_tick_to_tick, (&play_data, accum_tick), tick),
    ensures
        resps@.len() == write_errors@.len() + 1,
        resps@.last() == (Resp::Info {
            seq: Some(seq),
            info: CmdInfo::CurrentLoc { seq, tick, accum_tick },
        }),
        *final(state) == (PlayState::Playing {
            seq,
            current_loc: (current_loc + buffer_size) as u64,
            play_data,
        }),
{
    lemma_over(play_data, current_loc + buffer_size);
}

/// There is a message, and every one lies before the given cycle.
pub open spec fn is_over(play_data: PreparedScore, end: int) -> bool {
    &&& play_data.timeline().len() > 0
    &&& forall|i: int|
        0 <= i < play_data.timeline().len() ==> (#[trigger] play_data.timeline()[i]).0 < end
}

proof fn lemma_over(play_data: PreparedScore, end: int)
    requires
        messages::ascending_cycles(play_data.timeline()),
    ensures
        is_over(play_data, end) == player::ends_before(play_data.timeline(), end),
{
    let timeline = play_data.timeline();
    if timeline.len() > 0 {
        let last = timeline[timeline.len() - 1];
        assert(last == timeline.last());
        if last.0 < end {
            assert forall|i: int| 0 <= i < timeline.len() implies (#[trigger] timeline[i]).0
                < end by {
                assert(timeline[i].0 <= last.0);
            }
        }
    }
}

/// The position at a cycle is counted on from the tempo point in force there, and the tick of the
/// score from the chunk that is played there. Both can be told to be in range beforehand.
pub proof fn law_position_is_counted_on(
    score: PreparedScore,
    cycle: u64,
    rate: u32,
    locatable: bool,
    accum_tick: u32,
    tick: u32,
)
    requires
        call_ensures(PreparedScore::is_locatable, (&score, cycle, rate), locatable),
        call_ensures(PreparedScore::cycle_to_tick, (&score, cycle, rate), accum_tick),
        call_ensures(PreparedScore::accum_tick_to_tick, (&score, accum_tick), tick),
    ensures
        ({
            let point = timing::point_at(score.points(), cycle as int);
            let chunk = timing::chunk_at(score.chunks(), accum_tick as int);
            &&& accum_tick == timing::accum_tick_from(point, cycle as int, rate as int)
            &&& tick == timing::tick_from(chunk, accum_tick as int)
            &&& locatable <==> timing::accum_tick_fits(point, cycle as int, rate as int)
            &&& locatable ==> call_requires(PreparedScore::cycle_to_tick, (&score, cycle, rate))
            &&& locatable ==> call_requires(
                PreparedScore::accum_tick_to_tick,
                (&score, accum_tick),
            )
        }),
{
}

/// A buffer that starts at an ordinary cycle can be performed: where its end has 64 bits, the
/// sampling rate is not zero, even at the highest tempo the ticks can be computed in 64 bits, and
/// the position has 32 bits.
pub proof fn law_ordinary_buffers_can_be_performed(
    seq: usize,
    current_loc: u64,
    play_data: PreparedScore,
    buffer_size: u32,
    sampling_rate: usize,
    advanceable: bool,
)
    requires
        call_ensures(
            PlayState::is_advanceable,
            (
                &(PlayState::Playing { seq, current_loc, play_data }),
                buffer_size,
                sampling_rate,
            ),
            advanceable,
        ),
        current_loc + buffer_size <= u64::MAX,
        sampling_rate as u32 != 0,
        current_loc * 65535 * 240 <= u64::MAX,
        play_data.accum_tick(current_loc as int, sampling_rate as u32 as int) <= u32::MAX,
        play_data.tick(current_loc as int, sampling_rate as u32 as int) <= u32::MAX,
    ensures
        advanceable,
        (PlayState::Playing { seq, current_loc, play_data }).can_advance(
            buffer_size,
            sampling_rate,
        ),
        call_requires(
            Player::midi_out,
            (&(PlayState::Playing { seq, current_loc, play_data }), buffer_size),
        ),
{
    lemma_ordinary_buffer(seq, current_loc, play_data, buffer_size, sampling_rate);
}

proof fn lemma_ordinary_buffer(
    seq: usize,
    current_loc: u64,
    play_data: PreparedScore,
    buffer_size: u32,
    sampling_rate: usize,
)
    requires
        current_loc + buffer_size <= u64::MAX,
        sampling_rate as u32 != 0,
        current_loc * 65535 * 240 <= u64::MAX,
        play_data.accum_tick(current_loc as int, sampling_rate as u32 as int) <= u32::MAX,
        play_data.tick(current_loc as int, sampling_rate as u32 as int) <= u32::MAX,
    ensures
        (PlayState::Playing { seq, current_loc, play_data }).can_advance(
            buffer_size,
            sampling_rate,
        ),
{
    let cycle = current_loc as int;
    let points = play_data.points();
    let keys = points.map_values(|p: (u64, u32, u16)| p.0 as int);
    timing::lemma_last_at_or_before(keys, cycle);
    let i = timing::last_at_or_before(keys, cycle);
    if i >= 0 {
        let p = points[i];
        assert(keys[i] == p.0);
        let since = cycle - p.0;
        let tempo = p.2 as int;
        assert(since * tempo * 240 <= cycle * 65535 * 240) by (nonlinear_arith)
            requires
                0 <= since <= cycle,
                0 <= tempo <= 65535,
        ;
    }
}

/// So the callback performs it: at an ordinary cycle there is something to write, if it is only
/// nothing, and never an end out of range. The same holds whenever no score is being played.
pub proof fn law_callback_performs_ordinary_buffers(
    received: Result<Cmd, TryRecvError>,
    state: &mut PlayState,
    buffer_size: u32,
    sampling_rate: usize,
    step: Step,
    written: &mut PlayState,
    write_errors: Vec<String>,
)
    requires
        call_ensures(Player::process, (received, state, buffer_size, sampling_rate), step),
        !(received matches Err(TryRecvError::Disconnected)),
        *old(written) == *final(state),
        *final(state) matches PlayState::Playing { current_loc, play_data, .. } ==> {
            let rate = sampling_rate as u32 as int;
            &&& current_loc + buffer_size <= u64::MAX
            &&& rate != 0
            &&& current_loc * 65535 * 240 <= u64::MAX
            &&& play_data.accum_tick(current_loc as int, rate) <= u32::MAX
            &&& play_data.tick(current_loc as int, rate) <= u32::MAX
        },
    ensures
        step is Write,
        call_requires(
            Player::perform_state,
            (written, write_errors, buffer_size, sampling_rate),
        ),
{
    if let PlayState::Playing { seq, current_loc, play_data } = *final(state) {
        lemma_ordinary_buffer(seq, current_loc, play_data, buffer_size, sampling_rate);
    }
}

/// The messages between two cycles are those of the score, cycle by cycle.
pub proof fn law_between_has_the_messages(
    score: PreparedScore,
    from: u64,
    to: u64,
    entries: &[(u64, Vec<Vec<u8>>)],
    cycle: u64,
)
    requires
        call_ensures(PreparedScore::between, (&score, from, to), entries),
    ensures
        messages::messages_at(entries.deep_view(), cycle as int) == if from <= cycle < to {
            messages::messages_at(score.timeline(), cycle as int)
        } else {
            Seq::empty()
        },
{
    laws::lemma_messages_in_window(score.timeline(), from as int, to as int, cycle as int);
}

/// The last cycle is that of a message, and no message lies later.
pub proof fn law_last_cycle_is_the_greatest(score: PreparedScore, cycle: Option<u64>)
    requires
        call_ensures(PreparedScore::last_cycle, (&score,), cycle),
    ensures
        cycle is None <==> score.timeline().len() == 0,
        cycle matches Some(c) ==> exists|i: int|
            0 <= i < score.timeline().len() && (#[trigger] score.timeline()[i]).0 == c,
        cycle matches Some(c) ==> forall|i: int|
            0 <= i < score.timeline().len() ==> (#[trigger] score.timeline()[i]).0 <= c,
{
    let timeline = score.timeline();
    if timeline.len() > 0 {
        assert(timeline[timeline.len() - 1] == timeline.last());
    }
}

/// A copy of a prepared score plays the same.
pub proof fn law_copy_plays_the_same(score: PreparedScore, copy: PreparedScore)
    requires
        call_ensures(<PreparedScore as Clone>::clone, (&score,), copy),
    ensures
        copy.timeline() == score.timeline(),
        copy.points() == score.points(),
        copy.chunks() == score.chunks(),
{
}

/// Closing is waited for in steps of a tenth of a second, five seconds in all, and no longer than it
/// takes.
pub proof fn law_closing_is_waited_for(waits: u32, finished: bool, step: CloseStep)
    requires
        call_ensures(player::close_step, (waits, finished), step),
    ensures
        step is Done <==> finished || waits * 100 >= 5000,
        step matches CloseStep::Wait { millis } ==> millis == 100,
{
}

/// A command that is made carries the number that it was asked for.
pub proof fn law_stop_carries_its_number(player: Player, seq: usize, cmd: Cmd)
    requires
        call_ensures(Player::stop, (&player, seq), cmd),
    ensures
        cmd == (Cmd::Stop { seq }),
{
}

/// A command that could not be delivered is an error under its number; one that was is none.
pub proof fn law_undelivered_is_an_error(
    seq: usize,
    delivered: bool,
    done: Result<(), PlayError>,
)
    requires
        call_ensures(Player::sent, (seq, delivered), done),
    ensures
        delivered <==> done is Ok,
        !delivered ==> done == Err::<(), PlayError>(PlayError::SendError { seq }),
{
}

/// A player has the sampling rate of its client and the ends of its channels; the status of the
/// client is handed on.
pub proof fn law_open_takes_what_it_is_given(
    client: crate::client::JackClientProxy,
    cmd_channel: SyncSender<Cmd>,
    resp_channel: Receiver<Resp>,
    opened: (Player, crate::client::ClientStatus),
)
    requires
        call_ensures(Player::open, (&client, cmd_channel, resp_channel), opened),
    ensures
        opened.0.sampling_rate == client.sampling_rate,
        opened.0.cmd_channel == cmd_channel,
        opened.0.resp_channel == Some(resp_channel),
        opened.1 == client.status,
{
}

/// Commands can be taken, and callbacks begun, at any time.
pub proof fn law_callbacks_are_open(
    received: Result<Cmd, TryRecvError>,
    state: &mut PlayState,
    other: &mut PlayState,
    buffer_size: u32,
    sampling_rate: usize,
)
    ensures
        call_requires(Player::perform_cmd, (received, state)),
        call_requires(Player::process, (received, other, buffer_size, sampling_rate)),
        call_requires(
            PlayState::is_advanceable,
            (&PlayState::Init, buffer_size, sampling_rate),
        ),
{
}

/// The receiver of answers is handed out once: who takes it gets it, and who takes it again gets
/// nothing. Until then `get_resp` shows the same one.
pub proof fn law_receiver_is_taken_once(
    player: &mut Player,
    shown: &Receiver<Resp>,
    taken: Option<Receiver<Resp>>,
    again: &mut Player,
    nothing: Option<Receiver<Resp>>,
)
    requires
        call_ensures(Player::take_resp, (player,), taken),
        *old(again) == *final(player),
        call_ensures(Player::take_resp, (again,), nothing),
        call_ensures(Player::get_resp, (&*old(player),), shown),
        old(player).resp_channel is Some,
    ensures
        taken == Some(*shown),
        nothing is None,
        final(player).sampling_rate == old(player).sampling_rate,
        final(player).cmd_channel == old(player).cmd_channel,
{
}

} // verus!
