//! What holds of playing as a whole, over several commands and callbacks.
use klavier_core::global_repeat::RenderRegionWarning;
use klavier_core::midi_events::MidiEvents;
use klavier_core::midi_events::PlayData;
use klavier_core::repeat::RenderRegionError;
use vstd::prelude::*;

use crate::messages;
use crate::player;
use crate::player::Cmd;
use crate::player::CmdError;
use crate::player::CmdInfo;
use crate::player::Control;
use crate::player::PlayState;
use crate::player::Resp;
use crate::player::TryRecvError;
use crate::prepared::PreparedScore;
use crate::score;
use crate::score::PlayStartTick;
use crate::timing;
use crate::timing_laws;
use crate::tracker;
use crate::tracker::Status;
use crate::tracker::Tracker;
use crate::tracker::TrackerError;

verus! {

/// The state after `n` callbacks in which no command is taken.
pub open spec fn after(state: PlayState, buffer_size: u32, n: nat) -> PlayState
    decreases n,
{
    if n == 0 {
        state
    } else {
        after(state, buffer_size, (n - 1) as nat).next(buffer_size)
    }
}

/// The cycle from which a state counts its offsets.
pub open spec fn origin(state: PlayState) -> int {
    match state {
        PlayState::Playing { current_loc, .. } => current_loc as int,
        _ => 0,
    }
}

/// Messages with the cycle on which they fall, in place of their offset from `origin`.
pub open spec fn placed(writes: Seq<(int, Seq<u8>)>, origin: int) -> Seq<(int, Seq<u8>)> {
    writes.map_values(|w: (int, Seq<u8>)| (w.0 + origin, w.1))
}

/// All that is written in `n` callbacks in which no command is taken, each message with the
/// cycle on which it falls.
pub open spec fn written(state: PlayState, buffer_size: u32, n: nat) -> Seq<(int, Seq<u8>)>
    decreases n,
{
    if n == 0 {
        Seq::empty()
    } else {
        let last = after(state, buffer_size, (n - 1) as nat);
        written(state, buffer_size, (n - 1) as nat) + placed(
            last.writes(buffer_size),
            origin(last),
        )
    }
}

/// The messages of a timeline from a cycle on, each with the cycle on which it falls.
pub open spec fn messages_from(timeline: Seq<(u64, Seq<Seq<u8>>)>, start: int) -> Seq<
    (int, Seq<u8>),
> {
    messages::writes_from(messages::window(timeline, start, u64::MAX + 1), 0)
}

/// How many callbacks it takes until the last message was written.
pub open spec fn callbacks_needed(
    timeline: Seq<(u64, Seq<Seq<u8>>)>,
    start: int,
    buffer_size: u32,
) -> nat {
    if timeline.last().0 < start {
        1
    } else {
        ((timeline.last().0 - start) / buffer_size as int + 1) as nat
    }
}

/// Offsets and cycles differ by the cycle from which offsets count.
proof fn lemma_placed(timeline: Seq<(u64, Seq<Seq<u8>>)>, start: int)
    ensures
        placed(messages::writes_from(timeline, start), start) == messages::writes_from(
            timeline,
            0,
        ),
    decreases timeline.len(),
{
    if timeline.len() > 0 {
        lemma_placed(timeline.drop_last(), start);
        let rest = messages::writes_from(timeline.drop_last(), start);
        let last = messages::stamped(timeline.last(), start);
        assert(placed(rest + last, start) =~= placed(rest, start) + placed(last, start));
        assert(placed(last, start) =~= messages::stamped(timeline.last(), 0));
    } else {
        assert(placed(messages::writes_from(timeline, start), start) =~= Seq::empty());
    }
}

/// An empty stretch of a timeline.
proof fn lemma_window_past(timeline: Seq<(u64, Seq<Seq<u8>>)>, from: int, to: int)
    requires
        forall|i: int| 0 <= i < timeline.len() ==> (#[trigger] timeline[i]).0 < from,
    ensures
        messages::window(timeline, from, to) == Seq::<(u64, Seq<Seq<u8>>)>::empty(),
    decreases timeline.len(),
{
    reveal(Seq::filter);
    if timeline.len() > 0 {
        assert(timeline.last().0 < from);
        assert forall|i: int| 0 <= i < timeline.drop_last().len() implies (
        #[trigger] timeline.drop_last()[i]).0 < from by {
            assert(timeline[i].0 < from);
        }
        lemma_window_past(timeline.drop_last(), from, to);
    }
}

/// Two stretches of a timeline that meet are one.
proof fn lemma_windows_meet(timeline: Seq<(u64, Seq<Seq<u8>>)>, from: int, mid: int, to: int)
    requires
        messages::ascending_cycles(timeline),
        from <= mid <= to,
    ensures
        messages::window(timeline, from, to) == messages::window(timeline, from, mid)
            + messages::window(timeline, mid, to),
    decreases timeline.len(),
{
    reveal(Seq::filter);
    if timeline.len() > 0 {
        let rest = timeline.drop_last();
        lemma_windows_meet(rest, from, mid, to);
        if timeline.last().0 < mid {
            assert forall|i: int| 0 <= i < timeline.len() implies (#[trigger] timeline[i]).0
                < mid by {
                assert(timeline[i].0 <= timeline.last().0);
            }
            lemma_window_past(timeline, mid, to);
            assert forall|i: int| 0 <= i < rest.len() implies (#[trigger] rest[i]).0 < mid by {
                assert(timeline[i].0 < mid);
            }
            lemma_window_past(rest, mid, to);
        }
        assert(messages::window(timeline, from, to) =~= messages::window(timeline, from, mid)
            + messages::window(timeline, mid, to));
    } else {
        assert(messages::window(timeline, from, to) =~= messages::window(timeline, from, mid)
            + messages::window(timeline, mid, to));
    }
}

/// The messages of two timelines one after the other.
proof fn lemma_writes_concat(
    first: Seq<(u64, Seq<Seq<u8>>)>,
    second: Seq<(u64, Seq<Seq<u8>>)>,
    start: int,
)
    ensures
        messages::writes_from(first + second, start) == messages::writes_from(first, start)
            + messages::writes_from(second, start),
    decreases second.len(),
{
    if second.len() == 0 {
        assert(first + second =~= first);
    } else {
        lemma_writes_concat(first, second.drop_last(), start);
        assert((first + second).drop_last() =~= first + second.drop_last());
    }
    assert(messages::writes_from(first + second, start) =~= messages::writes_from(first, start)
        + messages::writes_from(second, start));
}

/// While a score is being played each callback takes up where the one before left off: after
/// `n` of them the messages of the first `n` buffers have been written, each once, on its cycle,
/// in order, and nothing else.
pub proof fn law_callbacks_are_seamless(
    seq: usize,
    start: u64,
    data: PreparedScore,
    buffer_size: u32,
    n: nat,
)
    requires
        messages::ascending_cycles(data.timeline()),
        start + n * buffer_size <= u64::MAX,
        n > 1 ==> !player::ends_before(data.timeline(), start + (n - 1) * buffer_size),
    ensures
        ({
            let state = PlayState::Playing { seq, current_loc: start, play_data: data };
            let end = start + n * buffer_size;
            &&& written(state, buffer_size, n) == messages::writes_from(
                messages::window(data.timeline(), start as int, end),
                0,
            )
            &&& after(state, buffer_size, n) == if n > 0 && player::ends_before(
                data.timeline(),
                end,
            ) {
                PlayState::Init
            } else {
                PlayState::Playing { seq, current_loc: end as u64, play_data: data }
            }
        }),
    decreases n,
{
    let state = PlayState::Playing { seq, current_loc: start, play_data: data };
    let timeline = data.timeline();
    if n == 0 {
        assert(n * buffer_size == 0) by (nonlinear_arith)
            requires
                n == 0,
        ;
        lemma_window_empty(timeline, start as int);
        assert(messages::writes_from(
            Seq::<(u64, Seq<Seq<u8>>)>::empty(),
            0,
        ) =~= Seq::empty());
    } else {
        let m = (n - 1) as nat;
        let mid = start + m * buffer_size;
        let end = start + n * buffer_size;
        assert(n * buffer_size == m * buffer_size + buffer_size) by (nonlinear_arith)
            requires
                n == m + 1,
        ;
        if m > 0 {
            assert(m * buffer_size == (m - 1) * buffer_size + buffer_size) by (nonlinear_arith);
        }
        assert(m * buffer_size >= 0) by (nonlinear_arith)
            requires
                m >= 0,
                buffer_size >= 0,
        ;
        law_callbacks_are_seamless(seq, start, data, buffer_size, m);
        let last = after(state, buffer_size, m);
        assert(last == PlayState::Playing { seq, current_loc: mid as u64, play_data: data });
        lemma_placed(messages::window(timeline, mid, end), mid);
        lemma_windows_meet(timeline, start as int, mid, end);
        lemma_writes_concat(
            messages::window(timeline, start as int, mid),
            messages::window(timeline, mid, end),
            0,
        );
    }
}

proof fn lemma_window_empty(timeline: Seq<(u64, Seq<Seq<u8>>)>, from: int)
    ensures
        messages::window(timeline, from, from) == Seq::<(u64, Seq<Seq<u8>>)>::empty(),
    decreases timeline.len(),
{
    reveal(Seq::filter);
    if timeline.len() > 0 {
        lemma_window_empty(timeline.drop_last(), from);
    }
}

/// A score that has messages is played to its end: every message from the start on is written
/// once, on its cycle, in order, and nothing else; with the callback that reaches the last one
/// the player is idle again, and not before.
pub proof fn law_every_message_is_written_once(
    seq: usize,
    start: u64,
    data: PreparedScore,
    buffer_size: u32,
)
    requires
        messages::ascending_cycles(data.timeline()),
        data.timeline().len() > 0,
        buffer_size > 0,
        start + callbacks_needed(data.timeline(), start as int, buffer_size) * buffer_size
            <= u64::MAX,
    ensures
        ({
            let state = PlayState::Playing { seq, current_loc: start, play_data: data };
            let n = callbacks_needed(data.timeline(), start as int, buffer_size);
            &&& written(state, buffer_size, n) == messages_from(data.timeline(), start as int)
            &&& after(state, buffer_size, n) == PlayState::Init
            &&& forall|k: nat| k < n ==> #[trigger] after(state, buffer_size, k) is Playing
        }),
{
    let state = PlayState::Playing { seq, current_loc: start, play_data: data };
    let timeline = data.timeline();
    let n = callbacks_needed(timeline, start as int, buffer_size);
    let end = start + n * buffer_size;
    let last = timeline.last().0 as int;
    let size = buffer_size as int;
    if last < start {
        assert(n * buffer_size == size) by (nonlinear_arith)
            requires
                n == 1,
                size == buffer_size,
        ;
    } else {
        let q = (last - start) / size;
        vstd::arithmetic::div_mod::lemma_fundamental_div_mod(last - start, size);
        vstd::arithmetic::div_mod::lemma_div_pos_is_pos(last - start, size);
        assert(size * q <= last - start < size * (q + 1)) by (nonlinear_arith)
            requires
                last - start == size * q + (last - start) % size,
                0 <= (last - start) % size < size,
        ;
        assert(n * buffer_size == size * (q + 1)) by (nonlinear_arith)
            requires
                n == q + 1,
                size == buffer_size,
        ;
        assert((n - 1) * buffer_size == size * q) by (nonlinear_arith)
            requires
                n == q + 1,
                size == buffer_size,
        ;
    }
    assert(last < end);
    law_callbacks_are_seamless(seq, start, data, buffer_size, n);
    lemma_windows_meet(timeline, start as int, end, u64::MAX + 1);
    assert forall|i: int| 0 <= i < timeline.len() implies (#[trigger] timeline[i]).0 < end by {
        assert(timeline[i].0 <= last);
    }
    lemma_window_past(timeline, end, u64::MAX + 1);
    assert(messages::window(timeline, start as int, end) + Seq::<
        (u64, Seq<Seq<u8>>),
    >::empty() =~= messages::window(timeline, start as int, end));
    assert forall|k: nat| k < n implies #[trigger] after(state, buffer_size, k) is Playing by {
        if k > 0 {
            assert(k * buffer_size <= (n - 1) * buffer_size) by (nonlinear_arith)
                requires
                    k <= n - 1,
            ;
            assert((k - 1) * buffer_size <= k * buffer_size) by (nonlinear_arith);
            assert((n - 1) * buffer_size <= n * buffer_size) by (nonlinear_arith);
            law_callbacks_are_seamless(seq, start, data, buffer_size, k);
        }
    }
}

/// What is written on one cycle, in order.
pub open spec fn bytes_on(writes: Seq<(int, Seq<u8>)>, cycle: int) -> Seq<Seq<u8>>
    decreases writes.len(),
{
    if writes.len() == 0 {
        Seq::empty()
    } else {
        bytes_on(writes.drop_last(), cycle) + if writes.last().0 == cycle {
            seq![writes.last().1]
        } else {
            Seq::empty()
        }
    }
}

proof fn lemma_bytes_concat(
    first: Seq<(int, Seq<u8>)>,
    second: Seq<(int, Seq<u8>)>,
    cycle: int,
)
    ensures
        bytes_on(first + second, cycle) == bytes_on(first, cycle) + bytes_on(second, cycle),
    decreases second.len(),
{
    if second.len() == 0 {
        assert(first + second =~= first);
    } else {
        lemma_bytes_concat(first, second.drop_last(), cycle);
        assert((first + second).drop_last() =~= first + second.drop_last());
    }
    assert(bytes_on(first + second, cycle) =~= bytes_on(first, cycle) + bytes_on(second, cycle));
}

proof fn lemma_bytes_of_entry(entry: (u64, Seq<Seq<u8>>), start: int, offset: int)
    ensures
        bytes_on(messages::stamped(entry, start), offset) == if entry.0 == start + offset {
            entry.1
        } else {
            Seq::empty()
        },
    decreases entry.1.len(),
{
    let writes = messages::stamped(entry, start);
    if entry.1.len() > 0 {
        let rest = (entry.0, entry.1.drop_last());
        lemma_bytes_of_entry(rest, start, offset);
        assert(writes.drop_last() =~= messages::stamped(rest, start));
        assert(entry.1 =~= entry.1.drop_last() + seq![entry.1.last()]);
    }
    assert(bytes_on(writes, offset) =~= if entry.0 == start + offset {
        entry.1
    } else {
        Seq::empty()
    });
}

/// The messages of a timeline at an offset from cycle `start` are those of the cycle there.
pub proof fn lemma_bytes_of_timeline(
    timeline: Seq<(u64, Seq<Seq<u8>>)>,
    start: int,
    offset: int,
)
    ensures
        bytes_on(messages::writes_from(timeline, start), offset) == messages::messages_at(
            timeline,
            start + offset,
        ),
    decreases timeline.len(),
{
    if timeline.len() > 0 {
        lemma_bytes_of_timeline(timeline.drop_last(), start, offset);
        lemma_bytes_concat(
            messages::writes_from(timeline.drop_last(), start),
            messages::stamped(timeline.last(), start),
            offset,
        );
        lemma_bytes_of_entry(timeline.last(), start, offset);
    }
}

/// A window has the messages of the cycles within it.
pub proof fn lemma_messages_in_window(
    timeline: Seq<(u64, Seq<Seq<u8>>)>,
    from: int,
    to: int,
    cycle: int,
)
    ensures
        messages::messages_at(messages::window(timeline, from, to), cycle) == if from <= cycle
            < to {
            messages::messages_at(timeline, cycle)
        } else {
            Seq::empty()
        },
    decreases timeline.len(),
{
    reveal(Seq::filter);
    if timeline.len() > 0 {
        let rest = timeline.drop_last();
        lemma_messages_in_window(rest, from, to, cycle);
        let part = messages::window(rest, from, to);
        if from <= timeline.last().0 < to {
            assert(messages::window(timeline, from, to) == part.push(timeline.last()));
            assert(part.push(timeline.last()).drop_last() =~= part);
        }
        assert(messages::messages_at(messages::window(timeline, from, to), cycle) =~= if from
            <= cycle < to {
            messages::messages_at(timeline, cycle)
        } else {
            Seq::empty()
        });
    }
}

proof fn lemma_nothing_at(timeline: Seq<(u64, Seq<Seq<u8>>)>, cycle: int)
    requires
        forall|i: int| 0 <= i < timeline.len() ==> (#[trigger] timeline[i]).0 != cycle,
    ensures
        messages::messages_at(timeline, cycle) == Seq::<Seq<u8>>::empty(),
    decreases timeline.len(),
{
    if timeline.len() > 0 {
        let rest = timeline.drop_last();
        assert(timeline.last().0 != cycle);
        assert forall|i: int| 0 <= i < rest.len() implies (#[trigger] rest[i]).0 != cycle by {
            assert(timeline[i].0 != cycle);
        }
        lemma_nothing_at(rest, cycle);
        assert(messages::messages_at(timeline, cycle) =~= Seq::empty());
    }
}

/// The last entry of a timeline has all messages of its cycle, and later cycles have none.
proof fn lemma_last_entry(timeline: Seq<(u64, Seq<Seq<u8>>)>)
    requires
        messages::ascending_cycles(timeline),
        timeline.len() > 0,
    ensures
        messages::messages_at(timeline, timeline.last().0 as int) == timeline.last().1,
        forall|cycle: int|
            cycle > timeline.last().0 ==> (#[trigger] messages::messages_at(timeline, cycle)).len()
                == 0,
{
    let rest = timeline.drop_last();
    assert forall|i: int| 0 <= i < rest.len() implies (#[trigger] rest[i]).0
        != timeline.last().0 by {
        assert(timeline[i].0 < timeline.last().0);
    }
    lemma_nothing_at(rest, timeline.last().0 as int);
    assert(messages::messages_at(timeline, timeline.last().0 as int) =~= timeline.last().1);
    assert forall|cycle: int| cycle > timeline.last().0 implies (
    #[trigger] messages::messages_at(timeline, cycle)).len() == 0 by {
        assert forall|i: int| 0 <= i < timeline.len() implies (#[trigger] timeline[i]).0
            != cycle by {
            assert(timeline[i].0 <= timeline.last().0);
        }
        lemma_nothing_at(timeline, cycle);
    }
}

/// Messages fix the timeline: there is one only that has the messages of given entries.
pub proof fn law_timeline_is_fixed_by_its_messages(
    first: Seq<(u64, Seq<Seq<u8>>)>,
    second: Seq<(u64, Seq<Seq<u8>>)>,
    entries: Seq<(u64, Seq<Seq<u8>>)>,
)
    requires
        messages::merges(first, entries),
        messages::merges(second, entries),
    ensures
        first == second,
    decreases first.len(),
{
    assert forall|cycle: int| #[trigger]
        messages::messages_at(first, cycle) == messages::messages_at(second, cycle) by {
        assert(messages::messages_at(first, cycle) == messages::messages_at(entries, cycle));
        assert(messages::messages_at(second, cycle) == messages::messages_at(entries, cycle));
    }
    if first.len() > 0 {
        lemma_last_entry(first);
    }
    if second.len() > 0 {
        lemma_last_entry(second);
    }
    if first.len() > 0 && second.len() == 0 {
        let at = first.last().0 as int;
        assert(messages::messages_at(first, at) == messages::messages_at(second, at));
        assert(first[first.len() - 1].1.len() > 0);
    }
    if second.len() > 0 && first.len() == 0 {
        let at = second.last().0 as int;
        assert(messages::messages_at(first, at) == messages::messages_at(second, at));
        assert(second[second.len() - 1].1.len() > 0);
    }
    if first.len() > 0 && second.len() > 0 {
        let a = first.last().0 as int;
        let b = second.last().0 as int;
        assert(messages::messages_at(first, a) == messages::messages_at(second, a));
        assert(messages::messages_at(first, b) == messages::messages_at(second, b));
        assert(first[first.len() - 1].1.len() > 0);
        assert(second[second.len() - 1].1.len() > 0);
        assert(first.last() == second.last());
        let rest = first.drop_last();
        let other = second.drop_last();
        assert forall|cycle: int| #[trigger]
            messages::messages_at(other, cycle) == messages::messages_at(rest, cycle) by {
            if cycle == a {
                assert forall|i: int| 0 <= i < rest.len() implies (#[trigger] rest[i]).0
                    != cycle by {
                    assert(first[i].0 < first.last().0);
                }
                assert forall|i: int| 0 <= i < other.len() implies (#[trigger] other[i]).0
                    != cycle by {
                    assert(second[i].0 < second.last().0);
                }
                lemma_nothing_at(rest, cycle);
                lemma_nothing_at(other, cycle);
            } else {
                assert(messages::messages_at(first, cycle) =~= messages::messages_at(rest, cycle));
                assert(messages::messages_at(second, cycle) =~= messages::messages_at(
                    other,
                    cycle,
                ));
                assert(messages::messages_at(first, cycle) == messages::messages_at(
                    second,
                    cycle,
                ));
            }
        }
        assert forall|i: int| 0 <= i < rest.len() implies (#[trigger] rest[i]).1.len() > 0 by {
            assert(first[i].1.len() > 0);
        }
        assert forall|i: int| 0 <= i < other.len() implies (#[trigger] other[i]).1.len() > 0 by {
            assert(second[i].1.len() > 0);
        }
        assert(messages::merges(rest, rest));
        assert(messages::merges(other, rest));
        law_timeline_is_fixed_by_its_messages(rest, other, rest);
        assert(first =~= rest.push(first.last()));
        assert(second =~= other.push(second.last()));
    } else {
        assert(first =~= second);
    }
}

/// A command to play carries the messages that klavier-core's own conversion gives for the
/// rendered score: they are the only ones that what is claimed of the conversion allows.
pub proof fn law_play_carries_the_converted_score(
    done: (Cmd, Vec<RenderRegionWarning>),
    sampling_rate: usize,
    seq: usize,
    start: Option<PlayStartTick>,
    events: MidiEvents,
    warnings: Seq<RenderRegionWarning>,
    converted: PlayData,
)
    requires
        player::play_outcome(Ok(done), sampling_rate, seq, start, Ok((events, warnings))),
        messages::merges(
            score::midi_data(converted),
            score::timed_messages(
                score::event_messages(events),
                player::table_of(events, sampling_rate),
                sampling_rate as int,
                timing::TICKS_PER_QUARTER as int,
            ),
        ),
    ensures
        done.0->play_data.timeline() == score::midi_data(converted),
{
    law_timeline_is_fixed_by_its_messages(
        done.0->play_data.timeline(),
        score::midi_data(converted),
        score::timed_messages(
            score::event_messages(events),
            player::table_of(events, sampling_rate),
            sampling_rate as int,
            timing::TICKS_PER_QUARTER as int,
        ),
    );
}

/// Two plays of one score carry the same: the whole score, not cut at the start position, and the
/// same warnings. From the same position they start on the same cycle, whatever their numbers.
pub proof fn law_plays_of_one_score_are_alike(
    first: (Cmd, Vec<RenderRegionWarning>),
    second: (Cmd, Vec<RenderRegionWarning>),
    sampling_rate: usize,
    first_seq: usize,
    second_seq: usize,
    first_start: Option<PlayStartTick>,
    second_start: Option<PlayStartTick>,
    rendered: Result<(MidiEvents, Seq<RenderRegionWarning>), RenderRegionError>,
)
    requires
        player::play_outcome(Ok(first), sampling_rate, first_seq, first_start, rendered),
        player::play_outcome(Ok(second), sampling_rate, second_seq, second_start, rendered),
    ensures
        first.0->play_data.timeline() == second.0->play_data.timeline(),
        first.0->play_data.points() == second.0->play_data.points(),
        first.0->play_data.chunks() == second.0->play_data.chunks(),
        first.1@ == second.1@,
        first_start == second_start ==> first.0->start_cycle == second.0->start_cycle,
{
    let events = rendered->Ok_0.0;
    law_timeline_is_fixed_by_its_messages(
        first.0->play_data.timeline(),
        second.0->play_data.timeline(),
        score::timed_messages(
            score::event_messages(events),
            player::table_of(events, sampling_rate),
            sampling_rate as int,
            timing::TICKS_PER_QUARTER as int,
        ),
    );
}

/// Playing of a score ends with the buffer that holds its last message: there is a message, and
/// none falls on the end of the buffer or later.
pub proof fn law_score_ends_with_its_last_message(
    data: PreparedScore,
    events: MidiEvents,
    rate: int,
    per_quarter: int,
    end: int,
)
    requires
        data.plays(events, rate, per_quarter),
    ensures
        ({
            let entries = score::timed_messages(
                score::event_messages(events),
                timing::timed_changes(score::tempo_changes(events), rate, per_quarter),
                rate,
                per_quarter,
            );
            player::ends_before(data.timeline(), end) <==> {
                &&& exists|cycle: int|
                    (#[trigger] messages::messages_at(entries, cycle)).len() > 0
                &&& forall|cycle: int|
                    cycle >= end ==> (#[trigger] messages::messages_at(entries, cycle)).len() == 0
            }
        }),
{
    let timeline = data.timeline();
    let entries = score::timed_messages(
        score::event_messages(events),
        timing::timed_changes(score::tempo_changes(events), rate, per_quarter),
        rate,
        per_quarter,
    );
    assert forall|cycle: int| #[trigger]
        messages::messages_at(entries, cycle) == messages::messages_at(timeline, cycle) by {
        assert(messages::messages_at(timeline, cycle) == messages::messages_at(entries, cycle));
    }
    if timeline.len() > 0 {
        lemma_last_entry(timeline);
        let last = timeline.last().0 as int;
        assert(timeline[timeline.len() - 1].1.len() > 0);
        assert(messages::messages_at(entries, last).len() > 0);
    }
}

/// A rendered score is played as it stands: over the whole of playing, what is written on a cycle
/// from the start on is what the score has on the ticks that fall on that cycle, in the order of
/// the score, and before the start nothing is written.
pub proof fn law_score_is_played_as_it_stands(
    seq: usize,
    start: u64,
    data: PreparedScore,
    events: MidiEvents,
    buffer_size: u32,
    sampling_rate: usize,
    cycle: u64,
)
    requires
        data.plays(events, sampling_rate as int, timing::TICKS_PER_QUARTER as int),
        data.timeline().len() > 0,
        buffer_size > 0,
        start + callbacks_needed(data.timeline(), start as int, buffer_size) * buffer_size
            <= u64::MAX,
    ensures
        ({
            let state = PlayState::Playing { seq, current_loc: start, play_data: data };
            let n = callbacks_needed(data.timeline(), start as int, buffer_size);
            let on_cycle = bytes_on(written(state, buffer_size, n), cycle as int);
            on_cycle == if cycle < start {
                Seq::empty()
            } else {
                messages::messages_at(
                    score::timed_messages(
                        score::event_messages(events),
                        player::table_of(events, sampling_rate),
                        sampling_rate as int,
                        timing::TICKS_PER_QUARTER as int,
                    ),
                    cycle as int,
                )
            }
        }),
{
    let timeline = data.timeline();
    law_every_message_is_written_once(seq, start, data, buffer_size);
    lemma_bytes_of_timeline(
        messages::window(timeline, start as int, u64::MAX + 1),
        0,
        cycle as int,
    );
    lemma_messages_in_window(timeline, start as int, u64::MAX + 1, cycle as int);
    assert(messages::messages_at(data.timeline(), cycle as int) == messages::messages_at(
        score::timed_messages(
            score::event_messages(events),
            player::table_of(events, sampling_rate),
            sampling_rate as int,
            timing::TICKS_PER_QUARTER as int,
        ),
        cycle as int,
    ));
}

/// Without a start position playing starts at cycle zero, whatever the tempo.
pub proof fn law_play_starts_at_the_beginning(
    cmd: Cmd,
    warnings: Vec<RenderRegionWarning>,
    seq: usize,
    events: MidiEvents,
    sampling_rate: usize,
)
    requires
        player::play_outcome(
            Ok((cmd, warnings)),
            sampling_rate,
            seq,
            None,
            Ok((events, warnings@)),
        ),
        player::playable(events, None, sampling_rate),
    ensures
        cmd->start_cycle == 0,
{
    timing_laws::law_beginning_is_cycle_zero(
        score::tempo_changes(events),
        sampling_rate as int,
        timing::TICKS_PER_QUARTER as int,
    );
}

/// Playing from a position is reported from that position: where at every tempo of the score a
/// tick takes a whole number of cycles, the first report names the tick that was asked for.
pub proof fn law_first_report_is_the_start(
    cmd: Cmd,
    warnings: Vec<RenderRegionWarning>,
    seq: usize,
    start: PlayStartTick,
    events: MidiEvents,
    buffer_size: u32,
    sampling_rate: usize,
)
    requires
        player::score_outcome(
            Ok((cmd, warnings)),
            sampling_rate,
            seq,
            Some(start),
            Ok((events, warnings@)),
        ),
        player::playable(events, Some(start), sampling_rate),
        timing_laws::whole_cycles(timing::DEFAULT_TEMPO as int, sampling_rate as int),
        forall|k: int|
            0 <= k < score::tempo_changes(events).len() ==> timing_laws::whole_cycles(
                (#[trigger] score::tempo_changes(events)[k]).1 as int,
                sampling_rate as int,
            ),
        !player::ends_before(
            cmd->play_data.timeline(),
            cmd->start_cycle + buffer_size,
        ),
    ensures
        player::state_after_cmd(Ok(cmd), PlayState::Init).reports(buffer_size, sampling_rate)
            == seq![
            Resp::Info {
                seq: Some(seq),
                info: CmdInfo::CurrentLoc {
                    seq,
                    tick: start.tick,
                    accum_tick: score::start_accum_tick(
                        score::chunks_of(events),
                        Some(start),
                    )->Ok_0,
                },
            },
        ],
{
    let rate = sampling_rate as int;
    let accum_tick = score::start_accum_tick(score::chunks_of(events), Some(start))->Ok_0;
    timing_laws::law_tick_is_reported_on_its_cycle(
        score::tempo_changes(events),
        rate,
        accum_tick,
    );
    timing_laws::law_start_leads_back(score::chunks_of(events), start);
}

/// The accumulated tick that a buffer reports, if it reports one.
pub open spec fn reported_tick(reports: Seq<Resp>) -> Option<u32> {
    if reports.len() != 1 {
        None
    } else {
        match reports[0] {
            Resp::Info { info: CmdInfo::CurrentLoc { accum_tick, .. }, .. } => Some(accum_tick),
            _ => None,
        }
    }
}

/// Playing from a position is reported from there at any tempo and sampling rate at which a tick
/// takes at least one cycle: the first report has the accumulated tick that was asked for or the
/// one before.
pub proof fn law_first_report_is_near_the_start(
    cmd: Cmd,
    warnings: Vec<RenderRegionWarning>,
    seq: usize,
    start: Option<PlayStartTick>,
    events: MidiEvents,
    buffer_size: u32,
    sampling_rate: usize,
)
    requires
        player::play_outcome(
            Ok((cmd, warnings)),
            sampling_rate,
            seq,
            start,
            Ok((events, warnings@)),
        ),
        player::playable(events, start, sampling_rate),
        timing_laws::a_cycle_or_more(timing::DEFAULT_TEMPO as int, sampling_rate as int),
        forall|k: int|
            0 <= k < score::tempo_changes(events).len() ==> timing_laws::a_cycle_or_more(
                (#[trigger] score::tempo_changes(events)[k]).1 as int,
                sampling_rate as int,
            ),
        !player::ends_before(
            cmd->play_data.timeline(),
            cmd->start_cycle + buffer_size,
        ),
    ensures
        ({
            let asked = score::start_accum_tick(score::chunks_of(events), start)->Ok_0;
            let reports = player::state_after_cmd(Ok(cmd), PlayState::Init).reports(
                buffer_size,
                sampling_rate,
            );
            &&& reported_tick(reports) is Some
            &&& asked - 1 <= reported_tick(reports)->0 <= asked
        }),
{
    let rate = sampling_rate as int;
    let accum_tick = score::start_accum_tick(score::chunks_of(events), start)->Ok_0;
    timing_laws::law_tick_is_reported_within_one(score::tempo_changes(events), rate, accum_tick);
}

/// Every buffer but the last reports the position of its first cycle.
pub proof fn law_buffers_report_their_start(
    seq: usize,
    start: u64,
    data: PreparedScore,
    buffer_size: u32,
    sampling_rate: usize,
    n: nat,
)
    requires
        messages::ascending_cycles(data.timeline()),
        start + (n + 1) * buffer_size <= u64::MAX,
        !player::ends_before(data.timeline(), start + (n + 1) * buffer_size),
    ensures
        ({
            let state = PlayState::Playing { seq, current_loc: start, play_data: data };
            let cycle = start + n * buffer_size;
            let rate = sampling_rate as u32 as int;
            after(state, buffer_size, n).reports(buffer_size, sampling_rate) == seq![
                Resp::Info {
                    seq: Some(seq),
                    info: CmdInfo::CurrentLoc {
                        seq,
                        tick: data.tick(cycle, rate) as u32,
                        accum_tick: data.accum_tick(cycle, rate) as u32,
                    },
                },
            ]
        }),
{
    assert((n + 1) * buffer_size == n * buffer_size + buffer_size) by (nonlinear_arith);
    assert((n - 1) * buffer_size == n * buffer_size - buffer_size) by (nonlinear_arith);
    law_callbacks_are_seamless(seq, start, data, buffer_size, n);
}

/// The positions that are reported while a rendered score is being played do not go back, as
/// long as the ticks since the last tempo change have 32 bits.
pub proof fn law_reports_do_not_go_back(
    seq: usize,
    start: u64,
    data: PreparedScore,
    events: MidiEvents,
    buffer_size: u32,
    sampling_rate: usize,
    m: nat,
    n: nat,
)
    requires
        sampling_rate <= u32::MAX,
        data.plays(events, sampling_rate as int, timing::TICKS_PER_QUARTER as int),
        m <= n,
        start + (n + 1) * buffer_size <= u64::MAX,
        !player::ends_before(data.timeline(), start + (n + 1) * buffer_size),
        forall|k: nat|
            k == m || k == n ==> {
                let cycle = start + k * buffer_size;
                let rate = sampling_rate as u32 as int;
                &&& (#[trigger] after(
                    PlayState::Playing { seq, current_loc: start, play_data: data },
                    buffer_size,
                    k,
                )).can_advance(buffer_size, sampling_rate)
                &&& timing_laws::uncut_tick(timing::point_at(data.points(), cycle), cycle, rate)
                    <= u32::MAX
            },
    ensures
        ({
            let state = PlayState::Playing { seq, current_loc: start, play_data: data };
            let earlier = after(state, buffer_size, m).reports(buffer_size, sampling_rate);
            let later = after(state, buffer_size, n).reports(buffer_size, sampling_rate);
            &&& reported_tick(earlier) is Some
            &&& reported_tick(later) is Some
            &&& reported_tick(earlier)->0 <= reported_tick(later)->0
        }),
{
    let state = PlayState::Playing { seq, current_loc: start, play_data: data };
    let rate = sampling_rate as u32 as int;
    let size = buffer_size as int;
    assert((m + 1) * size <= (n + 1) * size) by (nonlinear_arith)
        requires
            m <= n,
            size >= 0,
    ;
    assert(m * size <= n * size) by (nonlinear_arith)
        requires
            m <= n,
            size >= 0,
    ;
    assert(0 <= m * size) by (nonlinear_arith)
        requires
            size >= 0,
    ;
    assert((n + 1) * size == n * size + size) by (nonlinear_arith);
    assert((m + 1) * size == m * size + size) by (nonlinear_arith);
    assert((n - 1) * size == n * size - size) by (nonlinear_arith);
    assert((m - 1) * size == m * size - size) by (nonlinear_arith);
    law_buffers_report_their_start(seq, start, data, buffer_size, sampling_rate, m);
    law_buffers_report_their_start(seq, start, data, buffer_size, sampling_rate, n);
    law_callbacks_are_seamless(seq, start, data, buffer_size, m);
    law_callbacks_are_seamless(seq, start, data, buffer_size, n);
    let earlier = (start + m * buffer_size) as u64;
    let later = (start + n * buffer_size) as u64;
    assert(after(state, buffer_size, m).can_advance(buffer_size, sampling_rate));
    assert(after(state, buffer_size, n).can_advance(buffer_size, sampling_rate));
    timing_laws::law_position_does_not_go_back(
        score::tempo_changes(events),
        rate,
        earlier,
        later,
    );
}

/// A score without messages is played until it is stopped: nothing is written, every buffer
/// reports its position, and none reports the end.
pub proof fn law_empty_score_never_ends(
    seq: usize,
    start: u64,
    data: PreparedScore,
    buffer_size: u32,
    sampling_rate: usize,
    n: nat,
)
    requires
        data.timeline().len() == 0,
        start + n * buffer_size <= u64::MAX,
    ensures
        ({
            let state = PlayState::Playing { seq, current_loc: start, play_data: data };
            let rate = sampling_rate as u32 as int;
            &&& after(state, buffer_size, n) == PlayState::Playing {
                seq,
                current_loc: (start + n * buffer_size) as u64,
                play_data: data,
            }
            &&& written(state, buffer_size, n) == Seq::<(int, Seq<u8>)>::empty()
            &&& forall|k: nat|
                k < n ==> (#[trigger] after(state, buffer_size, k)).reports(
                    buffer_size,
                    sampling_rate,
                ) == seq![
                    Resp::Info {
                        seq: Some(seq),
                        info: CmdInfo::CurrentLoc {
                            seq,
                            tick: data.tick(start + k * buffer_size, rate) as u32,
                            accum_tick: data.accum_tick(start + k * buffer_size, rate) as u32,
                        },
                    },
                ]
        }),
{
    let state = PlayState::Playing { seq, current_loc: start, play_data: data };
    law_callbacks_are_seamless(seq, start, data, buffer_size, n);
    lemma_window_past(data.timeline(), start as int, start + n * buffer_size);
    let rate = sampling_rate as u32 as int;
    assert forall|k: nat| k < n implies (#[trigger] after(state, buffer_size, k)).reports(
        buffer_size,
        sampling_rate,
    ) == seq![
        Resp::Info {
            seq: Some(seq),
            info: CmdInfo::CurrentLoc {
                seq,
                tick: data.tick(start + k * buffer_size, rate) as u32,
                accum_tick: data.accum_tick(start + k * buffer_size, rate) as u32,
            },
        },
    ] by {
        assert((k + 1) * buffer_size <= n * buffer_size) by (nonlinear_arith)
            requires
                k + 1 <= n,
        ;
        law_buffers_report_their_start(seq, start, data, buffer_size, sampling_rate, k);
    }
}

/// The number of a command.
pub open spec fn number_of(cmd: Cmd) -> usize {
    match cmd {
        Cmd::Play { seq, .. } => seq,
        Cmd::Stop { seq } => seq,
    }
}

/// The number of the command that an answer is for.
pub open spec fn answered(resp: Resp) -> Option<usize> {
    match resp {
        Resp::Error { seq, .. } => seq,
        Resp::Info { seq, .. } => seq,
        Resp::Success { seq } => Some(seq),
    }
}

/// Every command is answered, under its own number, and the callback goes on.
pub proof fn law_every_command_is_answered(cmd: Cmd, state: PlayState)
    ensures
        player::answer(Ok(cmd), state) matches Some(resp) && answered(resp) == Some(
            number_of(cmd),
        ),
        player::control_after(Ok(cmd)) == Control::Continue,
{
}

/// Without a command nothing is answered and nothing changes; only the end of the channel ends
/// the callback.
pub proof fn law_no_command_changes_nothing(error: TryRecvError, state: PlayState)
    ensures
        player::answer(Err(error), state) is None,
        player::state_after_cmd(Err(error), state) == state,
        player::control_after(Err(error)) == Control::Quit <==> error == TryRecvError::Disconnected,
{
}

/// A command to play is refused unless the player is idle. The refusal changes nothing: what is
/// being played goes on.
pub proof fn law_refused_play_changes_nothing(
    seq: usize,
    play_data: PreparedScore,
    start_cycle: u64,
    state: PlayState,
)
    requires
        state !is Init,
    ensures
        player::answer(Ok(Cmd::Play { seq, play_data, start_cycle }), state) == Some(
            (Resp::Error { seq: Some(seq), error: CmdError::AlreadyPlaying }),
        ),
        player::state_after_cmd(Ok(Cmd::Play { seq, play_data, start_cycle }), state) == state,
{
}

/// A command to stop ends what is being played. The callback silences the instrument, reports
/// nothing more of the score, and is idle, ready for the next command to play.
pub proof fn law_stop_silences(
    seq: usize,
    state: PlayState,
    next_seq: usize,
    next_data: PreparedScore,
    next_start: u64,
    buffer_size: u32,
    sampling_rate: usize,
)
    requires
        state is Playing,
    ensures
        player::answer(Ok(Cmd::Stop { seq }), state) == Some(
            (Resp::Info { seq: Some(seq), info: CmdInfo::PlayingEnded }),
        ),
        ({
            let stopping = player::state_after_cmd(Ok(Cmd::Stop { seq }), state);
            let next = Cmd::Play {
                seq: next_seq,
                play_data: next_data,
                start_cycle: next_start,
            };
            &&& stopping.can_advance(buffer_size, sampling_rate)
            &&& stopping.writes(buffer_size) == messages::silence()
            &&& stopping.reports(buffer_size, sampling_rate) == Seq::<Resp>::empty()
            &&& stopping.next(buffer_size) == PlayState::Init
            &&& player::answer(Ok(next), stopping.next(buffer_size)) == Some(
                (Resp::Success { seq: next_seq }),
            )
        }),
{
}

/// Where nothing is being played a command to stop is taken and changes nothing.
pub proof fn law_stop_is_idempotent(seq: usize, state: PlayState)
    requires
        state !is Playing,
    ensures
        player::answer(Ok(Cmd::Stop { seq }), state) == Some((Resp::Success { seq })),
        player::state_after_cmd(Ok(Cmd::Stop { seq }), state) == state,
{
}

/// The state after a callback that has looked for a command.
pub open spec fn after_callback(
    state: PlayState,
    received: Result<Cmd, TryRecvError>,
    buffer_size: u32,
) -> PlayState {
    let taken = player::state_after_cmd(received, state);
    if player::control_after(received) == Control::Quit {
        taken
    } else {
        taken.next(buffer_size)
    }
}

/// The state after callbacks one after the other, each with what it found when it looked for a
/// command.
pub open spec fn after_callbacks(
    state: PlayState,
    received: Seq<Result<Cmd, TryRecvError>>,
    buffer_size: u32,
) -> PlayState
    decreases received.len(),
{
    if received.len() == 0 {
        state
    } else {
        after_callback(
            after_callbacks(state, received.drop_last(), buffer_size),
            received.last(),
            buffer_size,
        )
    }
}

/// Between callbacks the state is never `Stopping`, whatever commands come: the callback that
/// takes a command to stop also silences the instrument.
pub proof fn law_never_stopping_between_callbacks(
    state: PlayState,
    received: Seq<Result<Cmd, TryRecvError>>,
    buffer_size: u32,
)
    requires
        state !is Stopping,
    ensures
        after_callbacks(state, received, buffer_size) !is Stopping,
    decreases received.len(),
{
    if received.len() > 0 {
        law_never_stopping_between_callbacks(state, received.drop_last(), buffer_size);
    }
}

/// The status after answers one after the other.
pub open spec fn status_after_all(status: Status, answers: Seq<Resp>) -> Status
    decreases answers.len(),
{
    if answers.len() == 0 {
        status
    } else {
        tracker::status_after(
            status_after_all(status, answers.drop_last()),
            Some(answers.last()),
        )
    }
}

/// After any answers the status is that of the last report among them, whatever it was before,
/// and unchanged where there is none.
pub proof fn law_last_report_decides(status: Status, answers: Seq<Resp>)
    ensures
        forall|i: int|
            #![trigger answers[i]]
            0 <= i < answers.len() && answers[i] is Info && (forall|j: int|
                i < j < answers.len() ==> !((#[trigger] answers[j]) is Info))
                ==> status_after_all(status, answers) == tracker::status_after(
                status,
                Some(answers[i]),
            ),
        (forall|j: int| 0 <= j < answers.len() ==> !((#[trigger] answers[j]) is Info))
            ==> status_after_all(status, answers) == status,
    decreases answers.len(),
{
    if answers.len() > 0 {
        let rest = answers.drop_last();
        law_last_report_decides(status, rest);
        assert forall|i: int|
            #![trigger answers[i]]
            0 <= i < answers.len() && answers[i] is Info && (forall|j: int|
                i < j < answers.len() ==> !((#[trigger] answers[j]) is Info)) implies
            status_after_all(status, answers) == tracker::status_after(
            status,
            Some(answers[i]),
        ) by {
            if i < rest.len() {
                assert(!(answers[answers.len() - 1] is Info));
                assert(rest[i] == answers[i]);
                assert forall|j: int| i < j < rest.len() implies !((
                #[trigger] rest[j]) is Info) by {
                    assert(!(answers[j] is Info));
                }
            }
        }
        if forall|j: int| 0 <= j < answers.len() ==> !((#[trigger] answers[j]) is Info) {
            assert(!(answers[answers.len() - 1] is Info));
            assert forall|j: int| 0 <= j < rest.len() implies !((#[trigger] rest[j]) is Info) by {
                assert(!(answers[j] is Info));
            }
        }
    }
}

/// The tracker's status follows the reports: what is being played with its position, and
/// `Stopped` with the last buffer, whatever the status was.
pub proof fn law_status_follows_reports(
    status: Status,
    seq: usize,
    current_loc: u64,
    data: PreparedScore,
    buffer_size: u32,
    sampling_rate: usize,
)
    ensures
        ({
            let state = PlayState::Playing { seq, current_loc, play_data: data };
            let reports = state.reports(buffer_size, sampling_rate);
            let rate = sampling_rate as u32 as int;
            &&& reports.len() == 1
            &&& tracker::status_after(status, Some(reports[0])) == if state.next(
                buffer_size,
            ) is Init {
                Status::Stopped
            } else {
                Status::Playing {
                    seq,
                    tick: data.tick(current_loc as int, rate) as u32,
                    accum_tick: data.accum_tick(current_loc as int, rate) as u32,
                }
            }
        }),
{
}

/// A command to stop what is being played brings the tracker to `Stopped`.
pub proof fn law_stop_reaches_stopped(status: Status, seq: usize, state: PlayState)
    requires
        state is Playing,
    ensures
        tracker::status_after(
            status,
            player::answer(Ok(Cmd::Stop { seq }), state),
        ) == Status::Stopped,
{
}

/// Failures and mere confirmations leave the tracker's status as it is.
pub proof fn law_confirmations_change_no_status(
    status: Status,
    seq: Option<usize>,
    error: CmdError,
    done: usize,
)
    ensures
        tracker::status_after(status, Some((Resp::Error { seq, error }))) == status,
        tracker::status_after(status, Some((Resp::Success { seq: done }))) == status,
{
}

/// Commands to play are numbered one after the other, each that is delivered under a number of
/// its own.
pub proof fn law_plays_are_numbered(
    tracker: Tracker,
    seq: usize,
    made: (Cmd, Vec<RenderRegionWarning>),
    made_next: (Cmd, Vec<RenderRegionWarning>),
    start: Option<PlayStartTick>,
    start_next: Option<PlayStartTick>,
    rendered: Result<(MidiEvents, Seq<RenderRegionWarning>), RenderRegionError>,
    rendered_next: Result<(MidiEvents, Seq<RenderRegionWarning>), RenderRegionError>,
)
    requires
        tracker.seq < usize::MAX,
        tracker.play_outcome(Ok(made), start, rendered),
        tracker.after_play_sent(seq, true).play_outcome(
            Ok(made_next),
            start_next,
            rendered_next,
        ),
    ensures
        number_of(made.0) == tracker.seq,
        number_of(made_next.0) == number_of(made.0) + 1,
{
}

/// What happens to a tracker: a command was handed to the channel or could not be, or an answer
/// came, `None` being the end of the channel.
pub enum TrackerEvent {
    PlaySent { seq: usize, delivered: bool },
    StopSent { seq: usize, delivered: bool },
    Answer { received: Option<Resp> },
}

/// The tracker after an event.
pub open spec fn after_event(tracker: Tracker, event: TrackerEvent) -> Tracker {
    match event {
        TrackerEvent::PlaySent { seq, delivered } => tracker.after_play_sent(seq, delivered),
        TrackerEvent::StopSent { seq, delivered } => tracker.after_stop_sent(seq, delivered),
        TrackerEvent::Answer { received } => Tracker {
            status: tracker::status_after(tracker.status, received),
            ..tracker
        },
    }
}

/// The tracker after events one after the other.
pub open spec fn after_events(tracker: Tracker, events: Seq<TrackerEvent>) -> Tracker
    decreases events.len(),
{
    if events.len() == 0 {
        tracker
    } else {
        after_event(after_events(tracker, events.drop_last()), events.last())
    }
}

/// How many commands to play were delivered.
pub open spec fn delivered_plays(events: Seq<TrackerEvent>) -> nat
    decreases events.len(),
{
    if events.len() == 0 {
        0
    } else {
        delivered_plays(events.drop_last()) + match events.last() {
            TrackerEvent::PlaySent { delivered: true, .. } => 1nat,
            _ => 0nat,
        }
    }
}

/// A tracker counts the plays that were delivered, whatever else happens: after `n` of them its
/// counter has gone up by `n`. It has the same player throughout.
pub proof fn law_delivered_plays_are_counted(tracker: Tracker, events: Seq<TrackerEvent>)
    requires
        tracker.seq + delivered_plays(events) <= usize::MAX,
    ensures
        after_events(tracker, events).seq == tracker.seq + delivered_plays(events),
        after_events(tracker, events).player == tracker.player,
    decreases events.len(),
{
    if events.len() > 0 {
        law_delivered_plays_are_counted(tracker, events.drop_last());
    }
}

/// Of a tracker that starts to count at zero, the command to play that is made after `n` delivered
/// plays carries the number `n`.
pub proof fn law_play_carries_the_count(
    tracker: Tracker,
    events: Seq<TrackerEvent>,
    made: (Cmd, Vec<RenderRegionWarning>),
    start: Option<PlayStartTick>,
    rendered: Result<(MidiEvents, Seq<RenderRegionWarning>), RenderRegionError>,
)
    requires
        tracker.seq == 0,
        delivered_plays(events) <= usize::MAX,
        after_events(tracker, events).play_outcome(Ok(made), start, rendered),
    ensures
        number_of(made.0) == delivered_plays(events),
{
    law_delivered_plays_are_counted(tracker, events);
}

/// Once the command to stop is on its way a request to play is refused, under the number of the
/// request to stop, until the player has answered.
pub proof fn law_no_play_while_stopping(
    tracker: Tracker,
    seq: usize,
    cmd_seq: usize,
    state: PlayState,
    done: Result<(Cmd, Vec<RenderRegionWarning>), TrackerError>,
    start: Option<PlayStartTick>,
    rendered: Result<(MidiEvents, Seq<RenderRegionWarning>), RenderRegionError>,
)
    requires
        tracker.player is Some,
        state is Playing,
        tracker.after_stop_sent(seq, true).play_outcome(done, start, rendered),
    ensures
        done == Err::<(Cmd, Vec<RenderRegionWarning>), TrackerError>(
            TrackerError::PlayerStopping { seq },
        ),
        ({
            let stopping = tracker.after_stop_sent(seq, true);
            let answered = Tracker {
                status: tracker::status_after(
                    stopping.status,
                    player::answer(Ok(Cmd::Stop { seq: cmd_seq }), state),
                ),
                ..stopping
            };
            answered.admits_play()
        }),
{
}

} // verus!
