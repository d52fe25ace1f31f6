//! A score that is ready to be played.
use klavier_core::midi_events::MidiEvents;
use klavier_core::tempo::TempoValue;
use klavier_helper::store::Store;
use vstd::prelude::*;

use crate::messages;
use crate::score;
use crate::timing;

verus! {

/// What the process callback plays from: the messages by cycle, and what it takes to tell the
/// position in the score at a cycle. The tempo points and the chunks are kept a second time as
/// plain values, by which a position can be told to be out of range before it is asked for.
pub struct PreparedScore {
    data: klavier_core::midi_events::PlayData,
    points: Vec<(u64, u32, u16)>,
    chunks: Vec<(u32, u32, u32)>,
}

impl PreparedScore {
    /// The messages by cycle.
    pub closed spec fn timeline(self) -> Seq<(u64, Seq<Seq<u8>>)> {
        score::midi_data(self.data)
    }

    /// The tempo changes by cycle.
    pub closed spec fn points(self) -> Seq<(u64, u32, u16)> {
        self.points@
    }

    /// The chunks in playing order.
    pub closed spec fn chunks(self) -> Seq<(u32, u32, u32)> {
        self.chunks@
    }

    #[verifier::type_invariant]
    spec fn well_formed(self) -> bool {
        &&& messages::ascending_cycles(score::midi_data(self.data))
        &&& forall|cycle: int| #[trigger]
            timing::point_at(score::tempo_track(self.data), cycle) == timing::point_at(
                self.points@,
                cycle,
            )
        &&& score::chunk_track(self.data) == self.chunks@
    }

    /// The accumulated tick that is reached at a cycle.
    pub open spec fn accum_tick(self, cycle: int, rate: int) -> int {
        timing::accum_tick_from(timing::point_at(self.points(), cycle), cycle, rate)
    }

    /// The tick of the score that is reached at a cycle.
    pub open spec fn tick(self, cycle: int, rate: int) -> int {
        let accum_tick = self.accum_tick(cycle, rate);
        timing::tick_from(timing::chunk_at(self.chunks(), accum_tick), accum_tick)
    }

    /// The position at a cycle can be computed.
    pub open spec fn can_locate(self, cycle: int, rate: int) -> bool {
        &&& timing::accum_tick_fits(timing::point_at(self.points(), cycle), cycle, rate)
        &&& self.tick(cycle, rate) <= u32::MAX
    }

    /// Every message of `events` is there, at its cycle, and nothing else, with the tempo changes
    /// and the chunks.
    /// The tempo changes come one after the other, on cycles that can be computed, and none
    /// brings time to a halt.
    pub open spec fn plays(self, events: MidiEvents, rate: int, per_quarter: int) -> bool {
        let changes = score::tempo_changes(events);
        let table = timing::timed_changes(changes, rate, per_quarter);
        &&& messages::merges(
            self.timeline(),
            score::timed_messages(score::event_messages(events), table, rate, per_quarter),
        )
        &&& self.points() == timing::tempo_points(changes, table, rate, per_quarter)
        &&& self.chunks() == score::chunks_of(events)
        &&& timing::ascending_changes(changes)
        &&& timing::changes_fit(changes, rate, per_quarter)
        &&& forall|i: int| 0 <= i < changes.len() ==> (#[trigger] changes[i]).1 != 0
    }

    /// Prepares a rendered score.
    pub(crate) fn new(
        events: MidiEvents,
        table: Store<u32, (TempoValue, u64), ()>,
        rate: u32,
        per_quarter: u32,
    ) -> (prepared: Self)
        requires
            per_quarter != 0,
            timing::changes_fit(score::tempo_changes(events), rate as int, per_quarter as int),
            score::cycle_table(table) == timing::timed_changes(
                score::tempo_changes(events),
                rate as int,
                per_quarter as int,
            ),
            score::messages_fit(events, rate as int, per_quarter as int),
        ensures
            prepared.plays(events, rate as int, per_quarter as int),
    {
        let changes: Vec<(u32, u16)> = score::read_tempo_changes(&events);
        let chunks: Vec<(u32, u32, u32)> = score::read_chunks(&events);
        let ghost entries = score::cycle_table(table);
        let ghost all = timing::tempo_points(
            changes@,
            entries,
            rate as int,
            per_quarter as int,
        );
        proof {
            assert forall|i: int| 0 <= i < changes@.len() implies (#[trigger] changes@[i]).1
                != 0 by {
                timing::lemma_change_at(changes@, rate as int, per_quarter as int, i);
            }
            timing::lemma_tempo_points(changes@, rate as int, per_quarter as int);
        }
        let mut points: Vec<(u64, u32, u16)> = Vec::new();
        let mut i: usize = 0;
        while i < changes.len()
            invariant
                i <= changes@.len(),
                per_quarter != 0,
                changes@ == score::tempo_changes(events),
                entries == score::cycle_table(table),
                entries == timing::timed_changes(changes@, rate as int, per_quarter as int),
                score::messages_fit(events, rate as int, per_quarter as int),
                all == timing::tempo_points(changes@, entries, rate as int, per_quarter as int),
                points@ == all.take(i as int),
            decreases changes@.len() - i,
        {
            let tick: u32 = changes[i].0;
            let tempo: u16 = changes[i].1;
            let cycle: u64 = MidiEvents::accum_tick_to_cycle(&table, tick, rate, per_quarter);
            points.push((cycle, tick, tempo));
            i = i + 1;
            assert(points@ =~= all.take(i as int));
        }
        assert(points@ =~= all);
        let data: klavier_core::midi_events::PlayData = events.to_play_data(
            table,
            rate,
            per_quarter,
        );
        PreparedScore { data, points, chunks }
    }

    /// The messages from cycle `from` up to but not at cycle `to`, in ascending order of cycles.
    pub fn between(&self, from: u64, to: u64) -> (entries: &[(u64, Vec<Vec<u8>>)])
        requires
            from <= to,
        ensures
            entries.deep_view() == messages::window(self.timeline(), from as int, to as int),
            messages::ascending_cycles(self.timeline()),
    {
        proof {
            use_type_invariant(self);
        }
        score::midi_data_range(&self.data, from, to)
    }

    /// The cycle of the last message, which is the greatest.
    pub fn last_cycle(&self) -> (cycle: Option<u64>)
        ensures
            cycle == if self.timeline().len() == 0 {
                None
            } else {
                Some(self.timeline().last().0)
            },
            messages::ascending_cycles(self.timeline()),
    {
        proof {
            use_type_invariant(self);
        }
        score::midi_data_last(&self.data)
    }

    /// Tells whether the position at a cycle can be computed.
    pub fn is_locatable(&self, cycle: u64, rate: u32) -> (locatable: bool)
        ensures
            locatable == self.can_locate(cycle as int, rate as int),
    {
        match timing::checked_accum_tick(&self.points, cycle, rate) {
            None => false,
            Some(accum_tick) => timing::checked_tick(&self.chunks, accum_tick).is_some(),
        }
    }

    /// The accumulated tick that is reached at a cycle.
    pub fn cycle_to_tick(&self, cycle: u64, rate: u32) -> (accum_tick: u32)
        requires
            self.can_locate(cycle as int, rate as int),
        ensures
            accum_tick == self.accum_tick(cycle as int, rate as int),
    {
        proof {
            use_type_invariant(self);
        }
        self.data.cycle_to_tick(cycle, rate)
    }

    /// The tick of the score that is played at an accumulated tick.
    pub fn accum_tick_to_tick(&self, accum_tick: u32) -> (tick: u32)
        requires
            timing::tick_from(
                timing::chunk_at(self.chunks(), accum_tick as int),
                accum_tick as int,
            ) <= u32::MAX,
        ensures
            tick == timing::tick_from(
                timing::chunk_at(self.chunks(), accum_tick as int),
                accum_tick as int,
            ),
    {
        proof {
            use_type_invariant(self);
        }
        self.data.accum_tick_to_tick(accum_tick)
    }
}

fn copied<T: Copy>(items: &Vec<T>) -> (copy: Vec<T>)
    ensures
        copy@ == items@,
{
    let mut copy: Vec<T> = Vec::with_capacity(items.len());
    let mut i: usize = 0;
    while i < items.len()
        invariant
            i <= items@.len(),
            copy@ == items@.take(i as int),
        decreases items@.len() - i,
    {
        copy.push(items[i]);
        i = i + 1;
        assert(copy@ =~= items@.take(i as int));
    }
    assert(copy@ =~= items@);
    copy
}

impl Clone for PreparedScore {
    fn clone(&self) -> (copy: Self)
        ensures
            copy.timeline() == self.timeline(),
            copy.points() == self.points(),
            copy.chunks() == self.chunks(),
    {
        proof {
            use_type_invariant(self);
        }
        let data: klavier_core::midi_events::PlayData = self.data.clone();
        let points: Vec<(u64, u32, u16)> = copied(&self.points);
        let chunks: Vec<(u32, u32, u32)> = copied(&self.chunks);
        PreparedScore { data, points, chunks }
    }
}

} // verus!
