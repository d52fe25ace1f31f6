//! What holds of musical time and audio time as a whole.
use vstd::arithmetic::div_mod::lemma_div_is_ordered;
use vstd::arithmetic::div_mod::lemma_div_multiples_vanish;
use vstd::arithmetic::div_mod::lemma_div_nonincreasing;
use vstd::arithmetic::div_mod::lemma_div_pos_is_pos;
use vstd::arithmetic::div_mod::lemma_fundamental_div_mod;
use vstd::arithmetic::div_mod::lemma_multiply_divide_le;
use vstd::prelude::*;

use crate::score;
use crate::score::PlayStartTick;
use crate::timing;

verus! {

/// The highest sampling rate at which no score can be too long to compute with.
pub const ORDINARY_RATE: u32 = 0x400_0000;

proof fn lemma_cycles_at_most(ticks: int, tempo: int, rate: int, per_quarter: int)
    requires
        ticks >= 0,
        tempo > 0,
        rate >= 0,
        per_quarter > 0,
    ensures
        0 <= timing::ticks_to_cycles(ticks, tempo, rate, per_quarter) <= ticks * rate * 60,
{
    let frames = ticks * rate * 60;
    assert(frames >= 0) by (nonlinear_arith)
        requires
            frames == ticks * rate * 60,
            ticks >= 0,
            rate >= 0,
    ;
    lemma_div_pos_is_pos(frames, tempo);
    lemma_div_nonincreasing(frames, tempo);
    lemma_div_pos_is_pos(frames / tempo, per_quarter);
    lemma_div_nonincreasing(frames / tempo, per_quarter);
}

proof fn lemma_frames_fit(ticks: int, bound: int, rate: int)
    requires
        0 <= ticks <= bound,
        rate >= 0,
        bound * rate * 60 <= u64::MAX,
    ensures
        ticks * rate * 60 <= u64::MAX,
{
    assert(ticks * rate * 60 <= bound * rate * 60) by (nonlinear_arith)
        requires
            0 <= ticks <= bound,
            rate >= 0,
    ;
}

proof fn lemma_change_fits(
    changes: Seq<(u32, u16)>,
    rate: int,
    per_quarter: int,
    bound: u32,
    i: int,
)
    requires
        0 <= i < changes.len(),
        rate >= 0,
        per_quarter > 0,
        bound * rate * 60 <= u64::MAX,
        timing::ascending_changes(changes),
        forall|k: int|
            0 <= k < changes.len() ==> (#[trigger] changes[k]).1 > 0 && changes[k].0 <= bound,
    ensures
        timing::change_fits(changes, rate, per_quarter, i),
        0 <= timing::change_cycle(changes, rate, per_quarter, i) <= changes[i].0 * rate * 60,
    decreases i,
{
    let ticks = changes[i].0 - timing::tick_before(changes, i);
    if i > 0 {
        lemma_change_fits(changes, rate, per_quarter, bound, i - 1);
        assert(changes[i - 1].1 > 0);
        let before = changes[i - 1].0 as int;
        assert(before * rate * 60 + ticks * rate * 60 == changes[i].0 * rate * 60)
            by (nonlinear_arith)
            requires
                before + ticks == changes[i].0,
        ;
    }
    lemma_cycles_at_most(ticks, timing::tempo_before(changes, i), rate, per_quarter);
    lemma_frames_fit(ticks, bound as int, rate);
    lemma_frames_fit(changes[i].0 as int, bound as int, rate);
}

/// A score is not too long as long as its last tick is not: where no tempo is zero, no tick lies
/// beyond `bound` and `bound * rate * 60` has 64 bits, the cycle of every tempo change and of every
/// tick up to the bound can be computed.
pub proof fn law_ticks_within_bound_fit(
    changes: Seq<(u32, u16)>,
    rate: int,
    per_quarter: int,
    bound: u32,
    tick: u32,
)
    requires
        rate >= 0,
        per_quarter > 0,
        bound * rate * 60 <= u64::MAX,
        tick <= bound,
        timing::ascending_changes(changes),
        forall|k: int|
            0 <= k < changes.len() ==> (#[trigger] changes[k]).1 > 0 && changes[k].0 <= bound,
    ensures
        timing::changes_fit(changes, rate, per_quarter),
        timing::cycle_fits(
            timing::timed_changes(changes, rate, per_quarter),
            rate,
            per_quarter,
            tick as int,
        ),
{
    assert forall|i: int| 0 <= i < changes.len() implies #[trigger] timing::change_fits(
        changes,
        rate,
        per_quarter,
        i,
    ) by {
        lemma_change_fits(changes, rate, per_quarter, bound, i);
    }
    let table = timing::timed_changes(changes, rate, per_quarter);
    let keys = table.map_values(|e: (u32, u16, u64)| e.0 as int);
    timing::lemma_last_at_or_before(keys, tick as int);
    let i = timing::change_at(table, tick as int);
    lemma_frames_fit(tick as int, bound as int, rate);
    if i >= 0 {
        lemma_change_fits(changes, rate, per_quarter, bound, i);
        assert(changes[i].1 > 0);
        let since = tick - changes[i].0;
        assert(keys[i] == changes[i].0);
        lemma_cycles_at_most(since, changes[i].1 as int, rate, per_quarter);
        assert(changes[i].0 * rate * 60 + since * rate * 60 == tick * rate * 60)
            by (nonlinear_arith)
            requires
                changes[i].0 + since == tick,
        ;
        lemma_frames_fit(since, bound as int, rate);
    }
}

/// At the sampling rates of audio servers no score is too long: where no tempo is zero, the
/// cycle of every tempo change and of every tick can be computed in 64 bits.
pub proof fn law_ordinary_rates_fit(
    changes: Seq<(u32, u16)>,
    rate: int,
    per_quarter: int,
    tick: u32,
)
    requires
        0 <= rate <= ORDINARY_RATE,
        per_quarter > 0,
        timing::ascending_changes(changes),
        forall|k: int| 0 <= k < changes.len() ==> (#[trigger] changes[k]).1 > 0,
    ensures
        timing::changes_fit(changes, rate, per_quarter),
        timing::cycle_fits(
            timing::timed_changes(changes, rate, per_quarter),
            rate,
            per_quarter,
            tick as int,
        ),
{
    assert(u32::MAX * rate * 60 <= u64::MAX) by (nonlinear_arith)
        requires
            0 <= rate <= ORDINARY_RATE,
    ;
    law_ticks_within_bound_fit(changes, rate, per_quarter, u32::MAX, tick);
}

/// Playing from the beginning starts at cycle zero, whatever the tempo.
pub proof fn law_beginning_is_cycle_zero(
    changes: Seq<(u32, u16)>,
    rate: int,
    per_quarter: int,
)
    requires
        rate >= 0,
        per_quarter > 0,
        timing::ascending_changes(changes),
        timing::changes_fit(changes, rate, per_quarter),
        timing::cycle_fits(
            timing::timed_changes(changes, rate, per_quarter),
            rate,
            per_quarter,
            0,
        ),
    ensures
        timing::cycle_of(
            timing::timed_changes(changes, rate, per_quarter),
            rate,
            per_quarter,
            0,
        ) == 0,
{
    let table = timing::timed_changes(changes, rate, per_quarter);
    let keys = table.map_values(|e: (u32, u16, u64)| e.0 as int);
    timing::lemma_last_at_or_before(keys, 0);
    let i = timing::change_at(table, 0);
    if i < 0 {
        lemma_cycles_at_most(0, timing::DEFAULT_TEMPO as int, rate, per_quarter);
    } else {
        assert(keys[i] == changes[i].0);
        if i > 0 {
            assert(changes[0].0 < changes[i].0);
        }
        assert(timing::change_fits(changes, rate, per_quarter, 0));
        lemma_cycles_at_most(0, timing::tempo_before(changes, 0), rate, per_quarter);
        lemma_cycles_at_most(0, changes[0].1 as int, rate, per_quarter);
    }
}

/// In the time that some ticks take no more than those ticks go by.
pub proof fn law_ticks_do_not_run_ahead(cycles: int, ticks: int, tempo: int, rate: int)
    requires
        tempo > 0,
        rate > 0,
        ticks >= 0,
        0 <= cycles <= timing::ticks_to_cycles(ticks, tempo, rate, 240),
    ensures
        0 <= timing::cycles_to_ticks(cycles, tempo, rate) <= ticks,
{
    let frames = ticks * rate * 60;
    let whole = frames / tempo;
    let most = whole / 240;
    lemma_fundamental_div_mod(frames, tempo);
    lemma_fundamental_div_mod(whole, 240);
    assert(frames >= 0) by (nonlinear_arith)
        requires
            frames == ticks * rate * 60,
            ticks >= 0,
            rate > 0,
    ;
    let product = cycles * tempo * 240;
    assert(product <= rate * (60 * ticks)) by (nonlinear_arith)
        requires
            product == cycles * tempo * 240,
            0 <= cycles <= most,
            240 * most <= whole,
            tempo * whole <= frames,
            frames == ticks * rate * 60,
            tempo > 0,
    ;
    assert(product >= 0) by (nonlinear_arith)
        requires
            product == cycles * tempo * 240,
            cycles >= 0,
            tempo > 0,
    ;
    lemma_div_pos_is_pos(product, rate);
    lemma_multiply_divide_le(product, rate, 60 * ticks);
    lemma_div_pos_is_pos(product / rate, 60);
    lemma_multiply_divide_le(product / rate, 60, ticks);
}

/// A tick takes a whole number of cycles at this tempo, as at 48000 frames a second and 120
/// quarter notes a minute.
pub open spec fn whole_cycles(tempo: int, rate: int) -> bool {
    tempo > 0 && rate > 0 && rate * 60 == (rate * 60 / (tempo * 240)) * (tempo * 240)
}

/// Where a tick takes a whole number of cycles, ticks and cycles convert into each other
/// without loss.
pub proof fn law_whole_cycles_round_trip(ticks: int, tempo: int, rate: int)
    requires
        ticks >= 0,
        whole_cycles(tempo, rate),
    ensures
        timing::ticks_to_cycles(ticks, tempo, rate, 240) == ticks * (rate * 60 / (tempo * 240)),
        timing::cycles_to_ticks(
            timing::ticks_to_cycles(ticks, tempo, rate, 240),
            tempo,
            rate,
        ) == ticks,
{
    let k = rate * 60 / (tempo * 240);
    assert(ticks * rate * 60 == tempo * (240 * (ticks * k))) by (nonlinear_arith)
        requires
            rate * 60 == k * (tempo * 240),
    ;
    lemma_div_multiples_vanish(240 * (ticks * k), tempo);
    lemma_div_multiples_vanish(ticks * k, 240);
    let cycles = ticks * k;
    assert(cycles * tempo * 240 == rate * (60 * ticks)) by (nonlinear_arith)
        requires
            rate * 60 == k * (tempo * 240),
            cycles == ticks * k,
    ;
    lemma_div_multiples_vanish(60 * ticks, rate);
    lemma_div_multiples_vanish(ticks, 60);
}

/// The tempo points that a score is played with.
pub open spec fn points_of(changes: Seq<(u32, u16)>, rate: int) -> Seq<(u64, u32, u16)> {
    timing::tempo_points(changes, timing::timed_changes(changes, rate, 240), rate, 240)
}

/// A score can be timed: its changes ascend, none has a tempo of zero and the cycles fit.
pub open spec fn timed(changes: Seq<(u32, u16)>, rate: int) -> bool {
    &&& rate > 0
    &&& timing::ascending_changes(changes)
    &&& timing::changes_fit(changes, rate, 240)
    &&& forall|k: int| 0 <= k < changes.len() ==> (#[trigger] changes[k]).1 != 0
}

/// Tempo point `i` is tempo change `i` on its cycle.
proof fn lemma_point(changes: Seq<(u32, u16)>, rate: int, i: int)
    requires
        timed(changes, rate),
        0 <= i < changes.len(),
    ensures
        points_of(changes, rate)[i] == (
            timing::change_cycle(changes, rate, 240, i) as u64,
            changes[i].0,
            changes[i].1,
        ),
        0 <= timing::change_cycle(changes, rate, 240, i) <= u64::MAX,
{
    assert(changes[i].1 != 0);
    timing::lemma_cycle_of_change(changes, rate, 240, i);
    assert(timing::change_fits(changes, rate, 240, i));
    timing::lemma_change_cycles_ascend(changes, rate, 240, i, i);
}

/// Which tempo point is in force at a cycle, or -1.
spec fn point_index(changes: Seq<(u32, u16)>, rate: int, cycle: int) -> int {
    timing::last_at_or_before(
        points_of(changes, rate).map_values(|p: (u64, u32, u16)| p.0 as int),
        cycle,
    )
}

/// The accumulated tick at a cycle before it is cut to 32 bits.
pub open spec fn uncut_tick(point: Option<(u64, u32, u16)>, cycle: int, rate: int) -> int {
    match point {
        None => timing::cycles_to_ticks(cycle, timing::DEFAULT_TEMPO as int, rate),
        Some(p) => timing::cycles_to_ticks(cycle - p.0, p.2 as int, rate),
    }
}

proof fn lemma_cycles_to_ticks_ordered(c1: int, c2: int, tempo: int, rate: int)
    requires
        0 <= c1 <= c2,
        tempo >= 0,
        rate > 0,
    ensures
        0 <= timing::cycles_to_ticks(c1, tempo, rate) <= timing::cycles_to_ticks(c2, tempo, rate),
{
    let p1 = c1 * tempo * 240;
    let p2 = c2 * tempo * 240;
    assert(0 <= p1 <= p2) by (nonlinear_arith)
        requires
            p1 == c1 * tempo * 240,
            p2 == c2 * tempo * 240,
            0 <= c1 <= c2,
            tempo >= 0,
    ;
    lemma_div_pos_is_pos(p1, rate);
    lemma_div_pos_is_pos(p1 / rate, 60);
    lemma_div_is_ordered(p1, p2, rate);
    lemma_div_is_ordered(p1 / rate, p2 / rate, 60);
}

/// Before a tempo change is reached its tick is not passed.
proof fn lemma_not_past_next(changes: Seq<(u32, u16)>, rate: int, i: int, cycle: int)
    requires
        timed(changes, rate),
        -1 <= i < changes.len() - 1,
        cycle < timing::change_cycle(changes, rate, 240, i + 1),
        i < 0 ==> cycle >= 0,
        i >= 0 ==> cycle >= timing::change_cycle(changes, rate, 240, i),
    ensures
        ({
            let from = if i < 0 {
                0
            } else {
                timing::change_cycle(changes, rate, 240, i)
            };
            timing::tick_before(changes, i + 1) + timing::cycles_to_ticks(
                cycle - from,
                timing::tempo_before(changes, i + 1),
                rate,
            ) <= changes[i + 1].0
        }),
{
    let from = if i < 0 {
        0
    } else {
        timing::change_cycle(changes, rate, 240, i)
    };
    let ticks = changes[i + 1].0 - timing::tick_before(changes, i + 1);
    assert(timing::change_fits(changes, rate, 240, i + 1));
    if i >= 0 {
        assert(changes[i].0 < changes[i + 1].0);
    }
    law_ticks_do_not_run_ahead(cycle - from, ticks, timing::tempo_before(changes, i + 1), rate);
}

/// The position that is reported does not go back as playing goes on, as long as the ticks
/// since the last tempo change have 32 bits.
pub proof fn law_position_does_not_go_back(
    changes: Seq<(u32, u16)>,
    rate: int,
    earlier: u64,
    later: u64,
)
    requires
        timed(changes, rate),
        earlier <= later,
        uncut_tick(
            timing::point_at(points_of(changes, rate), earlier as int),
            earlier as int,
            rate,
        ) <= u32::MAX,
        uncut_tick(timing::point_at(points_of(changes, rate), later as int), later as int, rate)
            <= u32::MAX,
    ensures
        timing::accum_tick_from(
            timing::point_at(points_of(changes, rate), earlier as int),
            earlier as int,
            rate,
        ) <= timing::accum_tick_from(
            timing::point_at(points_of(changes, rate), later as int),
            later as int,
            rate,
        ),
{
    let points = points_of(changes, rate);
    let keys = points.map_values(|p: (u64, u32, u16)| p.0 as int);
    let c1 = earlier as int;
    let c2 = later as int;
    timing::lemma_last_at_or_before(keys, c1);
    timing::lemma_last_at_or_before(keys, c2);
    let i = point_index(changes, rate, c1);
    let j = point_index(changes, rate, c2);
    if i >= 0 {
        lemma_point(changes, rate, i);
        assert(keys[i] == points[i].0);
    }
    if j >= 0 {
        lemma_point(changes, rate, j);
        assert(keys[j] == points[j].0);
    }
    if i > j {
        assert(keys[i] > c2);
    }
    if i == j {
        if i >= 0 {
            lemma_cycles_to_ticks_ordered(
                c1 - points[i].0,
                c2 - points[i].0,
                points[i].2 as int,
                rate,
            );
        } else {
            lemma_cycles_to_ticks_ordered(c1, c2, timing::DEFAULT_TEMPO as int, rate);
        }
    } else {
        lemma_point(changes, rate, i + 1);
        assert(keys[i + 1] > c1);
        assert(keys[i + 1] == points[i + 1].0);
        lemma_not_past_next(changes, rate, i, c1);
        if i >= 0 {
            lemma_cycles_to_ticks_ordered(
                0,
                c1 - points[i].0,
                points[i].2 as int,
                rate,
            );
        } else {
            lemma_cycles_to_ticks_ordered(0, c1, timing::DEFAULT_TEMPO as int, rate);
        }
        lemma_cycles_to_ticks_ordered(0, c2 - points[j].0, points[j].2 as int, rate);
        if i + 1 < j {
            assert(changes[i + 1].0 < changes[j].0);
        }
    }
}

/// Where at every tempo of the score a tick takes a whole number of cycles, the position at the
/// cycle of an accumulated tick is that very tick.
pub proof fn law_tick_is_reported_on_its_cycle(changes: Seq<(u32, u16)>, rate: int, tick: u32)
    requires
        timed(changes, rate),
        whole_cycles(timing::DEFAULT_TEMPO as int, rate),
        forall|k: int|
            0 <= k < changes.len() ==> whole_cycles((#[trigger] changes[k]).1 as int, rate),
        timing::cycle_fits(timing::timed_changes(changes, rate, 240), rate, 240, tick as int),
    ensures
        ({
            let cycle = timing::cycle_of(
                timing::timed_changes(changes, rate, 240),
                rate,
                240,
                tick as int,
            );
            timing::accum_tick_from(
                timing::point_at(points_of(changes, rate), cycle),
                cycle,
                rate,
            ) == tick
        }),
{
    let table = timing::timed_changes(changes, rate, 240);
    let points = points_of(changes, rate);
    let ticks = table.map_values(|e: (u32, u16, u64)| e.0 as int);
    let keys = points.map_values(|p: (u64, u32, u16)| p.0 as int);
    let cycle = timing::cycle_of(table, rate, 240, tick as int);
    timing::lemma_last_at_or_before(ticks, tick as int);
    let i = timing::change_at(table, tick as int);
    let tempo = if i < 0 {
        timing::DEFAULT_TEMPO as int
    } else {
        changes[i].1 as int
    };
    let from = if i < 0 {
        0
    } else {
        changes[i].0 as int
    };
    let since = tick - from;
    let per_tick = rate * 60 / (tempo * 240);
    if i >= 0 {
        assert(ticks[i] == changes[i].0);
        assert(whole_cycles(changes[i].1 as int, rate));
        lemma_point(changes, rate, i);
    }
    law_whole_cycles_round_trip(since, tempo, rate);
    assert(per_tick > 0) by (nonlinear_arith)
        requires
            rate > 0,
            tempo > 0,
            rate * 60 == per_tick * (tempo * 240),
    ;
    assert forall|j: int| i < j < keys.len() implies keys[j] > cycle by {
        assert(ticks[i + 1] > tick);
        assert(ticks[i + 1] == changes[i + 1].0);
        let next = changes[i + 1].0 - from;
        law_whole_cycles_round_trip(next, tempo, rate);
        assert(next * per_tick > since * per_tick) by (nonlinear_arith)
            requires
                next > since,
                per_tick > 0,
        ;
        timing::lemma_change_cycles_ascend(changes, rate, 240, i + 1, j);
        lemma_point(changes, rate, j);
    }
    assert(since * per_tick >= 0) by (nonlinear_arith)
        requires
            since >= 0,
            per_tick > 0,
    ;
    if i >= 0 {
        timing::lemma_last_is(keys, cycle, i);
    } else {
        timing::lemma_none_before(keys, cycle);
    }
}

/// A tick takes at least one cycle at this tempo.
pub open spec fn a_cycle_or_more(tempo: int, rate: int) -> bool {
    0 < tempo * 240 <= rate * 60
}

/// Both conversions as single divisions.
proof fn lemma_single_divisions(ticks: int, cycles: int, tempo: int, rate: int)
    requires
        ticks >= 0,
        cycles >= 0,
        tempo > 0,
        rate > 0,
    ensures
        timing::ticks_to_cycles(ticks, tempo, rate, 240) == (ticks * (rate * 60)) / (tempo * 240),
        timing::cycles_to_ticks(cycles, tempo, rate) == (cycles * (tempo * 240)) / (rate * 60),
{
    let frames = ticks * rate * 60;
    let product = cycles * tempo * 240;
    assert(frames == ticks * (rate * 60) && frames >= 0) by (nonlinear_arith)
        requires
            frames == ticks * rate * 60,
            ticks >= 0,
            rate > 0,
    ;
    assert(product == cycles * (tempo * 240) && product >= 0) by (nonlinear_arith)
        requires
            product == cycles * tempo * 240,
            cycles >= 0,
            tempo > 0,
    ;
    vstd::arithmetic::div_mod::lemma_div_denominator(frames, tempo, 240);
    vstd::arithmetic::div_mod::lemma_div_denominator(product, rate, 60);
}

/// Where a tick takes at least one cycle, a later tick falls on a later cycle, and converting
/// there and back loses at most one tick.
pub proof fn law_round_trip_loses_at_most_a_tick(ticks: int, later: int, tempo: int, rate: int)
    requires
        0 <= ticks < later,
        a_cycle_or_more(tempo, rate),
    ensures
        timing::ticks_to_cycles(ticks, tempo, rate, 240) < timing::ticks_to_cycles(
            later,
            tempo,
            rate,
            240,
        ),
        ticks - 1 <= timing::cycles_to_ticks(
            timing::ticks_to_cycles(ticks, tempo, rate, 240),
            tempo,
            rate,
        ) <= ticks,
{
    let n = rate * 60;
    let d = tempo * 240;
    let cycles = (ticks * n) / d;
    let later_cycles = (later * n) / d;
    assert(ticks * n >= 0) by (nonlinear_arith)
        requires
            ticks >= 0,
            n > 0,
    ;
    lemma_div_pos_is_pos(ticks * n, d);
    lemma_single_divisions(ticks, cycles, tempo, rate);
    lemma_single_divisions(later, cycles, tempo, rate);
    lemma_fundamental_div_mod(ticks * n, d);
    lemma_fundamental_div_mod(later * n, d);
    assert(later_cycles > cycles) by (nonlinear_arith)
        requires
            ticks * n == d * cycles + (ticks * n) % d,
            later * n == d * later_cycles + (later * n) % d,
            0 <= (ticks * n) % d < d,
            0 <= (later * n) % d < d,
            ticks < later,
            0 < d <= n,
    ;
    law_ticks_do_not_run_ahead(cycles, ticks, tempo, rate);
    let product = cycles * d;
    assert((ticks - 1) * n < product) by (nonlinear_arith)
        requires
            product == cycles * d,
            ticks * n == d * cycles + (ticks * n) % d,
            0 <= (ticks * n) % d < d,
            0 < d <= n,
    ;
    lemma_fundamental_div_mod(product, n);
    let back = product / n;
    assert(back >= ticks - 1) by (nonlinear_arith)
        requires
            product == n * back + product % n,
            0 <= product % n < n,
            (ticks - 1) * n < product,
    ;
}

/// Where at every tempo of the score a tick takes at least one cycle, the position at the cycle of
/// an accumulated tick is that tick or the one before.
pub proof fn law_tick_is_reported_within_one(changes: Seq<(u32, u16)>, rate: int, tick: u32)
    requires
        timed(changes, rate),
        a_cycle_or_more(timing::DEFAULT_TEMPO as int, rate),
        forall|k: int|
            0 <= k < changes.len() ==> a_cycle_or_more((#[trigger] changes[k]).1 as int, rate),
        timing::cycle_fits(timing::timed_changes(changes, rate, 240), rate, 240, tick as int),
    ensures
        ({
            let cycle = timing::cycle_of(
                timing::timed_changes(changes, rate, 240),
                rate,
                240,
                tick as int,
            );
            tick - 1 <= timing::accum_tick_from(
                timing::point_at(points_of(changes, rate), cycle),
                cycle,
                rate,
            ) <= tick
        }),
{
    let table = timing::timed_changes(changes, rate, 240);
    let points = points_of(changes, rate);
    let ticks = table.map_values(|e: (u32, u16, u64)| e.0 as int);
    let keys = points.map_values(|p: (u64, u32, u16)| p.0 as int);
    let cycle = timing::cycle_of(table, rate, 240, tick as int);
    timing::lemma_last_at_or_before(ticks, tick as int);
    let i = timing::change_at(table, tick as int);
    let tempo = if i < 0 {
        timing::DEFAULT_TEMPO as int
    } else {
        changes[i].1 as int
    };
    let from = if i < 0 {
        0
    } else {
        changes[i].0 as int
    };
    let since = tick - from;
    if i >= 0 {
        assert(ticks[i] == changes[i].0);
        assert(a_cycle_or_more(changes[i].1 as int, rate));
        lemma_point(changes, rate, i);
    }
    law_round_trip_loses_at_most_a_tick(since, since + 1, tempo, rate);
    lemma_cycles_at_most(since, tempo, rate, 240);
    lemma_cycles_to_ticks_ordered(
        0,
        timing::ticks_to_cycles(since, tempo, rate, 240),
        tempo,
        rate,
    );
    assert forall|j: int| i < j < keys.len() implies keys[j] > cycle by {
        assert(ticks[i + 1] > tick);
        assert(ticks[i + 1] == changes[i + 1].0);
        law_round_trip_loses_at_most_a_tick(since, changes[i + 1].0 - from, tempo, rate);
        timing::lemma_change_cycles_ascend(changes, rate, 240, i + 1, j);
        lemma_point(changes, rate, j);
    }
    if i >= 0 {
        timing::lemma_last_is(keys, cycle, i);
    } else {
        timing::lemma_none_before(keys, cycle);
    }
}

/// The chunk of a pass is one of the chunks.
pub proof fn lemma_pass_index(chunks: Seq<(u32, u32, u32)>, tick: int, pass: int) -> (index: int)
    requires
        timing::nth_pass(chunks, tick, pass) is Some,
    ensures
        0 <= index < chunks.len(),
        timing::nth_pass(chunks, tick, pass) == Some(chunks[index]),
        timing::chunk_contains(chunks[index], tick),
    decreases chunks.len(),
{
    if !timing::chunk_contains(chunks[0], tick) {
        let index = lemma_pass_index(chunks.skip(1), tick, pass);
        index + 1
    } else if pass == 1 {
        0
    } else {
        let index = lemma_pass_index(chunks.skip(1), tick, pass - 1);
        index + 1
    }
}

/// A pass is found if and only if the tick is played that often.
pub proof fn law_pass_is_found_if_played(chunks: Seq<(u32, u32, u32)>, tick: int, pass: int)
    requires
        pass >= 1,
    ensures
        timing::nth_pass(chunks, tick, pass) is Some <==> timing::passes(chunks, tick) >= pass,
        0 <= timing::passes(chunks, tick) <= chunks.len(),
    decreases chunks.len(),
{
    if chunks.len() > 0 {
        law_pass_is_found_if_played(chunks.skip(1), tick, pass);
        if pass > 1 {
            law_pass_is_found_if_played(chunks.skip(1), tick, pass - 1);
        }
    }
}

/// The accumulated tick of a start position leads back to the tick that was asked for.
pub proof fn law_start_leads_back(chunks: Seq<(u32, u32, u32)>, start: PlayStartTick)
    requires
        timing::laid_out(chunks),
        score::start_fits(chunks, start),
        score::start_accum_tick(chunks, Some(start)) is Ok,
    ensures
        ({
            let accum_tick = score::start_accum_tick(chunks, Some(start))->Ok_0 as int;
            timing::tick_from(timing::chunk_at(chunks, accum_tick), accum_tick) == start.tick
        }),
{
    let pass = timing::pass_meant(start.iter) as int;
    let n = lemma_pass_index(chunks, start.tick as int, pass);
    let keys = chunks.map_values(|c: (u32, u32, u32)| c.0 as int);
    let accum_tick = chunks[n].0 + start.tick - chunks[n].1;
    assert forall|i: int| n < i < keys.len() implies keys[i] > accum_tick by {
        assert(chunks[n].0 + chunks[n].2 - chunks[n].1 <= chunks[i].0);
    }
    timing::lemma_last_is(keys, accum_tick, n);
}

} // verus!
