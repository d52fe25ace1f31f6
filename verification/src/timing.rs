//! Musical time and audio time.
//!
//! A score counts time in ticks. Once its repeats are written out in the order in which they
//! are played, a tick of that longer line is an accumulated tick. The audio server counts time
//! in cycles, one for each sample frame. How many cycles a tick takes follows from the tempo in
//! force and from the sampling rate.
use vstd::prelude::*;

verus! {

/// The tempo in force before the first tempo change, in quarter notes a minute.
pub const DEFAULT_TEMPO: u16 = 120;

/// Ticks in a quarter note.
pub const TICKS_PER_QUARTER: u32 = 240;

/// The highest pass through a repeated passage that a start position can ask for.
pub const MAX_PASS: u8 = 5;

/// The last index whose key is at most `key`, or -1 where every key is greater.
pub open spec fn last_at_or_before(keys: Seq<int>, key: int) -> int
    decreases keys.len(),
{
    if keys.len() == 0 {
        -1
    } else if keys.last() <= key {
        keys.len() - 1
    } else {
        last_at_or_before(keys.drop_last(), key)
    }
}

/// Cycles that `ticks` take at a constant tempo.
pub open spec fn ticks_to_cycles(ticks: int, tempo: int, rate: int, per_quarter: int) -> int {
    ticks * rate * 60 / tempo / per_quarter
}

/// Ticks that go by in `cycles` at a constant tempo.
pub open spec fn cycles_to_ticks(cycles: int, tempo: int, rate: int) -> int {
    cycles * tempo * 240 / rate / 60
}

/// Tempo changes are pairs of an accumulated tick and the tempo from there on.
pub open spec fn ascending_changes(changes: Seq<(u32, u16)>) -> bool {
    forall|i: int, j: int| 0 <= i < j < changes.len() ==> changes[i].0 < changes[j].0
}

/// The tick from which change `i` counts: that of the change before it, or the start.
pub open spec fn tick_before(changes: Seq<(u32, u16)>, i: int) -> int {
    if i <= 0 {
        0
    } else {
        changes[i - 1].0 as int
    }
}

/// The tempo that holds until change `i`.
pub open spec fn tempo_before(changes: Seq<(u32, u16)>, i: int) -> int {
    if i <= 0 {
        DEFAULT_TEMPO as int
    } else {
        changes[i - 1].1 as int
    }
}

/// The cycle at which tempo change `i` takes effect.
pub open spec fn change_cycle(
    changes: Seq<(u32, u16)>,
    rate: int,
    per_quarter: int,
    i: int,
) -> int
    decreases i,
{
    let before = if i <= 0 {
        0
    } else {
        change_cycle(changes, rate, per_quarter, i - 1)
    };
    before + ticks_to_cycles(
        changes[i].0 - tick_before(changes, i),
        tempo_before(changes, i),
        rate,
        per_quarter,
    )
}

/// The cycle of change `i` can be computed in 64 bits.
pub open spec fn change_fits(
    changes: Seq<(u32, u16)>,
    rate: int,
    per_quarter: int,
    i: int,
) -> bool {
    &&& tempo_before(changes, i) != 0
    &&& (changes[i].0 - tick_before(changes, i)) * rate * 60 <= u64::MAX
    &&& change_cycle(changes, rate, per_quarter, i) <= u64::MAX
}

/// The cycle of every change can be computed in 64 bits.
pub open spec fn changes_fit(changes: Seq<(u32, u16)>, rate: int, per_quarter: int) -> bool {
    forall|i: int|
        0 <= i < changes.len() ==> #[trigger] change_fits(changes, rate, per_quarter, i)
}

/// The tempo changes with the cycle of each: accumulated tick, tempo, cycle.
pub open spec fn timed_changes(
    changes: Seq<(u32, u16)>,
    rate: int,
    per_quarter: int,
) -> Seq<(u32, u16, u64)> {
    Seq::new(
        changes.len(),
        |i: int|
            (changes[i].0, changes[i].1, change_cycle(changes, rate, per_quarter, i) as u64),
    )
}

/// The timed change in force at an accumulated tick, or -1 before the first.
pub open spec fn change_at(table: Seq<(u32, u16, u64)>, tick: int) -> int {
    last_at_or_before(table.map_values(|e: (u32, u16, u64)| e.0 as int), tick)
}

/// The cycle at which an accumulated tick falls.
pub open spec fn cycle_of(
    table: Seq<(u32, u16, u64)>,
    rate: int,
    per_quarter: int,
    tick: int,
) -> int {
    let i = change_at(table, tick);
    if i < 0 {
        ticks_to_cycles(tick, DEFAULT_TEMPO as int, rate, per_quarter)
    } else {
        table[i].2 + ticks_to_cycles(tick - table[i].0, table[i].1 as int, rate, per_quarter)
    }
}

/// The cycle of an accumulated tick can be computed in 64 bits.
pub open spec fn cycle_fits(
    table: Seq<(u32, u16, u64)>,
    rate: int,
    per_quarter: int,
    tick: int,
) -> bool {
    let i = change_at(table, tick);
    if i < 0 {
        tick * rate * 60 <= u64::MAX
    } else {
        &&& table[i].1 != 0
        &&& (tick - table[i].0) * rate * 60 <= u64::MAX
        &&& cycle_of(table, rate, per_quarter, tick) <= u64::MAX
    }
}

/// Tempo points are the tempo changes by cycle: cycle, accumulated tick, tempo.
pub open spec fn tempo_points(
    changes: Seq<(u32, u16)>,
    table: Seq<(u32, u16, u64)>,
    rate: int,
    per_quarter: int,
) -> Seq<(u64, u32, u16)> {
    changes.map_values(
        |c: (u32, u16)| (cycle_of(table, rate, per_quarter, c.0 as int) as u64, c.0, c.1),
    )
}

/// The cycles of tempo points do not go back.
pub open spec fn ascending_points(points: Seq<(u64, u32, u16)>) -> bool {
    forall|i: int, j: int| 0 <= i <= j < points.len() ==> points[i].0 <= points[j].0
}

/// The tempo point in force at a cycle.
pub open spec fn point_at(points: Seq<(u64, u32, u16)>, cycle: int) -> Option<(u64, u32, u16)> {
    let i = last_at_or_before(points.map_values(|p: (u64, u32, u16)| p.0 as int), cycle);
    if i < 0 {
        None
    } else {
        Some(points[i])
    }
}

/// The accumulated tick that a cycle has reached, counted from a tempo point.
pub open spec fn accum_tick_from(point: Option<(u64, u32, u16)>, cycle: int, rate: int) -> int {
    match point {
        None => cycles_to_ticks(cycle, DEFAULT_TEMPO as int, rate) % 0x1_0000_0000,
        Some(p) => p.1 + cycles_to_ticks(cycle - p.0, p.2 as int, rate) % 0x1_0000_0000,
    }
}

/// The accumulated tick can be computed: in 64 bits on the way and in 32 at the end.
pub open spec fn accum_tick_fits(point: Option<(u64, u32, u16)>, cycle: int, rate: int) -> bool {
    &&& rate != 0
    &&& match point {
        None => cycle * DEFAULT_TEMPO * 240 <= u64::MAX,
        Some(p) => (cycle - p.0) * p.2 * 240 <= u64::MAX,
    }
    &&& accum_tick_from(point, cycle, rate) <= u32::MAX
}

/// Chunks are the stretches of the score in playing order: the accumulated tick at which the
/// stretch is played, the tick of the score at which it starts, and the tick at which it ends.
pub open spec fn chunk_at(chunks: Seq<(u32, u32, u32)>, accum_tick: int) -> Option<
    (u32, u32, u32),
> {
    let i = last_at_or_before(chunks.map_values(|c: (u32, u32, u32)| c.0 as int), accum_tick);
    if i < 0 {
        None
    } else {
        Some(chunks[i])
    }
}

/// The tick of the score that is played at an accumulated tick.
pub open spec fn tick_from(chunk: Option<(u32, u32, u32)>, accum_tick: int) -> int {
    match chunk {
        None => accum_tick,
        Some(c) => c.1 + (accum_tick - c.0),
    }
}

/// Chunks follow one another without overlap, each played as far as it goes before the next.
pub open spec fn laid_out(chunks: Seq<(u32, u32, u32)>) -> bool {
    forall|i: int, j: int|
        0 <= i < j < chunks.len() ==> (#[trigger] chunks[i]).0 + chunks[i].2 - chunks[i].1
            <= (#[trigger] chunks[j]).0
}

/// A chunk plays the given tick of the score.
pub open spec fn chunk_contains(chunk: (u32, u32, u32), tick: int) -> bool {
    chunk.1 <= tick < chunk.2
}

/// The chunk in which the given tick of the score is played for the `pass`-th time.
pub open spec fn nth_pass(chunks: Seq<(u32, u32, u32)>, tick: int, pass: int) -> Option<
    (u32, u32, u32),
>
    decreases chunks.len(),
{
    if chunks.len() == 0 {
        None
    } else if !chunk_contains(chunks[0], tick) {
        nth_pass(chunks.skip(1), tick, pass)
    } else if pass == 1 {
        Some(chunks[0])
    } else {
        nth_pass(chunks.skip(1), tick, pass - 1)
    }
}

/// How many times the given tick of the score is played.
pub open spec fn passes(chunks: Seq<(u32, u32, u32)>, tick: int) -> int
    decreases chunks.len(),
{
    if chunks.len() == 0 {
        0
    } else {
        passes(chunks.skip(1), tick) + if chunk_contains(chunks[0], tick) {
            1int
        } else {
            0
        }
    }
}

/// The pass that a start position means: at least the first, at most the fifth.
pub open spec fn pass_meant(iter: u8) -> u8 {
    if iter < 1 {
        1
    } else if iter > MAX_PASS {
        MAX_PASS
    } else {
        iter
    }
}

/// A found index is within the list and its key is at most the one looked up.
pub proof fn lemma_last_at_or_before(keys: Seq<int>, key: int)
    ensures
        -1 <= last_at_or_before(keys, key) < keys.len(),
        last_at_or_before(keys, key) >= 0 ==> keys[last_at_or_before(keys, key)] <= key,
        forall|i: int| last_at_or_before(keys, key) < i < keys.len() ==> keys[i] > key,
    decreases keys.len(),
{
    if keys.len() > 0 && keys.last() > key {
        lemma_last_at_or_before(keys.drop_last(), key);
        assert forall|i: int| last_at_or_before(keys, key) < i < keys.len() implies keys[i]
            > key by {
            if i < keys.len() - 1 {
                assert(keys.drop_last()[i] > key);
            }
        }
    }
}

/// Keys after `n` are all greater, so only the first `n` count.
proof fn lemma_last_in_prefix(keys: Seq<int>, key: int, n: int)
    requires
        0 <= n <= keys.len(),
        forall|i: int| n <= i < keys.len() ==> keys[i] > key,
    ensures
        last_at_or_before(keys, key) == last_at_or_before(keys.take(n), key),
    decreases keys.len(),
{
    if n < keys.len() {
        lemma_last_in_prefix(keys.drop_last(), key, n);
        assert(keys.drop_last().take(n) =~= keys.take(n));
    } else {
        assert(keys.take(n) =~= keys);
    }
}

/// Key `n` is the last one that is at most `key`.
pub proof fn lemma_last_is(keys: Seq<int>, key: int, n: int)
    requires
        0 <= n < keys.len(),
        keys[n] <= key,
        forall|i: int| n < i < keys.len() ==> keys[i] > key,
    ensures
        last_at_or_before(keys, key) == n,
{
    lemma_last_in_prefix(keys, key, n + 1);
    assert(keys.take(n + 1).last() == keys[n]);
}

/// No key is at most `key`.
pub proof fn lemma_none_before(keys: Seq<int>, key: int)
    requires
        forall|i: int| 0 <= i < keys.len() ==> keys[i] > key,
    ensures
        last_at_or_before(keys, key) == -1,
{
    lemma_last_in_prefix(keys, key, 0);
}

/// A stretch of ticks takes no negative number of cycles.
proof fn lemma_cycles_not_negative(ticks: int, tempo: int, rate: int, per_quarter: int)
    requires
        ticks >= 0,
        tempo > 0,
        rate >= 0,
        per_quarter > 0,
    ensures
        ticks_to_cycles(ticks, tempo, rate, per_quarter) >= 0,
        ticks == 0 ==> ticks_to_cycles(ticks, tempo, rate, per_quarter) == 0,
{
    assert(ticks * rate * 60 >= 0) by (nonlinear_arith)
        requires
            ticks >= 0,
            rate >= 0,
    ;
    let minute = ticks * rate * 60;
    vstd::arithmetic::div_mod::lemma_div_pos_is_pos(minute, tempo);
    vstd::arithmetic::div_mod::lemma_div_pos_is_pos(minute / tempo, per_quarter);
    if ticks == 0 {
        assert(minute == 0) by (nonlinear_arith)
            requires
                minute == ticks * rate * 60,
                ticks == 0,
        ;
        vstd::arithmetic::div_mod::lemma_div_basics(tempo);
        vstd::arithmetic::div_mod::lemma_div_basics(per_quarter);
    }
}

/// Tempo changes take effect one after the other.
pub proof fn lemma_change_cycles_ascend(
    changes: Seq<(u32, u16)>,
    rate: int,
    per_quarter: int,
    i: int,
    j: int,
)
    requires
        0 <= i <= j < changes.len(),
        rate >= 0,
        per_quarter > 0,
        ascending_changes(changes),
        changes_fit(changes, rate, per_quarter),
    ensures
        0 <= change_cycle(changes, rate, per_quarter, i) <= change_cycle(
            changes,
            rate,
            per_quarter,
            j,
        ),
    decreases j,
{
    assert(change_fits(changes, rate, per_quarter, j));
    lemma_cycles_not_negative(
        changes[j].0 - tick_before(changes, j),
        tempo_before(changes, j),
        rate,
        per_quarter,
    );
    if i < j {
        lemma_change_cycles_ascend(changes, rate, per_quarter, i, j - 1);
    } else if j > 0 {
        lemma_change_cycles_ascend(changes, rate, per_quarter, j - 1, j - 1);
    }
}

/// At the tick of a tempo change it is that change which is in force.
pub proof fn lemma_change_at(changes: Seq<(u32, u16)>, rate: int, per_quarter: int, i: int)
    requires
        0 <= i < changes.len(),
        ascending_changes(changes),
    ensures
        change_at(timed_changes(changes, rate, per_quarter), changes[i].0 as int) == i,
{
    let table = timed_changes(changes, rate, per_quarter);
    let keys = table.map_values(|e: (u32, u16, u64)| e.0 as int);
    lemma_last_is(keys, changes[i].0 as int, i);
}

/// A tempo change falls on the cycle that the table has for it.
pub proof fn lemma_cycle_of_change(changes: Seq<(u32, u16)>, rate: int, per_quarter: int, i: int)
    requires
        0 <= i < changes.len(),
        rate >= 0,
        per_quarter > 0,
        changes[i].1 != 0,
        ascending_changes(changes),
        changes_fit(changes, rate, per_quarter),
    ensures
        cycle_of(
            timed_changes(changes, rate, per_quarter),
            rate,
            per_quarter,
            changes[i].0 as int,
        ) == change_cycle(changes, rate, per_quarter, i),
{
    lemma_change_at(changes, rate, per_quarter, i);
    lemma_cycles_not_negative(0, changes[i].1 as int, rate, per_quarter);
    assert(change_fits(changes, rate, per_quarter, i));
    lemma_change_cycles_ascend(changes, rate, per_quarter, i, i);
}

/// The tempo points of a score do not go back.
pub proof fn lemma_tempo_points(changes: Seq<(u32, u16)>, rate: int, per_quarter: int)
    requires
        rate >= 0,
        per_quarter > 0,
        ascending_changes(changes),
        changes_fit(changes, rate, per_quarter),
        forall|i: int| 0 <= i < changes.len() ==> (#[trigger] changes[i]).1 != 0,
    ensures
        ascending_points(
            tempo_points(
                changes,
                timed_changes(changes, rate, per_quarter),
                rate,
                per_quarter,
            ),
        ),
{
    let table = timed_changes(changes, rate, per_quarter);
    let points = tempo_points(changes, table, rate, per_quarter);
    assert forall|i: int, j: int| 0 <= i <= j < points.len() implies points[i].0
        <= points[j].0 by {
        lemma_cycle_of_change(changes, rate, per_quarter, i);
        lemma_cycle_of_change(changes, rate, per_quarter, j);
        lemma_change_cycles_ascend(changes, rate, per_quarter, i, j);
        assert(change_fits(changes, rate, per_quarter, j));
    }
}

/// Cycles that `ticks` take at a constant tempo, where that can be computed in 64 bits.
pub fn checked_cycles(ticks: u32, tempo: u16, rate: u32, per_quarter: u32) -> (cycles: Option<u64>)
    requires
        per_quarter != 0,
    ensures
        cycles is Some <==> tempo != 0 && ticks * rate * 60 <= u64::MAX,
        cycles matches Some(c) ==> c == ticks_to_cycles(
            ticks as int,
            tempo as int,
            rate as int,
            per_quarter as int,
        ),
{
    if tempo == 0 {
        return None;
    }
    assert(ticks * rate <= u64::MAX) by (nonlinear_arith)
        requires
            ticks <= u32::MAX,
            rate <= u32::MAX,
    ;
    let frames: u64 = ticks as u64 * rate as u64;
    match frames.checked_mul(60) {
        None => None,
        Some(minute) => Some(minute / tempo as u64 / per_quarter as u64),
    }
}

/// The tempo changes with the cycle of each, where those can be computed in 64 bits.
pub fn checked_table(changes: &Vec<(u32, u16)>, rate: u32, per_quarter: u32) -> (table: Option<
    Vec<(u32, u16, u64)>,
>)
    requires
        per_quarter != 0,
        ascending_changes(changes@),
    ensures
        table is Some <==> changes_fit(changes@, rate as int, per_quarter as int),
        table matches Some(t) ==> t@ == timed_changes(changes@, rate as int, per_quarter as int),
{
    let mut table: Vec<(u32, u16, u64)> = Vec::new();
    let mut last_tick: u32 = 0;
    let mut last_tempo: u16 = DEFAULT_TEMPO;
    let mut cycle: u64 = 0;
    let mut i: usize = 0;
    while i < changes.len()
        invariant
            i <= changes@.len(),
            per_quarter != 0,
            ascending_changes(changes@),
            last_tick == tick_before(changes@, i as int),
            last_tempo == tempo_before(changes@, i as int),
            cycle == if i == 0 {
                0
            } else {
                change_cycle(changes@, rate as int, per_quarter as int, i - 1)
            },
            table@ == timed_changes(changes@, rate as int, per_quarter as int).take(i as int),
            forall|k: int|
                0 <= k < i ==> #[trigger] change_fits(
                    changes@,
                    rate as int,
                    per_quarter as int,
                    k,
                ),
        decreases changes@.len() - i,
    {
        let tick: u32 = changes[i].0;
        let tempo: u16 = changes[i].1;
        assert(last_tick <= tick);
        let step: Option<u64> = checked_cycles(tick - last_tick, last_tempo, rate, per_quarter);
        let next: Option<u64> = match step {
            None => None,
            Some(cycles) => cycle.checked_add(cycles),
        };
        match next {
            None => {
                assert(!change_fits(changes@, rate as int, per_quarter as int, i as int));
                return None;
            },
            Some(at) => {
                cycle = at;
            },
        }
        table.push((tick, tempo, cycle));
        last_tick = tick;
        last_tempo = tempo;
        assert(change_fits(changes@, rate as int, per_quarter as int, i as int));
        i = i + 1;
        assert(table@ =~= timed_changes(changes@, rate as int, per_quarter as int).take(i as int));
    }
    assert(table@ =~= timed_changes(changes@, rate as int, per_quarter as int));
    Some(table)
}

/// The cycle at which an accumulated tick falls, where that can be computed in 64 bits.
pub fn checked_cycle_of(
    table: &Vec<(u32, u16, u64)>,
    rate: u32,
    per_quarter: u32,
    tick: u32,
) -> (cycle: Option<u64>)
    requires
        per_quarter != 0,
    ensures
        cycle is Some <==> cycle_fits(table@, rate as int, per_quarter as int, tick as int),
        cycle matches Some(c) ==> c == cycle_of(
            table@,
            rate as int,
            per_quarter as int,
            tick as int,
        ),
{
    let ghost keys = table@.map_values(|e: (u32, u16, u64)| e.0 as int);
    let mut i: usize = table.len();
    while i > 0
        invariant
            i <= table@.len(),
            per_quarter != 0,
            keys == table@.map_values(|e: (u32, u16, u64)| e.0 as int),
            forall|k: int| i <= k < keys.len() ==> keys[k] > tick,
        decreases i,
    {
        i = i - 1;
        let entry: (u32, u16, u64) = table[i];
        if entry.0 <= tick {
            proof {
                lemma_last_is(keys, tick as int, i as int);
            }
            return match checked_cycles(tick - entry.0, entry.1, rate, per_quarter) {
                None => None,
                Some(cycles) => entry.2.checked_add(cycles),
            };
        }
    }
    proof {
        lemma_none_before(keys, tick as int);
    }
    checked_cycles(tick, DEFAULT_TEMPO, rate, per_quarter)
}

/// The chunk in which the given tick of the score is played for the `pass`-th time.
pub fn find_pass(chunks: &Vec<(u32, u32, u32)>, tick: u32, pass: u8) -> (found: Option<
    (u32, u32, u32),
>)
    requires
        pass >= 1,
    ensures
        found == nth_pass(chunks@, tick as int, pass as int),
{
    let mut left: u8 = pass;
    let mut i: usize = 0;
    assert(chunks@.skip(0) =~= chunks@);
    while i < chunks.len()
        invariant
            i <= chunks@.len(),
            left >= 1,
            nth_pass(chunks@, tick as int, pass as int) == nth_pass(
                chunks@.skip(i as int),
                tick as int,
                left as int,
            ),
        decreases chunks@.len() - i,
    {
        let chunk: (u32, u32, u32) = chunks[i];
        assert(chunks@.skip(i as int)[0] == chunk);
        assert(chunks@.skip(i as int).skip(1) =~= chunks@.skip(i + 1));
        if chunk.1 <= tick && tick < chunk.2 {
            if left == 1 {
                return Some(chunk);
            }
            left = left - 1;
        }
        i = i + 1;
    }
    None
}

/// The chunk of a pass plays the tick.
pub proof fn lemma_pass_contains(chunks: Seq<(u32, u32, u32)>, tick: int, pass: int)
    ensures
        nth_pass(chunks, tick, pass) matches Some(c) ==> chunk_contains(c, tick),
    decreases chunks.len(),
{
    if chunks.len() > 0 {
        lemma_pass_contains(chunks.skip(1), tick, pass);
        lemma_pass_contains(chunks.skip(1), tick, pass - 1);
    }
}

/// The pass that a start position means.
pub fn clamp_pass(iter: u8) -> (pass: u8)
    ensures
        pass == pass_meant(iter),
{
    if iter < 1 {
        1
    } else if iter > MAX_PASS {
        MAX_PASS
    } else {
        iter
    }
}

/// The tempo point in force at a cycle.
fn find_point(points: &Vec<(u64, u32, u16)>, cycle: u64) -> (found: Option<(u64, u32, u16)>)
    ensures
        found == point_at(points@, cycle as int),
        found matches Some(p) ==> p.0 <= cycle,
{
    let ghost keys = points@.map_values(|p: (u64, u32, u16)| p.0 as int);
    let mut i: usize = points.len();
    while i > 0
        invariant
            i <= points@.len(),
            keys == points@.map_values(|p: (u64, u32, u16)| p.0 as int),
            forall|k: int| i <= k < keys.len() ==> keys[k] > cycle,
        decreases i,
    {
        i = i - 1;
        if points[i].0 <= cycle {
            proof {
                lemma_last_is(keys, cycle as int, i as int);
            }
            return Some(points[i]);
        }
    }
    proof {
        lemma_none_before(keys, cycle as int);
    }
    None
}

/// The chunk that is played at an accumulated tick.
fn find_chunk(chunks: &Vec<(u32, u32, u32)>, accum_tick: u32) -> (found: Option<(u32, u32, u32)>)
    ensures
        found == chunk_at(chunks@, accum_tick as int),
        found matches Some(c) ==> c.0 <= accum_tick,
{
    let ghost keys = chunks@.map_values(|c: (u32, u32, u32)| c.0 as int);
    let mut i: usize = chunks.len();
    while i > 0
        invariant
            i <= chunks@.len(),
            keys == chunks@.map_values(|c: (u32, u32, u32)| c.0 as int),
            forall|k: int| i <= k < keys.len() ==> keys[k] > accum_tick,
        decreases i,
    {
        i = i - 1;
        if chunks[i].0 <= accum_tick {
            proof {
                lemma_last_is(keys, accum_tick as int, i as int);
            }
            return Some(chunks[i]);
        }
    }
    proof {
        lemma_none_before(keys, accum_tick as int);
    }
    None
}

/// The accumulated tick that a cycle has reached, where that can be computed.
pub fn checked_accum_tick(points: &Vec<(u64, u32, u16)>, cycle: u64, rate: u32) -> (tick: Option<
    u32,
>)
    ensures
        tick is Some <==> accum_tick_fits(
            point_at(points@, cycle as int),
            cycle as int,
            rate as int,
        ),
        tick matches Some(t) ==> t == accum_tick_from(
            point_at(points@, cycle as int),
            cycle as int,
            rate as int,
        ),
{
    if rate == 0 {
        return None;
    }
    let (start, since, tempo): (u32, u64, u16) = match find_point(points, cycle) {
        None => (0, cycle, DEFAULT_TEMPO),
        Some(point) => (point.1, cycle - point.0, point.2),
    };
    let product: Option<u64> = match since.checked_mul(tempo as u64) {
        None => None,
        Some(beats) => beats.checked_mul(240),
    };
    match product {
        None => None,
        Some(ticks) => start.checked_add((ticks / rate as u64 / 60 % 0x1_0000_0000) as u32),
    }
}

/// The tick of the score that is played at an accumulated tick, where it has 32 bits.
pub fn checked_tick(chunks: &Vec<(u32, u32, u32)>, accum_tick: u32) -> (tick: Option<u32>)
    ensures
        tick is Some <==> tick_from(chunk_at(chunks@, accum_tick as int), accum_tick as int)
            <= u32::MAX,
        tick matches Some(t) ==> t == tick_from(
            chunk_at(chunks@, accum_tick as int),
            accum_tick as int,
        ),
{
    match find_chunk(chunks, accum_tick) {
        None => Some(accum_tick),
        Some(chunk) => chunk.1.checked_add(accum_tick - chunk.0),
    }
}

} // verus!
