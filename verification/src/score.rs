//! Scores, as klavier-core keeps and renders them.
//!
//! The repositories of a score and what is rendered from them are values of klavier-core and
//! klavier-helper. They are opaque here. What the player needs of their contents has a name of
//! its own, over plain values, and the functions of those crates are specified over these names.
use std::rc::Rc;

use klavier_core::bar::Bar;
use klavier_core::ctrl_chg::CtrlChg;
use klavier_core::global_repeat::RenderRegionWarning;
use klavier_core::key::Key;
use klavier_core::midi_events::MidiEvents;
use klavier_core::midi_events::PlayData;
use klavier_core::note::Note;
use klavier_core::project::ModelChangeMetadata;
use klavier_core::repeat::RenderRegionError;
use klavier_core::rhythm::Rhythm;
use klavier_core::tempo::Tempo;
use klavier_core::tempo::TempoValue;
use klavier_helper::bag_store::BagStore;
use klavier_helper::store::Store;
use vstd::prelude::*;

use crate::messages;
use crate::timing;

verus! {

/// A bar line of a score, with its repeat signs. (klavier-core)
#[verifier::external_type_specification]
#[verifier::external_body]
pub struct ExBar(Bar);

/// A pedal movement. (klavier-core)
#[verifier::external_type_specification]
#[verifier::external_body]
pub struct ExCtrlChg(CtrlChg);

/// What is odd about the repeats of a score without being wrong. (klavier-core)
#[verifier::external_type_specification]
#[verifier::external_body]
pub struct ExRenderRegionWarning(RenderRegionWarning);

/// A key signature. (klavier-core)
#[verifier::external_type_specification]
#[verifier::external_body]
pub struct ExKey(Key);

/// A rendered score: MIDI messages, tempo changes and chunks by accumulated tick. (klavier-core)
#[verifier::external_type_specification]
#[verifier::external_body]
pub struct ExMidiEvents(MidiEvents);

/// A rendered score by cycle, ready to be played. (klavier-core)
#[verifier::external_type_specification]
#[verifier::external_body]
pub struct ExPlayData(PlayData);

/// A note. (klavier-core)
#[verifier::external_type_specification]
#[verifier::external_body]
pub struct ExNote(Note);

/// What a repository keeps beside each change. (klavier-core)
#[verifier::external_type_specification]
#[verifier::external_body]
pub struct ExModelChangeMetadata(ModelChangeMetadata);

/// What is wrong with the repeats of a score. (klavier-core)
#[verifier::external_type_specification]
#[verifier::external_body]
pub struct ExRenderRegionError(RenderRegionError);

/// A time signature. (klavier-core)
#[verifier::external_type_specification]
#[verifier::external_body]
pub struct ExRhythm(Rhythm);

/// A tempo change of a score. (klavier-core)
#[verifier::external_type_specification]
#[verifier::external_body]
pub struct ExTempo(Tempo);

/// A tempo. (klavier-core)
#[verifier::external_type_specification]
#[verifier::external_body]
pub struct ExTempoValue(TempoValue);

/// A repository that may hold several values under one key. (klavier-helper)
#[verifier::external_type_specification]
#[verifier::external_body]
#[verifier::reject_recursive_types(K)]
#[verifier::reject_recursive_types(T)]
#[verifier::reject_recursive_types(M)]
pub struct ExBagStore<K, T, M>(BagStore<K, T, M>);

/// A repository in ascending order of its keys, with one value under each. (klavier-helper)
#[verifier::external_type_specification]
#[verifier::external_body]
#[verifier::reject_recursive_types(K)]
#[verifier::reject_recursive_types(T)]
#[verifier::reject_recursive_types(M)]
pub struct ExStore<K: Ord + Copy, T: Clone, M>(Store<K, T, M>);

/// Where in a score to start: a tick, and the pass at which that tick is to be played where it
/// lies in a repeated passage. A pass below the first means the first and one above the fifth
/// means the fifth.
#[derive(Debug, Clone, Copy, PartialEq, Eq, Structural)]
pub struct PlayStartTick {
    pub tick: u32,
    pub iter: u8,
}

/// Why a start position does not lead to an accumulated tick.
#[derive(Debug, Clone, Copy, PartialEq, Eq, Structural)]
pub enum ToAccumTickError {
    /// The tick is played only `max_iter` times.
    CannotFind { specified_iter: u8, max_iter: u8 },
}

/// The accumulated tick at which playing starts.
pub open spec fn start_accum_tick(
    chunks: Seq<(u32, u32, u32)>,
    start: Option<PlayStartTick>,
) -> Result<u32, ToAccumTickError> {
    match start {
        None => Ok(0),
        Some(s) => match timing::nth_pass(chunks, s.tick as int, timing::pass_meant(s.iter) as int) {
            Some(c) => Ok((c.0 + s.tick - c.1) as u32),
            None => Err(
                ToAccumTickError::CannotFind {
                    specified_iter: timing::pass_meant(s.iter),
                    max_iter: timing::passes(chunks, s.tick as int) as u8,
                },
            ),
        },
    }
}

/// The start position can be computed in 32 bits.
pub open spec fn start_fits(chunks: Seq<(u32, u32, u32)>, start: PlayStartTick) -> bool {
    timing::nth_pass(chunks, start.tick as int, timing::pass_meant(start.iter) as int) matches Some(
        c,
    ) ==> c.0 + start.tick <= u32::MAX
}

/// The messages of a rendered score by cycle.
pub open spec fn timed_messages(
    events: Seq<(u32, Seq<Seq<u8>>)>,
    table: Seq<(u32, u16, u64)>,
    rate: int,
    per_quarter: int,
) -> Seq<(u64, Seq<Seq<u8>>)> {
    events.map_values(
        |e: (u32, Seq<Seq<u8>>)|
            (timing::cycle_of(table, rate, per_quarter, e.0 as int) as u64, e.1),
    )
}

/// The highest tick of a plain score.
pub const PLAIN_TICKS: u32 = 0x4000_0000;

/// The most dots that a note of a plain score has.
pub const PLAIN_DOTS: u8 = 7;

/// The notes of a score: the tick before trimming and the dots of the duration.
pub uninterp spec fn note_marks(note_repo: BagStore<u32, Rc<Note>, ModelChangeMetadata>) -> Seq<
    (u32, u8),
>;

/// The bar lines of a score: the tick under which it is kept, its own tick, and whether it has a
/// D.C. or a D.S., or opens a variation.
pub uninterp spec fn bar_marks(bar_repo: Store<u32, Bar, ModelChangeMetadata>) -> Seq<
    (u32, u32, bool, bool, bool),
>;

/// The ticks of the tempo changes of a score.
pub uninterp spec fn tempo_ticks(tempo_repo: Store<u32, Tempo, ModelChangeMetadata>) -> Seq<u32>;

/// The ticks of the pedal movements of a score.
pub uninterp spec fn pedal_ticks(pedal_repo: Store<u32, CtrlChg, ModelChangeMetadata>) -> Seq<u32>;

/// Every one of the ticks is within a plain score.
pub open spec fn plain_ticks(ticks: Seq<u32>) -> bool {
    forall|i: int| 0 <= i < ticks.len() ==> (#[trigger] ticks[i]) <= PLAIN_TICKS
}

/// A note of a plain score.
pub open spec fn plain_note(note: (u32, u8)) -> bool {
    note.0 <= PLAIN_TICKS && note.1 <= PLAIN_DOTS
}

/// A bar line of a plain score: it may start or end a repeated passage, but playing does not jump
/// from it and no variation begins there.
pub open spec fn plain_bar(bar: (u32, u32, bool, bool, bool)) -> bool {
    bar.0 == bar.1 && bar.1 <= PLAIN_TICKS && !bar.2 && !bar.3 && !bar.4
}

/// A score whose ticks are far from the end of 32 bits and whose repeats are those between two
/// bar lines only.
pub open spec fn plain(
    note_repo: BagStore<u32, Rc<Note>, ModelChangeMetadata>,
    bar_repo: Store<u32, Bar, ModelChangeMetadata>,
    tempo_repo: Store<u32, Tempo, ModelChangeMetadata>,
    dumper_repo: Store<u32, CtrlChg, ModelChangeMetadata>,
    soft_repo: Store<u32, CtrlChg, ModelChangeMetadata>,
) -> bool {
    let notes = note_marks(note_repo);
    let bars = bar_marks(bar_repo);
    &&& forall|i: int| 0 <= i < notes.len() ==> plain_note(#[trigger] notes[i])
    &&& forall|i: int| 0 <= i < bars.len() ==> plain_bar(#[trigger] bars[i])
    &&& plain_ticks(tempo_ticks(tempo_repo))
    &&& plain_ticks(pedal_ticks(dumper_repo))
    &&& plain_ticks(pedal_ticks(soft_repo))
}

/// What `klavier_core::midi_events::create_midi_events` makes of a score: the rendered score
/// with warnings, or the error. `None` stands for a score on which that function panics, as it
/// does where a sum of ticks leaves 32 bits.
pub uninterp spec fn rendering(
    top_rhythm: Rhythm,
    top_key: Key,
    note_repo: BagStore<u32, Rc<Note>, ModelChangeMetadata>,
    bar_repo: Store<u32, Bar, ModelChangeMetadata>,
    tempo_repo: Store<u32, Tempo, ModelChangeMetadata>,
    dumper_repo: Store<u32, CtrlChg, ModelChangeMetadata>,
    soft_repo: Store<u32, CtrlChg, ModelChangeMetadata>,
) -> Option<Result<(MidiEvents, Seq<RenderRegionWarning>), RenderRegionError>>;

/// A score can be rendered: the call returns. It does on every plain score.
pub open spec fn renders(
    top_rhythm: Rhythm,
    top_key: Key,
    note_repo: BagStore<u32, Rc<Note>, ModelChangeMetadata>,
    bar_repo: Store<u32, Bar, ModelChangeMetadata>,
    tempo_repo: Store<u32, Tempo, ModelChangeMetadata>,
    dumper_repo: Store<u32, CtrlChg, ModelChangeMetadata>,
    soft_repo: Store<u32, CtrlChg, ModelChangeMetadata>,
) -> bool {
    ||| rendering(
        top_rhythm,
        top_key,
        note_repo,
        bar_repo,
        tempo_repo,
        dumper_repo,
        soft_repo,
    ) is Some
    ||| plain(note_repo, bar_repo, tempo_repo, dumper_repo, soft_repo)
}

/// The tempo changes of a rendered score: accumulated tick and tempo (`MidiEvents::tempo_table`).
pub uninterp spec fn tempo_changes(events: MidiEvents) -> Seq<(u32, u16)>;

/// The chunks of a rendered score: accumulated tick, first tick, end tick
/// (`MidiEvents::chunks`).
pub uninterp spec fn chunks_of(events: MidiEvents) -> Seq<(u32, u32, u32)>;

/// The messages of a rendered score by accumulated tick, in raw bytes (`MidiEvents::events`).
pub uninterp spec fn event_messages(events: MidiEvents) -> Seq<(u32, Seq<Seq<u8>>)>;

/// The entries of a table of timed tempo changes: accumulated tick, tempo, cycle.
pub uninterp spec fn cycle_table(table: Store<u32, (TempoValue, u64), ()>) -> Seq<
    (u32, u16, u64),
>;

/// The messages by cycle (`PlayData::midi_data`).
pub uninterp spec fn midi_data(data: PlayData) -> Seq<(u64, Seq<Seq<u8>>)>;

/// The tempo changes by cycle: cycle, accumulated tick, tempo (`PlayData::table_for_tracking`).
pub uninterp spec fn tempo_track(data: PlayData) -> Seq<(u64, u32, u16)>;

/// The chunks: accumulated tick, first tick, end tick (`PlayData::chunks`).
pub uninterp spec fn chunk_track(data: PlayData) -> Seq<(u32, u32, u32)>;

/// The cycle of every message and of every tempo change can be computed in 64 bits.
pub open spec fn messages_fit(events: MidiEvents, rate: int, per_quarter: int) -> bool {
    let table = timing::timed_changes(tempo_changes(events), rate, per_quarter);
    &&& forall|i: int|
        0 <= i < event_messages(events).len() ==> timing::cycle_fits(
            table,
            rate,
            per_quarter,
            (#[trigger] event_messages(events)[i]).0 as int,
        )
    &&& forall|i: int|
        0 <= i < tempo_changes(events).len() ==> timing::cycle_fits(
            table,
            rate,
            per_quarter,
            (#[trigger] tempo_changes(events)[i]).0 as int,
        )
}

/// A rendering with the warnings taken by their view.
pub open spec fn rendering_view(
    rendered: Result<(MidiEvents, Vec<RenderRegionWarning>), RenderRegionError>,
) -> Result<(MidiEvents, Seq<RenderRegionWarning>), RenderRegionError> {
    match rendered {
        Ok((events, warnings)) => Ok((events, warnings@)),
        Err(error) => Err(error),
    }
}

/// Calls `klavier_core::midi_events::create_midi_events`, whose result is a function of its
/// arguments. Claimed: the result is the one that `rendering` names; the chunks of a rendered score
/// follow one another without overlap; and on a plain score the call returns. Other scores on
/// which it panics are left out.
#[verifier::external_body]
pub(crate) fn render(
    top_rhythm: Rhythm,
    top_key: Key,
    note_repo: &BagStore<u32, Rc<Note>, ModelChangeMetadata>,
    bar_repo: &Store<u32, Bar, ModelChangeMetadata>,
    tempo_repo: &Store<u32, Tempo, ModelChangeMetadata>,
    dumper_repo: &Store<u32, CtrlChg, ModelChangeMetadata>,
    soft_repo: &Store<u32, CtrlChg, ModelChangeMetadata>,
) -> (rendered: Result<(MidiEvents, Vec<RenderRegionWarning>), RenderRegionError>)
    requires
        renders(
            top_rhythm,
            top_key,
            *note_repo,
            *bar_repo,
            *tempo_repo,
            *dumper_repo,
            *soft_repo,
        ),
    ensures
        rendering(
            top_rhythm,
            top_key,
            *note_repo,
            *bar_repo,
            *tempo_repo,
            *dumper_repo,
            *soft_repo,
        ) == Some(rendering_view(rendered)),
        rendered matches Ok((events, _)) ==> timing::laid_out(chunks_of(events)),
{
    klavier_core::midi_events::create_midi_events(
        top_rhythm, top_key, note_repo, bar_repo, tempo_repo, dumper_repo, soft_repo,
    ).map_err(|report| report.current_context().clone())
}

/// Reads `klavier_core::duration::Duration::TICK_RESOLUTION`. Claimed: it is 240.
#[verifier::external_body]
pub(crate) fn tick_resolution() -> (ticks: u32)
    ensures
        ticks == timing::TICKS_PER_QUARTER,
{
    klavier_core::duration::Duration::TICK_RESOLUTION as u32
}

/// Reads the tempo changes of a rendered score through `klavier_helper::store::Store::iter`.
/// Claimed: they come in ascending order of their ticks, as every `Store` keeps its entries.
#[verifier::external_body]
pub(crate) fn read_tempo_changes(events: &MidiEvents) -> (changes: Vec<(u32, u16)>)
    ensures
        changes@ == tempo_changes(*events),
        timing::ascending_changes(changes@),
{
    events.tempo_table.iter().map(|e| (e.0, e.1.as_u16())).collect()
}

/// Reads the chunks of a rendered score through `klavier_helper::store::Store::iter`. Claimed:
/// all of them, in order.
#[verifier::external_body]
pub(crate) fn read_chunks(events: &MidiEvents) -> (chunks: Vec<(u32, u32, u32)>)
    ensures
        chunks@ == chunks_of(*events),
{
    events.chunks.iter().map(|e| (e.0, e.1.start_tick(), e.1.end_tick())).collect()
}

/// Reads at which accumulated ticks a rendered score has messages. Claimed: all of them, in
/// order.
#[verifier::external_body]
pub(crate) fn read_event_ticks(events: &MidiEvents) -> (ticks: Vec<u32>)
    ensures
        ticks@ == event_messages(*events).map_values(|e: (u32, Seq<Seq<u8>>)| e.0),
{
    events.events.keys().copied().collect()
}

/// Reads the notes of a score through `klavier_helper::bag_store::BagStore::iter`. Claimed: all of
/// them, in order.
#[verifier::external_body]
fn read_notes(note_repo: &BagStore<u32, Rc<Note>, ModelChangeMetadata>) -> (notes: Vec<(u32, u8)>)
    ensures
        notes@ == note_marks(*note_repo),
{
    note_repo.iter().map(|e| (e.1.base_start_tick, e.1.duration.dots.value())).collect()
}

/// Reads the bar lines of a score through `klavier_helper::store::Store::iter`, with
/// `klavier_core::bar::RepeatSet::contains` and `region_index` for their signs. Claimed: all of
/// them, in order.
#[verifier::external_body]
fn read_bars(bar_repo: &Store<u32, Bar, ModelChangeMetadata>) -> (bars: Vec<
    (u32, u32, bool, bool, bool),
>)
    ensures
        bars@ == bar_marks(*bar_repo),
{
    bar_repo.iter().map(|e| (
        e.0,
        e.1.start_tick,
        e.1.repeats.contains(klavier_core::bar::Repeat::Dc),
        e.1.repeats.contains(klavier_core::bar::Repeat::Ds),
        e.1.repeats.region_index().is_some(),
    )).collect()
}

/// Reads the ticks of tempo changes through `klavier_helper::store::Store::iter`. Claimed: all of
/// them, in order.
#[verifier::external_body]
fn read_tempo_ticks(tempo_repo: &Store<u32, Tempo, ModelChangeMetadata>) -> (ticks: Vec<u32>)
    ensures
        ticks@ == tempo_ticks(*tempo_repo),
{
    tempo_repo.iter().map(|e| e.0).collect()
}

/// Reads the ticks of pedal movements through `klavier_helper::store::Store::iter`. Claimed: all of
/// them, in order.
#[verifier::external_body]
fn read_pedal_ticks(pedal_repo: &Store<u32, CtrlChg, ModelChangeMetadata>) -> (ticks: Vec<u32>)
    ensures
        ticks@ == pedal_ticks(*pedal_repo),
{
    pedal_repo.iter().map(|e| e.1.start_tick).collect()
}

fn are_ticks_plain(ticks: &Vec<u32>) -> (ok: bool)
    ensures
        ok == plain_ticks(ticks@),
{
    let mut i: usize = 0;
    while i < ticks.len()
        invariant
            i <= ticks@.len(),
            forall|k: int| 0 <= k < i ==> (#[trigger] ticks@[k]) <= PLAIN_TICKS,
        decreases ticks@.len() - i,
    {
        if ticks[i] > PLAIN_TICKS {
            assert(ticks@[i as int] > PLAIN_TICKS);
            return false;
        }
        i = i + 1;
    }
    true
}

fn are_notes_plain(notes: &Vec<(u32, u8)>) -> (ok: bool)
    ensures
        ok == forall|i: int| 0 <= i < notes@.len() ==> plain_note(#[trigger] notes@[i]),
{
    let mut i: usize = 0;
    while i < notes.len()
        invariant
            i <= notes@.len(),
            forall|k: int| 0 <= k < i ==> plain_note(#[trigger] notes@[k]),
        decreases notes@.len() - i,
    {
        if notes[i].0 > PLAIN_TICKS || notes[i].1 > PLAIN_DOTS {
            assert(!plain_note(notes@[i as int]));
            return false;
        }
        i = i + 1;
    }
    true
}

fn are_bars_plain(bars: &Vec<(u32, u32, bool, bool, bool)>) -> (ok: bool)
    ensures
        ok == forall|i: int| 0 <= i < bars@.len() ==> plain_bar(#[trigger] bars@[i]),
{
    let mut i: usize = 0;
    while i < bars.len()
        invariant
            i <= bars@.len(),
            forall|k: int| 0 <= k < i ==> plain_bar(#[trigger] bars@[k]),
        decreases bars@.len() - i,
    {
        let bar: (u32, u32, bool, bool, bool) = bars[i];
        if bar.0 != bar.1 || bar.1 > PLAIN_TICKS || bar.2 || bar.3 || bar.4 {
            assert(!plain_bar(bars@[i as int]));
            return false;
        }
        i = i + 1;
    }
    true
}

/// Tells whether a score is plain, so that it can be rendered for certain. Scores with other
/// repeats can mostly be rendered too.
pub fn is_plain(
    note_repo: &BagStore<u32, Rc<Note>, ModelChangeMetadata>,
    bar_repo: &Store<u32, Bar, ModelChangeMetadata>,
    tempo_repo: &Store<u32, Tempo, ModelChangeMetadata>,
    dumper_repo: &Store<u32, CtrlChg, ModelChangeMetadata>,
    soft_repo: &Store<u32, CtrlChg, ModelChangeMetadata>,
) -> (ok: bool)
    ensures
        ok == plain(*note_repo, *bar_repo, *tempo_repo, *dumper_repo, *soft_repo),
{
    are_notes_plain(&read_notes(note_repo)) && are_bars_plain(&read_bars(bar_repo))
        && are_ticks_plain(&read_tempo_ticks(tempo_repo)) && are_ticks_plain(
        &read_pedal_ticks(dumper_repo),
    ) && are_ticks_plain(&read_pedal_ticks(soft_repo))
}

/// Tells whether the cycle of every message and of every tempo change fits 64 bits.
pub(crate) fn are_messages_fit(
    events: &MidiEvents,
    changes: &Vec<(u32, u16)>,
    table: &Vec<(u32, u16, u64)>,
    rate: u32,
    per_quarter: u32,
) -> (fit: bool)
    requires
        per_quarter != 0,
        changes@ == tempo_changes(*events),
        table@ == timing::timed_changes(changes@, rate as int, per_quarter as int),
    ensures
        fit == messages_fit(*events, rate as int, per_quarter as int),
{
    let ticks: Vec<u32> = read_event_ticks(events);
    let ghost messages = event_messages(*events);
    let mut i: usize = 0;
    while i < ticks.len()
        invariant
            i <= ticks@.len(),
            per_quarter != 0,
            messages == event_messages(*events),
            table@ == timing::timed_changes(
                tempo_changes(*events),
                rate as int,
                per_quarter as int,
            ),
            ticks@ == messages.map_values(|e: (u32, Seq<Seq<u8>>)| e.0),
            forall|k: int|
                0 <= k < i ==> timing::cycle_fits(
                    table@,
                    rate as int,
                    per_quarter as int,
                    (#[trigger] messages[k]).0 as int,
                ),
        decreases ticks@.len() - i,
    {
        assert(ticks@[i as int] == messages[i as int].0);
        if timing::checked_cycle_of(table, rate, per_quarter, ticks[i]).is_none() {
            return false;
        }
        i = i + 1;
    }
    let mut j: usize = 0;
    while j < changes.len()
        invariant
            j <= changes@.len(),
            per_quarter != 0,
            changes@ == tempo_changes(*events),
            table@ == timing::timed_changes(changes@, rate as int, per_quarter as int),
            forall|k: int|
                0 <= k < j ==> timing::cycle_fits(
                    table@,
                    rate as int,
                    per_quarter as int,
                    (#[trigger] changes@[k]).0 as int,
                ),
        decreases changes@.len() - j,
    {
        if timing::checked_cycle_of(table, rate, per_quarter, changes[j].0).is_none() {
            return false;
        }
        j = j + 1;
    }
    true
}

/// Calls `klavier_core::play_start_tick::PlayStartTick::to_accum_tick` on the chunks of a
/// rendered score. Claimed: the first chunk that plays the tick counts as the first pass, the
/// next one as the second, and so on; the result lies as far into the chunk of the pass that is
/// meant as the tick does, and where there is no such pass the error says how many there are.
/// Left out is a sum that leaves 32 bits, on which the call panics.
#[verifier::external_body]
pub(crate) fn to_accum_tick(start: PlayStartTick, events: &MidiEvents) -> (tick: Result<
    u32,
    ToAccumTickError,
>)
    requires
        start_fits(chunks_of(*events), start),
    ensures
        tick == start_accum_tick(chunks_of(*events), Some(start)),
{
    klavier_core::play_start_tick::PlayStartTick::new(start.tick, start.iter)
        .to_accum_tick(&events.chunks)
        .map_err(|e| match e {
            klavier_core::play_start_tick::ToAccumTickError::CannotFind { specified_iter, max_iter } =>
                ToAccumTickError::CannotFind { specified_iter: specified_iter.iter(), max_iter },
        })
}

/// `klavier_core::midi_events::MidiEvents::cycles_by_accum_tick`. Claimed: the table holds every
/// tempo change with its cycle, each counted on from the one before. Left out are a division by
/// zero and sums and products that leave 64 bits, on which the call panics.
pub assume_specification[ MidiEvents::cycles_by_accum_tick ](
    events: &MidiEvents,
    sampling_rate: u32,
    ticks_per_quarter: u32,
) -> (table: Store<u32, (TempoValue, u64), ()>)
    requires
        ticks_per_quarter != 0,
        timing::changes_fit(
            tempo_changes(*events),
            sampling_rate as int,
            ticks_per_quarter as int,
        ),
    ensures
        cycle_table(table) == timing::timed_changes(
            tempo_changes(*events),
            sampling_rate as int,
            ticks_per_quarter as int,
        ),
;

/// `klavier_core::midi_events::MidiEvents::accum_tick_to_cycle`. Claimed: the cycle is counted on
/// from the last change of the table at or before the tick, at the tempo of that change, or
/// from zero at the default tempo. Left out is what panics, as above.
pub assume_specification[ MidiEvents::accum_tick_to_cycle ](
    cycles_by_tick: &Store<u32, (TempoValue, u64), ()>,
    tick: u32,
    sampling_rate: u32,
    ticks_per_quarter: u32,
) -> (cycle: u64)
    requires
        ticks_per_quarter != 0,
        timing::cycle_fits(
            cycle_table(*cycles_by_tick),
            sampling_rate as int,
            ticks_per_quarter as int,
            tick as int,
        ),
    ensures
        cycle == timing::cycle_of(
            cycle_table(*cycles_by_tick),
            sampling_rate as int,
            ticks_per_quarter as int,
            tick as int,
        ),
;

/// `klavier_core::midi_events::MidiEvents::to_play_data`. Claimed: every cycle has the messages
/// of those ticks that fall on it, in the order of the ticks; cycles are in ascending order, and
/// none is there without a message; the chunks are kept; and, where the tempo changes fall on cycles that do not go back, the
/// tempo in force at a cycle is that of the last change at or before it. Left out is what
/// panics, as above.
pub assume_specification[ MidiEvents::to_play_data ](
    events: MidiEvents,
    cycles_by_tick: Store<u32, (TempoValue, u64), ()>,
    sampling_rate: u32,
    ticks_per_quarter: u32,
) -> (data: PlayData)
    requires
        ticks_per_quarter != 0,
        forall|i: int|
            0 <= i < event_messages(events).len() ==> timing::cycle_fits(
                cycle_table(cycles_by_tick),
                sampling_rate as int,
                ticks_per_quarter as int,
                (#[trigger] event_messages(events)[i]).0 as int,
            ),
        forall|i: int|
            0 <= i < tempo_changes(events).len() ==> timing::cycle_fits(
                cycle_table(cycles_by_tick),
                sampling_rate as int,
                ticks_per_quarter as int,
                (#[trigger] tempo_changes(events)[i]).0 as int,
            ),
    ensures
        messages::merges(
            midi_data(data),
            timed_messages(
                event_messages(events),
                cycle_table(cycles_by_tick),
                sampling_rate as int,
                ticks_per_quarter as int,
            ),
        ),
        timing::ascending_points(
            timing::tempo_points(
                tempo_changes(events),
                cycle_table(cycles_by_tick),
                sampling_rate as int,
                ticks_per_quarter as int,
            ),
        ) ==> forall|cycle: int| #[trigger]
            timing::point_at(tempo_track(data), cycle) == timing::point_at(
                timing::tempo_points(
                    tempo_changes(events),
                    cycle_table(cycles_by_tick),
                    sampling_rate as int,
                    ticks_per_quarter as int,
                ),
                cycle,
            ),
        chunk_track(data) == chunks_of(events),
;

/// `klavier_core::midi_events::PlayData::cycle_to_tick`. Claimed: the tick is counted on from the
/// tempo change in force at the cycle, at its tempo, or from zero at the default tempo; what is
/// counted on wraps at 32 bits. Left out are a sampling rate of zero and sums and products that
/// leave their type, on which the call panics.
pub assume_specification[ PlayData::cycle_to_tick ](
    data: &PlayData,
    cycle: u64,
    sampling_rate: u32,
) -> (tick: u32)
    requires
        timing::accum_tick_fits(
            timing::point_at(tempo_track(*data), cycle as int),
            cycle as int,
            sampling_rate as int,
        ),
    ensures
        tick == timing::accum_tick_from(
            timing::point_at(tempo_track(*data), cycle as int),
            cycle as int,
            sampling_rate as int,
        ),
;

/// `klavier_core::midi_events::PlayData::accum_tick_to_tick`. Claimed: the result lies as far
/// into the score from the start of the chunk as the accumulated tick lies behind the one at
/// which the chunk is played. Left out is a sum that leaves 32 bits, on which the call panics.
pub assume_specification[ PlayData::accum_tick_to_tick ](data: &PlayData, tick: u32) -> (found: u32)
    requires
        timing::tick_from(timing::chunk_at(chunk_track(*data), tick as int), tick as int)
            <= u32::MAX,
    ensures
        found == timing::tick_from(timing::chunk_at(chunk_track(*data), tick as int), tick as int),
;

/// `clone` of `klavier_core::midi_events::PlayData`. Claimed: the copy has the same messages, tempo
/// changes and chunks.
pub assume_specification[ <PlayData as Clone>::clone ](data: &PlayData) -> (copy: PlayData)
    ensures
        midi_data(copy) == midi_data(*data),
        tempo_track(copy) == tempo_track(*data),
        chunk_track(copy) == chunk_track(*data),
;

/// `clone` of `klavier_core::repeat::RenderRegionError`, an enum of numbers. Claimed: the copy is
/// the same error.
pub assume_specification[ <RenderRegionError as Clone>::clone ](
    error: &RenderRegionError,
) -> (copy: RenderRegionError)
    ensures
        copy == *error,
;

/// Calls `klavier_helper::store::Store::range` on the messages. Claimed: the entries from `from`
/// up to but not at `to`, in order.
#[verifier::external_body]
pub(crate) fn midi_data_range(data: &PlayData, from: u64, to: u64) -> (entries: &[(
    u64,
    Vec<Vec<u8>>,
)])
    requires
        from <= to,
    ensures
        entries.deep_view() == messages::window(midi_data(*data), from as int, to as int),
{
    data.midi_data.range(from..to).1
}

/// Calls `klavier_helper::store::Store::peek_last` on the messages. Claimed: the cycle of the
/// last entry, if there is one.
#[verifier::external_body]
pub(crate) fn midi_data_last(data: &PlayData) -> (cycle: Option<u64>)
    ensures
        cycle == if midi_data(*data).len() == 0 {
            None
        } else {
            Some(midi_data(*data).last().0)
        },
{
    data.midi_data.peek_last().map(|e| e.0)
}

} // verus!
