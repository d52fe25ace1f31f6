//! MIDI messages and the order in which they are written.
//!
//! A timeline is a list of cycles, each with the messages that fall on it, a message being its
//! raw bytes. In each process callback the audio server takes the messages of one stretch of
//! cycles, every one with its offset from the first cycle of that stretch.
use vstd::prelude::*;

verus! {

/// One message for the output port: its offset from the start of the buffer, in cycles, and
/// its bytes.
#[derive(Debug, Clone)]
pub struct RawMidi {
    pub time: u32,
    pub bytes: Vec<u8>,
}

impl View for RawMidi {
    type V = (int, Seq<u8>);

    open spec fn view(&self) -> (int, Seq<u8>) {
        (self.time as int, self.bytes@)
    }
}

/// The offsets and bytes of a list of messages.
pub open spec fn views(messages: Seq<RawMidi>) -> Seq<(int, Seq<u8>)> {
    messages.map_values(|m: RawMidi| m@)
}

/// The cycles of a timeline are in ascending order and none occurs twice.
pub open spec fn ascending_cycles(timeline: Seq<(u64, Seq<Seq<u8>>)>) -> bool {
    forall|i: int, j: int| 0 <= i < j < timeline.len() ==> timeline[i].0 < timeline[j].0
}

/// The part of a timeline from cycle `from` up to but not at cycle `to`.
pub open spec fn window(timeline: Seq<(u64, Seq<Seq<u8>>)>, from: int, to: int) -> Seq<
    (u64, Seq<Seq<u8>>),
> {
    timeline.filter(|e: (u64, Seq<Seq<u8>>)| from <= e.0 < to)
}

/// Every entry of a window lies within it.
pub proof fn lemma_window_bounds(timeline: Seq<(u64, Seq<Seq<u8>>)>, from: int, to: int)
    ensures
        forall|i: int|
            0 <= i < window(timeline, from, to).len() ==> from <= (#[trigger] window(
                timeline,
                from,
                to,
            )[i]).0 < to,
    decreases timeline.len(),
{
    reveal(Seq::filter);
    if timeline.len() > 0 {
        lemma_window_bounds(timeline.drop_last(), from, to);
    }
}

/// All messages that a timeline has for one cycle, in order.
pub open spec fn messages_at(timeline: Seq<(u64, Seq<Seq<u8>>)>, cycle: int) -> Seq<Seq<u8>>
    decreases timeline.len(),
{
    if timeline.len() == 0 {
        Seq::empty()
    } else {
        messages_at(timeline.drop_last(), cycle) + if timeline.last().0 == cycle {
            timeline.last().1
        } else {
            Seq::empty()
        }
    }
}

/// A timeline has the messages of a list of entries, which may name a cycle more than once: on
/// every cycle the same messages in the same order. Its cycles are in ascending order, and no
/// cycle stands there without a message.
pub open spec fn merges(
    timeline: Seq<(u64, Seq<Seq<u8>>)>,
    entries: Seq<(u64, Seq<Seq<u8>>)>,
) -> bool {
    &&& ascending_cycles(timeline)
    &&& forall|i: int| 0 <= i < timeline.len() ==> (#[trigger] timeline[i]).1.len() > 0
    &&& forall|cycle: int| #[trigger]
        messages_at(timeline, cycle) == messages_at(entries, cycle)
}

/// The messages of one cycle, each with its offset from cycle `start`.
pub open spec fn stamped(entry: (u64, Seq<Seq<u8>>), start: int) -> Seq<(int, Seq<u8>)> {
    entry.1.map_values(|bytes: Seq<u8>| (entry.0 - start, bytes))
}

/// The messages of a timeline in order, each with its offset from cycle `start`.
pub open spec fn writes_from(timeline: Seq<(u64, Seq<Seq<u8>>)>, start: int) -> Seq<
    (int, Seq<u8>),
>
    decreases timeline.len(),
{
    if timeline.len() == 0 {
        Seq::empty()
    } else {
        writes_from(timeline.drop_last(), start) + stamped(timeline.last(), start)
    }
}

/// Lists the messages of the given cycles with their offsets from cycle `start`.
pub fn list_writes(timeline: &[(u64, Vec<Vec<u8>>)], start: u64) -> (writes: Vec<RawMidi>)
    requires
        forall|i: int|
            0 <= i < timeline@.len() ==> start <= (#[trigger] timeline@[i]).0 <= start + u32::MAX,
    ensures
        views(writes@) == writes_from(timeline.deep_view(), start as int),
{
    let mut writes: Vec<RawMidi> = Vec::new();
    let ghost all = timeline.deep_view();
    let mut i: usize = 0;
    while i < timeline.len()
        invariant
            i <= timeline@.len(),
            all == timeline.deep_view(),
            forall|k: int|
                0 <= k < timeline@.len() ==> start <= (#[trigger] timeline@[k]).0 <= start
                    + u32::MAX,
            views(writes@) == writes_from(all.take(i as int), start as int),
        decreases timeline@.len() - i,
    {
        let cycle: u64 = timeline[i].0;
        let messages: &Vec<Vec<u8>> = &timeline[i].1;
        let ghost entry = all[i as int];
        let ghost before = views(writes@);
        assert(entry == (cycle, messages.deep_view()));
        let mut j: usize = 0;
        while j < messages.len()
            invariant
                j <= messages@.len(),
                start <= cycle <= start + u32::MAX,
                entry == (cycle, messages.deep_view()),
                views(writes@) == before + stamped(entry, start as int).take(j as int),
            decreases messages@.len() - j,
        {
            let bytes: Vec<u8> = messages[j].clone();
            assert(bytes@ =~= messages@[j as int]@);
            assert(entry.1[j as int] =~= messages@[j as int]@);
            let message = RawMidi { time: (cycle - start) as u32, bytes };
            let ghost old_writes = writes@;
            writes.push(message);
            assert(views(writes@) =~= views(old_writes).push(message@));
            assert(stamped(entry, start as int).take(j + 1) =~= stamped(
                entry,
                start as int,
            ).take(j as int).push(message@));
            j = j + 1;
        }
        assert(stamped(entry, start as int).take(j as int) =~= stamped(entry, start as int));
        assert(all.take(i + 1).drop_last() =~= all.take(i as int));
        i = i + 1;
    }
    assert(all.take(i as int) =~= all);
    writes
}

/// Controller number of the soft pedal.
pub const SOFT_PEDAL: u8 = 67;

/// Controller number of "all sound off".
pub const ALL_SOUND_OFF: u8 = 120;

/// Controller number of the damper pedal.
pub const DAMPER_PEDAL: u8 = 64;

/// A control change to zero on each of the sixteen channels, one after the other.
pub open spec fn zero_on_all_channels(controller: u8) -> Seq<u8> {
    Seq::new(
        48,
        |i: int|
            if i % 3 == 0 {
                (0xB0 + i / 3) as u8
            } else if i % 3 == 1 {
                controller
            } else {
                0u8
            },
    )
}

/// What silences the instrument: soft pedal off, all sound off, damper pedal off, at once.
pub open spec fn silence() -> Seq<(int, Seq<u8>)> {
    seq![
        (0int, zero_on_all_channels(SOFT_PEDAL)),
        (0int, zero_on_all_channels(ALL_SOUND_OFF)),
        (0int, zero_on_all_channels(DAMPER_PEDAL)),
    ]
}

fn controller_off(controller: u8) -> (message: RawMidi)
    ensures
        message@ == (0int, zero_on_all_channels(controller)),
{
    let mut bytes: Vec<u8> = Vec::with_capacity(48);
    let mut channel: u8 = 0;
    while channel < 16
        invariant
            channel <= 16,
            bytes@ == zero_on_all_channels(controller).take(3 * channel as int),
        decreases 16 - channel,
    {
        bytes.push(0xB0 + channel);
        bytes.push(controller);
        bytes.push(0);
        channel = channel + 1;
        assert(bytes@ =~= zero_on_all_channels(controller).take(3 * channel as int));
    }
    assert(bytes@ =~= zero_on_all_channels(controller));
    RawMidi { time: 0, bytes }
}

/// The messages that silence the instrument.
pub fn list_silence() -> (writes: Vec<RawMidi>)
    ensures
        views(writes@) == silence(),
{
    let mut writes: Vec<RawMidi> = Vec::new();
    writes.push(controller_off(SOFT_PEDAL));
    writes.push(controller_off(ALL_SOUND_OFF));
    writes.push(controller_off(DAMPER_PEDAL));
    assert(views(writes@) =~= silence());
    writes
}

} // verus!
