use klavier_jack::messages::list_silence;
use klavier_jack::messages::list_writes;
use klavier_jack::timing::checked_accum_tick;
use klavier_jack::timing::checked_cycle_of;
use klavier_jack::timing::checked_cycles;
use klavier_jack::timing::checked_table;
use klavier_jack::timing::checked_tick;
use klavier_jack::timing::clamp_pass;
use klavier_jack::timing::find_pass;
use klavier_jack::timing_laws::ORDINARY_RATE;

#[test]
fn ticks_take_cycles() {
    // 48000 * 60 / 120 / 240 cycles a tick.
    assert_eq!(checked_cycles(1, 120, 48000, 240), Some(100));
    assert_eq!(checked_cycles(0, 120, 48000, 240), Some(0));
    assert_eq!(checked_cycles(7, 110, 44100, 240), Some(701));
    assert_eq!(checked_cycles(1, 0, 48000, 240), None);
    assert_eq!(checked_cycles(u32::MAX, 1, u32::MAX, 240), None);
}

#[test]
fn ordinary_rates_fit() {
    assert!(checked_cycles(u32::MAX, 1, ORDINARY_RATE, 1).is_some());
    let table = checked_table(&vec![(5, 1), (u32::MAX - 1, 1)], ORDINARY_RATE, 1).unwrap();
    assert!(checked_cycle_of(&table, ORDINARY_RATE, 1, u32::MAX).is_some());
}

#[test]
fn changes_are_timed_one_after_the_other() {
    let changes = vec![(0, 60), (480, 240), (960, 120)];
    let table = checked_table(&changes, 48000, 240).unwrap();
    assert_eq!(table, vec![(0, 60, 0), (480, 240, 96000), (960, 120, 120000)]);
    assert_eq!(checked_cycle_of(&table, 48000, 240, 0), Some(0));
    assert_eq!(checked_cycle_of(&table, 48000, 240, 479), Some(95800));
    assert_eq!(checked_cycle_of(&table, 48000, 240, 480), Some(96000));
    assert_eq!(checked_cycle_of(&table, 48000, 240, 481), Some(96050));
    assert_eq!(checked_cycle_of(&table, 48000, 240, 1000), Some(124000));
}

#[test]
fn default_tempo_holds_before_the_first_change() {
    let table = checked_table(&vec![(480, 240)], 48000, 240).unwrap();
    assert_eq!(table, vec![(480, 240, 48000)]);
    assert_eq!(checked_cycle_of(&table, 48000, 240, 10), Some(1000));
    assert_eq!(checked_cycle_of(&vec![], 48000, 240, 10), Some(1000));
}

#[test]
fn tempo_of_zero_stops_time() {
    assert_eq!(checked_table(&vec![(0, 0), (480, 120)], 48000, 240), None);
    let table = checked_table(&vec![(480, 0)], 48000, 240).unwrap();
    assert_eq!(checked_cycle_of(&table, 48000, 240, 479), Some(47900));
    assert_eq!(checked_cycle_of(&table, 48000, 240, 480), None);
}

#[test]
fn cycles_reach_ticks() {
    let points = vec![(48000, 480, 240)];
    assert_eq!(checked_accum_tick(&points, 0, 48000), Some(0));
    assert_eq!(checked_accum_tick(&points, 47999, 48000), Some(479));
    assert_eq!(checked_accum_tick(&points, 48000, 48000), Some(480));
    assert_eq!(checked_accum_tick(&points, 48050, 48000), Some(481));
    assert_eq!(checked_accum_tick(&points, 48000, 0), None);
    assert_eq!(checked_accum_tick(&points, u64::MAX, 48000), None);
    // What is counted on wraps.
    assert_eq!(checked_accum_tick(&vec![], 0x1_0000_0000 * 100 + 700, 48000), Some(7));
    assert_eq!(checked_accum_tick(&vec![(0, u32::MAX, 120)], 100, 48000), None);
}

#[test]
fn whole_cycles_round_trip() {
    for tick in [0, 1, 100, 479, 480, 12345] {
        let cycle = checked_cycle_of(&vec![], 48000, 240, tick).unwrap();
        assert_eq!(checked_accum_tick(&vec![], cycle, 48000), Some(tick));
    }
}

#[test]
fn round_trip_loses_at_most_a_tick() {
    // 44100 * 60 / 110 / 240 cycles a tick, which is not a whole number.
    let table = checked_table(&vec![(0, 110)], 44100, 240).unwrap();
    let points = vec![(0, 0, 110)];
    let mut last = None;
    for tick in 0..5000 {
        let cycle = checked_cycle_of(&table, 44100, 240, tick).unwrap();
        assert!(last < Some(cycle));
        last = Some(cycle);
        let back = checked_accum_tick(&points, cycle, 44100).unwrap();
        assert!(back == tick || back + 1 == tick);
    }
    assert_eq!(checked_cycle_of(&table, 44100, 240, 7), Some(701));
    assert_eq!(checked_accum_tick(&points, 701, 44100), Some(6));
}

#[test]
fn position_does_not_go_back() {
    // 44100 * 60 / 110 / 240 cycles a tick, which is not a whole number.
    let points = vec![(0, 0, 110), (30000, 300, 77)];
    let mut last = 0;
    for cycle in 0..60000 {
        let tick = checked_accum_tick(&points, cycle, 44100).unwrap();
        assert!(last <= tick);
        last = tick;
    }
}

#[test]
fn chunks_lead_back_to_the_score() {
    // A passage of 480 ticks that is repeated, then the rest.
    let chunks = vec![(0, 0, 480), (480, 0, 480), (960, 480, u32::MAX)];
    assert_eq!(checked_tick(&chunks, 100), Some(100));
    assert_eq!(checked_tick(&chunks, 479), Some(479));
    assert_eq!(checked_tick(&chunks, 480), Some(0));
    assert_eq!(checked_tick(&chunks, 1000), Some(520));
    assert_eq!(checked_tick(&vec![], 1000), Some(1000));
    assert_eq!(checked_tick(&vec![(5, 0, 480)], 4), Some(4));
    assert_eq!(checked_tick(&vec![(0, 480, u32::MAX)], u32::MAX), None);
}

#[test]
fn passes_are_counted() {
    let chunks = vec![(0, 0, 480), (480, 0, 480), (960, 480, u32::MAX)];
    assert_eq!(find_pass(&chunks, 100, 1), Some((0, 0, 480)));
    assert_eq!(find_pass(&chunks, 100, 2), Some((480, 0, 480)));
    assert_eq!(find_pass(&chunks, 100, 3), None);
    assert_eq!(find_pass(&chunks, 480, 1), Some((960, 480, u32::MAX)));
    assert_eq!(find_pass(&chunks, u32::MAX, 1), None);
    assert_eq!([0, 1, 3, 5, 6, 255].map(clamp_pass), [1, 1, 3, 5, 5, 5]);
}

#[test]
fn messages_are_listed_with_their_offsets() {
    let timeline = vec![
        (1000, vec![vec![0x90, 60, 64], vec![0x90, 64, 64]]),
        (1007, vec![]),
        (1010, vec![vec![0x90, 60, 0]]),
    ];
    let writes: Vec<(u32, Vec<u8>)> =
        list_writes(&timeline, 1000).into_iter().map(|m| (m.time, m.bytes)).collect();
    assert_eq!(
        writes,
        vec![
            (0, vec![0x90, 60, 64]),
            (0, vec![0x90, 64, 64]),
            (10, vec![0x90, 60, 0]),
        ]
    );
}

#[test]
fn silence_turns_three_controllers_off() {
    let silence = list_silence();
    let controllers: Vec<u8> = silence.iter().map(|m| m.bytes[1]).collect();
    assert_eq!(controllers, vec![67, 120, 64]);
    assert_eq!(silence[0].bytes[45..], [0xBF, 67, 0]);
}
