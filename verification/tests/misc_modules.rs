use apple2::disk::dsk_to_woz::crc32;
use apple2::rolling_times::RollingTimes;
use apple2::speaker::Samples;
use apple2::ui::debugger::{all_memory_types, MemoryType, TabId};
use apple2::ui::soft_switches::soft_switches;

#[test]
fn crc32_check_value() {
    assert_eq!(crc32(0, b"123456789"), 0xCBF4_3926);
    assert_eq!(crc32(0, b""), 0);
    // Continuing a checksum gives the checksum of the whole.
    let first = crc32(0, b"12345");
    assert_eq!(crc32(first, b"6789"), 0xCBF4_3926);
}

#[test]
fn rolling_times_span() {
    let mut rt = RollingTimes::new();
    assert_eq!(rt.span(), Some((0, 0, 0)));
    rt.add(0, 200, 500_000);
    assert_eq!(rt.span(), Some((500_000, 0, 200)));
    rt.add(200, 400, 200_000);
    assert_eq!(rt.span(), Some((700_000, 0, 400)));
    rt.add(400, 600, 200_000);
    rt.add(600, 1000, 100_000);
    assert_eq!(rt.span(), Some((1_000_000, 0, 1000)));
}

#[test]
fn rolling_times_keeps_the_last_ten() {
    let mut rt = RollingTimes::new();
    for i in 0..12u128 {
        rt.add(i * 100, i * 100 + 100, 1);
    }
    assert_eq!(rt.span(), Some((10, 200, 1200)));
    let mut big = RollingTimes::new();
    big.add(0, 1, u128::MAX);
    big.add(1, 2, 1);
    assert_eq!(big.span(), None);
}

#[test]
fn speaker_intervals_alternate() {
    let mut s = Samples::default();
    let r = s.cycles_to_intervals(&vec![1000, 1100, 1400]);
    assert_eq!(r, vec![(0, false), (100, true), (300, false)]);
    // The next batch is measured from the last click.
    let r = s.cycles_to_intervals(&vec![1500]);
    assert_eq!(r, vec![(100, true)]);
    // After a long silence it starts again from the first click.
    let r = s.cycles_to_intervals(&vec![1_000_000, 1_000_010]);
    assert_eq!(r, vec![(0, false), (10, true)]);
}

#[test]
fn soft_switch_flip() {
    let switches = soft_switches();
    assert_eq!(switches.len(), 11);
    assert_eq!(switches[0].name, "Text");
    assert_eq!(switches[10].name, "Alt Char");
    let mut memory = vec![0u8; 0x10000];
    let text = &switches[0];
    assert!(!text.is_set(&memory));
    text.flip(&mut memory);
    assert!(text.is_set(&memory));
    assert_eq!(memory[0xc01a], 0x80);
    memory[0xc01a] = 0xff;
    text.flip(&mut memory);
    assert!(!text.is_set(&memory));
    assert_eq!(memory[0xc01a], 0);
}

#[test]
fn debugger_enums() {
    assert_eq!(MemoryType::default(), MemoryType::Main);
    assert_eq!(MemoryType::Aux.name(), "Aux");
    assert_eq!(all_memory_types(), [MemoryType::Main, MemoryType::Aux]);
    assert_eq!(TabId::default(), TabId::DisksTab);
}

use apple2::shared::{Shared, SpeakerEvent};

#[test]
fn speaker_events_in_order_then_none() {
    let mut shared = Shared::new();
    let events = vec![
        SpeakerEvent { cycle: 5, timestamp: 1 },
        SpeakerEvent { cycle: 3, timestamp: 2 },
        SpeakerEvent { cycle: 9, timestamp: 3 },
    ];
    for e in &events {
        shared.add_speaker_event(*e);
    }
    assert_eq!(shared.get_speaker_events(), events);
    assert_eq!(shared.get_speaker_events(), Vec::<SpeakerEvent>::new());
}
