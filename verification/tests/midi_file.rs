use drummr::midi_file::{
    flatten_tracks, parse_events, schedule_file, schedule_metrical, sort_by_tick, tick_hits,
    EventKind, FileTiming, MidiFile, NoteSchedule, ScheduleError, ScheduledNote, TickNote,
    TimedEvent, TrackEvent,
};

fn smf(division: [u8; 2], track: &[u8]) -> Vec<u8> {
    let mut v = b"MThd".to_vec();
    v.extend_from_slice(&[0, 0, 0, 6, 0, 0, 0, 1]);
    v.extend_from_slice(&division);
    v.extend_from_slice(b"MTrk");
    v.extend_from_slice(&(track.len() as u32).to_be_bytes());
    v.extend_from_slice(track);
    v
}

fn groove_track() -> Vec<u8> {
    vec![
        0x00, 0xFF, 0x51, 0x03, 0x07, 0xA1, 0x20, // tempo 500000
        0x00, 0x99, 36, 100, // kick at tick 0
        0x60, 0x99, 38, 80, // snare at tick 96
        0x00, 0x89, 36, 0, // note off
        0x60, 0xFF, 0x51, 0x03, 0x0F, 0x42, 0x40, // tempo 1000000 at tick 192
        0x60, 0x99, 42, 64, // hat at tick 288
        0x00, 0x99, 16, 64, // out of percussion range
        0x00, 0x99, 36, 0, // velocity 0
        0x00, 0xFF, 0x2F, 0x00,
    ]
}

#[test]
fn metrical_file_is_tempo_mapped() {
    let bytes = smf([0, 96], &groove_track());
    match parse_events(&bytes) {
        Ok(NoteSchedule::Metrical(notes)) => {
            assert_eq!(
                notes,
                vec![
                    ScheduledNote { offset_us: 0, note: 36, velocity: 100 },
                    ScheduledNote { offset_us: 500_000, note: 38, velocity: 80 },
                    ScheduledNote { offset_us: 2_000_000, note: 42, velocity: 64 },
                ]
            );
        }
        other => panic!("{:?}", other),
    }
}

#[test]
fn garbage_is_a_parse_error() {
    assert!(matches!(parse_events(b"not a midi file"), Err(ScheduleError::Parse)));
}

#[test]
fn smpte_file_keeps_hits_by_tick() {
    // Timecode: -25 fps (0xE7), 40 ticks per frame.
    let bytes = smf([0xE7, 40], &groove_track());
    match parse_events(&bytes) {
        Ok(NoteSchedule::Timecode { fps, subframe, hits }) => {
            assert_eq!(fps, 25);
            assert_eq!(subframe, 40);
            assert_eq!(
                hits,
                vec![
                    TickNote { tick: 0, note: 36, velocity: 100 },
                    TickNote { tick: 96, note: 38, velocity: 80 },
                    TickNote { tick: 288, note: 42, velocity: 64 },
                ]
            );
        }
        other => panic!("{:?}", other),
    }
}

#[test]
fn zero_ticks_per_quarter_is_refused() {
    let f = MidiFile { timing: FileTiming::Metrical { ticks_per_quarter: 0 }, tracks: vec![] };
    assert!(matches!(schedule_file(&f), Err(ScheduleError::ZeroTicksPerQuarter)));
    let g = MidiFile { timing: FileTiming::Timecode { fps: 25, subframe: 0 }, tracks: vec![] };
    assert!(matches!(schedule_file(&g), Err(ScheduleError::InvalidSmpte)));
}

#[test]
fn tracks_are_merged_stably_by_tick() {
    let t1 = vec![
        TrackEvent { delta: 10, kind: EventKind::NoteOn { key: 36, vel: 1 } },
        TrackEvent { delta: 10, kind: EventKind::NoteOn { key: 37, vel: 1 } },
    ];
    let t2 = vec![
        TrackEvent { delta: 0, kind: EventKind::Tempo { us_per_quarter: 250_000 } },
        TrackEvent { delta: 10, kind: EventKind::NoteOn { key: 38, vel: 1 } },
    ];
    let flat = flatten_tracks(&vec![t1, t2]).unwrap();
    let sorted = sort_by_tick(&flat);
    let ticks: Vec<(u64, EventKind)> = sorted.iter().map(|e| (e.tick, e.kind)).collect();
    assert_eq!(
        ticks,
        vec![
            (0, EventKind::Tempo { us_per_quarter: 250_000 }),
            (10, EventKind::NoteOn { key: 36, vel: 1 }),
            (10, EventKind::NoteOn { key: 38, vel: 1 }),
            (20, EventKind::NoteOn { key: 37, vel: 1 }),
        ]
    );
    // 250 000 µs per quarter at 10 ticks per quarter: 25 000 µs per tick.
    let notes = schedule_metrical(10, &sorted).unwrap();
    assert_eq!(notes.iter().map(|n| n.offset_us).collect::<Vec<_>>(), vec![250_000, 250_000, 500_000]);
    assert_eq!(tick_hits(&sorted).len(), 3);
}

#[test]
fn tick_overflow_is_reported() {
    let t = vec![TrackEvent { delta: u32::MAX, kind: EventKind::Other }; 3];
    assert!(flatten_tracks(&vec![t]).is_some());
    let events = vec![
        TimedEvent { tick: u64::MAX, kind: EventKind::NoteOn { key: 36, vel: 1 } },
    ];
    assert!(schedule_metrical(1, &events).is_none());
    let back = vec![
        TimedEvent { tick: 5, kind: EventKind::Other },
        TimedEvent { tick: 4, kind: EventKind::Other },
    ];
    assert!(schedule_metrical(1, &back).is_none());
}
