use drummr::clock::{clock_step, ClockActions, ClockState};
use drummr::settings::fixed_buffer_size;
use drummr::clock::{auto_sync_starts_clock, should_send_start, stability_after, stability_reset, Stability};
use drummr::midi_in::{input_action, is_hit_event, midi_input, note_report, NoteMessage};
use drummr::settings::Settings;

#[test]
fn settings_load_defaults_or_stored() {
    let d = Settings::load(None);
    assert_eq!(d.last_midi_port, None);
    assert_eq!(d.last_audio_device, None);
    assert_eq!(d.audio_host, None);
    assert_eq!(d.buffer_size, Some(128));
    let stored = Settings {
        last_midi_port: Some("Pads".to_string()),
        last_audio_device: None,
        audio_host: Some("ALSA".to_string()),
        buffer_size: Some(256),
    };
    let s = Settings::load(Some(stored));
    assert_eq!(s.last_midi_port.as_deref(), Some("Pads"));
    assert_eq!(s.audio_host.as_deref(), Some("ALSA"));
    assert_eq!(s.buffer_size, Some(256));
}

#[test]
fn master_clock_start_decision() {
    assert!(should_send_start(false, false, false));
    assert!(!should_send_start(false, true, false));
    assert!(should_send_start(false, true, true));
    assert!(!should_send_start(true, false, true));
    assert!(auto_sync_starts_clock(true, false));
    assert!(!auto_sync_starts_clock(true, true));
    assert!(!auto_sync_starts_clock(false, false));
}

#[test]
fn tempo_becomes_stable_after_two_in_band_estimates() {
    let s0 = stability_reset();
    let s1 = stability_after(s0, true, true);
    assert_eq!(s1, s0);
    let s2 = stability_after(s1, false, true);
    assert_eq!(s2, Stability { consecutive_stable_hits: 1, is_stable: false });
    let s3 = stability_after(s2, false, true);
    assert_eq!(s3, Stability { consecutive_stable_hits: 2, is_stable: true });
    let s4 = stability_after(s3, false, false);
    assert_eq!(s4, Stability { consecutive_stable_hits: 0, is_stable: false });
    let top = Stability { consecutive_stable_hits: u32::MAX, is_stable: true };
    assert_eq!(stability_after(top, false, true), top);
}

#[test]
fn midi_input_forwards_notes() {
    let a = midi_input(&[0x92, 38, 100]);
    assert_eq!(a.event, Some([0x90, 38, 100]));
    assert!(a.onset);
    assert_eq!(a.report, Some((38, 100)));

    let off = midi_input(&[0x85, 38, 64]);
    assert_eq!(off.event, Some([0x80, 38, 0]));
    assert!(!off.onset);
    assert_eq!(off.report, Some((38, 0)));

    let zero = midi_input(&[0x90, 40, 0]);
    assert_eq!(zero.event, Some([0x80, 40, 0]));
    assert!(!zero.onset);

    let cc = midi_input(&[0xB0, 7, 100]);
    assert_eq!(cc.event, None);
    assert_eq!(cc.report, None);

    let short = midi_input(&[0x90, 40]);
    assert_eq!(short.event, None);
    let bad = midi_input(&[0x90, 200, 10]);
    assert_eq!(bad.event, None);
}

#[test]
fn input_action_for_decoded_messages() {
    let a = input_action(NoteMessage::NoteOn { note: 36, velocity: 1 });
    assert_eq!(a.event, Some([0x90, 36, 1]));
    assert!(a.onset);
    let o = input_action(NoteMessage::Other);
    assert!(o.event.is_none() && !o.onset && o.report.is_none());
}

#[test]
fn note_report_text() {
    assert_eq!(note_report(36, 127), "MIDI: 36,127");
    assert_eq!(note_report(0, 0), "MIDI: 0,0");
}

#[test]
fn hit_events() {
    assert!(is_hit_event([0x90, 36, 1]));
    assert!(is_hit_event([0x9F, 36, 127]));
    assert!(!is_hit_event([0x90, 36, 0]));
    assert!(!is_hit_event([0x80, 36, 100]));
    assert!(!is_hit_event([0xA0, 36, 100]));
}

#[test]
fn buffer_size_is_clamped_to_device_range() {
    assert_eq!(fixed_buffer_size(None, 64, 4096), 256);
    assert_eq!(fixed_buffer_size(Some(128), 64, 4096), 128);
    assert_eq!(fixed_buffer_size(Some(16), 64, 4096), 64);
    assert_eq!(fixed_buffer_size(Some(8192), 64, 4096), 4096);
    assert_eq!(fixed_buffer_size(None, 512, 1024), 512);
}

#[test]
fn master_clock_steps() {
    let idle = ClockState { sync_active: false, next_tick_ns: 0 };
    // Auto sync without a stable tempo waits.
    let (s, a) = clock_step(idle, 1_000, 100, true, false);
    assert_eq!(a, ClockActions { send_start: false, send_clock: false });
    assert_eq!(s, idle);
    // Manual sync starts at once and sends the first clock.
    let (s, a) = clock_step(idle, 1_000, 100, false, false);
    assert_eq!(a, ClockActions { send_start: true, send_clock: true });
    assert_eq!(s, ClockState { sync_active: true, next_tick_ns: 1_100 });
    // Not yet due.
    let (s2, a) = clock_step(s, 1_050, 100, false, false);
    assert_eq!(a, ClockActions { send_start: false, send_clock: false });
    assert_eq!(s2, s);
    // Due: the next one is a period later.
    let (s3, a) = clock_step(s2, 1_120, 100, false, false);
    assert_eq!(a, ClockActions { send_start: false, send_clock: true });
    assert_eq!(s3.next_tick_ns, 1_200);
    // Far behind: rescheduled a period after now.
    let (s4, a) = clock_step(s3, 5_000, 100, true, false);
    assert_eq!(a, ClockActions { send_start: false, send_clock: true });
    assert_eq!(s4.next_tick_ns, 5_100);
}
