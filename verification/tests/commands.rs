use drummr::commands::{parse_command, Command, DivisionField};
use drummr::modulation::ModSource;
use drummr::timing::{parse_beat_division, BeatDivision};

#[test]
fn exact_commands() {
    assert!(matches!(parse_command("LIST_MIDI"), Command::ListMidi));
    assert!(matches!(parse_command("LIST_AUDIO"), Command::ListAudio));
    assert!(matches!(parse_command("LIST_HOSTS"), Command::ListHosts));
    assert!(matches!(parse_command("GET_KIT"), Command::GetKit));
    assert!(matches!(parse_command("LIST_MAPPING_PRESETS"), Command::ListMappingPresets));
    assert!(matches!(parse_command("GET_MAPPING"), Command::GetMapping));
    assert!(matches!(parse_command("LIST_KITS"), Command::ListKits));
    assert!(matches!(parse_command("SYNC_START"), Command::SyncStart));
    assert!(matches!(parse_command("SYNC_STOP"), Command::SyncStop));
    assert!(matches!(parse_command("GET_SYNC_STATUS"), Command::GetSyncStatus));
    assert!(matches!(parse_command("LIST_MIDI_TRACKS"), Command::ListMidiTracks));
    assert!(matches!(parse_command("STOP_MIDI_PLAYBACK"), Command::StopMidiPlayback));
    assert!(matches!(parse_command("LIST_MIDI "), Command::Ignored));
    assert!(matches!(parse_command(""), Command::Ignored));
    assert!(matches!(parse_command("HELLO"), Command::Ignored));
}

#[test]
fn name_arguments_remove_every_prefix_occurrence() {
    match parse_command("SELECT_HOST:ALSA") {
        Command::SelectHost { host } => assert_eq!(host, "ALSA"),
        other => panic!("{:?}", other),
    }
    match parse_command("LOAD_KIT:my SELECT_HOST:kit") {
        Command::LoadKit { name } => assert_eq!(name, "my SELECT_HOST:kit"),
        other => panic!("{:?}", other),
    }
    match parse_command("SAVE_KIT_AS:a SAVE_KIT_AS:b") {
        Command::SaveKitAs { name } => assert_eq!(name, "a b"),
        other => panic!("{:?}", other),
    }
    match parse_command("LOAD_MAPPING_PRESET:alesis") {
        Command::LoadMappingPreset { name } => assert_eq!(name, "alesis"),
        other => panic!("{:?}", other),
    }
    match parse_command("PLAY_MIDI_TRACK:groove_1") {
        Command::PlayMidiTrack { name } => assert_eq!(name, "groove_1"),
        other => panic!("{:?}", other),
    }
}

#[test]
fn numeric_arguments_fall_back() {
    assert!(matches!(parse_command("GET_SCHEMA:7"), Command::GetSchema { slot: 7 }));
    assert!(matches!(parse_command("GET_SCHEMA:x"), Command::GetSchema { slot: 0 }));
    assert!(matches!(parse_command("GET_SCHEMA:+12"), Command::GetSchema { slot: 12 }));
    assert!(matches!(parse_command("GET_SCHEMA:-1"), Command::GetSchema { slot: 0 }));
    assert!(matches!(parse_command("SELECT_MIDI:2"), Command::SelectMidi { index: 2 }));
    assert!(matches!(parse_command("SELECT_AUDIO:"), Command::SelectAudio { index: 0 }));
    assert!(matches!(parse_command("ANALYZE_SLOT:3"), Command::AnalyzeSlot { slot: 3 }));
    assert!(matches!(parse_command("ANALYZE_SLOT:three"), Command::Ignored));
    assert!(matches!(parse_command("TEST_TRIGGER:15"), Command::TestTrigger { slot: 15 }));
    assert!(matches!(parse_command("TEST_TRIGGER:"), Command::Ignored));
    assert!(matches!(
        parse_command("GET_SCHEMA:99999999999999999999999"),
        Command::GetSchema { slot: 0 }
    ));
}

#[test]
fn update_mapping_and_sound_preset() {
    assert!(matches!(parse_command("UPDATE_MAPPING:3:40"), Command::UpdateMapping { slot: 3, note: 40 }));
    assert!(matches!(parse_command("UPDATE_MAPPING:3:300"), Command::UpdateMapping { slot: 3, note: 0 }));
    assert!(matches!(parse_command("UPDATE_MAPPING:3"), Command::Ignored));
    assert!(matches!(parse_command("UPDATE_MAPPING:3:4:5"), Command::Ignored));
    match parse_command("LOAD_SOUND_PRESET:kick:2") {
        Command::LoadSoundPreset { name, slot } => {
            assert_eq!(name, "kick");
            assert_eq!(slot, 2);
        }
        other => panic!("{:?}", other),
    }
}

#[test]
fn set_param_pan_lfo_mod() {
    match parse_command("SET_PARAM:1:freq:220.5") {
        Command::SetParam { slot, param, value } => {
            assert_eq!(slot, 1);
            assert_eq!(param, "freq");
            assert_eq!(value, "220.5");
        }
        other => panic!("{:?}", other),
    }
    match parse_command("SET_PAN:4:-0.5") {
        Command::SetPan { slot, value } => {
            assert_eq!(slot, 4);
            assert_eq!(value, "-0.5");
        }
        other => panic!("{:?}", other),
    }
    match parse_command("SET_LFO:2:x:3.5") {
        Command::SetLfo { slot, index, freq } => {
            assert_eq!(slot, 2);
            assert_eq!(index, 1);
            assert_eq!(freq, "3.5");
        }
        other => panic!("{:?}", other),
    }
    match parse_command("SET_MOD:0:freq:Lfo2:0.25") {
        Command::SetMod { slot, param, source, depth } => {
            assert_eq!(slot, 0);
            assert_eq!(param, "freq");
            assert_eq!(source, ModSource::Lfo2);
            assert_eq!(depth, "0.25");
        }
        other => panic!("{:?}", other),
    }
    match parse_command("SET_MOD:0:freq:Banana:0.25") {
        Command::SetMod { source, .. } => assert_eq!(source, ModSource::NoSource),
        other => panic!("{:?}", other),
    }
    assert!(matches!(parse_command("SET_PARAM:1:freq"), Command::Ignored));
}

#[test]
fn division_commands() {
    assert!(matches!(
        parse_command("SET_DIVISION:2|lfo1|Quarter"),
        Command::SetDivision { slot: 2, field: DivisionField::Lfo1Division, division: Some(BeatDivision::Quarter) }
    ));
    assert!(matches!(
        parse_command("SET_DIVISION:2|decay_division|FourBars"),
        Command::SetDivision { slot: 2, field: DivisionField::DecayDivision, division: Some(BeatDivision::FourBars) }
    ));
    // A set with an unknown division is rejected.
    assert!(matches!(parse_command("SET_DIVISION:2|lfo1|QuarterDotted"), Command::Ignored));
    assert!(matches!(parse_command("SET_DIVISION:2|lfo1"), Command::Ignored));
    assert!(matches!(
        parse_command("CLEAR_DIVISION:5|lfo2"),
        Command::SetDivision { slot: 5, field: DivisionField::Lfo2Division, division: None }
    ));
    assert!(matches!(
        parse_command("CLEAR_DIVISION:x|decay"),
        Command::SetDivision { slot: usize::MAX, field: DivisionField::DecayDivision, division: None }
    ));
    assert!(matches!(parse_command("CLEAR_DIVISION:5|pitch"), Command::Ignored));
    assert!(matches!(parse_command("CLEAR_DIVISION:5"), Command::Ignored));
}

#[test]
fn auto_sync_flag() {
    assert!(matches!(parse_command("SET_AUTO_SYNC:true"), Command::SetAutoSync { enabled: true }));
    assert!(matches!(parse_command("SET_AUTO_SYNC:TRUE"), Command::SetAutoSync { enabled: false }));
    assert!(matches!(parse_command("SET_AUTO_SYNC:"), Command::SetAutoSync { enabled: false }));
}

#[test]
fn beat_division_names() {
    assert_eq!(parse_beat_division("Bar"), Some(BeatDivision::Bar));
    assert_eq!(parse_beat_division("SixteenthTriplet"), Some(BeatDivision::SixteenthTriplet));
    assert_eq!(parse_beat_division("ThirtySecond"), Some(BeatDivision::ThirtySecond));
    assert_eq!(parse_beat_division("QuarterDotted"), None);
    assert_eq!(parse_beat_division("bar"), None);
}

#[test]
fn formatted_lines_decode_to_their_fields() {
    for (slot, note) in [(0usize, 0u8), (15, 127), (usize::MAX, 255)] {
        match parse_command(&format!("UPDATE_MAPPING:{}:{}", slot, note)) {
            Command::UpdateMapping { slot: s, note: n } => assert_eq!((s, n), (slot, note)),
            other => panic!("unexpected {:?}", other),
        }
    }
    match parse_command(&format!("SET_PARAM:{}:{}:{}", 7, "decay", "250.5")) {
        Command::SetParam { slot, param, value } => {
            assert_eq!(slot, 7);
            assert_eq!(param, "decay");
            assert_eq!(value, "250.5");
        }
        other => panic!("unexpected {:?}", other),
    }
    match parse_command(&format!("SET_MOD:{}:{}:{}:{}", 3, "freq", "Lfo2", "-0.25")) {
        Command::SetMod { slot, param, source, depth } => {
            assert_eq!(slot, 3);
            assert_eq!(param, "freq");
            assert_eq!(source, ModSource::Lfo2);
            assert_eq!(depth, "-0.25");
        }
        other => panic!("unexpected {:?}", other),
    }
}
