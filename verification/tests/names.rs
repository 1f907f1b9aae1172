use drummr::names::{preset_names, resolve_track, track_names, TrackError};

#[test]
fn track_names_filter_trim_and_sort() {
    let entries = vec![
        "b.mid".to_string(),
        "readme.txt".to_string(),
        "A.mid".to_string(),
        "a.mid.mid".to_string(),
        "mid".to_string(),
        "c.MID".to_string(),
    ];
    assert_eq!(track_names(&entries), vec!["A", "a", "b"]);
}

#[test]
fn preset_names_keep_order() {
    let entries = vec!["909.toml".to_string(), "notes.md".to_string(), "808.toml".to_string(), "x.toml.toml".to_string()];
    assert_eq!(preset_names(&entries), vec!["909", "808", "x"]);
}

#[test]
fn resolve_track_accepts_plain_names() {
    assert_eq!(resolve_track("groove_1").unwrap(), "presets/midi/groove_1.mid");
    assert_eq!(resolve_track("a.b").unwrap(), "presets/midi/a.b.mid");
}

#[test]
fn resolve_track_rejects_escapes() {
    for bad in ["", "../x", "a/b", "a\\b", "..", "a..b", "nul\0"] {
        assert_eq!(resolve_track(bad), Err(TrackError::InvalidName), "{:?}", bad);
    }
}
