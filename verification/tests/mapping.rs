use drummr::mapping::load_mappings;
use drummr::mapping::{
    build_midi_map, default_mappings, resolve_trigger, test_trigger_note, update_mapping,
    DrumMapping,
};
use drummr::ui::{mapping_roles, MappingRole};

#[test]
fn default_mapping_table() {
    let m = default_mappings();
    assert_eq!(m.len(), 16);
    assert_eq!(m[0], DrumMapping { note: 36, slot: 0 });
    assert_eq!(m[1], DrumMapping { note: 38, slot: 1 });
    assert_eq!(m[9], DrumMapping { note: 39, slot: 9 });
    assert_eq!(m[15], DrumMapping { note: 59, slot: 15 });
}

#[test]
fn update_mapping_overwrites_first_entry_or_appends() {
    let mut m = vec![DrumMapping { note: 36, slot: 0 }, DrumMapping { note: 38, slot: 1 }, DrumMapping { note: 50, slot: 1 }];
    update_mapping(&mut m, 1, 40);
    assert_eq!(m, vec![DrumMapping { note: 36, slot: 0 }, DrumMapping { note: 40, slot: 1 }, DrumMapping { note: 50, slot: 1 }]);
    update_mapping(&mut m, 7, 60);
    assert_eq!(m.len(), 4);
    assert_eq!(m[3], DrumMapping { note: 60, slot: 7 });
    assert_eq!(test_trigger_note(&m, 7), 60);
    assert_eq!(test_trigger_note(&m, 1), 40);
}

#[test]
fn test_trigger_falls_back_to_36_plus_slot() {
    let m: Vec<DrumMapping> = vec![];
    assert_eq!(test_trigger_note(&m, 0), 36);
    assert_eq!(test_trigger_note(&m, 5), 41);
    assert_eq!(test_trigger_note(&m, 300), 80); // 300 as u8 == 44
}

#[test]
fn midi_map_explicit_and_fallback() {
    let mut loaded = vec![false; 16];
    loaded[0] = true;
    loaded[1] = true;
    loaded[2] = true;
    let m = vec![
        DrumMapping { note: 38, slot: 0 },
        DrumMapping { note: 38, slot: 2 },
        DrumMapping { note: 200, slot: 1 },
        DrumMapping { note: 60, slot: 20 },
    ];
    let map = build_midi_map(&m, &loaded);
    assert_eq!(map.len(), 128);
    // the first valid mapping for a note wins
    assert_eq!(map[38], Some(0));
    let later_valid = vec![DrumMapping { note: 40, slot: 30 }, DrumMapping { note: 40, slot: 4 }, DrumMapping { note: 40, slot: 5 }];
    assert_eq!(build_midi_map(&later_valid, &loaded)[40], Some(4));
    // slot 1 has a (sentinel) mapping, so no fallback for it
    assert_eq!(map[37], None);
    // slot 0 and 2 are mapped explicitly: no fallback either
    assert_eq!(map[36], None);
    assert_eq!(map[60], None);
    // an unmapped loaded slot falls back to 36 + slot
    let map2 = build_midi_map(&vec![], &loaded);
    assert_eq!(map2[36], Some(0));
    assert_eq!(map2[37], Some(1));
    assert_eq!(map2[38], Some(2));
    assert_eq!(map2[39], None);
}

#[test]
fn fallback_does_not_take_an_explicitly_used_note() {
    let mut loaded = vec![false; 16];
    loaded[1] = true;
    let m = vec![DrumMapping { note: 37, slot: 5 }];
    let map = build_midi_map(&m, &loaded);
    assert_eq!(map[37], Some(5));
}

#[test]
fn resolve_trigger_rules() {
    let mut map = vec![None; 128];
    map[36] = Some(0);
    map[40] = Some(3);
    let mut mutes = vec![false; 16];
    mutes[3] = true;
    assert_eq!(resolve_trigger(&map, &mutes, 36), Some(0));
    assert_eq!(resolve_trigger(&map, &mutes, 40), None);
    assert_eq!(resolve_trigger(&map, &mutes, 41), None);
    assert_eq!(resolve_trigger(&map, &mutes, 200), None);
}

#[test]
fn update_then_route_law_on_values() {
    let mut m = default_mappings();
    update_mapping(&mut m, 4, 100);
    let loaded = vec![true; 16];
    let map = build_midi_map(&m, &loaded);
    let mutes = vec![false; 16];
    assert_eq!(resolve_trigger(&map, &mutes, 100), Some(4));
    assert_eq!(resolve_trigger(&map, &mutes, 41), None);
}

#[test]
fn mapping_roles_names_or_empty_slot() {
    let m = vec![DrumMapping { note: 36, slot: 0 }, DrumMapping { note: 50, slot: 12 }];
    let names = vec!["Kick".to_string()];
    let roles: Vec<MappingRole> = mapping_roles(&m, &names);
    assert_eq!(roles.len(), 2);
    assert_eq!(roles[0].name, "Kick");
    assert_eq!(roles[0].note, 36);
    assert_eq!(roles[1].name, "Empty Slot 12");
    assert_eq!(roles[1].slot, 12);
}

#[test]
fn load_mappings_stored_or_defaults() {
    let d = load_mappings(None);
    assert_eq!(d, default_mappings());
    let stored = vec![DrumMapping { note: 60, slot: 3 }];
    assert_eq!(load_mappings(Some(stored.clone())), stored);
}
