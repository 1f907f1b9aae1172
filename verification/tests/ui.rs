use drummr::ui::{choose_index, mod_value_index, nest_values, position_of, MidiBacklog};
use drummr::text::{decimal_string, parse_unsigned_range, split_ranges};

fn names(v: &[&str]) -> Vec<String> {
    v.iter().map(|s| s.to_string()).collect()
}

#[test]
fn mod_value_table_positions() {
    assert_eq!(mod_value_index(0, 0), Some(0));
    assert_eq!(mod_value_index(3, 2), Some(17));
    assert_eq!(mod_value_index(15, 4), Some(79));
    assert_eq!(mod_value_index(16, 0), None);
    assert_eq!(mod_value_index(0, 5), None);
}

#[test]
fn nested_values_rows() {
    let flat: Vec<u32> = (0..80).collect();
    let n = nest_values(&flat);
    assert_eq!(n.len(), 16);
    assert_eq!(n[0], vec![0, 1, 2, 3, 4]);
    assert_eq!(n[15], vec![75, 76, 77, 78, 79]);
}

#[test]
fn device_choice_order() {
    let ns = names(&["A", "B", "C"]);
    assert_eq!(position_of(&ns, &"C".to_string()), Some(2));
    assert_eq!(position_of(&ns, &"D".to_string()), None);
    assert_eq!(choose_index(&ns, &Some("B".to_string()), &Some("C".to_string())), 1);
    assert_eq!(choose_index(&ns, &Some("X".to_string()), &Some("C".to_string())), 2);
    assert_eq!(choose_index(&ns, &None, &None), 0);
    assert_eq!(choose_index(&ns, &None, &Some("Y".to_string())), 0);
}

#[test]
fn backlog_sends_small_batches_at_once() {
    let mut b = MidiBacklog::new();
    let sent = b.on_message("m1".to_string(), 100);
    assert_eq!(sent, names(&["m1"]));
    let sent = b.on_message("m2".to_string(), 10);
    assert!(sent.is_empty());
    let sent = b.on_message("m3".to_string(), 100);
    assert_eq!(sent, names(&["m2", "m3"]));
}

#[test]
fn backlog_tick_sends_newest_eight() {
    let mut b = MidiBacklog::new();
    for i in 0..12 {
        let sent = b.on_message(format!("m{}", i), 0);
        assert!(sent.is_empty());
    }
    let sent = b.on_tick();
    assert_eq!(sent, names(&["m4", "m5", "m6", "m7", "m8", "m9", "m10", "m11"]));
    assert!(b.on_tick().is_empty());
}

#[test]
fn decimal_text_round_trip() {
    assert_eq!(decimal_string(0), "0");
    assert_eq!(decimal_string(1234567), "1234567");
    let s: Vec<char> = decimal_string(u64::MAX).chars().collect();
    assert_eq!(parse_unsigned_range(&s, 0, s.len(), u64::MAX), Some(u64::MAX));
    let t: Vec<char> = "12x".chars().collect();
    assert_eq!(parse_unsigned_range(&t, 0, 3, 1000), None);
    assert_eq!(parse_unsigned_range(&t, 0, 2, 1000), Some(12));
    assert_eq!(parse_unsigned_range(&t, 0, 2, 11), None);
    let p: Vec<char> = "+7".chars().collect();
    assert_eq!(parse_unsigned_range(&p, 0, 2, 10), Some(7));
    assert_eq!(parse_unsigned_range(&p, 0, 1, 10), None);
}

#[test]
fn split_ranges_on_separator() {
    let s: Vec<char> = "a:bc::d".chars().collect();
    assert_eq!(split_ranges(&s, 0, s.len(), ':'), vec![(0, 1), (2, 4), (5, 5), (6, 7)]);
}
