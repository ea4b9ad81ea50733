use elworthy::cpu::{avx2_enabled, has_avx2, lanes_for, preferred_f64_lanes};

#[test]
fn lane_count_matches_flag() {
    let lanes = preferred_f64_lanes();
    if has_avx2() {
        assert_eq!(lanes, 4);
    } else {
        assert_eq!(lanes, 2);
    }
}

#[test]
fn lanes_for_each_flag_value() {
    assert_eq!(lanes_for(true), 4);
    assert_eq!(lanes_for(false), 2);
}

#[test]
fn avx2_flag_is_found_by_name_and_value() {
    let flags = vec![
        ("has_sse3".to_string(), true),
        ("has_avx2".to_string(), true),
    ];
    assert!(avx2_enabled(&flags));
    let off = vec![("has_avx2".to_string(), false), ("has_avx".to_string(), true)];
    assert!(!avx2_enabled(&off));
    assert!(!avx2_enabled(&Vec::new()));
}
