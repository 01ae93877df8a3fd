use move_clippy::flow_lints::{descriptor_for_diag_code, descriptors, find_descriptor};

#[test]
fn flow_descriptors_are_listed_and_found() {
    let all = descriptors();
    let names: Vec<&str> = all.iter().map(|d| d.name).collect();
    assert_eq!(
        names,
        vec![
            "phantom_capability",
            "unchecked_division_v2",
            "destroy_zero_unchecked_v2",
            "fresh_address_reuse_v2",
            "capability_escape",
            "stale_oracle_price_v3",
        ]
    );
    for d in &all {
        assert_eq!(find_descriptor(d.name).unwrap().name, d.name);
    }
    assert!(find_descriptor("tainted_transfer_recipient").is_none());
}

#[test]
fn diag_codes_map_to_their_lints() {
    assert_eq!(descriptor_for_diag_code(1).unwrap().name, "phantom_capability");
    assert_eq!(descriptor_for_diag_code(3).unwrap().name, "phantom_capability");
    assert_eq!(descriptor_for_diag_code(2).unwrap().name, "unchecked_division_v2");
    assert_eq!(descriptor_for_diag_code(4).unwrap().name, "destroy_zero_unchecked_v2");
    assert_eq!(descriptor_for_diag_code(5).unwrap().name, "fresh_address_reuse_v2");
    assert!(descriptor_for_diag_code(6).is_none());
    assert_eq!(descriptor_for_diag_code(7).unwrap().name, "capability_escape");
    assert_eq!(descriptor_for_diag_code(8).unwrap().name, "stale_oracle_price_v3");
    assert!(descriptor_for_diag_code(0).is_none());
}
