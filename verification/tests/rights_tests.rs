use regperms::rights::{classify, encode_mask, registry_catalog, NamedRight, RightCategory};

fn custom_catalog() -> Vec<NamedRight> {
    vec![
        NamedRight { name: "ALPHA".to_owned(), bit_value: 0x1, category: RightCategory::ObjectSpecific },
        NamedRight { name: "BETA".to_owned(), bit_value: 0x2, category: RightCategory::ObjectSpecific },
        NamedRight { name: "GAMMA".to_owned(), bit_value: 0x4, category: RightCategory::ObjectSpecific },
    ]
}

#[test]
fn classify_zero_mask_is_empty() {
    let catalog = registry_catalog();
    assert_eq!(classify(0, &catalog), Vec::<String>::new());
    assert_eq!(classify(0, &custom_catalog()), Vec::<String>::new());
}

#[test]
fn classify_empty_catalog_is_empty() {
    let empty: Vec<NamedRight> = Vec::new();
    assert_eq!(classify(0xFFFF_FFFF, &empty), Vec::<String>::new());
}

#[test]
fn classify_reports_matches_in_catalog_order() {
    let labels = classify(0x5, &custom_catalog());
    assert_eq!(labels, vec!["ALPHA".to_owned(), "GAMMA".to_owned()]);
}

#[test]
fn classify_single_bit_matches_overlapping_entries() {
    // bit 16 sits in DELETE, in STANDARD_RIGHTS_ALL, and in KEY_ALL_ACCESS
    let labels = classify(0x0001_0000, &registry_catalog());
    assert_eq!(
        labels,
        vec![
            "DELETE".to_owned(),
            "STANDARD_RIGHTS_ALL".to_owned(),
            "KEY_ALL_ACCESS".to_owned(),
        ]
    );
}

#[test]
fn key_all_access_reports_aggregate_and_components() {
    let labels = classify(0xF003F, &registry_catalog());
    assert_eq!(
        labels,
        vec![
            "DELETE".to_owned(),
            "WRITE_DAC".to_owned(),
            "WRITE_OWNER".to_owned(),
            "READ_CONTROL".to_owned(),
            "STANDARD_RIGHTS_READ".to_owned(),
            "STANDARD_RIGHTS_WRITE".to_owned(),
            "STANDARD_RIGHTS_EXECUTE".to_owned(),
            "STANDARD_RIGHTS_ALL".to_owned(),
            "SPECIFIC_RIGHTS_ALL".to_owned(),
            "KEY_ALL_ACCESS".to_owned(),
            "KEY_CREATE_LINK".to_owned(),
            "KEY_CREATE_SUB_KEY".to_owned(),
            "KEY_ENUMERATE_SUB_KEYS".to_owned(),
            "KEY_EXECUTE".to_owned(),
            "KEY_NOTIFY".to_owned(),
            "KEY_QUERY_VALUE".to_owned(),
            "KEY_READ".to_owned(),
            "KEY_WRITE".to_owned(),
        ]
    );
}

#[test]
fn encode_then_classify_round_trips_disjoint_selection() {
    let catalog = custom_catalog();
    let sel = vec![true, false, true];
    let mask = encode_mask(&catalog, &sel);
    assert_eq!(mask, 0x5);
    assert_eq!(classify(mask, &catalog), vec!["ALPHA".to_owned(), "GAMMA".to_owned()]);
}

#[test]
fn encode_mask_empty_selection_is_zero() {
    let catalog = custom_catalog();
    let sel = vec![false, false, false];
    assert_eq!(encode_mask(&catalog, &sel), 0);
}

#[test]
fn registry_catalog_contents() {
    let catalog = registry_catalog();
    assert_eq!(catalog.len(), 25);
    assert_eq!(catalog[0].name, "DELETE");
    assert_eq!(catalog[0].bit_value, 0x0001_0000);
    assert!(matches!(catalog[0].category, RightCategory::Standard));
    assert_eq!(catalog[4].name, "SYNCHRONIZE");
    assert_eq!(catalog[4].bit_value, 0x0010_0000);
    assert_eq!(catalog[9].name, "SPECIFIC_RIGHTS_ALL");
    assert_eq!(catalog[9].bit_value, 0x0000_FFFF);
    assert!(matches!(catalog[9].category, RightCategory::ObjectSpecific));
    assert_eq!(catalog[11].name, "GENERIC_READ");
    assert_eq!(catalog[11].bit_value, 0x8000_0000);
    assert!(matches!(catalog[11].category, RightCategory::Generic));
    assert_eq!(catalog[14].name, "KEY_ALL_ACCESS");
    assert_eq!(catalog[14].bit_value, 0x000F_003F);
    assert_eq!(catalog[24].name, "KEY_WRITE");
    assert_eq!(catalog[24].bit_value, 0x0002_0006);
}
