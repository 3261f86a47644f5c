use regperms::principal::{
    category_from_code, parse_identifier, resolve, resolve_with, LookupResult, PrincipalCategory,
    ResolutionError, ResolveStep,
};

#[test]
fn parse_well_known_group_identifier() {
    let parsed = parse_identifier("S-1-5-32-544").unwrap();
    assert_eq!(parsed.revision, 1);
    assert_eq!(parsed.authority, 5);
    assert_eq!(parsed.subauthorities, vec![32, 544]);
}

#[test]
fn parse_accepts_lowercase_prefix() {
    let parsed = parse_identifier("s-1-5-18").unwrap();
    assert_eq!(parsed.revision, 1);
    assert_eq!(parsed.authority, 5);
    assert_eq!(parsed.subauthorities, vec![18]);
}

#[test]
fn parse_accepts_no_subauthorities() {
    let parsed = parse_identifier("S-1-5").unwrap();
    assert_eq!(parsed.revision, 1);
    assert_eq!(parsed.authority, 5);
    assert_eq!(parsed.subauthorities, Vec::<u32>::new());
}

#[test]
fn parse_accepts_largest_authority() {
    let parsed = parse_identifier("S-1-281474976710655-0").unwrap();
    assert_eq!(parsed.authority, 281_474_976_710_655);
}

#[test]
fn parse_accepts_fifteen_subauthorities() {
    let parsed = parse_identifier("S-1-5-1-2-3-4-5-6-7-8-9-10-11-12-13-14-15").unwrap();
    assert_eq!(parsed.subauthorities.len(), 15);
    assert_eq!(parsed.subauthorities[14], 15);
}

#[test]
fn parse_rejects_malformed_identifiers() {
    assert!(matches!(parse_identifier(""), Err(ResolutionError::MalformedIdentifier)));
    assert!(matches!(parse_identifier("S"), Err(ResolutionError::MalformedIdentifier)));
    assert!(matches!(parse_identifier("S-"), Err(ResolutionError::MalformedIdentifier)));
    assert!(matches!(parse_identifier("S-1"), Err(ResolutionError::MalformedIdentifier)));
    assert!(matches!(parse_identifier("S-1-"), Err(ResolutionError::MalformedIdentifier)));
    assert!(matches!(parse_identifier("S--1"), Err(ResolutionError::MalformedIdentifier)));
    assert!(matches!(parse_identifier("S-1-5-"), Err(ResolutionError::MalformedIdentifier)));
    assert!(matches!(parse_identifier("X-1-5"), Err(ResolutionError::MalformedIdentifier)));
    assert!(matches!(parse_identifier("not-a-sid"), Err(ResolutionError::MalformedIdentifier)));
    assert!(matches!(parse_identifier("S-1-5-32 544"), Err(ResolutionError::MalformedIdentifier)));
}

#[test]
fn parse_rejects_out_of_range_values() {
    // revision is one byte
    assert!(parse_identifier("S-256-5-1").is_err());
    // the issuing authority has 48 bits
    assert!(parse_identifier("S-1-281474976710656-1").is_err());
    // a subauthority has 32 bits
    assert!(parse_identifier("S-1-5-4294967296").is_err());
    // at most fifteen subauthorities
    assert!(parse_identifier("S-1-5-1-2-3-4-5-6-7-8-9-10-11-12-13-14-15-16").is_err());
}

#[test]
fn resolve_malformed_identifier_degrades() {
    match resolve("") {
        ResolveStep::Done(principal, error) => {
            assert_eq!(principal.raw_id, "");
            assert!(principal.display_name.is_none());
            assert!(matches!(principal.category, PrincipalCategory::Invalid));
            assert!(matches!(error, ResolutionError::MalformedIdentifier));
        },
        ResolveStep::NeedsLookup(_) => panic!("an empty identifier must not reach the directory"),
    }
}

#[test]
fn resolve_well_formed_identifier_asks_for_lookup() {
    match resolve("S-1-5-18") {
        ResolveStep::NeedsLookup(identity) => {
            assert_eq!(identity.authority, 5);
            assert_eq!(identity.subauthorities, vec![18]);
        },
        ResolveStep::Done(_, _) => panic!("a well-formed identifier must reach the directory"),
    }
}

#[test]
fn resolve_with_mapped_name() {
    let outcome = Ok(LookupResult { display_name: Some("SYSTEM".to_owned()), category_code: 5 });
    let (principal, error) = resolve_with("S-1-5-18", outcome);
    assert_eq!(principal.raw_id, "S-1-5-18");
    assert_eq!(principal.display_name, Some("SYSTEM".to_owned()));
    assert!(matches!(principal.category, PrincipalCategory::WellKnownGroup));
    assert!(error.is_none());
}

#[test]
fn resolve_with_unmapped_name_is_not_an_error() {
    let outcome = Ok(LookupResult { display_name: None, category_code: 5 });
    let (principal, error) = resolve_with("S-1-5-7", outcome);
    assert!(principal.display_name.is_none());
    assert!(matches!(principal.category, PrincipalCategory::WellKnownGroup));
    assert!(error.is_none());
}

#[test]
fn resolve_with_lookup_failure_is_recorded() {
    let outcome = Err("directory unreachable".to_owned());
    let (principal, error) = resolve_with("S-1-5-21-1-2-3-500", outcome);
    assert!(principal.display_name.is_none());
    assert!(matches!(principal.category, PrincipalCategory::Unknown));
    match error {
        Some(ResolutionError::LookupFailed(cause)) => assert_eq!(cause, "directory unreachable"),
        _ => panic!("an operational failure must surface as a lookup failure"),
    }
}

#[test]
fn category_codes_map_to_categories() {
    assert!(matches!(category_from_code(1), PrincipalCategory::User));
    assert!(matches!(category_from_code(2), PrincipalCategory::Group));
    assert!(matches!(category_from_code(3), PrincipalCategory::Domain));
    assert!(matches!(category_from_code(4), PrincipalCategory::Alias));
    assert!(matches!(category_from_code(5), PrincipalCategory::WellKnownGroup));
    assert!(matches!(category_from_code(6), PrincipalCategory::DeletedAccount));
    assert!(matches!(category_from_code(7), PrincipalCategory::Invalid));
    assert!(matches!(category_from_code(8), PrincipalCategory::Unknown));
    assert!(matches!(category_from_code(9), PrincipalCategory::Computer));
    assert!(matches!(category_from_code(10), PrincipalCategory::Label));
    assert!(matches!(category_from_code(11), PrincipalCategory::LogonSession));
}

#[test]
fn unrecognized_category_codes_map_to_unknown() {
    assert!(matches!(category_from_code(0), PrincipalCategory::Unknown));
    assert!(matches!(category_from_code(12), PrincipalCategory::Unknown));
    assert!(matches!(category_from_code(-3), PrincipalCategory::Unknown));
    assert!(matches!(category_from_code(i32::MAX), PrincipalCategory::Unknown));
    assert!(matches!(category_from_code(i32::MIN), PrincipalCategory::Unknown));
}
