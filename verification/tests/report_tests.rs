use regperms::entry::{
    decode, entry_type_from_code, DecodeError, EntryType, RawAclEntry,
};
use regperms::principal::{LookupResult, ParsedIdentity, PrincipalCategory, ResolutionError};
use regperms::report::{build, AclReportBuilder, IdentityDirectory};
use regperms::rights::{registry_catalog, NamedRight, RightCategory};

fn small_catalog() -> Vec<NamedRight> {
    vec![
        NamedRight { name: "READ".to_owned(), bit_value: 0x1, category: RightCategory::ObjectSpecific },
        NamedRight { name: "WRITE".to_owned(), bit_value: 0x2, category: RightCategory::ObjectSpecific },
    ]
}

fn raw(index: u32, mask: u32, principal_id: &str) -> RawAclEntry {
    RawAclEntry {
        index,
        entry_type: EntryType::Allow,
        flags: 0x10,
        size: 20,
        mask,
        principal_id: principal_id.to_owned(),
    }
}

/// A directory that maps everything to one name, counting its calls.
struct CountingDirectory {
    calls: usize,
}

impl IdentityDirectory for CountingDirectory {
    fn lookup(&mut self, _raw_id: &str, _identity: &ParsedIdentity) -> Result<LookupResult, String> {
        self.calls += 1;
        Ok(LookupResult { display_name: Some("Everyone".to_owned()), category_code: 5 })
    }
}

/// A directory that always fails for an operational reason.
struct UnreachableDirectory;

impl IdentityDirectory for UnreachableDirectory {
    fn lookup(&mut self, _raw_id: &str, _identity: &ParsedIdentity) -> Result<LookupResult, String> {
        Err("directory unreachable".to_owned())
    }
}

#[test]
fn entry_type_codes_map_to_kinds() {
    assert!(matches!(entry_type_from_code(0), EntryType::Allow));
    assert!(matches!(entry_type_from_code(1), EntryType::Deny));
    assert!(matches!(entry_type_from_code(2), EntryType::Audit));
    assert!(matches!(entry_type_from_code(7), EntryType::Other(7)));
    assert!(matches!(entry_type_from_code(255), EntryType::Other(255)));
}

#[test]
fn decode_rejects_empty_principal_only() {
    let catalog = small_catalog();
    let r = decode(raw(0, 0x3, ""), &catalog, None);
    assert!(matches!(r, Err(DecodeError::StructuralInvalid)));
}

#[test]
fn decode_classifies_and_attaches_resolution() {
    let catalog = small_catalog();
    let outcome = Ok(LookupResult { display_name: Some("SYSTEM".to_owned()), category_code: 5 });
    let d = decode(raw(3, 0x3, "S-1-5-18"), &catalog, Some(outcome)).unwrap();
    assert_eq!(d.entry.index, 3);
    assert_eq!(d.rights, vec!["READ".to_owned(), "WRITE".to_owned()]);
    assert_eq!(d.principal.display_name, Some("SYSTEM".to_owned()));
    assert!(matches!(d.principal.category, PrincipalCategory::WellKnownGroup));
    assert!(d.resolution_error.is_none());
}

#[test]
fn decode_keeps_mask_breakdown_when_identifier_is_malformed() {
    let catalog = small_catalog();
    let d = decode(raw(1, 0x2, "garbage"), &catalog, None).unwrap();
    assert_eq!(d.rights, vec!["WRITE".to_owned()]);
    assert!(d.principal.display_name.is_none());
    assert!(matches!(d.principal.category, PrincipalCategory::Invalid));
    assert!(matches!(d.resolution_error, Some(ResolutionError::MalformedIdentifier)));
}

#[test]
fn five_entries_one_structurally_invalid() {
    let entries = vec![
        raw(0, 0x1, "S-1-5-18"),
        raw(1, 0x2, "S-1-5-19"),
        raw(2, 0x3, ""),
        raw(3, 0x1, "S-1-5-20"),
        raw(4, 0x2, "S-1-5-18"),
    ];
    let mut directory = CountingDirectory { calls: 0 };
    let report = build(&entries, small_catalog(), &mut directory);
    assert_eq!(report.entries.len(), 4);
    assert_eq!(report.errors.len(), 1);
    assert_eq!(report.errors[0].index, 2);
    assert!(matches!(report.errors[0].error, DecodeError::StructuralInvalid));
    // the surviving entries keep their original relative order
    assert_eq!(report.entries[0].entry.index, 0);
    assert_eq!(report.entries[1].entry.index, 1);
    assert_eq!(report.entries[2].entry.index, 3);
    assert_eq!(report.entries[3].entry.index, 4);
}

#[test]
fn duplicate_identifier_is_looked_up_once() {
    let entries = vec![
        raw(0, 0x1, "S-1-5-32-544"),
        raw(1, 0x2, "S-1-5-32-544"),
    ];
    let mut directory = CountingDirectory { calls: 0 };
    let report = build(&entries, small_catalog(), &mut directory);
    assert_eq!(directory.calls, 1);
    assert_eq!(report.entries.len(), 2);
    assert_eq!(report.entries[0].principal.display_name, Some("Everyone".to_owned()));
    assert_eq!(report.entries[1].principal.display_name, Some("Everyone".to_owned()));
}

#[test]
fn distinct_identifiers_are_each_looked_up() {
    let entries = vec![
        raw(0, 0x1, "S-1-5-18"),
        raw(1, 0x1, "S-1-5-19"),
        raw(2, 0x1, "S-1-5-18"),
    ];
    let mut directory = CountingDirectory { calls: 0 };
    let report = build(&entries, small_catalog(), &mut directory);
    assert_eq!(directory.calls, 2);
    assert_eq!(report.entries.len(), 3);
}

#[test]
fn malformed_identifier_never_reaches_the_directory() {
    let entries = vec![raw(0, 0x1, "bogus"), raw(1, 0x1, "S-9999-1")];
    let mut directory = CountingDirectory { calls: 0 };
    let report = build(&entries, small_catalog(), &mut directory);
    assert_eq!(directory.calls, 0);
    assert_eq!(report.entries.len(), 2);
    assert!(matches!(report.entries[0].principal.category, PrincipalCategory::Invalid));
    assert!(matches!(
        report.entries[0].resolution_error,
        Some(ResolutionError::MalformedIdentifier)
    ));
    assert!(matches!(report.entries[1].principal.category, PrincipalCategory::Invalid));
}

#[test]
fn lookup_failure_degrades_without_stopping_the_build() {
    let entries = vec![raw(0, 0x1, "S-1-5-18"), raw(1, 0x2, "S-1-5-19")];
    let mut directory = UnreachableDirectory;
    let report = build(&entries, small_catalog(), &mut directory);
    assert_eq!(report.entries.len(), 2);
    assert_eq!(report.errors.len(), 0);
    for d in &report.entries {
        assert!(d.principal.display_name.is_none());
        assert!(matches!(d.principal.category, PrincipalCategory::Unknown));
        assert!(matches!(d.resolution_error, Some(ResolutionError::LookupFailed(_))));
    }
}

#[test]
fn empty_list_builds_an_empty_report() {
    let entries: Vec<RawAclEntry> = Vec::new();
    let mut directory = CountingDirectory { calls: 0 };
    let report = build(&entries, registry_catalog(), &mut directory);
    assert_eq!(report.entries.len(), 0);
    assert_eq!(report.errors.len(), 0);
    assert_eq!(directory.calls, 0);
}

#[test]
fn builder_asks_once_then_remembers() {
    let mut builder = AclReportBuilder::new(small_catalog());
    let first = raw(0, 0x1, "S-1-5-18");
    let second = raw(1, 0x2, "S-1-5-18");
    let identity = builder.needs_lookup(&first);
    assert!(identity.is_some());
    builder.push(
        first,
        Some(Ok(LookupResult { display_name: Some("SYSTEM".to_owned()), category_code: 5 })),
    );
    // the identifier is now remembered: no further lookup is requested
    assert!(builder.needs_lookup(&second).is_none());
    builder.push(second, None);
    let report = builder.finish();
    assert_eq!(report.entries.len(), 2);
    assert_eq!(report.entries[1].principal.display_name, Some("SYSTEM".to_owned()));
    assert!(matches!(report.entries[1].principal.category, PrincipalCategory::WellKnownGroup));
}
