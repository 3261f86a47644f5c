//! Raw access-control-entry records and their decoding into structured,
//! fully classified reports.

use vstd::prelude::*;
use crate::principal::{
    malformed_principal, outcome_model, resolution_of, resolve_with, valid_sid_string,
    LookupResult, LookupResultModel, ResolutionError, ResolutionErrorModel, ResolvedPrincipal,
    ResolvedPrincipalModel, PrincipalCategory,
};
use crate::rights::{classify, classify_spec, NamedRight, NamedRightModel};

verus! {

/// The kind of an access-control entry.  Codes outside the known range are
/// carried through as `Other`, never rejected.
#[derive(Clone, Copy, PartialEq, Eq, Structural, Debug)]
pub enum EntryType {
    Allow,
    Deny,
    Audit,
    Other(u8),
}

/// The entry type that a raw entry-type code denotes.
pub open spec fn entry_type_from_code_spec(code: u8) -> EntryType {
    if code == 0 {
        EntryType::Allow
    } else if code == 1 {
        EntryType::Deny
    } else if code == 2 {
        EntryType::Audit
    } else {
        EntryType::Other(code)
    }
}

/// Classifies a raw entry-type code.
pub fn entry_type_from_code(code: u8) -> (t: EntryType)
    ensures
        t == entry_type_from_code_spec(code),
{
    if code == 0 {
        EntryType::Allow
    } else if code == 1 {
        EntryType::Deny
    } else if code == 2 {
        EntryType::Audit
    } else {
        EntryType::Other(code)
    }
}

/// One raw record of an access-control list, exactly as read from the
/// protected object; never mutated.
pub struct RawAclEntry {
    /// Ordinal position in the list, which reflects evaluation precedence.
    pub index: u32,
    pub entry_type: EntryType,
    /// Inheritance and propagation bits.
    pub flags: u8,
    /// Size of the native record, in bytes.
    pub size: u16,
    /// The raw 32-bit access mask.
    pub mask: u32,
    /// The textual security identifier of the principal the entry names.
    pub principal_id: String,
}

/// The mathematical model of a raw entry.
#[verifier::ext_equal]
pub ghost struct RawAclEntryModel {
    pub index: u32,
    pub entry_type: EntryType,
    pub flags: u8,
    pub size: u16,
    pub mask: u32,
    pub principal_id: Seq<char>,
}

impl View for RawAclEntry {
    type V = RawAclEntryModel;

    open spec fn view(&self) -> RawAclEntryModel {
        RawAclEntryModel {
            index: self.index,
            entry_type: self.entry_type,
            flags: self.flags,
            size: self.size,
            mask: self.mask,
            principal_id: self.principal_id@,
        }
    }
}

impl DeepView for RawAclEntry {
    type V = RawAclEntryModel;

    open spec fn deep_view(&self) -> RawAclEntryModel {
        self.view()
    }
}

/// A structural failure of one entry: a required field is missing or
/// unparseable.  Recorded per entry; never aborts the caller.
#[derive(Clone, Copy, PartialEq, Eq, Structural, Debug)]
pub enum DecodeError {
    StructuralInvalid,
}

/// One fully decoded entry: the raw record, the resolved principal, the
/// ordered labels of every matched right, and any recoverable resolution
/// failure met on the way (the entry is still produced).
pub struct DecodedEntry {
    pub entry: RawAclEntry,
    pub principal: ResolvedPrincipal,
    pub rights: Vec<String>,
    pub resolution_error: Option<ResolutionError>,
}

/// The mathematical model of a decoded entry.
#[verifier::ext_equal]
pub ghost struct DecodedEntryModel {
    pub entry: RawAclEntryModel,
    pub principal: ResolvedPrincipalModel,
    pub rights: Seq<Seq<char>>,
    pub resolution_error: Option<ResolutionErrorModel>,
}

impl View for DecodedEntry {
    type V = DecodedEntryModel;

    open spec fn view(&self) -> DecodedEntryModel {
        DecodedEntryModel {
            entry: self.entry@,
            principal: self.principal@,
            rights: self.rights.deep_view(),
            resolution_error: self.resolution_error.deep_view(),
        }
    }
}

impl DeepView for DecodedEntry {
    type V = DecodedEntryModel;

    open spec fn deep_view(&self) -> DecodedEntryModel {
        self.view()
    }
}

/// Whether a raw entry is structurally sound: every required field is
/// present; in particular the principal identifier is not empty.
pub open spec fn structurally_valid(e: RawAclEntryModel) -> bool {
    e.principal_id.len() > 0
}

/// The principal and recorded error a raw entry decodes to, given the
/// directory outcome for its identifier (`None` when no lookup was owed,
/// because the identifier is malformed).
pub open spec fn entry_resolution(
    e: RawAclEntryModel,
    outcome: Option<Result<LookupResultModel, Seq<char>>>,
) -> (ResolvedPrincipalModel, Option<ResolutionErrorModel>) {
    if valid_sid_string(e.principal_id) {
        resolution_of(e.principal_id, outcome->Some_0)
    } else {
        (malformed_principal(e.principal_id), Some(ResolutionErrorModel::MalformedIdentifier))
    }
}

/// The model of a decoded entry assembled from a raw entry, a catalog, and
/// a resolution.
pub open spec fn decoded_model(
    e: RawAclEntryModel,
    catalog: Seq<NamedRightModel>,
    principal: ResolvedPrincipalModel,
    resolution_error: Option<ResolutionErrorModel>,
) -> DecodedEntryModel {
    DecodedEntryModel {
        entry: e,
        principal,
        rights: classify_spec(e.mask, catalog),
        resolution_error,
    }
}

/// Decodes one raw entry against a catalog, given the directory's outcome
/// for the entry's identifier when one was owed.  A resolution failure is
/// attached to the produced entry rather than failing the decode: the mask
/// breakdown is independently valuable.  Decoding fails only for a
/// structurally invalid record.
pub fn decode(
    entry: RawAclEntry,
    catalog: &Vec<NamedRight>,
    lookup: Option<Result<LookupResult, String>>,
) -> (r: Result<DecodedEntry, DecodeError>)
    requires
        (lookup is Some) == (structurally_valid(entry@) && valid_sid_string(entry@.principal_id)),
    ensures
        (r is Ok) == structurally_valid(entry@),
        !structurally_valid(entry@) ==> r == Err::<DecodedEntry, DecodeError>(
            DecodeError::StructuralInvalid,
        ),
        r matches Ok(d) ==> d@ == ({
            let (principal, err) = entry_resolution(entry@, lookup_outcome_model(lookup));
            decoded_model(entry@, catalog.deep_view(), principal, err)
        }),
{
    if entry.principal_id.as_str().is_empty() {
        return Err(DecodeError::StructuralInvalid);
    }
    let rights = classify(entry.mask, catalog);
    let (principal, resolution_error) = match lookup {
        Some(outcome) => resolve_with(entry.principal_id.as_str(), outcome),
        None => (
            ResolvedPrincipal {
                raw_id: entry.principal_id.clone(),
                display_name: None,
                category: PrincipalCategory::Invalid,
            },
            Some(ResolutionError::MalformedIdentifier),
        ),
    };
    Ok(DecodedEntry { entry, principal, rights, resolution_error })
}

/// The mathematical model of an optional directory outcome.
pub open spec fn lookup_outcome_model(lookup: Option<Result<LookupResult, String>>) -> Option<
    Result<LookupResultModel, Seq<char>>,
> {
    match lookup {
        Some(outcome) => Some(outcome_model(outcome)),
        None => None,
    }
}

} // verus!
