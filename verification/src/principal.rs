//! Resolution of textual security identifiers: parsing the identifier into
//! its binary form, and folding an identity directory's answer into a
//! resolved principal with a display name and a category.

use vstd::prelude::*;
use vstd::string::StrSliceExecFns;

verus! {

/// The category of a resolved principal.  An unrecognized directory
/// category code maps to `Unknown`; `Invalid` marks an identifier that
/// could not be parsed at all.
#[derive(Clone, Copy, PartialEq, Eq, Structural, Debug)]
pub enum PrincipalCategory {
    User,
    Group,
    Domain,
    Alias,
    WellKnownGroup,
    DeletedAccount,
    Computer,
    Label,
    LogonSession,
    Unknown,
    Invalid,
}

/// A recoverable failure while resolving one principal.  Neither variant
/// ever aborts the caller's larger operation.
#[derive(Debug)]
pub enum ResolutionError {
    /// The identifier string does not follow the textual identifier grammar.
    MalformedIdentifier,
    /// The identity directory failed for an operational reason; the payload
    /// carries the underlying cause.
    LookupFailed(String),
}

/// The mathematical model of a resolution failure.
pub ghost enum ResolutionErrorModel {
    MalformedIdentifier,
    LookupFailed(Seq<char>),
}

impl View for ResolutionError {
    type V = ResolutionErrorModel;

    open spec fn view(&self) -> ResolutionErrorModel {
        match self {
            ResolutionError::MalformedIdentifier => ResolutionErrorModel::MalformedIdentifier,
            ResolutionError::LookupFailed(cause) => ResolutionErrorModel::LookupFailed(cause@),
        }
    }
}

impl DeepView for ResolutionError {
    type V = ResolutionErrorModel;

    open spec fn deep_view(&self) -> ResolutionErrorModel {
        self.view()
    }
}

/// A principal identifier parsed into its binary form: a revision, a
/// 48-bit issuing authority, and at most fifteen subauthorities.
pub struct ParsedIdentity {
    pub revision: u8,
    pub authority: u64,
    pub subauthorities: Vec<u32>,
}

/// The mathematical model of a parsed identifier.
#[verifier::ext_equal]
pub ghost struct ParsedIdentityModel {
    pub revision: u8,
    pub authority: u64,
    pub subauthorities: Seq<u32>,
}

impl View for ParsedIdentity {
    type V = ParsedIdentityModel;

    open spec fn view(&self) -> ParsedIdentityModel {
        ParsedIdentityModel {
            revision: self.revision,
            authority: self.authority,
            subauthorities: self.subauthorities@,
        }
    }
}

impl DeepView for ParsedIdentity {
    type V = ParsedIdentityModel;

    open spec fn deep_view(&self) -> ParsedIdentityModel {
        self.view()
    }
}

/// A fully resolved principal: the original textual identifier, the display
/// name the directory mapped it to (absent when no name is mapped or
/// resolution failed), and its category.
pub struct ResolvedPrincipal {
    pub raw_id: String,
    pub display_name: Option<String>,
    pub category: PrincipalCategory,
}

/// The mathematical model of a resolved principal.
#[verifier::ext_equal]
pub ghost struct ResolvedPrincipalModel {
    pub raw_id: Seq<char>,
    pub display_name: Option<Seq<char>>,
    pub category: PrincipalCategory,
}

impl View for ResolvedPrincipal {
    type V = ResolvedPrincipalModel;

    open spec fn view(&self) -> ResolvedPrincipalModel {
        ResolvedPrincipalModel {
            raw_id: self.raw_id@,
            display_name: self.display_name.deep_view(),
            category: self.category,
        }
    }
}

impl DeepView for ResolvedPrincipal {
    type V = ResolvedPrincipalModel;

    open spec fn deep_view(&self) -> ResolvedPrincipalModel {
        self.view()
    }
}

// --- the textual identifier grammar ---

pub open spec fn is_digit_char(c: char) -> bool {
    48 <= c as u32 && c as u32 <= 57
}

pub open spec fn digit_val(c: char) -> nat {
    (c as u32 - 48) as nat
}

/// One left-to-right pass over a dash-separated list of decimal numbers:
/// `done` holds the values already completed and `cur` the value being
/// accumulated.  Yields the completed list, or `None` when the text has an
/// empty group, a stray character, or no group at all.
pub open spec fn scan_nums(s: Seq<char>, done: Seq<nat>, cur: Option<nat>) -> Option<Seq<nat>>
    decreases s.len(),
{
    if s.len() == 0 {
        match cur {
            Some(v) => Some(done.push(v)),
            None => None,
        }
    } else {
        let c = s[0];
        if is_digit_char(c) {
            let v = match cur {
                Some(v) => v * 10 + digit_val(c),
                None => digit_val(c),
            };
            scan_nums(s.drop_first(), done, Some(v))
        } else if c == '-' {
            match cur {
                Some(v) => scan_nums(s.drop_first(), done.push(v), None),
                None => None,
            }
        } else {
            None
        }
    }
}

/// The values of the dash-separated decimal groups of `s`, when `s` is a
/// non-empty well-formed list of such groups.
pub open spec fn num_list(s: Seq<char>) -> Option<Seq<nat>> {
    scan_nums(s, Seq::empty(), None)
}

/// The largest value admitted at position `p` of the numeric list: the
/// revision is one byte, the issuing authority 48 bits, a subauthority 32.
pub open spec fn position_cap(p: int) -> nat {
    if p == 0 {
        0xFF
    } else if p == 1 {
        0xFFFF_FFFF_FFFF
    } else {
        0xFFFF_FFFF
    }
}

/// The grammar of a textual security identifier: an `S` (either case), a
/// dash, then two to seventeen dash-separated decimal numbers — the
/// revision, the issuing authority, and up to fifteen subauthorities —
/// each within its positional bound.
pub open spec fn valid_sid_string(s: Seq<char>) -> bool {
    &&& s.len() >= 2
    &&& (s[0] == 'S' || s[0] == 's')
    &&& s[1] == '-'
    &&& num_list(s.subrange(2, s.len() as int)) is Some
    &&& {
        let vals = num_list(s.subrange(2, s.len() as int))->Some_0;
        &&& 2 <= vals.len() <= 17
        &&& forall|p: int| 0 <= p < vals.len() ==> #[trigger] vals[p] <= position_cap(p)
    }
}

/// The binary identity a valid identifier string denotes.
pub open spec fn parsed_of(s: Seq<char>) -> ParsedIdentityModel {
    let vals = num_list(s.subrange(2, s.len() as int))->Some_0;
    ParsedIdentityModel {
        revision: vals[0] as u8,
        authority: vals[1] as u64,
        subauthorities: Seq::new((vals.len() - 2) as nat, |i: int| vals[i + 2] as u32),
    }
}

/// A completed scan extends the list of values already done: the completed
/// values persist, at least one more value follows them, and the value
/// under accumulation can only grow.
proof fn lemma_scan_extends(s: Seq<char>, done: Seq<nat>, cur: Option<nat>)
    requires
        scan_nums(s, done, cur) is Some,
    ensures
        scan_nums(s, done, cur)->Some_0.len() > done.len(),
        forall|j: int|
            0 <= j < done.len() ==> #[trigger] scan_nums(s, done, cur)->Some_0[j] == done[j],
        cur is Some ==> scan_nums(s, done, cur)->Some_0[done.len() as int] >= cur->Some_0,
    decreases s.len(),
{
    if s.len() == 0 {
    } else {
        let c = s[0];
        if is_digit_char(c) {
            let v = match cur {
                Some(v) => v * 10 + digit_val(c),
                None => digit_val(c),
            };
            lemma_scan_extends(s.drop_first(), done, Some(v));
        } else if c == '-' {
            let v = cur->Some_0;
            lemma_scan_extends(s.drop_first(), done.push(v), None);
        }
    }
}

/// The model of the value under accumulation.
pub open spec fn cur_model(cur: Option<u64>) -> Option<nat> {
    match cur {
        Some(v) => Some(v as nat),
        None => None,
    }
}

/// Parses a textual security identifier into its binary form.  Returns
/// `Ok` exactly on the strings of the identifier grammar
/// (`valid_sid_string`); everything else is a malformed identifier.
pub fn parse_identifier(raw_id: &str) -> (r: Result<ParsedIdentity, ResolutionError>)
    ensures
        r is Ok <==> valid_sid_string(raw_id@),
        r matches Ok(p) ==> p@ == parsed_of(raw_id@),
        r matches Err(e) ==> e@ == ResolutionErrorModel::MalformedIdentifier,
{
    let ghost s = raw_id@;
    let n = raw_id.unicode_len();
    if n < 2 {
        return Err(ResolutionError::MalformedIdentifier);
    }
    let c0 = raw_id.get_char(0);
    if !(c0 == 'S' || c0 == 's') {
        return Err(ResolutionError::MalformedIdentifier);
    }
    if raw_id.get_char(1) != '-' {
        return Err(ResolutionError::MalformedIdentifier);
    }
    let ghost tail = s.subrange(2, n as int);
    let mut i: usize = 2;
    let mut done_count: usize = 0;
    let mut revision: u8 = 0;
    let mut authority: u64 = 0;
    let mut subs: Vec<u32> = Vec::new();
    let mut cur: Option<u64> = None;
    let ghost mut done: Seq<nat> = Seq::empty();
    while i < n
        invariant
            2 <= i <= n,
            n == s.len(),
            s == raw_id@,
            tail == s.subrange(2, n as int),
            num_list(tail) == scan_nums(s.subrange(i as int, n as int), done, cur_model(cur)),
            done.len() == done_count,
            done_count + 2 <= i,
            forall|p: int| 0 <= p < done.len() ==> #[trigger] done[p] <= position_cap(p),
            done_count >= 1 ==> revision as nat == done[0],
            done_count >= 2 ==> authority as nat == done[1],
            subs@.len() == if done_count >= 2 { (done_count - 2) as int } else { 0int },
            forall|k: int| 0 <= k < subs@.len() ==> #[trigger] subs@[k] as nat == done[k + 2],
            cur matches Some(v) ==> v as nat <= position_cap(done_count as int),
        decreases n - i,
    {
        let ghost rem = s.subrange(i as int, n as int);
        proof {
            assert(rem.drop_first() =~= s.subrange(i as int + 1, n as int));
            assert(rem[0] == s[i as int]);
        }
        let c = raw_id.get_char(i);
        let cv = c as u32;
        if 48 <= cv && cv <= 57 {
            let d = (cv - 48) as u64;
            let v = match cur {
                Some(v0) => v0 * 10 + d,
                None => d,
            };
            let cap: u64 = if done_count == 0 {
                0xFF
            } else if done_count == 1 {
                0xFFFF_FFFF_FFFF
            } else {
                0xFFFF_FFFF
            };
            if v > cap {
                proof {
                    if num_list(tail) is Some {
                        lemma_scan_extends(rem.drop_first(), done, Some(v as nat));
                        let vals = num_list(tail)->Some_0;
                        assert(vals[done.len() as int] >= v as nat);
                        assert(vals[done.len() as int] > position_cap(done.len() as int));
                    }
                }
                return Err(ResolutionError::MalformedIdentifier);
            }
            cur = Some(v);
        } else if c == '-' {
            match cur {
                Some(v) => {
                    if done_count == 0 {
                        revision = v as u8;
                    } else if done_count == 1 {
                        authority = v;
                    } else {
                        subs.push(v as u32);
                    }
                    done_count = done_count + 1;
                    proof {
                        done = done.push(v as nat);
                    }
                    cur = None;
                },
                None => {
                    return Err(ResolutionError::MalformedIdentifier);
                },
            }
        } else {
            return Err(ResolutionError::MalformedIdentifier);
        }
        i = i + 1;
    }
    proof {
        assert(s.subrange(n as int, n as int) =~= Seq::<char>::empty());
    }
    match cur {
        None => Err(ResolutionError::MalformedIdentifier),
        Some(v) => {
            let ghost vals = done.push(v as nat);
            assert(num_list(tail) == Some(vals));
            if done_count < 1 || done_count > 16 {
                assert(!valid_sid_string(s)) by {
                    assert(vals.len() == done_count + 1);
                }
                return Err(ResolutionError::MalformedIdentifier);
            }
            if done_count == 1 {
                authority = v;
            } else {
                subs.push(v as u32);
            }
            let identity = ParsedIdentity { revision, authority, subauthorities: subs };
            proof {
                assert forall|p: int| 0 <= p < vals.len() implies #[trigger] vals[p]
                    <= position_cap(p) by {
                    if p < done.len() {
                        assert(vals[p] == done[p]);
                    }
                }
                assert(valid_sid_string(s));
                assert(identity@.subauthorities =~= parsed_of(s).subauthorities);
            }
            Ok(identity)
        },
    }
}

/// What the identity directory answers for one identity: the display name
/// it maps to (absent for well-known or orphaned identities that have
/// none) and the raw category code.
pub struct LookupResult {
    pub display_name: Option<String>,
    pub category_code: i32,
}

/// The mathematical model of a directory answer.
#[verifier::ext_equal]
pub ghost struct LookupResultModel {
    pub display_name: Option<Seq<char>>,
    pub category_code: i32,
}

impl View for LookupResult {
    type V = LookupResultModel;

    open spec fn view(&self) -> LookupResultModel {
        LookupResultModel {
            display_name: self.display_name.deep_view(),
            category_code: self.category_code,
        }
    }
}

impl DeepView for LookupResult {
    type V = LookupResultModel;

    open spec fn deep_view(&self) -> LookupResultModel {
        self.view()
    }
}

/// The category that a raw directory category code denotes.  Codes outside
/// the recognized range are funnelled to `Unknown`, never rejected.
pub open spec fn category_from_code_spec(code: i32) -> PrincipalCategory {
    if code == 1 {
        PrincipalCategory::User
    } else if code == 2 {
        PrincipalCategory::Group
    } else if code == 3 {
        PrincipalCategory::Domain
    } else if code == 4 {
        PrincipalCategory::Alias
    } else if code == 5 {
        PrincipalCategory::WellKnownGroup
    } else if code == 6 {
        PrincipalCategory::DeletedAccount
    } else if code == 7 {
        PrincipalCategory::Invalid
    } else if code == 8 {
        PrincipalCategory::Unknown
    } else if code == 9 {
        PrincipalCategory::Computer
    } else if code == 10 {
        PrincipalCategory::Label
    } else if code == 11 {
        PrincipalCategory::LogonSession
    } else {
        PrincipalCategory::Unknown
    }
}

/// Classifies a raw directory category code.
pub fn category_from_code(code: i32) -> (c: PrincipalCategory)
    ensures
        c == category_from_code_spec(code),
{
    if code == 1 {
        PrincipalCategory::User
    } else if code == 2 {
        PrincipalCategory::Group
    } else if code == 3 {
        PrincipalCategory::Domain
    } else if code == 4 {
        PrincipalCategory::Alias
    } else if code == 5 {
        PrincipalCategory::WellKnownGroup
    } else if code == 6 {
        PrincipalCategory::DeletedAccount
    } else if code == 7 {
        PrincipalCategory::Invalid
    } else if code == 8 {
        PrincipalCategory::Unknown
    } else if code == 9 {
        PrincipalCategory::Computer
    } else if code == 10 {
        PrincipalCategory::Label
    } else if code == 11 {
        PrincipalCategory::LogonSession
    } else {
        PrincipalCategory::Unknown
    }
}

/// The principal a malformed identifier resolves to: no display name and
/// the `Invalid` category.
pub open spec fn malformed_principal(id: Seq<char>) -> ResolvedPrincipalModel {
    ResolvedPrincipalModel { raw_id: id, display_name: None, category: PrincipalCategory::Invalid }
}

/// The principal and the recorded error that a directory outcome yields
/// for a well-formed identifier.  A missing display name inside a
/// successful answer is not an error; an operational failure degrades to a
/// partial principal plus a `LookupFailed` record.
pub open spec fn resolution_of(id: Seq<char>, outcome: Result<LookupResultModel, Seq<char>>) -> (
    ResolvedPrincipalModel,
    Option<ResolutionErrorModel>,
) {
    match outcome {
        Ok(found) => (
            ResolvedPrincipalModel {
                raw_id: id,
                display_name: found.display_name,
                category: category_from_code_spec(found.category_code),
            },
            None,
        ),
        Err(cause) => (
            ResolvedPrincipalModel {
                raw_id: id,
                display_name: None,
                category: PrincipalCategory::Unknown,
            },
            Some(ResolutionErrorModel::LookupFailed(cause)),
        ),
    }
}

/// The mathematical model of a directory outcome.
pub open spec fn outcome_model(outcome: Result<LookupResult, String>) -> Result<
    LookupResultModel,
    Seq<char>,
> {
    match outcome {
        Ok(found) => Ok(found@),
        Err(cause) => Err(cause@),
    }
}

/// The first step of resolving one principal: either the identifier is
/// malformed and resolution finishes at once with an `Invalid` principal
/// and a `MalformedIdentifier` record, or the parsed identity is handed
/// back so the identity directory can be consulted.
pub enum ResolveStep {
    Done(ResolvedPrincipal, ResolutionError),
    NeedsLookup(ParsedIdentity),
}

/// Begins resolving an identifier.  A malformed identifier never raises an
/// unrecoverable failure: it yields a complete, degraded principal.
pub fn resolve(raw_id: &str) -> (r: ResolveStep)
    ensures
        valid_sid_string(raw_id@) ==> (r matches ResolveStep::NeedsLookup(p) && p@ == parsed_of(
            raw_id@,
        )),
        !valid_sid_string(raw_id@) ==> (r matches ResolveStep::Done(p, e) && p@
            == malformed_principal(raw_id@) && e@ == ResolutionErrorModel::MalformedIdentifier),
{
    match parse_identifier(raw_id) {
        Ok(identity) => ResolveStep::NeedsLookup(identity),
        Err(e) => ResolveStep::Done(
            ResolvedPrincipal {
                raw_id: raw_id.to_owned(),
                display_name: None,
                category: PrincipalCategory::Invalid,
            },
            e,
        ),
    }
}

/// Finishes resolving a well-formed identifier with the directory's
/// answer, distinguishing an identity with no mapped display name (not an
/// error) from an operational lookup failure (recorded, non-fatal).
pub fn resolve_with(raw_id: &str, outcome: Result<LookupResult, String>) -> (r: (
    ResolvedPrincipal,
    Option<ResolutionError>,
))
    ensures
        (r.0@, match r.1 {
            Some(e) => Some(e@),
            None => None,
        }) == resolution_of(raw_id@, outcome_model(outcome)),
{
    match outcome {
        Ok(found) => (
            ResolvedPrincipal {
                raw_id: raw_id.to_owned(),
                display_name: found.display_name,
                category: category_from_code(found.category_code),
            },
            None,
        ),
        Err(cause) => (
            ResolvedPrincipal {
                raw_id: raw_id.to_owned(),
                display_name: None,
                category: PrincipalCategory::Unknown,
            },
            Some(ResolutionError::LookupFailed(cause)),
        ),
    }
}

} // verus!
