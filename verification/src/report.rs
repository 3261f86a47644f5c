//! Assembly of a whole access-control list into one ordered report, with
//! per-entry failures recorded rather than propagated, and a per-build
//! cache so the identity directory is consulted at most once per distinct
//! principal identifier.

use vstd::prelude::*;
use crate::entry::{
    decoded_model, lookup_outcome_model, structurally_valid, DecodeError, DecodedEntry,
    DecodedEntryModel, RawAclEntry, RawAclEntryModel,
};
use crate::principal::{
    malformed_principal, outcome_model, parse_identifier, parsed_of, resolution_of, resolve_with,
    valid_sid_string, LookupResult, LookupResultModel, ParsedIdentity, PrincipalCategory,
    ResolutionError, ResolutionErrorModel, ResolvedPrincipal, ResolvedPrincipalModel,
};
use crate::rights::{classify, classify_spec, NamedRight, NamedRightModel};

verus! {

/// A per-entry failure recorded in the report, keyed by the failing
/// entry's original index.
#[derive(PartialEq, Eq, Structural, Debug)]
pub struct ReportError {
    pub index: u32,
    pub error: DecodeError,
}

/// The decoded report for one access-control list: the successfully
/// decoded entries in their original order, and the per-entry failures.
/// A failing entry never hides the rest of the list.
pub struct AclReport {
    pub entries: Vec<DecodedEntry>,
    pub errors: Vec<ReportError>,
}

/// The mathematical model of a report.
#[verifier::ext_equal]
pub ghost struct AclReportModel {
    pub entries: Seq<DecodedEntryModel>,
    pub errors: Seq<ReportError>,
}

impl View for AclReport {
    type V = AclReportModel;

    open spec fn view(&self) -> AclReportModel {
        AclReportModel { entries: self.entries.deep_view(), errors: self.errors@ }
    }
}

/// One remembered resolution, kept for the lifetime of one build.
pub struct CachedResolution {
    pub display_name: Option<String>,
    pub category: PrincipalCategory,
    pub error: Option<ResolutionError>,
}

/// The mathematical model of a remembered resolution.
#[verifier::ext_equal]
pub ghost struct CachedResolutionModel {
    pub display_name: Option<Seq<char>>,
    pub category: PrincipalCategory,
    pub error: Option<ResolutionErrorModel>,
}

impl View for CachedResolution {
    type V = CachedResolutionModel;

    open spec fn view(&self) -> CachedResolutionModel {
        CachedResolutionModel {
            display_name: self.display_name.deep_view(),
            category: self.category,
            error: self.error.deep_view(),
        }
    }
}

/// One cache slot: an identifier and its remembered resolution.
pub struct CacheEntry {
    pub id: String,
    pub resolution: CachedResolution,
}

/// The mathematical model of a cache slot.
#[verifier::ext_equal]
pub ghost struct CacheEntryModel {
    pub id: Seq<char>,
    pub resolution: CachedResolutionModel,
}

impl View for CacheEntry {
    type V = CacheEntryModel;

    open spec fn view(&self) -> CacheEntryModel {
        CacheEntryModel { id: self.id@, resolution: self.resolution@ }
    }
}

impl DeepView for CacheEntry {
    type V = CacheEntryModel;

    open spec fn deep_view(&self) -> CacheEntryModel {
        self.view()
    }
}

/// The remembered resolution for `id` in the cache, scanning from slot
/// `i`: the first slot whose identifier matches, if any.
pub open spec fn cache_find(cache: Seq<CacheEntryModel>, id: Seq<char>, i: int) -> Option<
    CachedResolutionModel,
>
    decreases cache.len() - i,
{
    if i < 0 || i >= cache.len() {
        None
    } else if cache[i].id == id {
        Some(cache[i].resolution)
    } else {
        cache_find(cache, id, i + 1)
    }
}

/// Extending the cache only changes what an unknown identifier finds.
proof fn lemma_cache_find_push(cache: Seq<CacheEntryModel>, ce: CacheEntryModel, id: Seq<char>, i: int)
    requires
        0 <= i <= cache.len(),
    ensures
        cache_find(cache, id, i) is Some ==> cache_find(cache.push(ce), id, i) == cache_find(
            cache,
            id,
            i,
        ),
        cache_find(cache, id, i) is None && ce.id == id ==> cache_find(cache.push(ce), id, i)
            == Some(ce.resolution),
        cache_find(cache, id, i) is None && ce.id != id ==> cache_find(cache.push(ce), id, i)
            is None,
    decreases cache.len() + 1 - i,
{
    reveal_with_fuel(cache_find, 3);
    if i < cache.len() {
        assert(cache.push(ce)[i] == cache[i]);
        lemma_cache_find_push(cache, ce, id, i + 1);
        if cache[i].id == id {
            assert(cache_find(cache.push(ce), id, i) == Some(cache[i].resolution));
        } else {
            assert(cache_find(cache.push(ce), id, i) == cache_find(cache.push(ce), id, i + 1));
            assert(cache_find(cache, id, i) == cache_find(cache, id, i + 1));
        }
    } else if i == cache.len() {
        assert(cache.push(ce)[i] == ce);
        assert(cache_find(cache, id, i) is None);
        if ce.id != id {
            assert(cache_find(cache.push(ce), id, i + 1) is None);
        } else {
            assert(cache.push(ce)[i].id == id);
            assert(cache_find(cache.push(ce), id, i) == Some(cache.push(ce)[i].resolution));
        }
    }
}

/// The principal and recorded error a remembered resolution stands for.
pub open spec fn principal_of_cache(id: Seq<char>, c: CachedResolutionModel) -> (
    ResolvedPrincipalModel,
    Option<ResolutionErrorModel>,
) {
    (
        ResolvedPrincipalModel { raw_id: id, display_name: c.display_name, category: c.category },
        c.error,
    )
}

/// The cache slot that remembers a freshly obtained resolution.
pub open spec fn cache_entry_model(
    id: Seq<char>,
    principal: ResolvedPrincipalModel,
    error: Option<ResolutionErrorModel>,
) -> CacheEntryModel {
    CacheEntryModel {
        id,
        resolution: CachedResolutionModel {
            display_name: principal.display_name,
            category: principal.category,
            error,
        },
    }
}

/// Builds one report incrementally: entries are offered in list order, the
/// caller performs whatever directory lookups the builder asks for, and
/// per-entry failures accumulate without stopping the build.
pub struct AclReportBuilder {
    pub catalog: Vec<NamedRight>,
    pub cache: Vec<CacheEntry>,
    pub entries: Vec<DecodedEntry>,
    pub errors: Vec<ReportError>,
}

/// The mathematical model of a builder state.
#[verifier::ext_equal]
pub ghost struct BuilderModel {
    pub catalog: Seq<NamedRightModel>,
    pub cache: Seq<CacheEntryModel>,
    pub entries: Seq<DecodedEntryModel>,
    pub errors: Seq<ReportError>,
}

impl View for AclReportBuilder {
    type V = BuilderModel;

    open spec fn view(&self) -> BuilderModel {
        BuilderModel {
            catalog: self.catalog.deep_view(),
            cache: self.cache.deep_view(),
            entries: self.entries.deep_view(),
            errors: self.errors@,
        }
    }
}

/// The builder's invariant: cached identifiers are pairwise distinct, each
/// is a well-formed identifier, and the cache remembers only directory
/// outcomes, never a malformed-identifier failure.
pub open spec fn builder_wf(b: BuilderModel) -> bool {
    &&& forall|j: int, k: int|
        0 <= j < k < b.cache.len() ==> (#[trigger] b.cache[j]).id != (#[trigger] b.cache[k]).id
    &&& forall|j: int| 0 <= j < b.cache.len() ==> valid_sid_string((#[trigger] b.cache[j]).id)
    &&& forall|j: int|
        0 <= j < b.cache.len() ==> (#[trigger] b.cache[j]).resolution.error != Some(
            ResolutionErrorModel::MalformedIdentifier,
        )
}

/// Whether offering `e` obliges the caller to consult the identity
/// directory first: the entry is structurally sound, its identifier is
/// well-formed, and the identifier has not been resolved before.
pub open spec fn wants_lookup(b: BuilderModel, e: RawAclEntryModel) -> bool {
    &&& structurally_valid(e)
    &&& valid_sid_string(e.principal_id)
    &&& cache_find(b.cache, e.principal_id, 0) is None
}

/// The resolution used for a structurally sound entry, and the cache that
/// results: a malformed identifier resolves degraded without touching the
/// cache, a remembered identifier reuses its cached resolution, and a
/// fresh identifier folds in the supplied directory outcome and is
/// remembered.
pub open spec fn step_resolution(
    b: BuilderModel,
    e: RawAclEntryModel,
    lookup: Option<Result<LookupResultModel, Seq<char>>>,
) -> (ResolvedPrincipalModel, Option<ResolutionErrorModel>, Seq<CacheEntryModel>) {
    if !valid_sid_string(e.principal_id) {
        (
            malformed_principal(e.principal_id),
            Some(ResolutionErrorModel::MalformedIdentifier),
            b.cache,
        )
    } else {
        match cache_find(b.cache, e.principal_id, 0) {
            Some(c) => (principal_of_cache(e.principal_id, c).0, c.error, b.cache),
            None => {
                let (principal, error) = resolution_of(e.principal_id, lookup->Some_0);
                (principal, error, b.cache.push(cache_entry_model(e.principal_id, principal, error)))
            },
        }
    }
}

/// The builder's transition relation: what offering one entry (with the
/// directory outcome, when one was owed) does to the state.
pub open spec fn builder_step(
    b: BuilderModel,
    e: RawAclEntryModel,
    lookup: Option<Result<LookupResultModel, Seq<char>>>,
) -> BuilderModel {
    if !structurally_valid(e) {
        BuilderModel {
            errors: b.errors.push(ReportError { index: e.index, error: DecodeError::StructuralInvalid }),
            ..b
        }
    } else {
        let (principal, error, cache) = step_resolution(b, e, lookup);
        BuilderModel {
            entries: b.entries.push(decoded_model(e, b.catalog, principal, error)),
            cache,
            ..b
        }
    }
}

impl AclReportBuilder {
    /// A fresh builder over a catalog, with nothing decoded and nothing
    /// remembered.
    pub fn new(catalog: Vec<NamedRight>) -> (b: AclReportBuilder)
        ensures
            b@ == (BuilderModel {
                catalog: catalog.deep_view(),
                cache: Seq::<CacheEntryModel>::empty(),
                entries: Seq::<DecodedEntryModel>::empty(),
                errors: Seq::<ReportError>::empty(),
            }),
            builder_wf(b@),
    {
        let b = AclReportBuilder {
            catalog,
            cache: Vec::new(),
            entries: Vec::new(),
            errors: Vec::new(),
        };
        proof {
            assert(b@ =~~= (BuilderModel {
                catalog: b.catalog.deep_view(),
                cache: Seq::<CacheEntryModel>::empty(),
                entries: Seq::<DecodedEntryModel>::empty(),
                errors: Seq::<ReportError>::empty(),
            }));
        }
        b
    }

    /// The cache slot remembering `id`, if any.
    fn cache_index(&self, id: &String) -> (r: Option<usize>)
        ensures
            match r {
                Some(j) => j < self.cache@.len() && cache_find(self@.cache, id@, 0) == Some(
                    self@.cache[j as int].resolution,
                ),
                None => cache_find(self@.cache, id@, 0) is None,
            },
    {
        let mut j: usize = 0;
        while j < self.cache.len()
            invariant
                j <= self.cache.len(),
                cache_find(self@.cache, id@, 0) == cache_find(self@.cache, id@, j as int),
            decreases self.cache.len() - j,
        {
            if self.cache[j].id == *id {
                return Some(j);
            }
            j = j + 1;
        }
        None
    }

    /// Whether decoding `entry` first needs the identity directory: hands
    /// back the parsed identity to look up, or `None` when the entry is
    /// structurally invalid, its identifier malformed, or its identifier
    /// already resolved.
    pub fn needs_lookup(&self, entry: &RawAclEntry) -> (r: Option<ParsedIdentity>)
        ensures
            (r is Some) == wants_lookup(self@, entry@),
            r matches Some(p) ==> p@ == parsed_of(entry@.principal_id),
    {
        if entry.principal_id.as_str().is_empty() {
            return None;
        }
        match parse_identifier(entry.principal_id.as_str()) {
            Err(_) => None,
            Ok(identity) => match self.cache_index(&entry.principal_id) {
                Some(_) => None,
                None => Some(identity),
            },
        }
    }

    /// Offers one entry to the builder, together with the directory's
    /// outcome exactly when `needs_lookup` asked for one.  A structurally
    /// invalid entry is recorded as an error; every other entry is decoded,
    /// resolving its principal through the cache.
    pub fn push(&mut self, entry: RawAclEntry, lookup: Option<Result<LookupResult, String>>)
        requires
            (lookup is Some) == wants_lookup(old(self)@, entry@),
            builder_wf(old(self)@),
        ensures
            final(self)@ == builder_step(old(self)@, entry@, lookup_outcome_model(lookup)),
            builder_wf(final(self)@),
    {
        let ghost prev = self@;
        let ghost em = entry@;
        let ghost id = entry@.principal_id;
        if entry.principal_id.as_str().is_empty() {
            self.errors.push(ReportError { index: entry.index, error: DecodeError::StructuralInvalid });
            proof {
                assert(self@ =~~= builder_step(prev, em, lookup_outcome_model(lookup)));
            }
            return;
        }
        let rights = classify(entry.mask, &self.catalog);
        match lookup {
            Some(outcome) => {
                let (principal, error) = resolve_with(entry.principal_id.as_str(), outcome);
                let ghost p_model = principal@;
                let ghost e_model = error.deep_view();
                let cached = CachedResolution {
                    display_name: match &principal.display_name {
                        Some(name) => Some(name.clone()),
                        None => None,
                    },
                    category: principal.category,
                    error: match &error {
                        None => None,
                        Some(ResolutionError::MalformedIdentifier) => Some(
                            ResolutionError::MalformedIdentifier,
                        ),
                        Some(ResolutionError::LookupFailed(cause)) => Some(
                            ResolutionError::LookupFailed(cause.clone()),
                        ),
                    },
                };
                proof {
                    assert(cached@ =~~= cache_entry_model(id, p_model, e_model).resolution);
                }
                self.cache.push(CacheEntry { id: entry.principal_id.clone(), resolution: cached });
                self.entries.push(DecodedEntry { entry, principal, rights, resolution_error: error });
                proof {
                    let ce = cache_entry_model(id, p_model, e_model);
                    assert(self@.cache =~~= prev.cache.push(ce));
                    assert(self@.entries =~~= prev.entries.push(
                        decoded_model(em, prev.catalog, p_model, e_model),
                    ));
                    lemma_cache_find_none(prev.cache, id, 0);
                    assert forall|j: int, k: int|
                        0 <= j < k < self@.cache.len() implies (#[trigger] self@.cache[j]).id
                        != (#[trigger] self@.cache[k]).id by {
                        if k < prev.cache.len() {
                            assert(prev.cache[j].id != prev.cache[k].id);
                        }
                    }
                    assert(self@ =~~= builder_step(prev, em, lookup_outcome_model(lookup)));
                }
            },
            None => {
                match self.cache_index(&entry.principal_id) {
                    Some(j) => {
                        let ghost c = prev.cache[j as int].resolution;
                        let principal = ResolvedPrincipal {
                            raw_id: entry.principal_id.clone(),
                            display_name: match &self.cache[j].resolution.display_name {
                                Some(name) => Some(name.clone()),
                                None => None,
                            },
                            category: self.cache[j].resolution.category,
                        };
                        let error = match &self.cache[j].resolution.error {
                            None => None,
                            Some(ResolutionError::MalformedIdentifier) => Some(
                                ResolutionError::MalformedIdentifier,
                            ),
                            Some(ResolutionError::LookupFailed(cause)) => Some(
                                ResolutionError::LookupFailed(cause.clone()),
                            ),
                        };
                        let ghost p_model = principal@;
                        let ghost e_model = error.deep_view();
                        proof {
                            lemma_cache_find_some_props(prev.cache, id, 0);
                            assert(p_model =~~= principal_of_cache(id, c).0);
                            assert(e_model == c.error);
                        }
                        self.entries.push(
                            DecodedEntry { entry, principal, rights, resolution_error: error },
                        );
                        proof {
                            assert(self@.entries =~~= prev.entries.push(
                                decoded_model(em, prev.catalog, p_model, e_model),
                            ));
                            assert(self@ =~~= builder_step(
                                prev,
                                em,
                                lookup_outcome_model(lookup),
                            ));
                        }
                    },
                    None => {
                        // no lookup was owed and nothing is remembered, so
                        // the identifier cannot be well-formed
                        let principal = ResolvedPrincipal {
                            raw_id: entry.principal_id.clone(),
                            display_name: None,
                            category: PrincipalCategory::Invalid,
                        };
                        let ghost p_model = principal@;
                        self.entries.push(
                            DecodedEntry {
                                entry,
                                principal,
                                rights,
                                resolution_error: Some(ResolutionError::MalformedIdentifier),
                            },
                        );
                        proof {
                            assert(p_model =~~= malformed_principal(id));
                            assert(self@.entries =~~= prev.entries.push(
                                decoded_model(
                                    em,
                                    prev.catalog,
                                    malformed_principal(id),
                                    Some(ResolutionErrorModel::MalformedIdentifier),
                                ),
                            ));
                            assert(self@ =~~= builder_step(
                                prev,
                                em,
                                lookup_outcome_model(lookup),
                            ));
                        }
                    },
                }
            },
        }
    }

    /// Seals the builder into the finished report.
    pub fn finish(self) -> (report: AclReport)
        ensures
            report@ == (AclReportModel { entries: self@.entries, errors: self@.errors }),
    {
        AclReport { entries: self.entries, errors: self.errors }
    }
}

/// The identity directory consulted while building a report: whatever
/// service maps a parsed identity to a display name and a raw category
/// code.  Nothing is assumed of its answers; the report is correct for
/// every answer it may give.
pub trait IdentityDirectory {
    /// Looks up one identity, given both its textual and its parsed form.
    fn lookup(&mut self, raw_id: &str, identity: &ParsedIdentity) -> Result<LookupResult, String>;
}

/// The error records that a list of raw entries owes its report: one
/// structural failure per structurally invalid entry, keyed by that
/// entry's index, in list order.
pub open spec fn error_list(entries: Seq<RawAclEntryModel>) -> Seq<ReportError>
    decreases entries.len(),
{
    if entries.len() == 0 {
        Seq::empty()
    } else {
        let prefix = error_list(entries.drop_last());
        if structurally_valid(entries.last()) {
            prefix
        } else {
            prefix.push(
                ReportError { index: entries.last().index, error: DecodeError::StructuralInvalid },
            )
        }
    }
}

/// The structurally sound entries of a list, in list order: exactly those
/// an entry report is owed for.
pub open spec fn kept_entries(entries: Seq<RawAclEntryModel>) -> Seq<RawAclEntryModel>
    decreases entries.len(),
{
    if entries.len() == 0 {
        Seq::empty()
    } else {
        let prefix = kept_entries(entries.drop_last());
        if structurally_valid(entries.last()) {
            prefix.push(entries.last())
        } else {
            prefix
        }
    }
}

/// What every decoded entry of a finished report satisfies: its rights are
/// the classification of its own mask, its principal carries its own
/// identifier, a malformed identifier yields exactly the degraded
/// principal with its recorded failure, and a well-formed identifier is
/// never recorded as malformed.
pub open spec fn decoded_entry_ok(d: DecodedEntryModel, catalog: Seq<NamedRightModel>) -> bool {
    &&& d.rights == classify_spec(d.entry.mask, catalog)
    &&& d.principal.raw_id == d.entry.principal_id
    &&& !valid_sid_string(d.entry.principal_id) ==> d.principal == malformed_principal(
        d.entry.principal_id,
    ) && d.resolution_error == Some(ResolutionErrorModel::MalformedIdentifier)
    &&& valid_sid_string(d.entry.principal_id) ==> d.resolution_error != Some(
        ResolutionErrorModel::MalformedIdentifier,
    )
}

/// A decoded entry agrees with the cache about its identifier.
pub open spec fn entry_matches_cache(d: DecodedEntryModel, cache: Seq<CacheEntryModel>) -> bool {
    valid_sid_string(d.entry.principal_id) ==> cache_find(cache, d.entry.principal_id, 0) == Some(
        CachedResolutionModel {
            display_name: d.principal.display_name,
            category: d.principal.category,
            error: d.resolution_error,
        },
    )
}

/// An exact copy of a raw entry.
fn clone_raw(e: &RawAclEntry) -> (r: RawAclEntry)
    ensures
        r@ == e@,
{
    RawAclEntry {
        index: e.index,
        entry_type: e.entry_type,
        flags: e.flags,
        size: e.size,
        mask: e.mask,
        principal_id: e.principal_id.clone(),
    }
}

/// Decodes a whole access-control list into one report, strictly in input
/// order, consulting `directory` at most once per distinct well-formed
/// identifier.  Per-entry failures are recorded in the report's error
/// sequence under the failing entry's index and never stop the processing
/// of later entries; two entries naming the same identifier always resolve
/// identically.
pub fn build<D: IdentityDirectory>(
    entries: &Vec<RawAclEntry>,
    catalog: Vec<NamedRight>,
    directory: &mut D,
) -> (report: AclReport)
    ensures
        report@.errors == error_list(entries.deep_view()),
        report@.entries.len() == kept_entries(entries.deep_view()).len(),
        forall|k: int|
            0 <= k < report@.entries.len() ==> (#[trigger] report@.entries[k]).entry
                == kept_entries(entries.deep_view())[k] && decoded_entry_ok(
                report@.entries[k],
                catalog.deep_view(),
            ),
        forall|k1: int, k2: int|
            0 <= k1 < report@.entries.len() && 0 <= k2 < report@.entries.len() && (
            #[trigger] report@.entries[k1]).entry.principal_id == (
            #[trigger] report@.entries[k2]).entry.principal_id ==> report@.entries[k1].principal
                == report@.entries[k2].principal && report@.entries[k1].resolution_error
                == report@.entries[k2].resolution_error,
{
    let ghost ed = entries.deep_view();
    let ghost cm = catalog.deep_view();
    let mut builder = AclReportBuilder::new(catalog);
    let mut i: usize = 0;
    while i < entries.len()
        invariant
            i <= entries.len(),
            ed == entries.deep_view(),
            ed.len() == entries.len(),
            builder@.catalog == cm,
            builder_wf(builder@),
            builder@.errors == error_list(ed.subrange(0, i as int)),
            builder@.entries.len() == kept_entries(ed.subrange(0, i as int)).len(),
            forall|k: int|
                0 <= k < builder@.entries.len() ==> (#[trigger] builder@.entries[k]).entry
                    == kept_entries(ed.subrange(0, i as int))[k] && decoded_entry_ok(
                    builder@.entries[k],
                    cm,
                ) && entry_matches_cache(builder@.entries[k], builder@.cache),
        decreases entries.len() - i,
    {
        let e = clone_raw(&entries[i]);
        let ghost e_m = e@;
        let ghost pre = builder@;
        let ghost mut lm: Option<Result<LookupResultModel, Seq<char>>> = None;
        match builder.needs_lookup(&e) {
            Some(identity) => {
                let outcome = directory.lookup(e.principal_id.as_str(), &identity);
                proof {
                    lm = Some(outcome_model(outcome));
                }
                builder.push(e, Some(outcome));
            },
            None => {
                builder.push(e, None);
            },
        }
        proof {
            lemma_build_step_preserves(pre, builder@, e_m, ed, cm, i as int, lm);
        }
        i = i + 1;
    }
    proof {
        assert(ed.subrange(0, entries.len() as int) =~= ed);
    }
    let report = builder.finish();
    proof {
        assert forall|k1: int, k2: int|
            0 <= k1 < report@.entries.len() && 0 <= k2 < report@.entries.len() && (
            #[trigger] report@.entries[k1]).entry.principal_id == (
            #[trigger] report@.entries[k2]).entry.principal_id implies report@.entries[k1].principal
            == report@.entries[k2].principal && report@.entries[k1].resolution_error
            == report@.entries[k2].resolution_error by {
            let d1 = report@.entries[k1];
            let d2 = report@.entries[k2];
            if valid_sid_string(d1.entry.principal_id) {
                assert(entry_matches_cache(d1, builder@.cache));
                assert(entry_matches_cache(d2, builder@.cache));
                assert(d1.principal =~~= d2.principal);
            } else {
                assert(d1.principal =~~= d2.principal);
            }
        }
    }
    report
}

/// One builder step of `build` preserves the loop's relation between the
/// builder state, the input prefix, and the cache.
proof fn lemma_build_step_preserves(
    pre: BuilderModel,
    post: BuilderModel,
    e: RawAclEntryModel,
    ed: Seq<RawAclEntryModel>,
    cm: Seq<NamedRightModel>,
    i: int,
    lookup: Option<Result<LookupResultModel, Seq<char>>>,
)
    requires
        0 <= i < ed.len(),
        e == ed[i],
        pre.catalog == cm,
        builder_wf(pre),
        builder_wf(post),
        post == builder_step(pre, e, lookup),
        (lookup is Some) == wants_lookup(pre, e),
        pre.errors == error_list(ed.subrange(0, i)),
        pre.entries.len() == kept_entries(ed.subrange(0, i)).len(),
        forall|k: int|
            0 <= k < pre.entries.len() ==> (#[trigger] pre.entries[k]).entry == kept_entries(
                ed.subrange(0, i),
            )[k] && decoded_entry_ok(pre.entries[k], cm) && entry_matches_cache(
                pre.entries[k],
                pre.cache,
            ),
    ensures
        post.catalog == cm,
        post.errors == error_list(ed.subrange(0, i + 1)),
        post.entries.len() == kept_entries(ed.subrange(0, i + 1)).len(),
        forall|k: int|
            0 <= k < post.entries.len() ==> (#[trigger] post.entries[k]).entry == kept_entries(
                ed.subrange(0, i + 1),
            )[k] && decoded_entry_ok(post.entries[k], cm) && entry_matches_cache(
                post.entries[k],
                post.cache,
            ),
{
    assert(ed.subrange(0, i + 1).drop_last() =~= ed.subrange(0, i));
    assert(ed.subrange(0, i + 1).last() == e);
    if !structurally_valid(e) {
        assert forall|k: int| 0 <= k < post.entries.len() implies (
        #[trigger] post.entries[k]).entry == kept_entries(ed.subrange(0, i + 1))[k]
            && decoded_entry_ok(post.entries[k], cm) && entry_matches_cache(
            post.entries[k],
            post.cache,
        ) by {
            assert(post.entries[k] == pre.entries[k]);
        }
    } else {
        let (principal, error, cache) = step_resolution(pre, e, lookup);
        assert(post.entries == pre.entries.push(decoded_model(e, cm, principal, error)));
        let d_new = post.entries.last();
        if valid_sid_string(e.principal_id) {
            match cache_find(pre.cache, e.principal_id, 0) {
                Some(c) => {
                    lemma_cache_find_some_props(pre.cache, e.principal_id, 0);
                    assert(post.cache == pre.cache);
                    assert(entry_matches_cache(d_new, post.cache));
                },
                None => {
                    let ce = cache_entry_model(e.principal_id, principal, error);
                    assert(post.cache == pre.cache.push(ce));
                    lemma_cache_find_push(pre.cache, ce, e.principal_id, 0);
                    assert(entry_matches_cache(d_new, post.cache));
                },
            }
        }
        assert(decoded_entry_ok(d_new, cm));
        assert forall|k: int| 0 <= k < post.entries.len() implies (
        #[trigger] post.entries[k]).entry == kept_entries(ed.subrange(0, i + 1))[k]
            && decoded_entry_ok(post.entries[k], cm) && entry_matches_cache(
            post.entries[k],
            post.cache,
        ) by {
            if k < pre.entries.len() {
                assert(post.entries[k] == pre.entries[k]);
                let d = pre.entries[k];
                if valid_sid_string(d.entry.principal_id) {
                    if post.cache != pre.cache {
                        let ce = cache_entry_model(e.principal_id, principal, error);
                        lemma_cache_find_push(pre.cache, ce, d.entry.principal_id, 0);
                    }
                }
            }
        }
    }
}

/// The identity directory is consulted at most once per identifier: as
/// soon as the cache remembers an identifier, offering any further entry
/// that names it never asks for a lookup again.
pub proof fn lemma_lookup_at_most_once(b: BuilderModel, e: RawAclEntryModel)
    requires
        cache_find(b.cache, e.principal_id, 0) is Some,
    ensures
        !wants_lookup(b, e),
{
}

/// Supplying the directory's outcome for an entry remembers its
/// identifier: after that step, no entry naming the same identifier asks
/// for a lookup again, whatever the outcome was.
pub proof fn lemma_lookup_remembered(
    b: BuilderModel,
    e: RawAclEntryModel,
    lookup: Option<Result<LookupResultModel, Seq<char>>>,
    e2: RawAclEntryModel,
)
    requires
        wants_lookup(b, e),
        e2.principal_id == e.principal_id,
    ensures
        !wants_lookup(builder_step(b, e, lookup), e2),
{
    let (principal, error, cache) = step_resolution(b, e, lookup);
    let ce = cache_entry_model(e.principal_id, principal, error);
    lemma_cache_find_push(b.cache, ce, e.principal_id, 0);
}

/// What the builder invariant promises of anything the cache remembers:
/// the identifier is well-formed and the remembered failure, if any, came
/// from the directory, not from parsing.
proof fn lemma_cache_find_some_props(cache: Seq<CacheEntryModel>, id: Seq<char>, i: int)
    requires
        0 <= i,
        cache_find(cache, id, i) is Some,
        forall|j: int| 0 <= j < cache.len() ==> valid_sid_string((#[trigger] cache[j]).id),
        forall|j: int|
            0 <= j < cache.len() ==> (#[trigger] cache[j]).resolution.error != Some(
                ResolutionErrorModel::MalformedIdentifier,
            ),
    ensures
        valid_sid_string(id),
        cache_find(cache, id, i)->Some_0.error != Some(ResolutionErrorModel::MalformedIdentifier),
    decreases cache.len() - i,
{
    if i < cache.len() && !(cache[i].id == id) {
        lemma_cache_find_some_props(cache, id, i + 1);
    }
}

/// An identifier that the cache does not remember sits in no slot.
proof fn lemma_cache_find_none(cache: Seq<CacheEntryModel>, id: Seq<char>, i: int)
    requires
        0 <= i,
        cache_find(cache, id, i) is None,
    ensures
        forall|j: int| i <= j < cache.len() ==> (#[trigger] cache[j]).id != id,
    decreases cache.len() - i,
{
    if i < cache.len() {
        lemma_cache_find_none(cache, id, i + 1);
    }
}

} // verus!
