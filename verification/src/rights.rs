//! The catalog of named access rights and the classification of a raw
//! 32-bit access mask against it.

use vstd::prelude::*;

verus! {

/// Which numbering scheme a named right belongs to.  Generic and
/// object-specific rights legitimately reuse the same bit positions under
/// different interpretations, so each category is evaluated independently.
#[derive(Clone, Copy, PartialEq, Eq, Structural, Debug)]
pub enum RightCategory {
    Generic,
    Standard,
    ObjectSpecific,
}

/// One catalog entry: a named access right and the mask bits that grant it.
pub struct NamedRight {
    pub name: String,
    pub bit_value: u32,
    pub category: RightCategory,
}

/// The mathematical model of a catalog entry.
#[verifier::ext_equal]
pub ghost struct NamedRightModel {
    pub name: Seq<char>,
    pub bit_value: u32,
    pub category: RightCategory,
}

impl View for NamedRight {
    type V = NamedRightModel;

    open spec fn view(&self) -> NamedRightModel {
        NamedRightModel { name: self.name@, bit_value: self.bit_value, category: self.category }
    }
}

impl DeepView for NamedRight {
    type V = NamedRightModel;

    open spec fn deep_view(&self) -> NamedRightModel {
        self.view()
    }
}

/// The labels of every catalog entry whose bits intersect `mask`, in catalog
/// declaration order.  An aggregate right is reported independently of its
/// components, and an entry matching under several categories is retained
/// each time it occurs in the catalog.
pub open spec fn classify_spec(mask: u32, catalog: Seq<NamedRightModel>) -> Seq<Seq<char>>
    decreases catalog.len(),
{
    if catalog.len() == 0 {
        Seq::empty()
    } else {
        let prefix = classify_spec(mask, catalog.drop_last());
        if mask & catalog.last().bit_value != 0 {
            prefix.push(catalog.last().name)
        } else {
            prefix
        }
    }
}

/// Scans the catalog in declaration order and reports the label of every
/// entry whose bits intersect `mask`; no short-circuiting and no exclusivity
/// between categories.  Classification cannot fail: an empty catalog (or a
/// zero mask) yields an empty label list.
pub fn classify(mask: u32, catalog: &Vec<NamedRight>) -> (labels: Vec<String>)
    ensures
        labels.deep_view() == classify_spec(mask, catalog.deep_view()),
{
    let ghost cd = catalog.deep_view();
    let mut labels: Vec<String> = Vec::new();
    let mut i: usize = 0;
    while i < catalog.len()
        invariant
            i <= catalog.len(),
            cd == catalog.deep_view(),
            cd.len() == catalog.len(),
            labels.deep_view() == classify_spec(mask, cd.subrange(0, i as int)),
        decreases catalog.len() - i,
    {
        proof {
            assert(cd.subrange(0, i + 1).drop_last() =~= cd.subrange(0, i as int));
            assert(cd.subrange(0, i + 1).last() == cd[i as int]);
        }
        if mask & catalog[i].bit_value != 0 {
            labels.push(catalog[i].name.clone());
            proof {
                assert(labels.deep_view() =~= classify_spec(mask, cd.subrange(0, i + 1)));
            }
        } else {
            proof {
                assert(labels.deep_view() =~= classify_spec(mask, cd.subrange(0, i + 1)));
            }
        }
        i = i + 1;
    }
    proof {
        assert(cd.subrange(0, catalog.len() as int) =~= cd);
    }
    labels
}

/// A non-zero mask never matches an empty catalog, and the zero mask never
/// matches any catalog: classifying `0` yields the empty label sequence.
pub proof fn lemma_classify_zero_mask(catalog: Seq<NamedRightModel>)
    ensures
        classify_spec(0u32, catalog) == Seq::<Seq<char>>::empty(),
    decreases catalog.len(),
{
    if catalog.len() > 0 {
        lemma_classify_zero_mask(catalog.drop_last());
        let b = catalog.last().bit_value;
        assert(0u32 & b == 0) by (bit_vector);
    }
}

/// Completeness of classification: every catalog entry whose bits intersect
/// the mask contributes its label to the result.
pub proof fn lemma_classify_complete(mask: u32, catalog: Seq<NamedRightModel>, i: int)
    requires
        0 <= i < catalog.len(),
        mask & catalog[i].bit_value != 0,
    ensures
        classify_spec(mask, catalog).contains(catalog[i].name),
    decreases catalog.len(),
{
    let r = classify_spec(mask, catalog);
    if i == catalog.len() - 1 {
        assert(r.last() == catalog[i].name);
        assert(r.contains(catalog[i].name));
    } else {
        lemma_classify_complete(mask, catalog.drop_last(), i);
        let prefix = classify_spec(mask, catalog.drop_last());
        let j = choose|j: int| 0 <= j < prefix.len() && prefix[j] == catalog[i].name;
        assert(r[j] == catalog[i].name);
        assert(r.contains(catalog[i].name));
    }
}

/// Soundness of classification: every label in the result is the name of a
/// catalog entry whose bits intersect the mask.
pub proof fn lemma_classify_sound(mask: u32, catalog: Seq<NamedRightModel>, j: int)
    requires
        0 <= j < classify_spec(mask, catalog).len(),
    ensures
        exists|i: int|
            0 <= i < catalog.len() && mask & catalog[i].bit_value != 0 && catalog[i].name
                == classify_spec(mask, catalog)[j],
    decreases catalog.len(),
{
    let r = classify_spec(mask, catalog);
    let prefix = classify_spec(mask, catalog.drop_last());
    if j < prefix.len() {
        lemma_classify_sound(mask, catalog.drop_last(), j);
        let i = choose|i: int|
            0 <= i < catalog.drop_last().len() && mask & catalog.drop_last()[i].bit_value != 0
                && catalog.drop_last()[i].name == prefix[j];
        assert(catalog[i] == catalog.drop_last()[i]);
        assert(r[j] == prefix[j]);
    } else {
        let i = catalog.len() - 1;
        assert(mask & catalog[i].bit_value != 0 && catalog[i].name == r[j]);
    }
}

/// The mask encoded from the catalog entries that a selection picks out:
/// the bitwise union of the selected entries' bit patterns.
pub open spec fn encode_spec(catalog: Seq<NamedRightModel>, sel: Seq<bool>) -> u32
    decreases catalog.len(),
{
    if catalog.len() == 0 || sel.len() == 0 {
        0u32
    } else {
        encode_spec(catalog.drop_last(), sel.drop_last()) | (if sel.last() {
            catalog.last().bit_value
        } else {
            0u32
        })
    }
}

/// The names of the catalog entries that a selection picks out, in catalog
/// declaration order.
pub open spec fn selected_names(catalog: Seq<NamedRightModel>, sel: Seq<bool>) -> Seq<Seq<char>>
    decreases catalog.len(),
{
    if catalog.len() == 0 || sel.len() == 0 {
        Seq::empty()
    } else {
        let prefix = selected_names(catalog.drop_last(), sel.drop_last());
        if sel.last() {
            prefix.push(catalog.last().name)
        } else {
            prefix
        }
    }
}

/// Builds a synthetic access mask granting exactly the catalog entries that
/// the selection picks out.
pub fn encode_mask(catalog: &Vec<NamedRight>, sel: &Vec<bool>) -> (mask: u32)
    requires
        sel@.len() == catalog@.len(),
    ensures
        mask == encode_spec(catalog.deep_view(), sel@),
{
    let ghost cd = catalog.deep_view();
    let mut mask: u32 = 0;
    let mut i: usize = 0;
    while i < catalog.len()
        invariant
            i <= catalog.len(),
            cd == catalog.deep_view(),
            cd.len() == catalog.len(),
            sel@.len() == catalog@.len(),
            mask == encode_spec(cd.subrange(0, i as int), sel@.subrange(0, i as int)),
        decreases catalog.len() - i,
    {
        proof {
            assert(cd.subrange(0, i + 1).drop_last() =~= cd.subrange(0, i as int));
            assert(sel@.subrange(0, i + 1).drop_last() =~= sel@.subrange(0, i as int));
            assert(cd.subrange(0, i + 1).last() == cd[i as int]);
            assert(sel@.subrange(0, i + 1).last() == sel@[i as int]);
        }
        if sel[i] {
            mask = mask | catalog[i].bit_value;
        } else {
            proof {
                assert(mask | 0u32 == mask) by (bit_vector);
            }
        }
        i = i + 1;
    }
    proof {
        assert(cd.subrange(0, catalog.len() as int) =~= cd);
        assert(sel@.subrange(0, catalog.len() as int) =~= sel@);
    }
    mask
}

/// Every selected entry's bits are wholly contained in the encoded mask.
proof fn lemma_encode_includes(catalog: Seq<NamedRightModel>, sel: Seq<bool>, i: int)
    requires
        sel.len() == catalog.len(),
        0 <= i < catalog.len(),
        sel[i],
    ensures
        encode_spec(catalog, sel) & catalog[i].bit_value == catalog[i].bit_value,
    decreases catalog.len(),
{
    let m = encode_spec(catalog.drop_last(), sel.drop_last());
    let b = catalog.last().bit_value;
    let t = catalog[i].bit_value;
    if i == catalog.len() - 1 {
        assert((m | b) & b == b) by (bit_vector);
    } else {
        lemma_encode_includes(catalog.drop_last(), sel.drop_last(), i);
        assert(catalog.drop_last()[i] == catalog[i]);
        if sel.last() {
            assert(m & t == t ==> (m | b) & t == t) by (bit_vector);
        } else {
            assert(m & t == t ==> (m | 0u32) & t == t) by (bit_vector);
        }
    }
}

proof fn lemma_round_trip_prefix(catalog: Seq<NamedRightModel>, sel: Seq<bool>, m: u32, k: int)
    requires
        sel.len() == catalog.len(),
        m == encode_spec(catalog, sel),
        forall|i: int| 0 <= i < catalog.len() && sel[i] ==> catalog[i].bit_value != 0,
        forall|i: int| 0 <= i < catalog.len() && !sel[i] ==> catalog[i].bit_value & m == 0,
        0 <= k <= catalog.len(),
    ensures
        classify_spec(m, catalog.subrange(0, k)) == selected_names(
            catalog.subrange(0, k),
            sel.subrange(0, k),
        ),
    decreases k,
{
    if k > 0 {
        lemma_round_trip_prefix(catalog, sel, m, k - 1);
        let cp = catalog.subrange(0, k);
        let sp = sel.subrange(0, k);
        assert(cp.drop_last() =~= catalog.subrange(0, k - 1));
        assert(sp.drop_last() =~= sel.subrange(0, k - 1));
        let j = k - 1;
        let b = catalog[j].bit_value;
        if sel[j] {
            lemma_encode_includes(catalog, sel, j);
            assert(m & b == b && b != 0 ==> m & b != 0) by (bit_vector);
        } else {
            assert(b & m == 0 ==> m & b == 0) by (bit_vector);
        }
    }
}

/// The round trip between encoding and classification: when a selection
/// picks out entries with non-empty bit patterns and the encoded mask does
/// not stray into any unselected entry's bits, classifying the encoded mask
/// reproduces exactly the names of the selected entries, in catalog order.
pub proof fn lemma_round_trip(catalog: Seq<NamedRightModel>, sel: Seq<bool>)
    requires
        sel.len() == catalog.len(),
        forall|i: int| 0 <= i < catalog.len() && sel[i] ==> catalog[i].bit_value != 0,
        forall|i: int|
            0 <= i < catalog.len() && !sel[i] ==> catalog[i].bit_value & encode_spec(catalog, sel)
                == 0,
    ensures
        classify_spec(encode_spec(catalog, sel), catalog) == selected_names(catalog, sel),
{
    let m = encode_spec(catalog, sel);
    lemma_round_trip_prefix(catalog, sel, m, catalog.len() as int);
    assert(catalog.subrange(0, catalog.len() as int) =~= catalog);
    assert(sel.subrange(0, sel.len() as int) =~= sel);
}

/// One row of the registry-key catalog, as a model value.
pub open spec fn row(name: Seq<char>, bit_value: u32, category: RightCategory) -> NamedRightModel {
    NamedRightModel { name, bit_value, category }
}

/// The catalog of named rights for registry keys: the standard rights valid
/// on registry keys together with their aggregates, the generic rights, and
/// the key-specific rights, in the fixed order in which classification
/// scans and reports them.
pub open spec fn registry_catalog_spec() -> Seq<NamedRightModel> {
    seq![
        row("DELETE"@, 0x0001_0000u32, RightCategory::Standard),
        row("WRITE_DAC"@, 0x0004_0000u32, RightCategory::Standard),
        row("WRITE_OWNER"@, 0x0008_0000u32, RightCategory::Standard),
        row("READ_CONTROL"@, 0x0002_0000u32, RightCategory::Standard),
        row("SYNCHRONIZE"@, 0x0010_0000u32, RightCategory::Standard),
        row("STANDARD_RIGHTS_READ"@, 0x0002_0000u32, RightCategory::Standard),
        row("STANDARD_RIGHTS_WRITE"@, 0x0002_0000u32, RightCategory::Standard),
        row("STANDARD_RIGHTS_EXECUTE"@, 0x0002_0000u32, RightCategory::Standard),
        row("STANDARD_RIGHTS_ALL"@, 0x001F_0000u32, RightCategory::Standard),
        row("SPECIFIC_RIGHTS_ALL"@, 0x0000_FFFFu32, RightCategory::ObjectSpecific),
        row("GENERIC_ALL"@, 0x1000_0000u32, RightCategory::Generic),
        row("GENERIC_READ"@, 0x8000_0000u32, RightCategory::Generic),
        row("GENERIC_WRITE"@, 0x4000_0000u32, RightCategory::Generic),
        row("GENERIC_EXECUTE"@, 0x2000_0000u32, RightCategory::Generic),
        row("KEY_ALL_ACCESS"@, 0x000F_003Fu32, RightCategory::ObjectSpecific),
        row("KEY_CREATE_LINK"@, 0x0000_0020u32, RightCategory::ObjectSpecific),
        row("KEY_CREATE_SUB_KEY"@, 0x0000_0004u32, RightCategory::ObjectSpecific),
        row("KEY_ENUMERATE_SUB_KEYS"@, 0x0000_0008u32, RightCategory::ObjectSpecific),
        row("KEY_EXECUTE"@, 0x0002_0019u32, RightCategory::ObjectSpecific),
        row("KEY_NOTIFY"@, 0x0000_0010u32, RightCategory::ObjectSpecific),
        row("KEY_QUERY_VALUE"@, 0x0000_0001u32, RightCategory::ObjectSpecific),
        row("KEY_READ"@, 0x0002_0019u32, RightCategory::ObjectSpecific),
        row("KEY_WOW64_32KEY"@, 0x0000_0200u32, RightCategory::ObjectSpecific),
        row("KEY_WOW64_64KEY"@, 0x0000_0100u32, RightCategory::ObjectSpecific),
        row("KEY_WRITE"@, 0x0002_0006u32, RightCategory::ObjectSpecific),
    ]
}

fn named(name: &str, bit_value: u32, category: RightCategory) -> (r: NamedRight)
    ensures
        r@ == row(name@, bit_value, category),
{
    NamedRight { name: name.to_owned(), bit_value, category }
}

/// Builds the registry-key catalog.
pub fn registry_catalog() -> (catalog: Vec<NamedRight>)
    ensures
        catalog.deep_view() == registry_catalog_spec(),
{
    let mut c: Vec<NamedRight> = Vec::new();
    c.push(named("DELETE", 0x0001_0000, RightCategory::Standard));
    c.push(named("WRITE_DAC", 0x0004_0000, RightCategory::Standard));
    c.push(named("WRITE_OWNER", 0x0008_0000, RightCategory::Standard));
    c.push(named("READ_CONTROL", 0x0002_0000, RightCategory::Standard));
    c.push(named("SYNCHRONIZE", 0x0010_0000, RightCategory::Standard));
    c.push(named("STANDARD_RIGHTS_READ", 0x0002_0000, RightCategory::Standard));
    c.push(named("STANDARD_RIGHTS_WRITE", 0x0002_0000, RightCategory::Standard));
    c.push(named("STANDARD_RIGHTS_EXECUTE", 0x0002_0000, RightCategory::Standard));
    c.push(named("STANDARD_RIGHTS_ALL", 0x001F_0000, RightCategory::Standard));
    c.push(named("SPECIFIC_RIGHTS_ALL", 0x0000_FFFF, RightCategory::ObjectSpecific));
    c.push(named("GENERIC_ALL", 0x1000_0000, RightCategory::Generic));
    c.push(named("GENERIC_READ", 0x8000_0000, RightCategory::Generic));
    c.push(named("GENERIC_WRITE", 0x4000_0000, RightCategory::Generic));
    c.push(named("GENERIC_EXECUTE", 0x2000_0000, RightCategory::Generic));
    c.push(named("KEY_ALL_ACCESS", 0x000F_003F, RightCategory::ObjectSpecific));
    c.push(named("KEY_CREATE_LINK", 0x0000_0020, RightCategory::ObjectSpecific));
    c.push(named("KEY_CREATE_SUB_KEY", 0x0000_0004, RightCategory::ObjectSpecific));
    c.push(named("KEY_ENUMERATE_SUB_KEYS", 0x0000_0008, RightCategory::ObjectSpecific));
    c.push(named("KEY_EXECUTE", 0x0002_0019, RightCategory::ObjectSpecific));
    c.push(named("KEY_NOTIFY", 0x0000_0010, RightCategory::ObjectSpecific));
    c.push(named("KEY_QUERY_VALUE", 0x0000_0001, RightCategory::ObjectSpecific));
    c.push(named("KEY_READ", 0x0002_0019, RightCategory::ObjectSpecific));
    c.push(named("KEY_WOW64_32KEY", 0x0000_0200, RightCategory::ObjectSpecific));
    c.push(named("KEY_WOW64_64KEY", 0x0000_0100, RightCategory::ObjectSpecific));
    c.push(named("KEY_WRITE", 0x0002_0006, RightCategory::ObjectSpecific));
    proof {
        assert(c.deep_view() =~= registry_catalog_spec());
    }
    c
}

} // verus!
