//! Collecting the variants of a data declaration: each variant goes into
//! the definition's variants under its name, a later variant of a name
//! replacing an earlier one; a variant that mixes payload styles, repeats an
//! earlier discriminant or repeats an earlier name is reported; a declaration
//! with no variants and some fields is a record, with one variant named after
//! the declaration.
use vstd::prelude::*;

use crate::data_tags::record_data_variant_tag;
use crate::facts::{DataVariants, SemaDataVariantDef};
use crate::text::text_eq;
use crate::diag::SemaDiagKind;
use crate::ty::{Symbol, TyId};
use std::collections::HashSet;

verus! {

/// A variant as read from its declaration: its name, its discriminant, its
/// definition, and whether its payload mixes named and unnamed fields.
#[derive(Debug, Clone, PartialEq, Eq)]
pub struct LoweredVariant {
    pub name: String,
    pub tag_value: i64,
    pub def: SemaDataVariantDef,
    pub mixed_payload: bool,
}

/// A field of a record declaration: its name and its type.
#[derive(Debug, Clone, PartialEq, Eq)]
pub struct RecordField {
    pub name: String,
    pub ty: TyId,
}

/// A diagnostic about a variant.
#[derive(Debug, Clone, Copy, PartialEq, Eq, Structural)]
pub enum VariantIssue {
    /// The payload mixes named and unnamed fields.
    MixedPayloadStyle,
    /// An earlier variant has the discriminant `value`.
    DuplicateDiscriminant { value: i64 },
    /// The variant at `previous`, the last one before, has the same name.
    DuplicateVariant { previous: usize },
}

/// The names of the variants.
pub open spec fn variant_names(vs: Seq<LoweredVariant>) -> Seq<Seq<char>> {
    vs.map_values(|v: LoweredVariant| v.name@)
}

/// The position of the last name before `i` that is `name`.
pub open spec fn last_named(names: Seq<Seq<char>>, name: Seq<char>, i: int) -> Option<int>
    decreases i,
{
    if i <= 0 {
        None
    } else if names[i - 1] == name {
        Some(i - 1)
    } else {
        last_named(names, name, i - 1)
    }
}

/// Whether a variant before `i` has the discriminant `tag`.
pub open spec fn tag_seen(vs: Seq<LoweredVariant>, tag: i64, i: int) -> bool {
    exists|j: int| 0 <= j < i && (#[trigger] vs[j]).tag_value == tag
}

/// What variant `i` reports, in order.
pub open spec fn variant_issues(vs: Seq<LoweredVariant>, i: int) -> Seq<VariantIssue> {
    let a: Seq<VariantIssue> = if vs[i].mixed_payload {
        seq![VariantIssue::MixedPayloadStyle]
    } else {
        Seq::empty()
    };
    let b: Seq<VariantIssue> = if tag_seen(vs, vs[i].tag_value, i) {
        seq![VariantIssue::DuplicateDiscriminant { value: vs[i].tag_value }]
    } else {
        Seq::empty()
    };
    let c: Seq<VariantIssue> = match last_named(variant_names(vs), vs[i].name@, i) {
        Some(j) => seq![VariantIssue::DuplicateVariant { previous: j as usize }],
        None => Seq::empty(),
    };
    a + b + c
}

/// The variants by name: each inserted in order over the ones before.
pub open spec fn variants_map(vs: Seq<LoweredVariant>) -> Map<Seq<char>, SemaDataVariantDef>
    decreases vs.len(),
{
    if vs.len() == 0 {
        Map::empty()
    } else {
        variants_map(vs.drop_last()).insert(vs.last().name@, vs.last().def)
    }
}

/// The variant of a record declaration: discriminant zero, no payload or
/// result, and the declared fields' types and names.
pub open spec fn is_record_variant(d: SemaDataVariantDef, fields: Seq<RecordField>) -> bool {
    &&& d.tag_spec() == 0
    &&& d.payload_spec() is None
    &&& d.result_spec() is None
    &&& d.field_tys_spec() == fields.map_values(|f: RecordField| f.ty)
    &&& d.field_names_spec().len() == fields.len()
    &&& forall|k: int| 0 <= k < fields.len() ==> ((#[trigger] d.field_names_spec()[k]) matches Some(n) && n@ == fields[k].name@)
}

fn last_named_exec(names: &Vec<String>, name: &str) -> (r: Option<usize>)
    ensures
        match r {
            Some(j) => last_named(names@.map_values(|t: String| t@), name@, names@.len() as int) == Some(j as int),
            None => last_named(names@.map_values(|t: String| t@), name@, names@.len() as int) is None,
        },
{
    let ghost views = names@.map_values(|t: String| t@);
    let mut k: usize = names.len();
    while k > 0
        invariant
            k <= names.len(),
            views == names@.map_values(|t: String| t@),
            last_named(views, name@, names@.len() as int) == last_named(views, name@, k as int),
        decreases k,
    {
        if text_eq(names[k - 1].as_str(), name) {
            return Some(k - 1);
        }
        k = k - 1;
    }
    None
}

/// The variants of a data declaration named `data_name`, by name, and what
/// each variant reports; with no variants and some `record_fields`, the one
/// variant of the record.
pub fn collect_data_variants(data_name: &str, variants: Vec<LoweredVariant>, record_fields: &Vec<RecordField>) -> (r: (
    DataVariants,
    Vec<Vec<VariantIssue>>,
))
    ensures
        r.1@.len() == variants@.len(),
        forall|i: int| 0 <= i < variants@.len() ==> (#[trigger] r.1@[i])@ == variant_issues(variants@, i),
        variants@.len() > 0 ==> r.0.map() == variants_map(variants@),
        variants@.len() == 0 && record_fields@.len() == 0 ==> r.0.map() == Map::<Seq<char>, SemaDataVariantDef>::empty(),
        variants@.len() == 0 && record_fields@.len() > 0 ==> r.0.map().dom() == set![data_name@] && is_record_variant(
            r.0.map()[data_name@],
            record_fields@,
        ),
{
    broadcast use vstd::std_specs::hash::group_hash_axioms;

    let ghost all = variants@;
    let count = variants.len();
    let mut rest = variants;
    let mut map = DataVariants::new();
    let mut issues: Vec<Vec<VariantIssue>> = Vec::new();
    let mut seen_tags: HashSet<i64> = HashSet::new();
    let mut seen_names: Vec<String> = Vec::new();
    let mut i: usize = 0;
    while i < count
        invariant
            i <= count,
            count == all.len(),
            rest@ == all.subrange(i as int, count as int),
            seen_names@.map_values(|t: String| t@) == variant_names(all).subrange(0, i as int),
            seen_names@.len() == i,
            issues@.len() == i,
            forall|j: int| 0 <= j < i ==> (#[trigger] issues@[j])@ == variant_issues(all, j),
            map.map() == variants_map(all.subrange(0, i as int)),
            forall|t: i64| seen_tags@.contains(t) <==> tag_seen(all, t, i as int),
        decreases count - i,
    {
        let v = rest.remove(0);
        assert(v == all[i as int]);
        let mut out: Vec<VariantIssue> = Vec::new();
        if v.mixed_payload {
            out.push(VariantIssue::MixedPayloadStyle);
        }
        let fresh = record_data_variant_tag(&mut seen_tags, v.tag_value);
        if !fresh {
            out.push(VariantIssue::DuplicateDiscriminant { value: v.tag_value });
        }
        match last_named_exec(&seen_names, v.name.as_str()) {
            Some(j) => {
                out.push(VariantIssue::DuplicateVariant { previous: j });
            },
            None => {},
        }
        proof {
            lemma_last_named_prefix(variant_names(all), v.name@, i as int);
            assert(variant_names(all)[i as int] == v.name@);
            assert(fresh == !tag_seen(all, v.tag_value, i as int));
            assert(seen_names@.len() == i);
            assert(last_named(seen_names@.map_values(|t: String| t@), v.name@, seen_names@.len() as int) == last_named(
                variant_names(all),
                v.name@,
                i as int,
            ));
            assert(out@ =~= variant_issues(all, i as int));
            assert forall|t: i64| seen_tags@.contains(t) <==> tag_seen(all, t, i + 1) by {
                if tag_seen(all, t, i + 1) && t != v.tag_value {
                    let j = choose|j: int| 0 <= j < i + 1 && (#[trigger] all[j]).tag_value == t;
                    assert(j < i);
                }
                if t == v.tag_value {
                    assert(all[i as int].tag_value == t);
                }
            }
        }
        let ghost names_before = seen_names@;
        let name_copy = v.name.clone();
        seen_names.push(name_copy);
        map.insert(v.name, v.def);
        issues.push(out);
        proof {
            assert(all.subrange(0, i + 1).drop_last() =~= all.subrange(0, i as int));
            assert(seen_names@ == names_before.push(name_copy));
            assert(seen_names@.map_values(|t: String| t@) =~= names_before.map_values(|t: String| t@).push(v.name@));
            assert(variant_names(all).subrange(0, i + 1) =~= variant_names(all).subrange(0, i as int).push(v.name@));
            assert(rest@ =~= all.subrange(i + 1, count as int));
        }
        i = i + 1;
    }
    proof {
        assert(all.subrange(0, i as int) =~= all);
    }
    if count == 0 && record_fields.len() > 0 {
        let mut tys: Vec<TyId> = Vec::new();
        let mut names: Vec<Option<String>> = Vec::new();
        let mut k: usize = 0;
        while k < record_fields.len()
            invariant
                k <= record_fields.len(),
                tys@ == record_fields@.subrange(0, k as int).map_values(|f: RecordField| f.ty),
                names@.len() == k,
                forall|j: int| 0 <= j < k ==> ((#[trigger] names@[j]) matches Some(n) && n@ == record_fields@[j].name@),
            decreases record_fields.len() - k,
        {
            tys.push(record_fields[k].ty);
            names.push(Some(record_fields[k].name.clone()));
            k = k + 1;
            proof {
                assert(tys@ =~= record_fields@.subrange(0, k as int).map_values(|f: RecordField| f.ty));
            }
        }
        proof {
            assert(record_fields@.subrange(0, k as int) =~= record_fields@);
        }
        let def = SemaDataVariantDef::new(0, None, None, tys, names);
        let mut record = DataVariants::new();
        record.insert(data_name.to_string(), def);
        proof {
            assert(record.map().dom() =~= set![data_name@]);
        }
        return (record, issues);
    }
    (map, issues)
}

/// The last position before `i` in a list depends only on the first `i`
/// entries.
proof fn lemma_last_named_prefix(names: Seq<Seq<char>>, name: Seq<char>, i: int)
    requires
        0 <= i <= names.len(),
    ensures
        last_named(names.subrange(0, i), name, i) == last_named(names, name, i),
    decreases i,
{
    if i > 0 {
        let k = i - 1;
        assert(names.subrange(0, i)[k] == names[k]);
        lemma_last_named_shrink(names.subrange(0, i), names, name, k);
    }
}

/// Two lists that agree below `k + 1` have the same last position below
/// `k + 1`.
proof fn lemma_last_named_shrink(a: Seq<Seq<char>>, b: Seq<Seq<char>>, name: Seq<char>, k: int)
    requires
        0 <= k < a.len(),
        k < b.len(),
        forall|j: int| 0 <= j <= k ==> a[j] == b[j],
    ensures
        last_named(a, name, k + 1) == last_named(b, name, k + 1),
    decreases k,
{
    assert(a[k] == b[k]);
    if k > 0 {
        lemma_last_named_shrink(a, b, name, k - 1);
    } else {
        assert(last_named(a, name, 0) is None);
        assert(last_named(b, name, 0) is None);
    }
}

/// The kind of a member of a shape declaration.
#[derive(Debug, Clone, Copy, PartialEq, Eq, Structural)]
pub enum ShapeMemberKind {
    Let,
    Law,
}

/// A member of a shape declaration: its kind and its name.
#[derive(Debug, Clone, Copy, PartialEq, Eq, Structural)]
pub struct ShapeMemberDecl {
    pub kind: ShapeMemberKind,
    pub name: Symbol,
}

/// Whether a member before `i` has the kind and name of member `i`.
pub open spec fn member_repeats(members: Seq<ShapeMemberDecl>, i: int) -> bool {
    exists|j: int| 0 <= j < i && #[trigger] members[j] == members[i]
}

/// What member `i` reports: a repeated member name, or a repeated law
/// name.
pub open spec fn member_issue(members: Seq<ShapeMemberDecl>, i: int) -> Option<SemaDiagKind> {
    if member_repeats(members, i) {
        match members[i].kind {
            ShapeMemberKind::Let => Some(SemaDiagKind::CollectDuplicateShapeMember),
            ShapeMemberKind::Law => Some(SemaDiagKind::CollectDuplicateShapeLaw),
        }
    } else {
        None
    }
}

/// What each member of a shape declaration reports: a member, or a law,
/// whose name an earlier one of its kind already has.
pub fn validate_shape_decl_members(members: &Vec<ShapeMemberDecl>) -> (r: Vec<Option<SemaDiagKind>>)
    ensures
        r@.len() == members@.len(),
        forall|i: int| 0 <= i < members@.len() ==> #[trigger] r@[i] == member_issue(members@, i),
{
    broadcast use vstd::std_specs::hash::group_hash_axioms;

    let mut lets: HashSet<u32> = HashSet::new();
    let mut laws: HashSet<u32> = HashSet::new();
    let mut out: Vec<Option<SemaDiagKind>> = Vec::new();
    let mut i: usize = 0;
    while i < members.len()
        invariant
            i <= members.len(),
            out@.len() == i,
            forall|j: int| 0 <= j < i ==> #[trigger] out@[j] == member_issue(members@, j),
            forall|n: u32| lets@.contains(n) <==> exists|j: int|
                0 <= j < i && #[trigger] members@[j] == (ShapeMemberDecl { kind: ShapeMemberKind::Let, name: Symbol(n) }),
            forall|n: u32| laws@.contains(n) <==> exists|j: int|
                0 <= j < i && #[trigger] members@[j] == (ShapeMemberDecl { kind: ShapeMemberKind::Law, name: Symbol(n) }),
        decreases members.len() - i,
    {
        let m = members[i];
        let fresh = match m.kind {
            ShapeMemberKind::Let => lets.insert(m.name.0),
            ShapeMemberKind::Law => laws.insert(m.name.0),
        };
        let issue = if fresh {
            None
        } else {
            match m.kind {
                ShapeMemberKind::Let => Some(SemaDiagKind::CollectDuplicateShapeMember),
                ShapeMemberKind::Law => Some(SemaDiagKind::CollectDuplicateShapeLaw),
            }
        };
        proof {
            assert(m == (ShapeMemberDecl { kind: m.kind, name: Symbol(m.name.0) }));
            assert(fresh == !member_repeats(members@, i as int));
            assert forall|n: u32| lets@.contains(n) <==> exists|j: int|
                0 <= j < i + 1 && #[trigger] members@[j] == (ShapeMemberDecl { kind: ShapeMemberKind::Let, name: Symbol(n) }) by {
                if m == (ShapeMemberDecl { kind: ShapeMemberKind::Let, name: Symbol(n) }) {
                    assert(members@[i as int] == m);
                }
            }
            assert forall|n: u32| laws@.contains(n) <==> exists|j: int|
                0 <= j < i + 1 && #[trigger] members@[j] == (ShapeMemberDecl { kind: ShapeMemberKind::Law, name: Symbol(n) }) by {
                if m == (ShapeMemberDecl { kind: ShapeMemberKind::Law, name: Symbol(n) }) {
                    assert(members@[i as int] == m);
                }
            }
        }
        out.push(issue);
        i = i + 1;
    }
    out
}

} // verus!
