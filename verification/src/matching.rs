//! Type compatibility: whether a value of one type is accepted where another
//! is expected.
use vstd::prelude::*;

use crate::ty::{
    children_below, fields_below, ids_below, store_wf, valid_id, Dim, TyField, TyId, TyKind,
    TyNode, TyStore,
};

verus! {

/// The two types are the same primitive type, or bit types of equal width.
/// `Error`, `Unknown`, `Rune` and natural literals are not among them.
pub open spec fn primitive_match(l: TyNode, r: TyNode) -> bool {
    match (l, r) {
        (TyNode::Type, TyNode::Type) => true,
        (TyNode::Syntax, TyNode::Syntax) => true,
        (TyNode::Any, TyNode::Any) => true,
        (TyNode::Empty, TyNode::Empty) => true,
        (TyNode::Unit, TyNode::Unit) => true,
        (TyNode::Bool, TyNode::Bool) => true,
        (TyNode::Nat, TyNode::Nat) => true,
        (TyNode::Int, TyNode::Int) => true,
        (TyNode::Int8, TyNode::Int8) => true,
        (TyNode::Int16, TyNode::Int16) => true,
        (TyNode::Int32, TyNode::Int32) => true,
        (TyNode::Int64, TyNode::Int64) => true,
        (TyNode::Nat8, TyNode::Nat8) => true,
        (TyNode::Nat16, TyNode::Nat16) => true,
        (TyNode::Nat32, TyNode::Nat32) => true,
        (TyNode::Nat64, TyNode::Nat64) => true,
        (TyNode::Float, TyNode::Float) => true,
        (TyNode::Float32, TyNode::Float32) => true,
        (TyNode::Float64, TyNode::Float64) => true,
        (TyNode::String, TyNode::String) => true,
        (TyNode::CString, TyNode::CString) => true,
        (TyNode::CPtr, TyNode::CPtr) => true,
        (TyNode::Bits { width: a }, TyNode::Bits { width: b }) => a == b,
        _ => false,
    }
}

/// The type of the last field named `name` in `fields`, if any: a record
/// value's field map keeps the last of several fields with one name.
pub open spec fn last_field_ty(fields: Seq<TyField>, name: crate::ty::Symbol) -> Option<TyId>
    decreases fields.len(),
{
    if fields.len() == 0 {
        None
    } else if fields.last().name == name {
        Some(fields.last().ty)
    } else {
        last_field_ty(fields.drop_last(), name)
    }
}

/// The number of distinct field names in `fields`.
pub open spec fn distinct_field_count(fields: Seq<TyField>) -> nat {
    fields.map_values(|f: TyField| f.name).to_set().len()
}

/// Whether a value of type `found` is accepted where type `expected` is
/// expected, in the store `tys`.
pub open spec fn ty_matches_spec(tys: Seq<TyNode>, expected: TyId, found: TyId) -> bool
    decreases expected.0 + found.0,
    when store_wf(tys) && valid_id(tys, expected) && valid_id(tys, found)
    via ty_matches_decreases
{
    let l = tys[expected.0 as int];
    let r = tys[found.0 as int];
    if expected == found {
        true
    } else if l is Any {
        true
    } else if r is Mut && ty_matches_spec(tys, expected, r->inner) {
        true
    } else if l is Error || l is Unknown || r is Error || r is Unknown {
        true
    } else if primitive_match(l, r) {
        true
    } else {
        match (l, r) {
            (TyNode::Named { name: ln, args: la }, TyNode::Named { name: rn, args: ra }) => {
                &&& ln == rn
                &&& la.len() == ra.len()
                &&& forall|k: int|
                    0 <= k < la.len() ==> ty_matches_spec(tys, #[trigger] la[k], ra[k])
            },
            (
                TyNode::Arrow { params: lp, ret: lr, is_effectful: le },
                TyNode::Arrow { params: rp, ret: rr, is_effectful: re },
            ) => {
                &&& le == re
                &&& lp.len() == rp.len()
                &&& forall|k: int|
                    0 <= k < lp.len() ==> ty_matches_spec(tys, #[trigger] lp[k], rp[k])
                &&& ty_matches_spec(tys, lr, rr)
            },
            (TyNode::Sum { left: ll, right: lr }, TyNode::Sum { left: rl, right: rr }) => {
                ty_matches_spec(tys, ll, rl) && ty_matches_spec(tys, lr, rr)
            },
            (TyNode::Tuple { items: li }, TyNode::Tuple { items: ri }) => {
                &&& li.len() == ri.len()
                &&& forall|k: int|
                    0 <= k < li.len() ==> ty_matches_spec(tys, #[trigger] li[k], ri[k])
            },
            (TyNode::Array { dims: ld, item: li }, TyNode::Array { dims: rd, item: ri }) => {
                ld == rd && ty_matches_spec(tys, li, ri)
            },
            (TyNode::Sequence { item: li }, TyNode::Array { item: ri, .. }) => ty_matches_spec(
                tys,
                li,
                ri,
            ),
            (TyNode::Sequence { item: li }, TyNode::Sequence { item: ri }) => ty_matches_spec(
                tys,
                li,
                ri,
            ),
            (TyNode::Range { bound: lb }, TyNode::Range { bound: rb }) => ty_matches_spec(
                tys,
                lb,
                rb,
            ),
            (TyNode::Mut { inner: li }, TyNode::Mut { inner: ri }) => ty_matches_spec(tys, li, ri),
            (TyNode::AnyShape { capability: lc }, TyNode::AnyShape { capability: rc }) =>
                ty_matches_spec(tys, lc, rc),
            (TyNode::SomeShape { capability: lc }, TyNode::SomeShape { capability: rc }) =>
                ty_matches_spec(tys, lc, rc),
            (TyNode::Record { fields: lf }, TyNode::Record { fields: rf }) => {
                &&& lf.len() == distinct_field_count(rf)
                &&& forall|k: int|
                    0 <= k < lf.len() ==> match last_field_ty(rf, (#[trigger] lf[k]).name) {
                        Some(rt) => ty_matches_spec(tys, lf[k].ty, rt),
                        None => false,
                    }
            },
            _ => false,
        }
    }
}

/// An optional id that, when present, is below `bound`.
pub open spec fn opt_id_below(o: Option<TyId>, bound: int) -> bool {
    match o {
        Some(t) => t.0 < bound,
        None => true,
    }
}

/// The type of the last field of a name is one of the fields' types.
pub proof fn lemma_last_field_ty_below(fields: Seq<TyField>, name: crate::ty::Symbol, bound: int)
    requires
        fields_below(fields, bound),
    ensures
        opt_id_below(last_field_ty(fields, name), bound),
    decreases fields.len(),
{
    if fields.len() > 0 && fields.last().name != name {
        lemma_last_field_ty_below(fields.drop_last(), name, bound);
    }
}

#[via_fn]
proof fn ty_matches_decreases(tys: Seq<TyNode>, expected: TyId, found: TyId) {
    let r = tys[found.0 as int];
    if let TyNode::Record { fields: rf } = r {
        assert forall|n: crate::ty::Symbol| opt_id_below(#[trigger] last_field_ty(rf, n), found.0 as int) by {
            lemma_last_field_ty_below(rf, n, found.0 as int);
        }
    }
}

fn primitive_match_exec(l: &TyKind, r: &TyKind) -> (m: bool)
    ensures
        m == primitive_match(l@, r@),
{
    match (l, r) {
        (TyKind::Type, TyKind::Type) => true,
        (TyKind::Syntax, TyKind::Syntax) => true,
        (TyKind::Any, TyKind::Any) => true,
        (TyKind::Empty, TyKind::Empty) => true,
        (TyKind::Unit, TyKind::Unit) => true,
        (TyKind::Bool, TyKind::Bool) => true,
        (TyKind::Nat, TyKind::Nat) => true,
        (TyKind::Int, TyKind::Int) => true,
        (TyKind::Int8, TyKind::Int8) => true,
        (TyKind::Int16, TyKind::Int16) => true,
        (TyKind::Int32, TyKind::Int32) => true,
        (TyKind::Int64, TyKind::Int64) => true,
        (TyKind::Nat8, TyKind::Nat8) => true,
        (TyKind::Nat16, TyKind::Nat16) => true,
        (TyKind::Nat32, TyKind::Nat32) => true,
        (TyKind::Nat64, TyKind::Nat64) => true,
        (TyKind::Float, TyKind::Float) => true,
        (TyKind::Float32, TyKind::Float32) => true,
        (TyKind::Float64, TyKind::Float64) => true,
        (TyKind::String, TyKind::String) => true,
        (TyKind::CString, TyKind::CString) => true,
        (TyKind::CPtr, TyKind::CPtr) => true,
        (TyKind::Bits { width: a }, TyKind::Bits { width: b }) => *a == *b,
        _ => false,
    }
}

/// Whether two dimension lists are equal.
pub fn dims_eq(a: &Vec<Dim>, b: &Vec<Dim>) -> (r: bool)
    ensures
        r == (a@ == b@),
{
    if a.len() != b.len() {
        return false;
    }
    let mut i: usize = 0;
    while i < a.len()
        invariant
            a.len() == b.len(),
            i <= a.len(),
            forall|k: int| 0 <= k < i ==> a@[k] == b@[k],
        decreases a.len() - i,
    {
        if a[i] != b[i] {
            return false;
        }
        i = i + 1;
    }
    assert(a@ =~= b@);
    true
}

/// The type of the last field named `name`.
pub(crate) fn last_field_ty_exec(fields: &Vec<TyField>, name: crate::ty::Symbol) -> (r: Option<TyId>)
    ensures
        r == last_field_ty(fields@, name),
{
    let mut i: usize = fields.len();
    assert(fields@.subrange(0, i as int) =~= fields@);
    while i > 0
        invariant
            i <= fields.len(),
            last_field_ty(fields@, name) == last_field_ty(fields@.subrange(0, i as int), name),
        decreases i,
    {
        assert(fields@.subrange(0, i as int).drop_last() =~= fields@.subrange(0, i - 1));
        if fields[i - 1].name == name {
            return Some(fields[i - 1].ty);
        }
        i = i - 1;
    }
    None
}

/// The number of distinct names among `fields`.
fn distinct_field_count_exec(fields: &Vec<TyField>) -> (n: usize)
    ensures
        n == distinct_field_count(fields@),
{
    let mut seen: Vec<crate::ty::Symbol> = Vec::new();
    let mut i: usize = 0;
    while i < fields.len()
        invariant
            i <= fields.len(),
            seen@.no_duplicates(),
            seen@.len() <= i,
            seen@.to_set() == fields@.subrange(0, i as int).map_values(
                |f: TyField| f.name,
            ).to_set(),
        decreases fields.len() - i,
    {
        let name = fields[i].name;
        let mut j: usize = 0;
        let mut found = false;
        while j < seen.len()
            invariant
                j <= seen.len(),
                found == (exists|k: int| 0 <= k < j && seen@[k] == name),
            decreases seen.len() - j,
        {
            if seen[j] == name {
                found = true;
            }
            j = j + 1;
        }
        let ghost prefix = fields@.subrange(0, i as int).map_values(|f: TyField| f.name);
        assert(fields@.subrange(0, i + 1).map_values(|f: TyField| f.name) =~= prefix.push(name));
        proof {
            prefix.lemma_push_to_set_commute(name);
        }
        if !found {
            proof {
                seen@.lemma_push_to_set_commute(name);
                assert(!seen@.contains(name));
            }
            seen.push(name);
        } else {
            proof {
                assert(seen@.to_set().contains(name));
                assert(seen@.to_set().insert(name) =~= seen@.to_set());
            }
        }
        i = i + 1;
    }
    proof {
        assert(fields@.subrange(0, i as int) =~= fields@);
        seen@.unique_seq_to_set();
    }
    seen.len()
}

/// Whether a value of type `found` is accepted where type `expected` is
/// expected: the two are the same type or structurally compatible, `Any` is
/// expected, `found` is a mutable location of a compatible type, or either is
/// `Error` or `Unknown`.
pub fn ty_matches(store: &TyStore, expected: TyId, found: TyId) -> (m: bool)
    requires
        valid_id(store.kinds(), expected),
        valid_id(store.kinds(), found),
    ensures
        m == ty_matches_spec(store.kinds(), expected, found),
    decreases expected.0 + found.0, 1nat,
{
    proof {
        use_type_invariant(store);
    }
    let ghost tys = store.kinds();
    if expected == found {
        return true;
    }
    let l = store.kind(expected);
    let r = store.kind(found);
    assert(children_below(l@, expected.0 as int));
    assert(children_below(r@, found.0 as int));
    if let TyKind::Any = l {
        return true;
    }
    if let TyKind::Mut { inner } = r {
        if ty_matches(store, expected, *inner) {
            return true;
        }
    }
    match l {
        TyKind::Error | TyKind::Unknown => {
            return true;
        },
        _ => {},
    }
    match r {
        TyKind::Error | TyKind::Unknown => {
            return true;
        },
        _ => {},
    }
    if primitive_match_exec(l, r) {
        return true;
    }
    match (l, r) {
        (TyKind::Named { name: ln, args: la }, TyKind::Named { name: rn, args: ra }) => {
            let m = *ln == *rn && list_matches(store, la, ra, expected, found);
            assert(m == ty_matches_spec(tys, expected, found));
            m
        },
        (
            TyKind::Arrow { params: lp, ret: lr, is_effectful: le },
            TyKind::Arrow { params: rp, ret: rr, is_effectful: re },
        ) => *le == *re && list_matches(store, lp, rp, expected, found) && ty_matches(
            store,
            *lr,
            *rr,
        ),
        (TyKind::Sum { left: ll, right: lr }, TyKind::Sum { left: rl, right: rr }) => {
            ty_matches(store, *ll, *rl) && ty_matches(store, *lr, *rr)
        },
        (TyKind::Tuple { items: li }, TyKind::Tuple { items: ri }) => {
            let m = list_matches(store, li, ri, expected, found);
            assert(m == ty_matches_spec(tys, expected, found));
            m
        },
        (TyKind::Array { dims: ld, item: li }, TyKind::Array { dims: rd, item: ri }) => {
            dims_eq(ld, rd) && ty_matches(store, *li, *ri)
        },
        (TyKind::Sequence { item: li }, TyKind::Array { item: ri, .. }) => ty_matches(
            store,
            *li,
            *ri,
        ),
        (TyKind::Sequence { item: li }, TyKind::Sequence { item: ri }) => ty_matches(
            store,
            *li,
            *ri,
        ),
        (TyKind::Range { bound: lb }, TyKind::Range { bound: rb }) => ty_matches(store, *lb, *rb),
        (TyKind::Mut { inner: li }, TyKind::Mut { inner: ri }) => ty_matches(store, *li, *ri),
        (TyKind::AnyShape { capability: lc }, TyKind::AnyShape { capability: rc }) => ty_matches(
            store,
            *lc,
            *rc,
        ),
        (TyKind::SomeShape { capability: lc }, TyKind::SomeShape { capability: rc }) =>
            ty_matches(store, *lc, *rc),
        (TyKind::Record { fields: lf }, TyKind::Record { fields: rf }) => {
            let m = record_fields_match(store, lf, rf, expected, found);
            proof {
                assert forall|n: crate::ty::Symbol| opt_id_below(
                    #[trigger] last_field_ty(rf@, n),
                    found.0 as int,
                ) by {
                    lemma_last_field_ty_below(rf@, n, found.0 as int);
                }
                if m {
                    assert forall|k: int| 0 <= k < lf@.len() implies match last_field_ty(
                        rf@,
                        (#[trigger] lf@[k]).name,
                    ) {
                        Some(rt) => ty_matches_spec(tys, lf@[k].ty, rt),
                        None => false,
                    } by {}
                } else if lf@.len() == distinct_field_count(rf@) {
                    let k0 = choose|k: int|
                        0 <= k < lf@.len() && !match last_field_ty(rf@, (#[trigger] lf@[k]).name) {
                            Some(rt) => ty_matches_spec(tys, lf@[k].ty, rt),
                            None => false,
                        };
                    assert(lf@[k0] == lf@[k0]);
                }
                assert(m == ty_matches_spec(tys, expected, found));
            }
            m
        },
        _ => false,
    }
}

/// Whether the fields `left` of a record type match the fields `right` of
/// another: as many fields as `right` has distinct names, and each field of
/// `left` matches the last field of `right` with its name.
fn record_fields_match(
    store: &TyStore,
    lf: &Vec<TyField>,
    rf: &Vec<TyField>,
    expected: TyId,
    found: TyId,
) -> (m: bool)
    requires
        store_wf(store.kinds()),
        valid_id(store.kinds(), expected),
        valid_id(store.kinds(), found),
        fields_below(lf@, expected.0 as int),
        fields_below(rf@, found.0 as int),
    ensures
        m == (lf@.len() == distinct_field_count(rf@) && forall|k: int|
            0 <= k < lf@.len() ==> match last_field_ty(rf@, (#[trigger] lf@[k]).name) {
                Some(rt) => ty_matches_spec(store.kinds(), lf@[k].ty, rt),
                None => false,
            }),
    decreases expected.0 + found.0, 0nat,
{
    let ghost tys = store.kinds();
            if lf.len() != distinct_field_count_exec(rf) {
        return false;
    }
    proof {
        assert forall|n: crate::ty::Symbol| opt_id_below(
            #[trigger] last_field_ty(rf@, n),
            found.0 as int,
        ) by {
            lemma_last_field_ty_below(rf@, n, found.0 as int);
        }
    }
    let mut k: usize = 0;
    while k < lf.len()
        invariant
            forall|n: crate::ty::Symbol| opt_id_below(
        #[trigger] last_field_ty(rf@, n),
        found.0 as int,
            ),
            lf.len() == distinct_field_count(rf@),
            tys == store.kinds(),
            store_wf(tys),
            valid_id(tys, expected),
            valid_id(tys, found),
            fields_below(lf@, expected.0 as int),
            fields_below(rf@, found.0 as int),
            k <= lf.len(),
            forall|j: int|
        0 <= j < k ==> match last_field_ty(rf@, (#[trigger] lf@[j]).name) {
            Some(rt) => ty_matches_spec(tys, lf@[j].ty, rt),
            None => false,
        },
        decreases lf.len() - k,
    {
        let field = lf[k];
        match last_field_ty_exec(rf, field.name) {
            Some(rt) => {
        proof {
            lemma_last_field_ty_below(rf@, field.name, found.0 as int);
        }
        if !ty_matches(store, field.ty, rt) {
            return false;
        }
            },
            None => {
        return false;
            },
        }
        k = k + 1;
    }
    true
}

/// Whether two type lists have equal length and match item by item; the
/// lists are the children of types `parent_l` and `parent_r`.
fn list_matches(
    store: &TyStore,
    left: &Vec<TyId>,
    right: &Vec<TyId>,
    parent_l: TyId,
    parent_r: TyId,
) -> (m: bool)
    requires
        store_wf(store.kinds()),
        valid_id(store.kinds(), parent_l),
        valid_id(store.kinds(), parent_r),
        ids_below(left@, parent_l.0 as int),
        ids_below(right@, parent_r.0 as int),
    ensures
        m == (left@.len() == right@.len() && forall|k: int|
            0 <= k < left@.len() ==> ty_matches_spec(store.kinds(), #[trigger] left@[k], right@[k])),
    decreases parent_l.0 + parent_r.0, 0nat,
{
    if left.len() != right.len() {
        return false;
    }
    let mut k: usize = 0;
    while k < left.len()
        invariant
            store_wf(store.kinds()),
            valid_id(store.kinds(), parent_l),
            valid_id(store.kinds(), parent_r),
            ids_below(left@, parent_l.0 as int),
            ids_below(right@, parent_r.0 as int),
            left.len() == right.len(),
            k <= left.len(),
            forall|j: int| 0 <= j < k ==> ty_matches_spec(store.kinds(), #[trigger] left@[j], right@[j]),
        decreases left.len() - k,
    {
        if !ty_matches(store, left[k], right[k]) {
            return false;
        }
        k = k + 1;
    }
    true
}

/// Every type matches itself; everything matches an expected `Any`; and
/// `Error` or `Unknown` on either side matches anything.
pub proof fn lemma_ty_matches_lenient(tys: Seq<TyNode>, expected: TyId, found: TyId)
    requires
        store_wf(tys),
        valid_id(tys, expected),
        valid_id(tys, found),
    ensures
        expected == found ==> ty_matches_spec(tys, expected, found),
        tys[expected.0 as int] is Any ==> ty_matches_spec(tys, expected, found),
        (tys[expected.0 as int] is Error || tys[expected.0 as int] is Unknown || tys[found.0 as int] is Error
            || tys[found.0 as int] is Unknown) ==> ty_matches_spec(tys, expected, found),
{
}

/// A `mut` location of a matching type matches too.
pub proof fn lemma_ty_matches_through_mut(tys: Seq<TyNode>, expected: TyId, found: TyId)
    requires
        store_wf(tys),
        valid_id(tys, expected),
        valid_id(tys, found),
        tys[found.0 as int] is Mut,
        ty_matches_spec(tys, expected, tys[found.0 as int]->inner),
    ensures
        ty_matches_spec(tys, expected, found),
{
}


/// Array types match only when their dimensions are the same, and then
/// exactly when their item types match.
pub proof fn lemma_array_match_dims(tys: Seq<TyNode>, expected: TyId, found: TyId)
    requires
        store_wf(tys),
        valid_id(tys, expected),
        valid_id(tys, found),
        tys[expected.0 as int] is Array,
        tys[found.0 as int] is Array,
    ensures
        ty_matches_spec(tys, expected, found) ==> tys[expected.0 as int]->Array_dims == tys[found.0 as int]->Array_dims,
        expected != found && tys[expected.0 as int]->Array_dims == tys[found.0 as int]->Array_dims ==> (ty_matches_spec(
            tys,
            expected,
            found,
        ) == ty_matches_spec(tys, tys[expected.0 as int]->Array_item, tys[found.0 as int]->Array_item)),
{
}



/// Named types match exactly when they have the same name, the same number
/// of arguments and matching arguments.
pub open spec fn named_parts_match(tys: Seq<TyNode>, l: TyNode, r: TyNode) -> bool {
    let la = l->Named_args;
    let ra = r->Named_args;
    &&& l->Named_name == r->Named_name
    &&& la.len() == ra.len()
    &&& forall|k: int| 0 <= k < la.len() ==> ty_matches_spec(tys, #[trigger] la[k], ra[k])
}

/// Function types match exactly when they have the same effect marker, the
/// same number of parameters, matching parameters and matching results.
pub open spec fn arrow_parts_match(tys: Seq<TyNode>, l: TyNode, r: TyNode) -> bool {
    let lp = l->Arrow_params;
    let rp = r->Arrow_params;
    &&& l->Arrow_is_effectful == r->Arrow_is_effectful
    &&& lp.len() == rp.len()
    &&& forall|k: int| 0 <= k < lp.len() ==> ty_matches_spec(tys, #[trigger] lp[k], rp[k])
    &&& ty_matches_spec(tys, l->Arrow_ret, r->Arrow_ret)
}

/// Tuples match exactly when they have the same length and matching items.
pub open spec fn tuple_parts_match(tys: Seq<TyNode>, l: TyNode, r: TyNode) -> bool {
    let li = l->Tuple_items;
    let ri = r->Tuple_items;
    &&& li.len() == ri.len()
    &&& forall|k: int| 0 <= k < li.len() ==> ty_matches_spec(tys, #[trigger] li[k], ri[k])
}

proof fn lemma_ids_match_self(tys: Seq<TyNode>, ids: Seq<TyId>, bound: int)
    requires
        store_wf(tys),
        bound <= tys.len(),
        forall|k: int| 0 <= k < ids.len() ==> (#[trigger] ids[k]).0 < bound,
    ensures
        forall|k: int| 0 <= k < ids.len() ==> ty_matches_spec(tys, #[trigger] ids[k], ids[k]),
{
    assert forall|k: int| 0 <= k < ids.len() implies ty_matches_spec(tys, #[trigger] ids[k], ids[k]) by {
        lemma_ty_matches_lenient(tys, ids[k], ids[k]);
    }
}

/// Compound types of one constructor match exactly component by component:
/// named types, function types and tuples as the `*_parts_match` predicates
/// say, and sums when both sides match.
pub proof fn lemma_compound_match(tys: Seq<TyNode>, expected: TyId, found: TyId)
    requires
        store_wf(tys),
        valid_id(tys, expected),
        valid_id(tys, found),
    ensures
        tys[expected.0 as int] is Named && tys[found.0 as int] is Named ==> (ty_matches_spec(tys, expected, found)
            <==> named_parts_match(tys, tys[expected.0 as int], tys[found.0 as int])),
        tys[expected.0 as int] is Arrow && tys[found.0 as int] is Arrow ==> (ty_matches_spec(tys, expected, found)
            <==> arrow_parts_match(tys, tys[expected.0 as int], tys[found.0 as int])),
        tys[expected.0 as int] is Sum && tys[found.0 as int] is Sum ==> (ty_matches_spec(tys, expected, found) <==> (
        ty_matches_spec(tys, tys[expected.0 as int]->Sum_left, tys[found.0 as int]->Sum_left) && ty_matches_spec(
            tys,
            tys[expected.0 as int]->Sum_right,
            tys[found.0 as int]->Sum_right,
        ))),
        tys[expected.0 as int] is Tuple && tys[found.0 as int] is Tuple ==> (ty_matches_spec(tys, expected, found)
            <==> tuple_parts_match(tys, tys[expected.0 as int], tys[found.0 as int])),
{
    let l = tys[expected.0 as int];
    let r = tys[found.0 as int];
    assert(children_below(l, expected.0 as int));
    lemma_ty_matches_lenient(tys, expected, found);
    if expected == found {
        match l {
            TyNode::Named { args, .. } => {
                lemma_ids_match_self(tys, args, expected.0 as int);
            },
            TyNode::Arrow { params, ret, .. } => {
                lemma_ids_match_self(tys, params, expected.0 as int);
                lemma_ty_matches_lenient(tys, ret, ret);
            },
            TyNode::Sum { left, right } => {
                lemma_ty_matches_lenient(tys, left, left);
                lemma_ty_matches_lenient(tys, right, right);
            },
            TyNode::Tuple { items } => {
                lemma_ids_match_self(tys, items, expected.0 as int);
            },
            _ => {},
        }
    } else {
        assert(!primitive_match(l, r) || !(l is Named || l is Arrow || l is Sum || l is Tuple));
    }
}

/// Whether one type matches another does not change as the store grows.
pub proof fn lemma_matches_prefix(t1: Seq<TyNode>, t2: Seq<TyNode>, expected: TyId, found: TyId)
    requires
        store_wf(t1),
        store_wf(t2),
        crate::ty_tree::store_prefix(t1, t2),
        valid_id(t1, expected),
        valid_id(t1, found),
    ensures
        ty_matches_spec(t1, expected, found) == ty_matches_spec(t2, expected, found),
    decreases expected.0 + found.0,
{
    let l = t1[expected.0 as int];
    let r = t1[found.0 as int];
    assert(t2[expected.0 as int] == l);
    assert(t2[found.0 as int] == r);
    assert(valid_id(t2, expected) && valid_id(t2, found));
    assert(children_below(l, expected.0 as int));
    assert(children_below(r, found.0 as int));
    if let TyNode::Mut { inner } = r {
        lemma_matches_prefix(t1, t2, expected, inner);
    }
    match (l, r) {
        (TyNode::Named { args: la, .. }, TyNode::Named { args: ra, .. }) => {
            if la.len() == ra.len() {
                assert forall|k: int| 0 <= k < la.len() implies ty_matches_spec(t1, #[trigger] la[k], ra[k])
                    == ty_matches_spec(t2, la[k], ra[k]) by {
                    lemma_matches_prefix(t1, t2, la[k], ra[k]);
                }
                assert((forall|k: int| 0 <= k < la.len() ==> ty_matches_spec(t1, #[trigger] la[k], ra[k])) == (forall|k: int|
                    0 <= k < la.len() ==> ty_matches_spec(t2, #[trigger] la[k], ra[k])));
            }
        },
        (TyNode::Arrow { params: lp, ret: lr, .. }, TyNode::Arrow { params: rp, ret: rr, .. }) => {
            lemma_matches_prefix(t1, t2, lr, rr);
            if lp.len() == rp.len() {
                assert forall|k: int| 0 <= k < lp.len() implies ty_matches_spec(t1, #[trigger] lp[k], rp[k])
                    == ty_matches_spec(t2, lp[k], rp[k]) by {
                    lemma_matches_prefix(t1, t2, lp[k], rp[k]);
                }
                assert((forall|k: int| 0 <= k < lp.len() ==> ty_matches_spec(t1, #[trigger] lp[k], rp[k])) == (forall|k: int|
                    0 <= k < lp.len() ==> ty_matches_spec(t2, #[trigger] lp[k], rp[k])));
            }
        },
        (TyNode::Sum { left: ll, right: lr }, TyNode::Sum { left: rl, right: rr }) => {
            lemma_matches_prefix(t1, t2, ll, rl);
            lemma_matches_prefix(t1, t2, lr, rr);
        },
        (TyNode::Tuple { items: li }, TyNode::Tuple { items: ri }) => {
            if li.len() == ri.len() {
                assert forall|k: int| 0 <= k < li.len() implies ty_matches_spec(t1, #[trigger] li[k], ri[k])
                    == ty_matches_spec(t2, li[k], ri[k]) by {
                    lemma_matches_prefix(t1, t2, li[k], ri[k]);
                }
                assert((forall|k: int| 0 <= k < li.len() ==> ty_matches_spec(t1, #[trigger] li[k], ri[k])) == (forall|k: int|
                    0 <= k < li.len() ==> ty_matches_spec(t2, #[trigger] li[k], ri[k])));
            }
        },
        (TyNode::Array { item: li, .. }, TyNode::Array { item: ri, .. }) => {
            lemma_matches_prefix(t1, t2, li, ri);
        },
        (TyNode::Sequence { item: li }, TyNode::Array { item: ri, .. }) => {
            lemma_matches_prefix(t1, t2, li, ri);
        },
        (TyNode::Sequence { item: li }, TyNode::Sequence { item: ri }) => {
            lemma_matches_prefix(t1, t2, li, ri);
        },
        (TyNode::Range { bound: lb }, TyNode::Range { bound: rb }) => {
            lemma_matches_prefix(t1, t2, lb, rb);
        },
        (TyNode::Mut { inner: li }, TyNode::Mut { inner: ri }) => {
            lemma_matches_prefix(t1, t2, li, ri);
        },
        (TyNode::AnyShape { capability: lc }, TyNode::AnyShape { capability: rc }) => {
            lemma_matches_prefix(t1, t2, lc, rc);
        },
        (TyNode::SomeShape { capability: lc }, TyNode::SomeShape { capability: rc }) => {
            lemma_matches_prefix(t1, t2, lc, rc);
        },
        (TyNode::Record { fields: lf }, TyNode::Record { fields: rf }) => {
            assert forall|n: crate::ty::Symbol| opt_id_below(#[trigger] last_field_ty(rf, n), found.0 as int) by {
                lemma_last_field_ty_below(rf, n, found.0 as int);
            }
            assert forall|k: int| 0 <= k < lf.len() implies (match last_field_ty(rf, (#[trigger] lf[k]).name) {
                Some(rt) => ty_matches_spec(t1, lf[k].ty, rt),
                None => false,
            }) == (match last_field_ty(rf, lf[k].name) {
                Some(rt) => ty_matches_spec(t2, lf[k].ty, rt),
                None => false,
            }) by {
                lemma_last_field_ty_below(rf, lf[k].name, found.0 as int);
                if let Some(rt) = last_field_ty(rf, lf[k].name) {
                    lemma_matches_prefix(t1, t2, lf[k].ty, rt);
                }
            }
            assert((forall|k: int|
                0 <= k < lf.len() ==> match last_field_ty(rf, (#[trigger] lf[k]).name) {
                    Some(rt) => ty_matches_spec(t1, lf[k].ty, rt),
                    None => false,
                }) == (forall|k: int|
                0 <= k < lf.len() ==> match last_field_ty(rf, (#[trigger] lf[k]).name) {
                    Some(rt) => ty_matches_spec(t2, lf[k].ty, rt),
                    None => false,
                }));
        },
        _ => {},
    }
}

} // verus!
