//! One-way unification of a type pattern against an actual type: the type
//! parameters of the pattern are bound to the parts of the actual type that
//! they stand for.
use vstd::prelude::*;

use crate::matching::{
    dims_eq, last_field_ty, last_field_ty_exec, lemma_last_field_ty_below, lemma_matches_prefix, opt_id_below, ty_matches,
    ty_matches_spec,
};
use crate::subst_map::SubstMap;
use crate::substitute::{add_ty, subst_in_store};
use crate::ty::{
    children_below, copy_ids, fields_below, ids_below, store_wf, Symbol, TyField, TyId, TyKind,
    TyNode, TyStore,
};
use crate::ty_tree::{lemma_prefix_trans, store_prefix};

verus! {

/// What unification reads and changes: the types of the store and the
/// bindings found so far.
#[verifier::ext_equal]
pub struct UnifyState {
    pub tys: Seq<TyNode>,
    pub subst: Map<Symbol, TyId>,
}

/// Binds parameter `name` to `actual`; a parameter already bound must be
/// bound to a type that `actual` matches, and keeps its binding.
pub open spec fn bind_param(st: UnifyState, name: Symbol, actual: TyId) -> (bool, UnifyState) {
    if st.subst.contains_key(name) {
        (ty_matches_spec(st.tys, st.subst[name], actual), st)
    } else {
        (true, UnifyState { tys: st.tys, subst: st.subst.insert(name, actual) })
    }
}

/// Unifies `pattern` with `actual`, where `params` are the parameters that
/// may be bound. A parameter is bound to the actual type; a parameter applied
/// to arguments is bound to the actual named type without its last arguments,
/// which the pattern's arguments are unified with; named, callable, sum,
/// tuple, array, `mut`, shape and record types are unified part by part; any
/// other pattern must match the actual type. Parts are unified left to right
/// and the first failure ends unification, keeping the bindings made so far.
pub open spec fn unify_spec(params: Seq<Symbol>, st: UnifyState, pattern: TyId, actual: TyId) -> (bool, UnifyState)
    decreases pattern.0, 2nat, 0nat,
    when store_wf(st.tys) && pattern.0 < st.tys.len() && actual.0 < st.tys.len()
{
    let a = st.tys[actual.0 as int];
    match st.tys[pattern.0 as int] {
        TyNode::Named { name, args } => if params.contains(name) {
            unify_ctor_param(params, st, pattern, name, args, actual)
        } else {
            match a {
                TyNode::Named { name: an, args: aa } => if name == an && args.len() == aa.len() {
                    unify_pairs(params, st, pattern, args, aa, 0)
                } else {
                    (false, st)
                },
                _ => (false, st),
            }
        },
        TyNode::Arrow { params: lp, ret: lr, is_effectful: le } => match a {
            TyNode::Arrow { params: rp, ret: rr, is_effectful: re } => if le == re && lp.len()
                == rp.len() {
                let (ok, st1) = unify_pairs(params, st, pattern, lp, rp, 0);
                if ok {
                    unify_spec(params, st1, lr, rr)
                } else {
                    (false, st1)
                }
            } else {
                (false, st)
            },
            _ => (false, st),
        },
        TyNode::Sum { left, right } => match a {
            TyNode::Sum { left: al, right: ar } => {
                let (ok, st1) = unify_spec(params, st, left, al);
                if ok {
                    unify_spec(params, st1, right, ar)
                } else {
                    (false, st1)
                }
            },
            _ => (false, st),
        },
        TyNode::Tuple { items } => match a {
            TyNode::Tuple { items: ai } => if items.len() == ai.len() {
                unify_pairs(params, st, pattern, items, ai, 0)
            } else {
                (false, st)
            },
            _ => (false, st),
        },
        TyNode::Array { dims, item } => match a {
            TyNode::Array { dims: ad, item: ai } => if dims == ad {
                unify_spec(params, st, item, ai)
            } else {
                (false, st)
            },
            _ => (false, st),
        },
        TyNode::Mut { inner } => match a {
            TyNode::Mut { inner: ai } => unify_spec(params, st, inner, ai),
            _ => (false, st),
        },
        TyNode::AnyShape { capability } => match a {
            TyNode::AnyShape { capability: ac } => unify_spec(params, st, capability, ac),
            _ => (false, st),
        },
        TyNode::SomeShape { capability } => match a {
            TyNode::SomeShape { capability: ac } => unify_spec(params, st, capability, ac),
            _ => (false, st),
        },
        TyNode::Record { fields } => match a {
            TyNode::Record { fields: af } => if fields.len() == af.len() {
                unify_fields(params, st, pattern, fields, af, 0)
            } else {
                (false, st)
            },
            _ => (false, st),
        },
        _ => (ty_matches_spec(st.tys, pattern, actual), st),
    }
}

/// Unifies the pattern parameter `name`, applied to `pargs`, with `actual`.
pub open spec fn unify_ctor_param(
    params: Seq<Symbol>,
    st: UnifyState,
    pattern: TyId,
    name: Symbol,
    pargs: Seq<TyId>,
    actual: TyId,
) -> (bool, UnifyState)
    decreases pattern.0, 1nat, 0nat,
    when store_wf(st.tys) && pattern.0 < st.tys.len() && actual.0 < st.tys.len() && ids_below(
        pargs,
        pattern.0 as int,
    )
{
    if pargs.len() == 0 {
        bind_param(st, name, actual)
    } else {
        match st.tys[actual.0 as int] {
            TyNode::Named { name: an, args: aa } => if aa.len() < pargs.len() {
                (false, st)
            } else {
                let prefix = aa.len() - pargs.len();
                let ctor = TyId(st.tys.len() as u32);
                let st1 = UnifyState {
                    tys: st.tys.push(TyNode::Named { name: an, args: aa.subrange(0, prefix) }),
                    subst: st.subst,
                };
                let (ok, st2) = bind_param(st1, name, ctor);
                if ok {
                    unify_pairs(params, st2, pattern, pargs, aa.subrange(prefix, aa.len() as int), 0)
                } else {
                    (false, st2)
                }
            },
            _ => (false, st),
        }
    }
}

/// Unifies `ps[k..]` with `actuals[k..]`, pair by pair, stopping at the first
/// failure; `ps` are children of `parent`.
pub open spec fn unify_pairs(
    params: Seq<Symbol>,
    st: UnifyState,
    parent: TyId,
    ps: Seq<TyId>,
    actuals: Seq<TyId>,
    k: int,
) -> (bool, UnifyState)
    decreases parent.0, 0nat, ps.len() - k,
    when store_wf(st.tys) && parent.0 < st.tys.len() && ids_below(ps, parent.0 as int) && 0 <= k
{
    if k >= ps.len() {
        (true, st)
    } else {
        let (ok, st1) = unify_spec(params, st, ps[k], actuals[k]);
        if ok {
            unify_pairs(params, st1, parent, ps, actuals, k + 1)
        } else {
            (false, st1)
        }
    }
}

/// Unifies the pattern fields `pf[k..]` with the fields of the actual record
/// of the same names (the last of each name), stopping at the first failure
/// or missing field.
pub open spec fn unify_fields(
    params: Seq<Symbol>,
    st: UnifyState,
    parent: TyId,
    pf: Seq<TyField>,
    af: Seq<TyField>,
    k: int,
) -> (bool, UnifyState)
    decreases parent.0, 0nat, pf.len() - k,
    when store_wf(st.tys) && parent.0 < st.tys.len() && fields_below(pf, parent.0 as int) && 0 <= k
{
    if k >= pf.len() {
        (true, st)
    } else {
        match last_field_ty(af, pf[k].name) {
            None => (false, st),
            Some(t) => {
                let (ok, st1) = unify_spec(params, st, pf[k].ty, t);
                if ok {
                    unify_fields(params, st1, parent, pf, af, k + 1)
                } else {
                    (false, st1)
                }
            },
        }
    }
}

/// What unification keeps: the old types stay at their ids, no binding is
/// dropped or changed, only parameters get new bindings, and every binding
/// names a type of the store.
pub open spec fn unify_keeps(
    params: Seq<Symbol>,
    old_tys: Seq<TyNode>,
    new_tys: Seq<TyNode>,
    old_subst: Map<Symbol, TyId>,
    new_subst: Map<Symbol, TyId>,
) -> bool {
    &&& store_prefix(old_tys, new_tys)
    &&& forall|n: Symbol| #[trigger] old_subst.contains_key(n) ==> new_subst.contains_key(n)
        && new_subst[n] == old_subst[n]
    &&& forall|n: Symbol| #[trigger] new_subst.contains_key(n) ==> old_subst.contains_key(n)
        || params.contains(n)
    &&& subst_in_store(new_tys, new_subst)
}

proof fn lemma_keeps_refl(params: Seq<Symbol>, tys: Seq<TyNode>, subst: Map<Symbol, TyId>)
    requires
        subst_in_store(tys, subst),
    ensures
        unify_keeps(params, tys, tys, subst, subst),
{
}

proof fn lemma_keeps_trans(
    params: Seq<Symbol>,
    t1: Seq<TyNode>,
    t2: Seq<TyNode>,
    t3: Seq<TyNode>,
    s1: Map<Symbol, TyId>,
    s2: Map<Symbol, TyId>,
    s3: Map<Symbol, TyId>,
)
    requires
        unify_keeps(params, t1, t2, s1, s2),
        unify_keeps(params, t2, t3, s2, s3),
    ensures
        unify_keeps(params, t1, t3, s1, s3),
{
    assert forall|i: int| 0 <= i < t1.len() implies #[trigger] t3[i] == t1[i] by {
        assert(t3[i] == t2[i]);
    }
    assert forall|n: Symbol| #[trigger] s1.contains_key(n) implies s3.contains_key(n) && s3[n]
        == s1[n] by {
        assert(s2.contains_key(n));
    }
    assert forall|n: Symbol| #[trigger] s3.contains_key(n) implies s1.contains_key(n)
        || params.contains(n) by {
        if !params.contains(n) {
            assert(s2.contains_key(n));
        }
    }
}

/// Unifying only adds types to the store, each with its children before it.
pub proof fn lemma_unify_grows(params: Seq<Symbol>, st: UnifyState, pattern: TyId, actual: TyId)
    requires
        store_wf(st.tys),
        pattern.0 < st.tys.len(),
        actual.0 < st.tys.len(),
    ensures
        store_wf(unify_spec(params, st, pattern, actual).1.tys),
        store_prefix(st.tys, unify_spec(params, st, pattern, actual).1.tys),
    decreases pattern.0, 2nat,
{
    let a = st.tys[actual.0 as int];
    assert(children_below(st.tys[pattern.0 as int], pattern.0 as int));
    assert(children_below(a, actual.0 as int));
    match st.tys[pattern.0 as int] {
        TyNode::Named { name, args } => if params.contains(name) {
            lemma_ctor_grows(params, st, pattern, name, args, actual);
        } else {
            if let TyNode::Named { name: an, args: aa } = a {
                if name == an && args.len() == aa.len() {
                    lemma_pairs_grows(params, st, pattern, args, aa, 0);
                }
            }
        },
        TyNode::Arrow { params: lp, ret: lr, is_effectful: le } => {
            if let TyNode::Arrow { params: rp, ret: rr, is_effectful: re } = a {
                if le == re && lp.len() == rp.len() {
                    lemma_pairs_grows(params, st, pattern, lp, rp, 0);
                    let (ok, st1) = unify_pairs(params, st, pattern, lp, rp, 0);
                    if ok {
                        lemma_unify_grows(params, st1, lr, rr);
                        lemma_prefix_trans(st.tys, st1.tys, unify_spec(params, st1, lr, rr).1.tys);
                    }
                }
            }
        },
        TyNode::Sum { left, right } => {
            if let TyNode::Sum { left: al, right: ar } = a {
                lemma_unify_grows(params, st, left, al);
                let (ok, st1) = unify_spec(params, st, left, al);
                if ok {
                    lemma_unify_grows(params, st1, right, ar);
                    lemma_prefix_trans(st.tys, st1.tys, unify_spec(params, st1, right, ar).1.tys);
                }
            }
        },
        TyNode::Tuple { items } => {
            if let TyNode::Tuple { items: ai } = a {
                if items.len() == ai.len() {
                    lemma_pairs_grows(params, st, pattern, items, ai, 0);
                }
            }
        },
        TyNode::Array { dims, item } => {
            if let TyNode::Array { dims: ad, item: ai } = a {
                if dims == ad {
                    lemma_unify_grows(params, st, item, ai);
                }
            }
        },
        TyNode::Mut { inner } => {
            if let TyNode::Mut { inner: ai } = a {
                lemma_unify_grows(params, st, inner, ai);
            }
        },
        TyNode::AnyShape { capability } => {
            if let TyNode::AnyShape { capability: ac } = a {
                lemma_unify_grows(params, st, capability, ac);
            }
        },
        TyNode::SomeShape { capability } => {
            if let TyNode::SomeShape { capability: ac } = a {
                lemma_unify_grows(params, st, capability, ac);
            }
        },
        TyNode::Record { fields } => {
            if let TyNode::Record { fields: af } = a {
                if fields.len() == af.len() {
                    lemma_fields_grows(params, st, pattern, fields, af, actual, 0);
                }
            }
        },
        _ => {},
    }
}

/// Whether unifying a parameter applied to `n` arguments with `actual`
/// adds a type constructor to the store: `actual` is a named type with at
/// least `n` arguments.
pub open spec fn ctor_pushes(tys: Seq<TyNode>, actual: TyId, n: nat) -> bool {
    match tys[actual.0 as int] {
        TyNode::Named { args, .. } => args.len() >= n,
        _ => false,
    }
}

proof fn lemma_ctor_grows(
    params: Seq<Symbol>,
    st: UnifyState,
    pattern: TyId,
    name: Symbol,
    pargs: Seq<TyId>,
    actual: TyId,
)
    requires
        store_wf(st.tys),
        pattern.0 < st.tys.len(),
        actual.0 < st.tys.len(),
        ids_below(pargs, pattern.0 as int),
    ensures
        store_wf(unify_ctor_param(params, st, pattern, name, pargs, actual).1.tys),
        store_prefix(st.tys, unify_ctor_param(params, st, pattern, name, pargs, actual).1.tys),
        pargs.len() > 0 && ctor_pushes(st.tys, actual, pargs.len()) ==> unify_ctor_param(
            params,
            st,
            pattern,
            name,
            pargs,
            actual,
        ).1.tys.len() > st.tys.len(),
    decreases pattern.0, 1nat,
{
    if pargs.len() > 0 {
        assert(children_below(st.tys[actual.0 as int], actual.0 as int));
        if let TyNode::Named { name: an, args: aa } = st.tys[actual.0 as int] {
            if aa.len() >= pargs.len() {
                let prefix = aa.len() - pargs.len();
                let k = TyNode::Named { name: an, args: aa.subrange(0, prefix) };
                let t1 = st.tys.push(k);
                assert forall|i: int| 0 <= i < t1.len() implies children_below(#[trigger] t1[i], i) by {
                    if i < st.tys.len() {
                        assert(t1[i] == st.tys[i]);
                    } else {
                        assert forall|j: int| 0 <= j < prefix implies (#[trigger] aa.subrange(0, prefix)[j]).0 < i by {
                            assert(aa.subrange(0, prefix)[j] == aa[j]);
                        }
                    }
                }
                assert(store_prefix(st.tys, t1));
                let st1 = UnifyState { tys: t1, subst: st.subst };
                let (ok, st2) = bind_param(st1, name, TyId(st.tys.len() as u32));
                if ok {
                    let rest = aa.subrange(prefix, aa.len() as int);
                    assert forall|j: int| 0 <= j < rest.len() implies (#[trigger] rest[j]).0 < t1.len() by {
                        assert(rest[j] == aa[prefix + j]);
                    }
                    lemma_pairs_grows(params, st2, pattern, pargs, rest, 0);
                    lemma_prefix_trans(st.tys, t1, unify_pairs(params, st2, pattern, pargs, rest, 0).1.tys);
                }
            }
        }
    }
}

proof fn lemma_pairs_grows(
    params: Seq<Symbol>,
    st: UnifyState,
    parent: TyId,
    ps: Seq<TyId>,
    actuals: Seq<TyId>,
    k: int,
)
    requires
        store_wf(st.tys),
        parent.0 < st.tys.len(),
        ids_below(ps, parent.0 as int),
        ids_below(actuals, st.tys.len() as int),
        ps.len() <= actuals.len(),
        0 <= k,
    ensures
        store_wf(unify_pairs(params, st, parent, ps, actuals, k).1.tys),
        store_prefix(st.tys, unify_pairs(params, st, parent, ps, actuals, k).1.tys),
    decreases parent.0, 0nat, ps.len() - k,
{
    if k < ps.len() {
        lemma_unify_grows(params, st, ps[k], actuals[k]);
        let (ok, st1) = unify_spec(params, st, ps[k], actuals[k]);
        if ok {
            lemma_pairs_grows(params, st1, parent, ps, actuals, k + 1);
            lemma_prefix_trans(st.tys, st1.tys, unify_pairs(params, st1, parent, ps, actuals, k + 1).1.tys);
        }
    }
}

proof fn lemma_fields_grows(
    params: Seq<Symbol>,
    st: UnifyState,
    parent: TyId,
    pf: Seq<TyField>,
    af: Seq<TyField>,
    actual: TyId,
    k: int,
)
    requires
        store_wf(st.tys),
        parent.0 < st.tys.len(),
        actual.0 < st.tys.len(),
        fields_below(pf, parent.0 as int),
        fields_below(af, actual.0 as int),
        0 <= k,
    ensures
        store_wf(unify_fields(params, st, parent, pf, af, k).1.tys),
        store_prefix(st.tys, unify_fields(params, st, parent, pf, af, k).1.tys),
    decreases parent.0, 0nat, pf.len() - k,
{
    if k < pf.len() {
        lemma_last_field_ty_below(af, pf[k].name, actual.0 as int);
        if let Some(t) = last_field_ty(af, pf[k].name) {
            lemma_unify_grows(params, st, pf[k].ty, t);
            let (ok, st1) = unify_spec(params, st, pf[k].ty, t);
            if ok {
                lemma_fields_grows(params, st1, parent, pf, af, actual, k + 1);
                lemma_prefix_trans(st.tys, st1.tys, unify_fields(params, st1, parent, pf, af, k + 1).1.tys);
            }
        }
    }
}

/// Whether `name` is among `params`.
fn contains_symbol(params: &Vec<Symbol>, name: Symbol) -> (r: bool)
    ensures
        r == params@.contains(name),
{
    let mut i: usize = 0;
    while i < params.len()
        invariant
            i <= params.len(),
            forall|j: int| 0 <= j < i ==> params@[j] != name,
        decreases params.len() - i,
    {
        if params[i] == name {
            assert(params@[i as int] == name);
            return true;
        }
        i = i + 1;
    }
    false
}

/// Binds parameter `name` to `actual`, or checks `actual` against its binding.
fn bind_param_exec(store: &TyStore, name: Symbol, actual: TyId, subst: &mut SubstMap) -> (ok: bool)
    requires
        actual.0 < store.kinds().len(),
        subst_in_store(store.kinds(), old(subst)@),
    ensures
        (ok, UnifyState { tys: store.kinds(), subst: final(subst)@ }) == bind_param(
            UnifyState { tys: store.kinds(), subst: old(subst)@ },
            name,
            actual,
        ),
{
    match subst.get(name) {
        Some(bound) => ty_matches(store, bound, actual),
        None => {
            subst.insert(name, actual);
            true
        },
    }
}

/// `r` reports the outcome `expected` with the store `tys` and bindings
/// `subst`, or the store ran out of room: unifying needed more types than
/// ids can name.
pub open spec fn outcome_is(
    r: Option<bool>,
    expected: (bool, UnifyState),
    tys: Seq<TyNode>,
    subst: Map<Symbol, TyId>,
) -> bool {
    match r {
        Some(b) => expected == (b, UnifyState { tys, subst }),
        None => tys.len() == u32::MAX && expected.1.tys.len() > u32::MAX,
    }
}

fn unify_in(
    store: &mut TyStore,
    params: &Vec<Symbol>,
    pattern: TyId,
    actual: TyId,
    subst: &mut SubstMap,
) -> (r: Option<bool>)
    requires
        pattern.0 < old(store).kinds().len(),
        actual.0 < old(store).kinds().len(),
        subst_in_store(old(store).kinds(), old(subst)@),
    ensures
        unify_keeps(params@, old(store).kinds(), final(store).kinds(), old(subst)@, final(subst)@),
        outcome_is(
            r,
            unify_spec(params@, UnifyState { tys: old(store).kinds(), subst: old(subst)@ }, pattern, actual),
            final(store).kinds(),
            final(subst)@,
        ),
    decreases pattern.0, 2nat,
{
    proof {
        use_type_invariant(&*store);
        lemma_keeps_refl(params@, store.kinds(), subst@);
    }
    let ghost t0 = store.kinds();
    let ghost s0 = subst@;
    match store.kind(pattern) {
        TyKind::Named { name, args } => {
            let name = *name;
            let args = copy_ids(args);
            assert(children_below(t0[pattern.0 as int], pattern.0 as int));
            if contains_symbol(params, name) {
                return unify_ctor_exec(store, params, pattern, name, &args, actual, subst);
            }
            let (an, aa) = match store.kind(actual) {
                TyKind::Named { name: an, args: aa } => (*an, copy_ids(aa)),
                _ => {
                    return Some(false);
                },
            };
            if name != an || args.len() != aa.len() {
                return Some(false);
            }
            assert(children_below(t0[actual.0 as int], actual.0 as int));
            unify_pairs_exec(store, params, &args, &aa, Ghost(pattern), subst)
        },
        TyKind::Arrow { params: lp, ret: lr, is_effectful: le } => {
            let lp = copy_ids(lp);
            let lr = *lr;
            let le = *le;
            assert(children_below(t0[pattern.0 as int], pattern.0 as int));
            let (rp, rr, re) = match store.kind(actual) {
                TyKind::Arrow { params: rp, ret: rr, is_effectful: re } => (copy_ids(rp), *rr, *re),
                _ => {
                    return Some(false);
                },
            };
            assert(children_below(t0[actual.0 as int], actual.0 as int));
            if le != re || lp.len() != rp.len() {
                return Some(false);
            }
            match unify_pairs_exec(store, params, &lp, &rp, Ghost(pattern), subst) {
                None => {
                    proof {
                        let st0 = UnifyState { tys: t0, subst: s0 };
                        lemma_pairs_grows(params@, st0, pattern, lp@, rp@, 0);
                        let (ok, st1) = unify_pairs(params@, st0, pattern, lp@, rp@, 0);
                        if ok {
                            lemma_unify_grows(params@, st1, lr, rr);
                        }
                    }
                    None
                },
                Some(false) => Some(false),
                Some(true) => {
                    proof {
                        use_type_invariant(&*store);
                    }
                    let ghost t1 = store.kinds();
                    let ghost s1 = subst@;
                    let r = unify_in(store, params, lr, rr, subst);
                    proof {
                        lemma_keeps_trans(params@, t0, t1, store.kinds(), s0, s1, subst@);
                    }
                    r
                },
            }
        },
        TyKind::Sum { left, right } => {
            let left = *left;
            let right = *right;
            assert(children_below(t0[pattern.0 as int], pattern.0 as int));
            let (al, ar) = match store.kind(actual) {
                TyKind::Sum { left: al, right: ar } => (*al, *ar),
                _ => {
                    return Some(false);
                },
            };
            assert(children_below(t0[actual.0 as int], actual.0 as int));
            match unify_in(store, params, left, al, subst) {
                None => {
                    proof {
                        let st0 = UnifyState { tys: t0, subst: s0 };
                        lemma_unify_grows(params@, st0, left, al);
                        let (ok, st1) = unify_spec(params@, st0, left, al);
                        if ok {
                            lemma_unify_grows(params@, st1, right, ar);
                        }
                    }
                    None
                },
                Some(false) => Some(false),
                Some(true) => {
                    proof {
                        use_type_invariant(&*store);
                    }
                    let ghost t1 = store.kinds();
                    let ghost s1 = subst@;
                    let r = unify_in(store, params, right, ar, subst);
                    proof {
                        lemma_keeps_trans(params@, t0, t1, store.kinds(), s0, s1, subst@);
                    }
                    r
                },
            }
        },
        TyKind::Tuple { items } => {
            let items = copy_ids(items);
            assert(children_below(t0[pattern.0 as int], pattern.0 as int));
            let ai = match store.kind(actual) {
                TyKind::Tuple { items: ai } => copy_ids(ai),
                _ => {
                    return Some(false);
                },
            };
            assert(children_below(t0[actual.0 as int], actual.0 as int));
            if items.len() != ai.len() {
                return Some(false);
            }
            unify_pairs_exec(store, params, &items, &ai, Ghost(pattern), subst)
        },
        TyKind::Array { dims, item } => {
            let item = *item;
            assert(children_below(t0[pattern.0 as int], pattern.0 as int));
            let pk = store.kind(pattern);
            let ak = store.kind(actual);
            let same_dims = match (pk, ak) {
                (TyKind::Array { dims: pd, .. }, TyKind::Array { dims: ad, .. }) => dims_eq(pd, ad),
                _ => {
                    return Some(false);
                },
            };
            let ai = match ak {
                TyKind::Array { item: ai, .. } => *ai,
                _ => {
                    return Some(false);
                },
            };
            assert(children_below(t0[actual.0 as int], actual.0 as int));
            if !same_dims {
                return Some(false);
            }
            unify_in(store, params, item, ai, subst)
        },
        TyKind::Mut { inner } => {
            let inner = *inner;
            assert(children_below(t0[pattern.0 as int], pattern.0 as int));
            let ai = match store.kind(actual) {
                TyKind::Mut { inner: ai } => *ai,
                _ => {
                    return Some(false);
                },
            };
            assert(children_below(t0[actual.0 as int], actual.0 as int));
            unify_in(store, params, inner, ai, subst)
        },
        TyKind::AnyShape { capability } => {
            let c = *capability;
            assert(children_below(t0[pattern.0 as int], pattern.0 as int));
            let ac = match store.kind(actual) {
                TyKind::AnyShape { capability: ac } => *ac,
                _ => {
                    return Some(false);
                },
            };
            assert(children_below(t0[actual.0 as int], actual.0 as int));
            unify_in(store, params, c, ac, subst)
        },
        TyKind::SomeShape { capability } => {
            let c = *capability;
            assert(children_below(t0[pattern.0 as int], pattern.0 as int));
            let ac = match store.kind(actual) {
                TyKind::SomeShape { capability: ac } => *ac,
                _ => {
                    return Some(false);
                },
            };
            assert(children_below(t0[actual.0 as int], actual.0 as int));
            unify_in(store, params, c, ac, subst)
        },
        TyKind::Record { fields } => {
            let pf = crate::ty::copy_fields(fields);
            assert(children_below(t0[pattern.0 as int], pattern.0 as int));
            let af = match store.kind(actual) {
                TyKind::Record { fields: af } => crate::ty::copy_fields(af),
                _ => {
                    return Some(false);
                },
            };
            assert(children_below(t0[actual.0 as int], actual.0 as int));
            if pf.len() != af.len() {
                return Some(false);
            }
            unify_fields_exec(store, params, &pf, &af, Ghost(pattern), Ghost(actual), subst)
        },
        _ => Some(ty_matches(store, pattern, actual)),
    }
}

/// Unifies the parameter `name`, applied to `pargs`, with `actual`.
fn unify_ctor_exec(
    store: &mut TyStore,
    params: &Vec<Symbol>,
    pattern: TyId,
    name: Symbol,
    pargs: &Vec<TyId>,
    actual: TyId,
    subst: &mut SubstMap,
) -> (r: Option<bool>)
    requires
        pattern.0 < old(store).kinds().len(),
        actual.0 < old(store).kinds().len(),
        ids_below(pargs@, pattern.0 as int),
        params@.contains(name),
        subst_in_store(old(store).kinds(), old(subst)@),
    ensures
        unify_keeps(params@, old(store).kinds(), final(store).kinds(), old(subst)@, final(subst)@),
        outcome_is(
            r,
            unify_ctor_param(
                params@,
                UnifyState { tys: old(store).kinds(), subst: old(subst)@ },
                pattern,
                name,
                pargs@,
                actual,
            ),
            final(store).kinds(),
            final(subst)@,
        ),
    decreases pattern.0, 1nat,
{
    proof {
        use_type_invariant(&*store);
        lemma_keeps_refl(params@, store.kinds(), subst@);
    }
    let ghost t0 = store.kinds();
    let ghost s0 = subst@;
    if pargs.len() == 0 {
        return Some(bind_param_exec(store, name, actual, subst));
    }
    let (an, aa) = match store.kind(actual) {
        TyKind::Named { name: an, args: aa } => (*an, copy_ids(aa)),
        _ => {
            return Some(false);
        },
    };
    if aa.len() < pargs.len() {
        return Some(false);
    }
    assert(children_below(t0[actual.0 as int], actual.0 as int));
    let prefix = aa.len() - pargs.len();
    let mut head: Vec<TyId> = Vec::new();
    let mut rest: Vec<TyId> = Vec::new();
    let mut i: usize = 0;
    while i < aa.len()
        invariant
            prefix <= aa.len(),
            i <= aa.len(),
            head@ == aa@.subrange(0, if i < prefix { i as int } else { prefix as int }),
            rest@ == aa@.subrange(prefix as int, if i < prefix { prefix as int } else { i as int }),
        decreases aa.len() - i,
    {
        if i < prefix {
            head.push(aa[i]);
        } else {
            rest.push(aa[i]);
        }
        i = i + 1;
        assert(head@ =~= aa@.subrange(0, if i < prefix { i as int } else { prefix as int }));
        assert(rest@ =~= aa@.subrange(prefix as int, if i < prefix { prefix as int } else { i as int }));
    }
    proof {
        assert forall|j: int| 0 <= j < head@.len() implies (#[trigger] head@[j]).0 < t0.len() by {
            assert(head@[j] == aa@[j]);
        }
        assert forall|j: int| 0 <= j < rest@.len() implies (#[trigger] rest@[j]).0 < t0.len() by {
            assert(rest@[j] == aa@[prefix + j]);
        }
    }
    let ctor = match add_ty(store, TyKind::Named { name: an, args: head }) {
        Some(id) => id,
        None => {
            proof {
                lemma_ctor_grows(params@, UnifyState { tys: t0, subst: s0 }, pattern, name, pargs@, actual);
            }
            return None;
        },
    };
    proof {
        use_type_invariant(&*store);
        lemma_keeps_refl(params@, store.kinds(), subst@);
        assert(store_prefix(t0, store.kinds()));
        assert(unify_keeps(params@, t0, store.kinds(), s0, subst@));
    }
    let ghost t1 = store.kinds();
    if !bind_param_exec(store, name, ctor, subst) {
        return Some(false);
    }
    let ghost s1 = subst@;
    proof {
        assert(unify_keeps(params@, t0, t1, s0, s1));
    }
    let r = unify_pairs_exec(store, params, pargs, &rest, Ghost(pattern), subst);
    proof {
        lemma_keeps_trans(params@, t0, t1, store.kinds(), s0, s1, subst@);
    }
    r
}

/// Unifies `ps` with `actuals` pair by pair; `ps` are children of `parent`.
fn unify_pairs_exec(
    store: &mut TyStore,
    params: &Vec<Symbol>,
    ps: &Vec<TyId>,
    actuals: &Vec<TyId>,
    Ghost(parent): Ghost<TyId>,
    subst: &mut SubstMap,
) -> (r: Option<bool>)
    requires
        parent.0 < old(store).kinds().len(),
        ids_below(ps@, parent.0 as int),
        ids_below(actuals@, old(store).kinds().len() as int),
        ps.len() == actuals.len(),
        subst_in_store(old(store).kinds(), old(subst)@),
    ensures
        unify_keeps(params@, old(store).kinds(), final(store).kinds(), old(subst)@, final(subst)@),
        outcome_is(
            r,
            unify_pairs(
                params@,
                UnifyState { tys: old(store).kinds(), subst: old(subst)@ },
                parent,
                ps@,
                actuals@,
                0,
            ),
            final(store).kinds(),
            final(subst)@,
        ),
    decreases parent.0, 0nat,
{
    proof {
        use_type_invariant(&*store);
        lemma_keeps_refl(params@, store.kinds(), subst@);
    }
    let ghost t0 = store.kinds();
    let ghost s0 = subst@;
    let mut k: usize = 0;
    while k < ps.len()
        invariant
            t0 == old(store).kinds(),
            s0 == old(subst)@,
            store_wf(t0),
            parent.0 < t0.len(),
            ids_below(ps@, parent.0 as int),
            ids_below(actuals@, t0.len() as int),
            ps.len() == actuals.len(),
            k <= ps.len(),
            unify_keeps(params@, t0, store.kinds(), s0, subst@),
            unify_pairs(params@, UnifyState { tys: t0, subst: s0 }, parent, ps@, actuals@, 0)
                == unify_pairs(
                params@,
                UnifyState { tys: store.kinds(), subst: subst@ },
                parent,
                ps@,
                actuals@,
                k as int,
            ),
        decreases ps.len() - k,
    {
        proof {
            use_type_invariant(&*store);
        }
        let ghost t1 = store.kinds();
        let ghost s1 = subst@;
        let p = ps[k];
        let a = actuals[k];
        assert(p.0 < parent.0);
        assert(a.0 < t0.len());
        assert(store_wf(t1) && parent.0 < t1.len());
        let r = unify_in(store, params, p, a, subst);
        proof {
            use_type_invariant(&*store);
            lemma_keeps_trans(params@, t0, t1, store.kinds(), s0, s1, subst@);
        }
        match r {
            None => {
                proof {
                    let cur = UnifyState { tys: t1, subst: s1 };
                    lemma_unify_grows(params@, cur, p, a);
                    let (ok, st1) = unify_spec(params@, cur, p, a);
                    if ok {
                        lemma_pairs_grows(params@, st1, parent, ps@, actuals@, k + 1);
                    }
                }
                return None;
            },
            Some(false) => {
                return Some(false);
            },
            Some(true) => {},
        }
        k = k + 1;
    }
    proof {
        use_type_invariant(&*store);
    }
    Some(true)
}

/// Unifies the pattern fields `pf` with the same-named fields of `af`.
fn unify_fields_exec(
    store: &mut TyStore,
    params: &Vec<Symbol>,
    pf: &Vec<TyField>,
    af: &Vec<TyField>,
    Ghost(parent): Ghost<TyId>,
    Ghost(actual): Ghost<TyId>,
    subst: &mut SubstMap,
) -> (r: Option<bool>)
    requires
        parent.0 < old(store).kinds().len(),
        actual.0 < old(store).kinds().len(),
        fields_below(pf@, parent.0 as int),
        fields_below(af@, actual.0 as int),
        subst_in_store(old(store).kinds(), old(subst)@),
    ensures
        unify_keeps(params@, old(store).kinds(), final(store).kinds(), old(subst)@, final(subst)@),
        outcome_is(
            r,
            unify_fields(
                params@,
                UnifyState { tys: old(store).kinds(), subst: old(subst)@ },
                parent,
                pf@,
                af@,
                0,
            ),
            final(store).kinds(),
            final(subst)@,
        ),
    decreases parent.0, 0nat,
{
    proof {
        use_type_invariant(&*store);
        lemma_keeps_refl(params@, store.kinds(), subst@);
    }
    let ghost t0 = store.kinds();
    let ghost s0 = subst@;
    let mut k: usize = 0;
    while k < pf.len()
        invariant
            t0 == old(store).kinds(),
            s0 == old(subst)@,
            store_wf(t0),
            parent.0 < t0.len(),
            actual.0 < t0.len(),
            fields_below(pf@, parent.0 as int),
            fields_below(af@, actual.0 as int),
            k <= pf.len(),
            unify_keeps(params@, t0, store.kinds(), s0, subst@),
            unify_fields(params@, UnifyState { tys: t0, subst: s0 }, parent, pf@, af@, 0)
                == unify_fields(
                params@,
                UnifyState { tys: store.kinds(), subst: subst@ },
                parent,
                pf@,
                af@,
                k as int,
            ),
        decreases pf.len() - k,
    {
        proof {
            use_type_invariant(&*store);
        }
        let ghost t1 = store.kinds();
        let ghost s1 = subst@;
        let field = pf[k];
        assert(field.ty.0 < parent.0);
        let t = match last_field_ty_exec(af, field.name) {
            Some(t) => t,
            None => {
                return Some(false);
            },
        };
        proof {
            lemma_last_field_ty_below(af@, field.name, actual.0 as int);
        }
        assert(store_wf(t1) && parent.0 < t1.len());
        let r = unify_in(store, params, field.ty, t, subst);
        proof {
            use_type_invariant(&*store);
            lemma_keeps_trans(params@, t0, t1, store.kinds(), s0, s1, subst@);
        }
        match r {
            None => {
                proof {
                    let cur = UnifyState { tys: t1, subst: s1 };
                    lemma_unify_grows(params@, cur, field.ty, t);
                    let (ok, st1) = unify_spec(params@, cur, field.ty, t);
                    if ok {
                        lemma_fields_grows(params@, st1, parent, pf@, af@, actual, k + 1);
                    }
                }
                return None;
            },
            Some(false) => {
                return Some(false);
            },
            Some(true) => {},
        }
        k = k + 1;
    }
    proof {
        use_type_invariant(&*store);
    }
    Some(true)
}

/// Unifies `pattern` with `actual`, binding the parameters `params` in
/// `subst`. `Some(ok)` tells whether they unify; `None` means the store had
/// no room for a type constructor that unification needed.
pub fn unify_ty(
    store: &mut TyStore,
    params: &Vec<Symbol>,
    pattern: TyId,
    actual: TyId,
    subst: &mut SubstMap,
) -> (r: Option<bool>)
    requires
        pattern.0 < old(store).kinds().len(),
        actual.0 < old(store).kinds().len(),
        subst_in_store(old(store).kinds(), old(subst)@),
    ensures
        unify_keeps(params@, old(store).kinds(), final(store).kinds(), old(subst)@, final(subst)@),
        outcome_is(
            r,
            unify_spec(params@, UnifyState { tys: old(store).kinds(), subst: old(subst)@ }, pattern, actual),
            final(store).kinds(),
            final(subst)@,
        ),
        r == Some(true) ==> instance_of(final(store).kinds(), params@, final(subst)@, pattern, actual),
{
    proof {
        use_type_invariant(&*store);
        lemma_unify_sound(params@, UnifyState { tys: store.kinds(), subst: subst@ }, pattern, actual);
    }
    let r = unify_in(store, params, pattern, actual, subst);
    proof {
        use_type_invariant(&*store);
    }
    r
}


/// Whether `pattern`, with its parameters standing for what `subst` binds
/// them to, stands for `actual` in the store `tys`: a parameter's binding is
/// matched by `actual`; a parameter applied to arguments is bound to a type
/// matched by `actual`'s named type without its last arguments, which the
/// pattern's arguments stand for; named, callable, sum, tuple, array, `mut`,
/// shape and record patterns have the shape of `actual`, with the same
/// name, effect, lengths and dimensions, and each part stands for the part
/// of `actual` at its place (a record field for `actual`'s field of that
/// name); any other pattern is matched by `actual`.
pub open spec fn instance_of(tys: Seq<TyNode>, params: Seq<Symbol>, subst: Map<Symbol, TyId>, pattern: TyId, actual: TyId) -> bool
    decreases pattern.0,
    when store_wf(tys) && pattern.0 < tys.len()
    via instance_of_decreases
{
    let a = tys[actual.0 as int];
    match tys[pattern.0 as int] {
        TyNode::Named { name, args } => if params.contains(name) {
            if args.len() == 0 {
                subst.contains_key(name) && ty_matches_spec(tys, subst[name], actual)
            } else {
                match a {
                    TyNode::Named { name: an, args: aa } => {
                        let prefix = aa.len() - args.len();
                        &&& aa.len() >= args.len()
                        &&& subst.contains_key(name)
                        &&& exists|c: TyId|
                            #![trigger tys[c.0 as int]]
                            c.0 < tys.len() && tys[c.0 as int] == (TyNode::Named { name: an, args: aa.subrange(0, prefix) })
                                && ty_matches_spec(tys, subst[name], c)
                        &&& forall|k: int|
                            0 <= k < args.len() ==> instance_of(tys, params, subst, #[trigger] args[k], aa[prefix + k])
                    },
                    _ => false,
                }
            }
        } else {
            match a {
                TyNode::Named { name: an, args: aa } => {
                    &&& name == an
                    &&& args.len() == aa.len()
                    &&& forall|k: int| 0 <= k < args.len() ==> instance_of(tys, params, subst, #[trigger] args[k], aa[k])
                },
                _ => false,
            }
        },
        TyNode::Arrow { params: lp, ret: lr, is_effectful: le } => match a {
            TyNode::Arrow { params: rp, ret: rr, is_effectful: re } => {
                &&& le == re
                &&& lp.len() == rp.len()
                &&& forall|k: int| 0 <= k < lp.len() ==> instance_of(tys, params, subst, #[trigger] lp[k], rp[k])
                &&& instance_of(tys, params, subst, lr, rr)
            },
            _ => false,
        },
        TyNode::Sum { left, right } => match a {
            TyNode::Sum { left: al, right: ar } => instance_of(tys, params, subst, left, al) && instance_of(
                tys,
                params,
                subst,
                right,
                ar,
            ),
            _ => false,
        },
        TyNode::Tuple { items } => match a {
            TyNode::Tuple { items: ai } => {
                &&& items.len() == ai.len()
                &&& forall|k: int| 0 <= k < items.len() ==> instance_of(tys, params, subst, #[trigger] items[k], ai[k])
            },
            _ => false,
        },
        TyNode::Array { dims, item } => match a {
            TyNode::Array { dims: ad, item: ai } => dims == ad && instance_of(tys, params, subst, item, ai),
            _ => false,
        },
        TyNode::Mut { inner } => match a {
            TyNode::Mut { inner: ai } => instance_of(tys, params, subst, inner, ai),
            _ => false,
        },
        TyNode::AnyShape { capability } => match a {
            TyNode::AnyShape { capability: ac } => instance_of(tys, params, subst, capability, ac),
            _ => false,
        },
        TyNode::SomeShape { capability } => match a {
            TyNode::SomeShape { capability: ac } => instance_of(tys, params, subst, capability, ac),
            _ => false,
        },
        TyNode::Record { fields } => match a {
            TyNode::Record { fields: af } => {
                &&& fields.len() == af.len()
                &&& forall|k: int|
                    0 <= k < fields.len() ==> match last_field_ty(af, (#[trigger] fields[k]).name) {
                        Some(t) => instance_of(tys, params, subst, fields[k].ty, t),
                        None => false,
                    }
            },
            _ => false,
        },
        _ => ty_matches_spec(tys, pattern, actual),
    }
}

#[via_fn]
proof fn instance_of_decreases(tys: Seq<TyNode>, params: Seq<Symbol>, subst: Map<Symbol, TyId>, pattern: TyId, actual: TyId) {
    assert(children_below(tys[pattern.0 as int], pattern.0 as int));
}

/// Every binding of `small` is in `big`, unchanged.
pub open spec fn subst_extends(small: Map<Symbol, TyId>, big: Map<Symbol, TyId>) -> bool {
    forall|n: Symbol| #[trigger] small.contains_key(n) ==> big.contains_key(n) && big[n] == small[n]
}

/// What a pattern stands for stays so as the store grows and bindings are
/// added.
proof fn lemma_instance_grows(
    t1: Seq<TyNode>,
    t2: Seq<TyNode>,
    params: Seq<Symbol>,
    s1: Map<Symbol, TyId>,
    s2: Map<Symbol, TyId>,
    pattern: TyId,
    actual: TyId,
)
    requires
        store_wf(t1),
        store_wf(t2),
        store_prefix(t1, t2),
        subst_in_store(t1, s1),
        subst_extends(s1, s2),
        pattern.0 < t1.len(),
        actual.0 < t1.len(),
        instance_of(t1, params, s1, pattern, actual),
    ensures
        instance_of(t2, params, s2, pattern, actual),
    decreases pattern.0,
{
    let a = t1[actual.0 as int];
    assert(t2[actual.0 as int] == a);
    assert(t2[pattern.0 as int] == t1[pattern.0 as int]);
    assert(children_below(t1[pattern.0 as int], pattern.0 as int));
    assert(children_below(a, actual.0 as int));
    match t1[pattern.0 as int] {
        TyNode::Named { name, args } => if params.contains(name) {
            if args.len() == 0 {
                lemma_matches_prefix(t1, t2, s1[name], actual);
            } else {
                if let TyNode::Named { name: an, args: aa } = a {
                    let prefix = aa.len() - args.len();
                    let c = choose|c: TyId|
                        #![trigger t1[c.0 as int]]
                        c.0 < t1.len() && t1[c.0 as int] == (TyNode::Named { name: an, args: aa.subrange(0, prefix) })
                            && ty_matches_spec(t1, s1[name], c);
                    lemma_matches_prefix(t1, t2, s1[name], c);
                    assert(t2[c.0 as int] == t1[c.0 as int]);
                    assert forall|k: int| 0 <= k < args.len() implies instance_of(t2, params, s2, #[trigger] args[k], aa[prefix + k]) by {
                        assert(instance_of(t1, params, s1, args[k], aa[prefix + k]));
                        lemma_instance_grows(t1, t2, params, s1, s2, args[k], aa[prefix + k]);
                    }
                }
            }
        } else {
            if let TyNode::Named { args: aa, .. } = a {
                assert forall|k: int| 0 <= k < args.len() implies instance_of(t2, params, s2, #[trigger] args[k], aa[k]) by {
                    assert(instance_of(t1, params, s1, args[k], aa[k]));
                    lemma_instance_grows(t1, t2, params, s1, s2, args[k], aa[k]);
                }
            }
        },
        TyNode::Arrow { params: lp, ret: lr, .. } => {
            if let TyNode::Arrow { params: rp, ret: rr, .. } = a {
                assert forall|k: int| 0 <= k < lp.len() implies instance_of(t2, params, s2, #[trigger] lp[k], rp[k]) by {
                    assert(instance_of(t1, params, s1, lp[k], rp[k]));
                    lemma_instance_grows(t1, t2, params, s1, s2, lp[k], rp[k]);
                }
                lemma_instance_grows(t1, t2, params, s1, s2, lr, rr);
            }
        },
        TyNode::Sum { left, right } => {
            if let TyNode::Sum { left: al, right: ar } = a {
                lemma_instance_grows(t1, t2, params, s1, s2, left, al);
                lemma_instance_grows(t1, t2, params, s1, s2, right, ar);
            }
        },
        TyNode::Tuple { items } => {
            if let TyNode::Tuple { items: ai } = a {
                assert forall|k: int| 0 <= k < items.len() implies instance_of(t2, params, s2, #[trigger] items[k], ai[k]) by {
                    assert(instance_of(t1, params, s1, items[k], ai[k]));
                    lemma_instance_grows(t1, t2, params, s1, s2, items[k], ai[k]);
                }
            }
        },
        TyNode::Array { item, .. } => {
            if let TyNode::Array { item: ai, .. } = a {
                lemma_instance_grows(t1, t2, params, s1, s2, item, ai);
            }
        },
        TyNode::Mut { inner } => {
            if let TyNode::Mut { inner: ai } = a {
                lemma_instance_grows(t1, t2, params, s1, s2, inner, ai);
            }
        },
        TyNode::AnyShape { capability } => {
            if let TyNode::AnyShape { capability: ac } = a {
                lemma_instance_grows(t1, t2, params, s1, s2, capability, ac);
            }
        },
        TyNode::SomeShape { capability } => {
            if let TyNode::SomeShape { capability: ac } = a {
                lemma_instance_grows(t1, t2, params, s1, s2, capability, ac);
            }
        },
        TyNode::Record { fields } => {
            if let TyNode::Record { fields: af } = a {
                assert forall|k: int| 0 <= k < fields.len() implies match last_field_ty(af, (#[trigger] fields[k]).name) {
                    Some(t) => instance_of(t2, params, s2, fields[k].ty, t),
                    None => false,
                } by {
                    lemma_last_field_ty_below(af, fields[k].name, actual.0 as int);
                    if let Some(t) = last_field_ty(af, fields[k].name) {
                        lemma_instance_grows(t1, t2, params, s1, s2, fields[k].ty, t);
                    }
                }
            }
        },
        _ => {
            lemma_matches_prefix(t1, t2, pattern, actual);
        },
    }
}


/// What a unification step from `st` to `r` keeps: the store grows, each
/// type's children before it, and the bindings grow, each naming a type of
/// the store.
pub open spec fn step_keeps(st: UnifyState, r: (bool, UnifyState)) -> bool {
    &&& store_wf(r.1.tys)
    &&& store_prefix(st.tys, r.1.tys)
    &&& subst_extends(st.subst, r.1.subst)
    &&& subst_in_store(r.1.tys, r.1.subst)
}

proof fn lemma_step_trans(a: UnifyState, b: UnifyState, c: (bool, UnifyState))
    requires
        step_keeps(a, (true, b)),
        step_keeps(b, c),
    ensures
        step_keeps(a, c),
{
    lemma_prefix_trans(a.tys, b.tys, c.1.tys);
    assert forall|n: Symbol| #[trigger] a.subst.contains_key(n) implies c.1.subst.contains_key(n) && c.1.subst[n] == a.subst[n] by {
        assert(b.subst.contains_key(n));
    }
}

proof fn lemma_step_refl(st: UnifyState, ok: bool)
    requires
        store_wf(st.tys),
        subst_in_store(st.tys, st.subst),
    ensures
        step_keeps(st, (ok, st)),
{
}

/// When unifying `pattern` with `actual` succeeds, the pattern, with its
/// parameters standing for the bindings found, stands for `actual`: each
/// part of the pattern, the return type of a callable type among them,
/// was unified with the part of `actual` at its place. Unifying only adds
/// types and bindings, and never changes one.
pub proof fn lemma_unify_sound(params: Seq<Symbol>, st: UnifyState, pattern: TyId, actual: TyId)
    requires
        store_wf(st.tys),
        subst_in_store(st.tys, st.subst),
        pattern.0 < st.tys.len(),
        actual.0 < st.tys.len(),
    ensures
        step_keeps(st, unify_spec(params, st, pattern, actual)),
        unify_spec(params, st, pattern, actual).0 && unify_spec(params, st, pattern, actual).1.tys.len() <= u32::MAX + 1
            ==> instance_of(
            unify_spec(params, st, pattern, actual).1.tys,
            params,
            unify_spec(params, st, pattern, actual).1.subst,
            pattern,
            actual,
        ),
    decreases pattern.0, 2nat,
{
    let a = st.tys[actual.0 as int];
    assert(children_below(st.tys[pattern.0 as int], pattern.0 as int));
    assert(children_below(a, actual.0 as int));
    let r = unify_spec(params, st, pattern, actual);
    match st.tys[pattern.0 as int] {
        TyNode::Named { name, args } => if params.contains(name) {
            lemma_ctor_sound(params, st, pattern, name, args, actual);
        } else {
            if let TyNode::Named { name: an, args: aa } = a {
                if name == an && args.len() == aa.len() {
                    lemma_pairs_sound(params, st, pattern, args, aa, 0);
                } else {
                    lemma_step_refl(st, false);
                }
            } else {
                lemma_step_refl(st, false);
            }
        },
        TyNode::Arrow { params: lp, ret: lr, is_effectful: le } => {
            if let TyNode::Arrow { params: rp, ret: rr, is_effectful: re } = a {
                if le == re && lp.len() == rp.len() {
                    lemma_pairs_sound(params, st, pattern, lp, rp, 0);
                    let (ok, st1) = unify_pairs(params, st, pattern, lp, rp, 0);
                    if ok {
                        lemma_unify_sound(params, st1, lr, rr);
                        let st2 = unify_spec(params, st1, lr, rr).1;
                        lemma_step_trans(st, st1, unify_spec(params, st1, lr, rr));
                        if st2.tys.len() <= u32::MAX + 1 {
                            assert(st1.tys.len() <= st2.tys.len());
                            assert forall|k: int| 0 <= k < lp.len() implies instance_of(st2.tys, params, st2.subst, #[trigger] lp[k], rp[k]) by {
                                assert(instance_of(st1.tys, params, st1.subst, lp[k], rp[k]));
                                lemma_instance_grows(st1.tys, st2.tys, params, st1.subst, st2.subst, lp[k], rp[k]);
                            }
                        }
                    }
                } else {
                    lemma_step_refl(st, false);
                }
            } else {
                lemma_step_refl(st, false);
            }
        },
        TyNode::Sum { left, right } => {
            if let TyNode::Sum { left: al, right: ar } = a {
                lemma_unify_sound(params, st, left, al);
                let (ok, st1) = unify_spec(params, st, left, al);
                if ok {
                    lemma_unify_sound(params, st1, right, ar);
                    let st2 = unify_spec(params, st1, right, ar).1;
                    lemma_step_trans(st, st1, unify_spec(params, st1, right, ar));
                    if unify_spec(params, st1, right, ar).0 && st2.tys.len() <= u32::MAX + 1 {
                        assert(st1.tys.len() <= st2.tys.len());
                        lemma_instance_grows(st1.tys, st2.tys, params, st1.subst, st2.subst, left, al);
                    }
                }
            } else {
                lemma_step_refl(st, false);
            }
        },
        TyNode::Tuple { items } => {
            if let TyNode::Tuple { items: ai } = a {
                if items.len() == ai.len() {
                    lemma_pairs_sound(params, st, pattern, items, ai, 0);
                } else {
                    lemma_step_refl(st, false);
                }
            } else {
                lemma_step_refl(st, false);
            }
        },
        TyNode::Array { dims, item } => {
            if let TyNode::Array { dims: ad, item: ai } = a {
                if dims == ad {
                    lemma_unify_sound(params, st, item, ai);
                } else {
                    lemma_step_refl(st, false);
                }
            } else {
                lemma_step_refl(st, false);
            }
        },
        TyNode::Mut { inner } => {
            if let TyNode::Mut { inner: ai } = a {
                lemma_unify_sound(params, st, inner, ai);
            } else {
                lemma_step_refl(st, false);
            }
        },
        TyNode::AnyShape { capability } => {
            if let TyNode::AnyShape { capability: ac } = a {
                lemma_unify_sound(params, st, capability, ac);
            } else {
                lemma_step_refl(st, false);
            }
        },
        TyNode::SomeShape { capability } => {
            if let TyNode::SomeShape { capability: ac } = a {
                lemma_unify_sound(params, st, capability, ac);
            } else {
                lemma_step_refl(st, false);
            }
        },
        TyNode::Record { fields } => {
            if let TyNode::Record { fields: af } = a {
                if fields.len() == af.len() {
                    lemma_fields_sound(params, st, pattern, fields, af, actual, 0);
                } else {
                    lemma_step_refl(st, false);
                }
            } else {
                lemma_step_refl(st, false);
            }
        },
        _ => {
            lemma_step_refl(st, r.0);
        },
    }
}

proof fn lemma_ctor_sound(
    params: Seq<Symbol>,
    st: UnifyState,
    pattern: TyId,
    name: Symbol,
    pargs: Seq<TyId>,
    actual: TyId,
)
    requires
        store_wf(st.tys),
        subst_in_store(st.tys, st.subst),
        pattern.0 < st.tys.len(),
        actual.0 < st.tys.len(),
        st.tys[pattern.0 as int] == (TyNode::Named { name, args: pargs }),
        params.contains(name),
    ensures
        step_keeps(st, unify_ctor_param(params, st, pattern, name, pargs, actual)),
        unify_ctor_param(params, st, pattern, name, pargs, actual).0 && unify_ctor_param(
            params,
            st,
            pattern,
            name,
            pargs,
            actual,
        ).1.tys.len() <= u32::MAX + 1 ==> instance_of(
            unify_ctor_param(params, st, pattern, name, pargs, actual).1.tys,
            params,
            unify_ctor_param(params, st, pattern, name, pargs, actual).1.subst,
            pattern,
            actual,
        ),
    decreases pattern.0, 1nat,
{
    assert(children_below(st.tys[pattern.0 as int], pattern.0 as int));
    assert(children_below(st.tys[actual.0 as int], actual.0 as int));
    if pargs.len() == 0 {
        if st.subst.contains_key(name) {
            lemma_step_refl(st, ty_matches_spec(st.tys, st.subst[name], actual));
        } else {
            let s2 = st.subst.insert(name, actual);
            assert(ty_matches_spec(st.tys, actual, actual));
            assert(subst_in_store(st.tys, s2));
            assert(subst_extends(st.subst, s2));
        }
    } else {
        match st.tys[actual.0 as int] {
            TyNode::Named { name: an, args: aa } => {
                if aa.len() < pargs.len() {
                    lemma_step_refl(st, false);
                } else {
                    let prefix = aa.len() - pargs.len();
                    let k = TyNode::Named { name: an, args: aa.subrange(0, prefix) };
                    let ctor = TyId(st.tys.len() as u32);
                    let t1 = st.tys.push(k);
                    assert forall|i: int| 0 <= i < t1.len() implies children_below(#[trigger] t1[i], i) by {
                        if i < st.tys.len() {
                            assert(t1[i] == st.tys[i]);
                        } else {
                            assert forall|j: int| 0 <= j < prefix implies (#[trigger] aa.subrange(0, prefix)[j]).0 < i by {
                                assert(aa.subrange(0, prefix)[j] == aa[j]);
                            }
                        }
                    }
                    assert(store_prefix(st.tys, t1));
                    let st1 = UnifyState { tys: t1, subst: st.subst };
                    assert(step_keeps(st, (true, st1)));
                    let (ok, st2) = bind_param(st1, name, ctor);
                    if st1.subst.contains_key(name) {
                        assert(st2 == st1);
                        lemma_step_refl(st1, ok);
                    } else {
                        assert(ty_matches_spec(t1, ctor, ctor));
                        assert(subst_extends(st1.subst, st2.subst));
                    }
                    assert(step_keeps(st1, (ok, st2)));
                    lemma_step_trans(st, st1, (ok, st2));
                    if ok {
                        assert(st2.subst.contains_key(name) && ty_matches_spec(t1, st2.subst[name], ctor));
                        let rest = aa.subrange(prefix, aa.len() as int);
                        assert forall|j: int| 0 <= j < rest.len() implies (#[trigger] rest[j]).0 < t1.len() by {
                            assert(rest[j] == aa[prefix + j]);
                        }
                        lemma_pairs_sound(params, st2, pattern, pargs, rest, 0);
                        let r3 = unify_pairs(params, st2, pattern, pargs, rest, 0);
                        lemma_step_trans(st, st2, r3);
                        if r3.0 && r3.1.tys.len() <= u32::MAX + 1 {
                            let st3 = r3.1;
                            assert(t1.len() <= st3.tys.len());
                            assert(ctor.0 == st.tys.len());
                            assert(st3.subst[name] == st2.subst[name]);
                            lemma_matches_prefix(t1, st3.tys, st2.subst[name], ctor);
                            assert(st3.tys[ctor.0 as int] == t1[ctor.0 as int]);
                            assert(st3.tys[pattern.0 as int] == st.tys[pattern.0 as int]);
                            assert(st3.tys[actual.0 as int] == st.tys[actual.0 as int]);
                            assert forall|j: int| 0 <= j < pargs.len() implies instance_of(
                                st3.tys,
                                params,
                                st3.subst,
                                #[trigger] pargs[j],
                                aa[prefix + j],
                            ) by {
                                assert(rest[j] == aa[prefix + j]);
                                assert(instance_of(st3.tys, params, st3.subst, pargs[j], rest[j]));
                            }
                            assert(ty_matches_spec(st3.tys, st3.subst[name], ctor));
                            assert(exists|c: TyId|
                                #![trigger st3.tys[c.0 as int]]
                                c.0 < st3.tys.len() && st3.tys[c.0 as int] == (TyNode::Named { name: an, args: aa.subrange(0, prefix) })
                                    && ty_matches_spec(st3.tys, st3.subst[name], c));
                            assert(instance_of(st3.tys, params, st3.subst, pattern, actual));
                        }
                    }
                }
            },
            _ => {
                lemma_step_refl(st, false);
            },
        }
    }
}

proof fn lemma_pairs_sound(
    params: Seq<Symbol>,
    st: UnifyState,
    parent: TyId,
    ps: Seq<TyId>,
    actuals: Seq<TyId>,
    k: int,
)
    requires
        store_wf(st.tys),
        subst_in_store(st.tys, st.subst),
        parent.0 < st.tys.len(),
        ids_below(ps, parent.0 as int),
        ids_below(actuals, st.tys.len() as int),
        ps.len() <= actuals.len(),
        0 <= k,
    ensures
        step_keeps(st, unify_pairs(params, st, parent, ps, actuals, k)),
        unify_pairs(params, st, parent, ps, actuals, k).0 && unify_pairs(params, st, parent, ps, actuals, k).1.tys.len()
            <= u32::MAX + 1 ==> forall|j: int|
            k <= j < ps.len() ==> instance_of(
                unify_pairs(params, st, parent, ps, actuals, k).1.tys,
                params,
                unify_pairs(params, st, parent, ps, actuals, k).1.subst,
                #[trigger] ps[j],
                actuals[j],
            ),
    decreases parent.0, 0nat, ps.len() - k,
{
    if k >= ps.len() {
        lemma_step_refl(st, true);
    } else {
        lemma_unify_sound(params, st, ps[k], actuals[k]);
        let (ok, st1) = unify_spec(params, st, ps[k], actuals[k]);
        if ok {
            assert(ids_below(actuals, st1.tys.len() as int));
            lemma_pairs_sound(params, st1, parent, ps, actuals, k + 1);
            let r2 = unify_pairs(params, st1, parent, ps, actuals, k + 1);
            lemma_step_trans(st, st1, r2);
            if r2.0 && r2.1.tys.len() <= u32::MAX + 1 {
                assert(st1.tys.len() <= r2.1.tys.len());
                lemma_instance_grows(st1.tys, r2.1.tys, params, st1.subst, r2.1.subst, ps[k], actuals[k]);
                assert forall|j: int| k <= j < ps.len() implies instance_of(r2.1.tys, params, r2.1.subst, #[trigger] ps[j], actuals[j]) by {
                    if j > k {
                        assert(k + 1 <= j);
                    }
                }
            }
        }
    }
}

proof fn lemma_fields_sound(
    params: Seq<Symbol>,
    st: UnifyState,
    parent: TyId,
    pf: Seq<TyField>,
    af: Seq<TyField>,
    actual: TyId,
    k: int,
)
    requires
        store_wf(st.tys),
        subst_in_store(st.tys, st.subst),
        parent.0 < st.tys.len(),
        actual.0 < st.tys.len(),
        fields_below(pf, parent.0 as int),
        fields_below(af, actual.0 as int),
        0 <= k,
    ensures
        step_keeps(st, unify_fields(params, st, parent, pf, af, k)),
        unify_fields(params, st, parent, pf, af, k).0 && unify_fields(params, st, parent, pf, af, k).1.tys.len() <= u32::MAX
            + 1 ==> forall|j: int|
            k <= j < pf.len() ==> match last_field_ty(af, (#[trigger] pf[j]).name) {
                Some(t) => instance_of(
                    unify_fields(params, st, parent, pf, af, k).1.tys,
                    params,
                    unify_fields(params, st, parent, pf, af, k).1.subst,
                    pf[j].ty,
                    t,
                ),
                None => false,
            },
    decreases parent.0, 0nat, pf.len() - k,
{
    if k >= pf.len() {
        lemma_step_refl(st, true);
    } else {
        lemma_last_field_ty_below(af, pf[k].name, actual.0 as int);
        match last_field_ty(af, pf[k].name) {
            None => {
                lemma_step_refl(st, false);
            },
            Some(t) => {
                lemma_unify_sound(params, st, pf[k].ty, t);
                let (ok, st1) = unify_spec(params, st, pf[k].ty, t);
                if ok {
                    lemma_fields_sound(params, st1, parent, pf, af, actual, k + 1);
                    let r2 = unify_fields(params, st1, parent, pf, af, k + 1);
                    lemma_step_trans(st, st1, r2);
                    if r2.0 && r2.1.tys.len() <= u32::MAX + 1 {
                        assert(st1.tys.len() <= r2.1.tys.len());
                        lemma_instance_grows(st1.tys, r2.1.tys, params, st1.subst, r2.1.subst, pf[k].ty, t);
                        assert forall|j: int| k <= j < pf.len() implies match last_field_ty(af, (#[trigger] pf[j]).name) {
                            Some(t) => instance_of(r2.1.tys, params, r2.1.subst, pf[j].ty, t),
                            None => false,
                        } by {
                            if j > k {
                                assert(k + 1 <= j);
                            }
                        }
                    }
                }
            },
        }
    }
}

} // verus!
