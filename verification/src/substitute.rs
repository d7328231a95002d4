//! Substituting types for type parameters: every use of a parameter is
//! replaced by the type bound to it, new types are added to the store, and
//! the types already there are left as they are.
use vstd::prelude::*;

use crate::subst_map::SubstMap;
use crate::ty::{
    children_below, copy_dims, copy_fields, copy_ids, fields_below, ids_below, store_wf, Symbol,
    TyField, TyId, TyKind, TyNode, TyStore,
};
use crate::ty_tree::{
    denote, denote_fields, denote_list, field_names, lemma_denote_fields, lemma_denote_list,
    lemma_denote_prefix, lemma_prefix_trans, store_prefix, TyTree,
};

verus! {

/// A type constructor bound to a parameter, applied to more arguments: a
/// named type takes them after its own arguments; any other type ignores them.
pub open spec fn apply_ctor(ctor: TyTree, extra: Seq<TyTree>) -> TyTree {
    match ctor {
        TyTree::Named { name, args } => TyTree::Named { name, args: args + extra },
        _ => ctor,
    }
}

/// The bit type that `Bits` applied to `args` stands for: one natural literal
/// argument, above zero and within `u32`, gives its width.
pub open spec fn bits_width(args: Seq<TyTree>) -> Option<u32> {
    if args.len() == 1 {
        match args[0] {
            TyTree::Leaf { kind: TyNode::NatLit(w) } => if 0 < w <= u32::MAX {
                Some(w as u32)
            } else {
                None
            },
            _ => None,
        }
    } else {
        None
    }
}

/// `t` with every parameter in `s` replaced by the type bound to it. A
/// parameter applied to arguments is replaced by its type applied to the
/// substituted arguments; a `Pi` binder hides the parameter of its name in
/// the body; `bits` applied to a natural literal becomes the bit type of that
/// width.
pub open spec fn subst_tree(t: TyTree, s: Map<Symbol, TyTree>, bits: Symbol) -> TyTree
    decreases t,
{
    match t {
        TyTree::Leaf { .. } => t,
        TyTree::Named { name, args } => {
            let args2 = subst_trees(args, s, bits);
            if s.contains_key(name) {
                if args.len() == 0 {
                    s[name]
                } else {
                    apply_ctor(s[name], args2)
                }
            } else if name == bits && bits_width(args2) is Some {
                TyTree::Leaf { kind: TyNode::Bits { width: bits_width(args2)->0 } }
            } else {
                TyTree::Named { name, args: args2 }
            }
        },
        TyTree::Pi { binder, binder_ty, body, is_effectful } => TyTree::Pi {
            binder,
            binder_ty: Box::new(subst_tree(*binder_ty, s, bits)),
            body: Box::new(subst_tree(*body, s.remove(binder), bits)),
            is_effectful,
        },
        TyTree::Arrow { params, ret, is_effectful } => TyTree::Arrow {
            params: subst_trees(params, s, bits),
            ret: Box::new(subst_tree(*ret, s, bits)),
            is_effectful,
        },
        TyTree::Sum { left, right } => TyTree::Sum {
            left: Box::new(subst_tree(*left, s, bits)),
            right: Box::new(subst_tree(*right, s, bits)),
        },
        TyTree::Tuple { items } => TyTree::Tuple { items: subst_trees(items, s, bits) },
        TyTree::Sequence { item } => TyTree::Sequence { item: Box::new(subst_tree(*item, s, bits)) },
        TyTree::Array { dims, item } => TyTree::Array {
            dims,
            item: Box::new(subst_tree(*item, s, bits)),
        },
        TyTree::Range { bound } => TyTree::Range { bound: Box::new(subst_tree(*bound, s, bits)) },
        TyTree::Mut { inner } => TyTree::Mut { inner: Box::new(subst_tree(*inner, s, bits)) },
        TyTree::AnyShape { capability } => TyTree::AnyShape {
            capability: Box::new(subst_tree(*capability, s, bits)),
        },
        TyTree::SomeShape { capability } => TyTree::SomeShape {
            capability: Box::new(subst_tree(*capability, s, bits)),
        },
        TyTree::Record { names, types } => TyTree::Record {
            names,
            types: subst_trees(types, s, bits),
        },
    }
}

/// `subst_tree` on each of `ts`.
pub open spec fn subst_trees(ts: Seq<TyTree>, s: Map<Symbol, TyTree>, bits: Symbol) -> Seq<TyTree>
    decreases ts,
{
    if ts.len() == 0 {
        Seq::empty()
    } else {
        subst_trees(ts.drop_last(), s, bits).push(subst_tree(ts.last(), s, bits))
    }
}

/// `subst_trees` is `subst_tree` taken item by item.
pub proof fn lemma_subst_trees(ts: Seq<TyTree>, s: Map<Symbol, TyTree>, bits: Symbol)
    ensures
        subst_trees(ts, s, bits).len() == ts.len(),
        forall|k: int|
            0 <= k < ts.len() ==> #[trigger] subst_trees(ts, s, bits)[k] == subst_tree(ts[k], s, bits),
    decreases ts.len(),
{
    if ts.len() > 0 {
        lemma_subst_trees(ts.drop_last(), s, bits);
        assert forall|k: int| 0 <= k < ts.len() implies #[trigger] subst_trees(ts, s, bits)[k]
            == subst_tree(ts[k], s, bits) by {
            if k < ts.len() - 1 {
                assert(ts.drop_last()[k] == ts[k]);
            }
        }
    }
}

/// The types a substitution binds, as trees, read in the store `tys`.
pub open spec fn subst_trees_of(tys: Seq<TyNode>, m: Map<Symbol, TyId>) -> Map<Symbol, TyTree> {
    m.map_values(|id: TyId| denote(tys, id))
}

/// Every type a substitution binds is in the store `tys`.
pub open spec fn subst_in_store(tys: Seq<TyNode>, m: Map<Symbol, TyId>) -> bool {
    forall|k: Symbol| #[trigger] m.contains_key(k) ==> m[k].0 < tys.len()
}

/// What substituting in `ty` leaves: on success, a type in the final store
/// that stands for the substituted type; the old store stays a prefix.
pub open spec fn substituted(
    old_tys: Seq<TyNode>,
    new_tys: Seq<TyNode>,
    ty: TyId,
    m: Map<Symbol, TyId>,
    bits: Symbol,
    r: Option<TyId>,
) -> bool {
    &&& store_prefix(old_tys, new_tys)
    &&& match r {
        Some(id) => id.0 < new_tys.len() && denote(new_tys, id) == subst_tree(
            denote(old_tys, ty),
            subst_trees_of(old_tys, m),
            bits,
        ),
        None => new_tys.len() == u32::MAX,
    }
}

proof fn lemma_prefix_push(a: Seq<TyNode>, k: TyNode)
    ensures
        store_prefix(a, a.push(k)),
{
    assert forall|i: int| 0 <= i < a.len() implies #[trigger] a.push(k)[i] == a[i] by {}
}

proof fn lemma_prefix_refl(a: Seq<TyNode>)
    ensures
        store_prefix(a, a),
{
}

/// A substitution whose types are in a store has them in every store it
/// starts.
pub proof fn lemma_subst_in_prefix(small: Seq<TyNode>, big: Seq<TyNode>, m: Map<Symbol, TyId>)
    requires
        store_prefix(small, big),
        subst_in_store(small, m),
    ensures
        subst_in_store(big, m),
{
}

/// The bound types of a substitution keep their meaning as the store grows.
pub(crate) proof fn lemma_subst_trees_of_prefix(small: Seq<TyNode>, big: Seq<TyNode>, m: Map<Symbol, TyId>)
    requires
        store_wf(small),
        store_wf(big),
        store_prefix(small, big),
        subst_in_store(small, m),
    ensures
        subst_trees_of(big, m) == subst_trees_of(small, m),
        subst_in_store(big, m),
{
    assert forall|k: Symbol| #[trigger] m.contains_key(k) implies denote(big, m[k]) == denote(
        small,
        m[k],
    ) by {
        lemma_denote_prefix(small, big, m[k]);
    }
    assert(subst_trees_of(big, m) =~= subst_trees_of(small, m));
}

/// Adds `kind` to the store, if there is room.
pub(crate) fn add_ty(store: &mut TyStore, kind: TyKind) -> (r: Option<TyId>)
    requires
        children_below(kind@, old(store).kinds().len() as int),
    ensures
        match r {
            Some(id) => final(store).kinds() == old(store).kinds().push(kind@) && id.0 == old(
                store,
            ).kinds().len(),
            None => final(store).kinds() == old(store).kinds() && old(store).kinds().len()
                == u32::MAX,
        },
{
    proof {
        use_type_invariant(&*store);
    }
    if store.len() >= u32::MAX as usize {
        None
    } else {
        Some(store.push_kind(kind))
    }
}

/// Substitutes in each type of `ids`, children of `parent`; on success, the
/// new ids stand for the substituted types, in order.
fn substitute_list(
    store: &mut TyStore,
    ids: &Vec<TyId>,
    subst: &SubstMap,
    bits: Symbol,
    Ghost(parent): Ghost<TyId>,
) -> (r: Option<Vec<TyId>>)
    requires
        parent.0 < old(store).kinds().len(),
        ids_below(ids@, parent.0 as int),
        subst_in_store(old(store).kinds(), subst@),
    ensures
        store_prefix(old(store).kinds(), final(store).kinds()),
        match r {
            Some(out) => out.len() == ids.len() && ids_below(out@, final(store).kinds().len() as int)
                && forall|k: int|
                0 <= k < ids.len() ==> denote(final(store).kinds(), #[trigger] out@[k]) == subst_tree(
                    denote(old(store).kinds(), ids@[k]),
                    subst_trees_of(old(store).kinds(), subst@),
                    bits,
                ),
            None => final(store).kinds().len() == u32::MAX,
        },
    decreases parent.0, 0nat,
{
    let ghost start = store.kinds();
    proof {
        use_type_invariant(&*store);
        lemma_prefix_refl(start);
    }
    let mut out: Vec<TyId> = Vec::new();
    let mut i: usize = 0;
    while i < ids.len()
        invariant
            i <= ids.len(),
            start == old(store).kinds(),
            store_wf(start),
            parent.0 < start.len(),
            ids_below(ids@, parent.0 as int),
            subst_in_store(start, subst@),
            store_prefix(start, store.kinds()),
            out.len() == i,
            ids_below(out@, store.kinds().len() as int),
            forall|k: int|
                0 <= k < i ==> denote(store.kinds(), #[trigger] out@[k]) == subst_tree(
                    denote(start, ids@[k]),
                    subst_trees_of(start, subst@),
                    bits,
                ),
        decreases ids.len() - i,
    {
        proof {
            use_type_invariant(&*store);
        }
        let ghost before = store.kinds();
        let child = ids[i];
        proof {
            assert(child.0 < parent.0);
            lemma_subst_trees_of_prefix(start, before, subst@);
            lemma_denote_prefix(start, before, child);
        }
        let r = substitute_ty_in(store, child, subst, bits);
        match r {
            None => {
                proof {
                    lemma_prefix_trans(start, before, store.kinds());
                }
                return None;
            },
            Some(id) => {
                proof {
                    use_type_invariant(&*store);
                    lemma_prefix_trans(start, before, store.kinds());
                    assert forall|k: int| 0 <= k < i implies denote(store.kinds(), #[trigger] out@[k])
                        == subst_tree(denote(start, ids@[k]), subst_trees_of(start, subst@), bits) by {
                        lemma_denote_prefix(before, store.kinds(), out@[k]);
                    }
                }
                out.push(id);
                proof {
                    assert forall|k: int| 0 <= k < i + 1 implies denote(store.kinds(), #[trigger] out@[k])
                        == subst_tree(denote(start, ids@[k]), subst_trees_of(start, subst@), bits) by {
                        if k == i {
                            assert(out@[k] == id);
                        }
                    }
                }
            },
        }
        i = i + 1;
    }
    Some(out)
}

/// Substitutes in the types of `fields`, children of `parent`, keeping their
/// names.
fn substitute_fields(
    store: &mut TyStore,
    fields: &Vec<TyField>,
    subst: &SubstMap,
    bits: Symbol,
    Ghost(parent): Ghost<TyId>,
) -> (r: Option<Vec<TyField>>)
    requires
        parent.0 < old(store).kinds().len(),
        fields_below(fields@, parent.0 as int),
        subst_in_store(old(store).kinds(), subst@),
    ensures
        store_prefix(old(store).kinds(), final(store).kinds()),
        match r {
            Some(out) => out.len() == fields.len() && fields_below(
                out@,
                final(store).kinds().len() as int,
            ) && forall|k: int|
                0 <= k < fields.len() ==> (#[trigger] out@[k]).name == fields@[k].name && denote(
                    final(store).kinds(),
                    out@[k].ty,
                ) == subst_tree(
                    denote(old(store).kinds(), fields@[k].ty),
                    subst_trees_of(old(store).kinds(), subst@),
                    bits,
                ),
            None => final(store).kinds().len() == u32::MAX,
        },
    decreases parent.0, 0nat,
{
    let ghost start = store.kinds();
    proof {
        use_type_invariant(&*store);
        lemma_prefix_refl(start);
    }
    let mut out: Vec<TyField> = Vec::new();
    let mut i: usize = 0;
    while i < fields.len()
        invariant
            i <= fields.len(),
            start == old(store).kinds(),
            store_wf(start),
            parent.0 < start.len(),
            fields_below(fields@, parent.0 as int),
            subst_in_store(start, subst@),
            store_prefix(start, store.kinds()),
            out.len() == i,
            fields_below(out@, store.kinds().len() as int),
            forall|k: int|
                0 <= k < i ==> (#[trigger] out@[k]).name == fields@[k].name && denote(
                    store.kinds(),
                    out@[k].ty,
                ) == subst_tree(denote(start, fields@[k].ty), subst_trees_of(start, subst@), bits),
        decreases fields.len() - i,
    {
        proof {
            use_type_invariant(&*store);
        }
        let ghost before = store.kinds();
        let field = fields[i];
        proof {
            assert(field.ty.0 < parent.0);
            lemma_subst_trees_of_prefix(start, before, subst@);
            lemma_denote_prefix(start, before, field.ty);
        }
        let r = substitute_ty_in(store, field.ty, subst, bits);
        match r {
            None => {
                proof {
                    lemma_prefix_trans(start, before, store.kinds());
                }
                return None;
            },
            Some(id) => {
                proof {
                    use_type_invariant(&*store);
                    lemma_prefix_trans(start, before, store.kinds());
                    assert forall|k: int| 0 <= k < i implies (#[trigger] out@[k]).name == fields@[k].name
                        && denote(store.kinds(), out@[k].ty) == subst_tree(
                        denote(start, fields@[k].ty),
                        subst_trees_of(start, subst@),
                        bits,
                    ) by {
                        lemma_denote_prefix(before, store.kinds(), out@[k].ty);
                    }
                }
                out.push(TyField { name: field.name, ty: id });
                proof {
                    assert forall|k: int| 0 <= k < i + 1 implies (#[trigger] out@[k]).name
                        == fields@[k].name && denote(store.kinds(), out@[k].ty) == subst_tree(
                        denote(start, fields@[k].ty),
                        subst_trees_of(start, subst@),
                        bits,
                    ) by {
                        if k == i {
                            assert(out@[k] == TyField { name: field.name, ty: id });
                        }
                    }
                }
            },
        }
        i = i + 1;
    }
    Some(out)
}

/// Substitutes in `ty`.
fn substitute_ty_in(store: &mut TyStore, ty: TyId, subst: &SubstMap, bits: Symbol) -> (r: Option<TyId>)
    requires
        ty.0 < old(store).kinds().len(),
        subst_in_store(old(store).kinds(), subst@),
    ensures
        substituted(old(store).kinds(), final(store).kinds(), ty, subst@, bits, r),
    decreases ty.0, 2nat,
{
    proof {
        use_type_invariant(&*store);
        lemma_prefix_refl(store.kinds());
    }
    match store.kind(ty) {
        TyKind::Named { .. } => substitute_named(store, ty, subst, bits),
        TyKind::Pi { .. } => substitute_pi(store, ty, subst, bits),
        TyKind::Arrow { .. } => substitute_arrow(store, ty, subst, bits),
        TyKind::Tuple { .. } => substitute_tuple(store, ty, subst, bits),
        TyKind::Record { .. } => substitute_record(store, ty, subst, bits),
        TyKind::Sum { .. } => substitute_sum(store, ty, subst, bits),
        TyKind::Sequence { .. } | TyKind::Array { .. } | TyKind::Range { .. } | TyKind::Mut { .. }
        | TyKind::AnyShape { .. } | TyKind::SomeShape { .. } => substitute_wrapped(store, ty, subst, bits),
        _ => Some(ty),
    }
}

/// Substitutes in a named type: a parameter is replaced by its type (applied
/// to the substituted arguments, if it has any); `bits` applied to a natural
/// literal becomes a bit type.
fn substitute_named(store: &mut TyStore, ty: TyId, subst: &SubstMap, bits: Symbol) -> (r: Option<TyId>)
    requires
        ty.0 < old(store).kinds().len(),
        old(store).kinds()[ty.0 as int] is Named,
        subst_in_store(old(store).kinds(), subst@),
    ensures
        substituted(old(store).kinds(), final(store).kinds(), ty, subst@, bits, r),
    decreases ty.0, 1nat,
{
    proof {
        use_type_invariant(&*store);
        lemma_prefix_refl(store.kinds());
    }
    let ghost old_tys = store.kinds();
    let ghost sm = subst_trees_of(old_tys, subst@);
    let (name, args) = match store.kind(ty) {
        TyKind::Named { name, args } => (*name, copy_ids(args)),
        _ => {
            return None;
        },
    };
    proof {
        assert(ids_below(args@, ty.0 as int));
        lemma_denote_list(old_tys, ty, args@);
        lemma_subst_trees(denote_list(old_tys, ty, args@), sm, bits);
    }
    let found = subst.get(name);
    if let Some(f) = found {
        if args.len() == 0 {
            proof {
                assert(denote_list(old_tys, ty, args@).len() == 0);
            }
            return Some(f);
        }
        let new_args = match substitute_list(store, &args, subst, bits, Ghost(ty)) {
            Some(a) => a,
            None => return None,
        };
        proof {
            use_type_invariant(&*store);
            lemma_denote_prefix(old_tys, store.kinds(), f);
        }
        let ghost mid = store.kinds();
        let ctor = match store.kind(f) {
            TyKind::Named { name: cn, args: existing } => Some((*cn, copy_ids(existing))),
            _ => None,
        };
        match ctor {
            None => Some(f),
            Some((cn, existing)) => {
                proof {
                    assert(store_wf(mid));
                    assert(ids_below(existing@, f.0 as int));
                    lemma_denote_list(mid, f, existing@);
                }
                let mut combined = existing;
                let ghost existing_ids = combined@;
                let mut k: usize = 0;
                while k < new_args.len()
                    invariant
                        k <= new_args.len(),
                        combined@ == existing_ids + new_args@.subrange(0, k as int),
                    decreases new_args.len() - k,
                {
                    combined.push(new_args[k]);
                    k = k + 1;
                    assert(combined@ =~= existing_ids + new_args@.subrange(0, k as int));
                }
                assert(combined@ =~= existing_ids + new_args@);
                proof {
                    assert forall|j: int| 0 <= j < combined@.len() implies (#[trigger] combined@[j]).0
                        < mid.len() by {
                        if j < existing_ids.len() {
                            assert(combined@[j] == existing_ids[j]);
                        } else {
                            assert(combined@[j] == new_args@[j - existing_ids.len()]);
                        }
                    }
                }
                let r = add_ty(store, TyKind::Named { name: cn, args: combined });
                proof {
                    lemma_prefix_push(mid, (TyKind::Named { name: cn, args: combined })@);
                    lemma_prefix_trans(old_tys, mid, store.kinds());
                }
                if let Some(id) = r {
                    proof {
                        use_type_invariant(&*store);
                        let fin = store.kinds();
                        lemma_denote_list(fin, id, combined@);
                        let lhs = denote_list(fin, id, combined@);
                        let rhs = denote_list(mid, f, existing_ids) + subst_trees(
                            denote_list(old_tys, ty, args@),
                            sm,
                            bits,
                        );
                        assert forall|j: int| 0 <= j < lhs.len() implies #[trigger] lhs[j] == rhs[j] by {
                            lemma_denote_prefix(mid, fin, combined@[j]);
                            if j < existing_ids.len() {
                                assert(combined@[j] == existing_ids[j]);
                            } else {
                                assert(combined@[j] == new_args@[j - existing_ids.len()]);
                            }
                        }
                        assert(lhs =~= rhs);
                    }
                }
                r
            },
        }
    } else {
        let new_args = match substitute_list(store, &args, subst, bits, Ghost(ty)) {
            Some(a) => a,
            None => return None,
        };
        proof {
            use_type_invariant(&*store);
        }
        let ghost mid = store.kinds();
        if name == bits && new_args.len() == 1 {
            let width = match store.kind(new_args[0]) {
                TyKind::NatLit(w) => if *w > 0 && *w <= u32::MAX as u64 {
                    Some(*w as u32)
                } else {
                    None
                },
                _ => None,
            };
            proof {
                let a2 = subst_trees(denote_list(old_tys, ty, args@), sm, bits);
                assert(a2[0] == denote(mid, new_args@[0]));
            }
            if let Some(w) = width {
                let r = add_ty(store, TyKind::Bits { width: w });
                proof {
                    lemma_prefix_push(mid, (TyKind::Bits { width: w })@);
                    lemma_prefix_trans(old_tys, mid, store.kinds());
                }
                return r;
            }
        }
        let ghost a2 = subst_trees(denote_list(old_tys, ty, args@), sm, bits);
        let r = add_ty(store, TyKind::Named { name, args: new_args });
        proof {
            lemma_prefix_push(mid, (TyKind::Named { name, args: new_args })@);
            lemma_prefix_trans(old_tys, mid, store.kinds());
        }
        if let Some(id) = r {
            proof {
                use_type_invariant(&*store);
                let fin = store.kinds();
                lemma_denote_list(fin, id, new_args@);
                assert forall|j: int| 0 <= j < new_args@.len() implies #[trigger] denote_list(
                    fin,
                    id,
                    new_args@,
                )[j] == a2[j] by {
                    lemma_denote_prefix(mid, fin, new_args@[j]);
                }
                assert(denote_list(fin, id, new_args@) =~= a2);
            }
        }
        r
    }
}

/// Substitutes in a `Pi` type: the binder's type with `subst`, the body with
/// `subst` less the binder.
fn substitute_pi(store: &mut TyStore, ty: TyId, subst: &SubstMap, bits: Symbol) -> (r: Option<TyId>)
    requires
        ty.0 < old(store).kinds().len(),
        old(store).kinds()[ty.0 as int] is Pi,
        subst_in_store(old(store).kinds(), subst@),
    ensures
        substituted(old(store).kinds(), final(store).kinds(), ty, subst@, bits, r),
    decreases ty.0, 1nat,
{
    proof {
        use_type_invariant(&*store);
        lemma_prefix_refl(store.kinds());
    }
    let ghost old_tys = store.kinds();
    let ghost sm = subst_trees_of(old_tys, subst@);
    let (binder, binder_ty, body, is_effectful) = match store.kind(ty) {
        TyKind::Pi { binder, binder_ty, body, is_effectful } => (*binder, *binder_ty, *body, *is_effectful),
        _ => {
            return None;
        },
    };
    let new_binder_ty = match substitute_ty_in(store, binder_ty, subst, bits) {
        Some(t) => t,
        None => return None,
    };
    proof {
        use_type_invariant(&*store);
    }
    let ghost mid1 = store.kinds();
    let inner = subst.without(binder);
    proof {
        lemma_subst_trees_of_prefix(old_tys, mid1, subst@);
        assert(subst_in_store(mid1, inner@));
        lemma_denote_prefix(old_tys, mid1, body);
        assert(subst_trees_of(mid1, inner@) =~= sm.remove(binder));
    }
    let new_body = match substitute_ty_in(store, body, &inner, bits) {
        Some(t) => t,
        None => {
            proof {
                lemma_prefix_trans(old_tys, mid1, store.kinds());
            }
            return None;
        },
    };
    proof {
        use_type_invariant(&*store);
        lemma_prefix_trans(old_tys, mid1, store.kinds());
        lemma_denote_prefix(mid1, store.kinds(), new_binder_ty);
    }
    let ghost mid2 = store.kinds();
    let kind = TyKind::Pi { binder, binder_ty: new_binder_ty, body: new_body, is_effectful };
    let r = add_ty(store, kind);
    proof {
        lemma_prefix_push(mid2, (kind)@);
        lemma_prefix_trans(old_tys, mid2, store.kinds());
        if r is Some {
            use_type_invariant(&*store);
            lemma_denote_prefix(mid2, store.kinds(), new_binder_ty);
            lemma_denote_prefix(mid2, store.kinds(), new_body);
        }
    }
    r
}

/// Substitutes in a callable type: its parameters, then its result.
fn substitute_arrow(store: &mut TyStore, ty: TyId, subst: &SubstMap, bits: Symbol) -> (r: Option<TyId>)
    requires
        ty.0 < old(store).kinds().len(),
        old(store).kinds()[ty.0 as int] is Arrow,
        subst_in_store(old(store).kinds(), subst@),
    ensures
        substituted(old(store).kinds(), final(store).kinds(), ty, subst@, bits, r),
    decreases ty.0, 1nat,
{
    proof {
        use_type_invariant(&*store);
        lemma_prefix_refl(store.kinds());
    }
    let ghost old_tys = store.kinds();
    let ghost sm = subst_trees_of(old_tys, subst@);
    let (params, ret, is_effectful) = match store.kind(ty) {
        TyKind::Arrow { params, ret, is_effectful } => (copy_ids(params), *ret, *is_effectful),
        _ => {
            return None;
        },
    };
    proof {
        assert(ids_below(params@, ty.0 as int));
        lemma_denote_list(old_tys, ty, params@);
        lemma_subst_trees(denote_list(old_tys, ty, params@), sm, bits);
    }
    let new_params = match substitute_list(store, &params, subst, bits, Ghost(ty)) {
        Some(a) => a,
        None => return None,
    };
    proof {
        use_type_invariant(&*store);
    }
    let ghost mid1 = store.kinds();
    proof {
        lemma_subst_trees_of_prefix(old_tys, mid1, subst@);
        lemma_denote_prefix(old_tys, mid1, ret);
    }
    let new_ret = match substitute_ty_in(store, ret, subst, bits) {
        Some(t) => t,
        None => {
            proof {
                lemma_prefix_trans(old_tys, mid1, store.kinds());
            }
            return None;
        },
    };
    proof {
        use_type_invariant(&*store);
        lemma_prefix_trans(old_tys, mid1, store.kinds());
    }
    let ghost mid2 = store.kinds();
    let ghost a2 = subst_trees(denote_list(old_tys, ty, params@), sm, bits);
    proof {
        assert forall|j: int| 0 <= j < new_params@.len() implies (#[trigger] new_params@[j]).0 < mid2.len() by {}
        assert forall|j: int| 0 <= j < new_params@.len() implies denote(mid2, #[trigger] new_params@[j]) == a2[j] by {
            lemma_denote_prefix(mid1, mid2, new_params@[j]);
        }
    }
    let kind = TyKind::Arrow { params: new_params, ret: new_ret, is_effectful };
    let r = add_ty(store, kind);
    proof {
        lemma_prefix_push(mid2, (kind)@);
        lemma_prefix_trans(old_tys, mid2, store.kinds());
        if let Some(id) = r {
            use_type_invariant(&*store);
            let fin = store.kinds();
            lemma_denote_prefix(mid2, fin, new_ret);
            lemma_denote_list(fin, id, new_params@);
            assert forall|j: int| 0 <= j < new_params@.len() implies #[trigger] denote_list(
                fin,
                id,
                new_params@,
            )[j] == a2[j] by {
                lemma_denote_prefix(mid2, fin, new_params@[j]);
            }
            assert(denote_list(fin, id, new_params@) =~= a2);
        }
    }
    r
}

/// Substitutes in a tuple type's items.
fn substitute_tuple(store: &mut TyStore, ty: TyId, subst: &SubstMap, bits: Symbol) -> (r: Option<TyId>)
    requires
        ty.0 < old(store).kinds().len(),
        old(store).kinds()[ty.0 as int] is Tuple,
        subst_in_store(old(store).kinds(), subst@),
    ensures
        substituted(old(store).kinds(), final(store).kinds(), ty, subst@, bits, r),
    decreases ty.0, 1nat,
{
    proof {
        use_type_invariant(&*store);
        lemma_prefix_refl(store.kinds());
    }
    let ghost old_tys = store.kinds();
    let ghost sm = subst_trees_of(old_tys, subst@);
    let items = match store.kind(ty) {
        TyKind::Tuple { items } => copy_ids(items),
        _ => {
            return None;
        },
    };
    proof {
        assert(ids_below(items@, ty.0 as int));
        lemma_denote_list(old_tys, ty, items@);
        lemma_subst_trees(denote_list(old_tys, ty, items@), sm, bits);
    }
    let new_items = match substitute_list(store, &items, subst, bits, Ghost(ty)) {
        Some(a) => a,
        None => return None,
    };
    proof {
        use_type_invariant(&*store);
    }
    let ghost mid = store.kinds();
    let ghost a2 = subst_trees(denote_list(old_tys, ty, items@), sm, bits);
    let kind = TyKind::Tuple { items: new_items };
    let r = add_ty(store, kind);
    proof {
        lemma_prefix_push(mid, (kind)@);
        lemma_prefix_trans(old_tys, mid, store.kinds());
        if let Some(id) = r {
            use_type_invariant(&*store);
            let fin = store.kinds();
            lemma_denote_list(fin, id, new_items@);
            assert forall|j: int| 0 <= j < new_items@.len() implies #[trigger] denote_list(
                fin,
                id,
                new_items@,
            )[j] == a2[j] by {
                lemma_denote_prefix(mid, fin, new_items@[j]);
            }
            assert(denote_list(fin, id, new_items@) =~= a2);
        }
    }
    r
}

/// Substitutes in a record type's field types, keeping the field names.
fn substitute_record(store: &mut TyStore, ty: TyId, subst: &SubstMap, bits: Symbol) -> (r: Option<TyId>)
    requires
        ty.0 < old(store).kinds().len(),
        old(store).kinds()[ty.0 as int] is Record,
        subst_in_store(old(store).kinds(), subst@),
    ensures
        substituted(old(store).kinds(), final(store).kinds(), ty, subst@, bits, r),
    decreases ty.0, 1nat,
{
    proof {
        use_type_invariant(&*store);
        lemma_prefix_refl(store.kinds());
    }
    let ghost old_tys = store.kinds();
    let ghost sm = subst_trees_of(old_tys, subst@);
    let fields = match store.kind(ty) {
        TyKind::Record { fields } => copy_fields(fields),
        _ => {
            return None;
        },
    };
    proof {
        assert(fields_below(fields@, ty.0 as int));
        lemma_denote_fields(old_tys, ty, fields@);
        lemma_subst_trees(denote_fields(old_tys, ty, fields@), sm, bits);
    }
    let new_fields = match substitute_fields(store, &fields, subst, bits, Ghost(ty)) {
        Some(a) => a,
        None => return None,
    };
    proof {
        use_type_invariant(&*store);
    }
    let ghost mid = store.kinds();
    let ghost a2 = subst_trees(denote_fields(old_tys, ty, fields@), sm, bits);
    let kind = TyKind::Record { fields: new_fields };
    let r = add_ty(store, kind);
    proof {
        lemma_prefix_push(mid, (kind)@);
        lemma_prefix_trans(old_tys, mid, store.kinds());
        if let Some(id) = r {
            use_type_invariant(&*store);
            let fin = store.kinds();
            lemma_denote_fields(fin, id, new_fields@);
            assert forall|j: int| 0 <= j < new_fields@.len() implies #[trigger] denote_fields(
                fin,
                id,
                new_fields@,
            )[j] == a2[j] by {
                lemma_denote_prefix(mid, fin, new_fields@[j].ty);
            }
            assert(denote_fields(fin, id, new_fields@) =~= a2);
            assert(field_names(new_fields@) =~= field_names(fields@));
        }
    }
    r
}

/// Substitutes in both sides of a sum type.
fn substitute_sum(store: &mut TyStore, ty: TyId, subst: &SubstMap, bits: Symbol) -> (r: Option<TyId>)
    requires
        ty.0 < old(store).kinds().len(),
        old(store).kinds()[ty.0 as int] is Sum,
        subst_in_store(old(store).kinds(), subst@),
    ensures
        substituted(old(store).kinds(), final(store).kinds(), ty, subst@, bits, r),
    decreases ty.0, 1nat,
{
    proof {
        use_type_invariant(&*store);
        lemma_prefix_refl(store.kinds());
    }
    let ghost old_tys = store.kinds();
    let (left, right) = match store.kind(ty) {
        TyKind::Sum { left, right } => (*left, *right),
        _ => {
            return None;
        },
    };
    let new_left = match substitute_ty_in(store, left, subst, bits) {
        Some(t) => t,
        None => return None,
    };
    proof {
        use_type_invariant(&*store);
    }
    let ghost mid1 = store.kinds();
    proof {
        lemma_subst_trees_of_prefix(old_tys, mid1, subst@);
        lemma_denote_prefix(old_tys, mid1, right);
    }
    let new_right = match substitute_ty_in(store, right, subst, bits) {
        Some(t) => t,
        None => {
            proof {
                lemma_prefix_trans(old_tys, mid1, store.kinds());
            }
            return None;
        },
    };
    proof {
        use_type_invariant(&*store);
        lemma_prefix_trans(old_tys, mid1, store.kinds());
        lemma_denote_prefix(mid1, store.kinds(), new_left);
    }
    let ghost mid2 = store.kinds();
    let kind = TyKind::Sum { left: new_left, right: new_right };
    let r = add_ty(store, kind);
    proof {
        lemma_prefix_push(mid2, (kind)@);
        lemma_prefix_trans(old_tys, mid2, store.kinds());
        if r is Some {
            use_type_invariant(&*store);
            lemma_denote_prefix(mid2, store.kinds(), new_left);
            lemma_denote_prefix(mid2, store.kinds(), new_right);
        }
    }
    r
}

/// The one child of a type with exactly one child type.
spec fn only_child(k: TyNode) -> TyId {
    match k {
        TyNode::Sequence { item } => item,
        TyNode::Array { item, .. } => item,
        TyNode::Range { bound } => bound,
        TyNode::Mut { inner } => inner,
        TyNode::AnyShape { capability } => capability,
        TyNode::SomeShape { capability } => capability,
        _ => TyId(0),
    }
}

/// Substitutes in the one child of a sequence, array, range, `mut` or shape
/// type; an array keeps its dimensions.
fn substitute_wrapped(store: &mut TyStore, ty: TyId, subst: &SubstMap, bits: Symbol) -> (r: Option<TyId>)
    requires
        ty.0 < old(store).kinds().len(),
        old(store).kinds()[ty.0 as int] is Sequence || old(store).kinds()[ty.0 as int] is Array
            || old(store).kinds()[ty.0 as int] is Range || old(store).kinds()[ty.0 as int] is Mut
            || old(store).kinds()[ty.0 as int] is AnyShape
            || old(store).kinds()[ty.0 as int] is SomeShape,
        subst_in_store(old(store).kinds(), subst@),
    ensures
        substituted(old(store).kinds(), final(store).kinds(), ty, subst@, bits, r),
    decreases ty.0, 1nat,
{
    proof {
        use_type_invariant(&*store);
        lemma_prefix_refl(store.kinds());
    }
    let ghost old_tys = store.kinds();
    let child = match store.kind(ty) {
        TyKind::Sequence { item } => *item,
        TyKind::Array { item, .. } => *item,
        TyKind::Range { bound } => *bound,
        TyKind::Mut { inner } => *inner,
        TyKind::AnyShape { capability } => *capability,
        TyKind::SomeShape { capability } => *capability,
        _ => {
            return None;
        },
    };
    assert(child == only_child(old_tys[ty.0 as int]));
    let new_child = match substitute_ty_in(store, child, subst, bits) {
        Some(t) => t,
        None => return None,
    };
    proof {
        use_type_invariant(&*store);
    }
    let ghost mid = store.kinds();
    let kind = match store.kind(ty) {
        TyKind::Sequence { .. } => TyKind::Sequence { item: new_child },
        TyKind::Array { dims, .. } => TyKind::Array { dims: copy_dims(dims), item: new_child },
        TyKind::Range { .. } => TyKind::Range { bound: new_child },
        TyKind::Mut { .. } => TyKind::Mut { inner: new_child },
        TyKind::AnyShape { .. } => TyKind::AnyShape { capability: new_child },
        _ => TyKind::SomeShape { capability: new_child },
    };
    assert(mid[ty.0 as int] == old_tys[ty.0 as int]);
    let r = add_ty(store, kind);
    proof {
        lemma_prefix_push(mid, (kind)@);
        lemma_prefix_trans(old_tys, mid, store.kinds());
        if r is Some {
            use_type_invariant(&*store);
            lemma_denote_prefix(mid, store.kinds(), new_child);
        }
    }
    r
}

/// Substitutes the types bound in `subst` for the parameters they bind in
/// `ty`, adding the new types to the store. `bits` is the name of the bit
/// type constructor. On success the result stands for the substituted type;
/// it is `None` only when the store has no room left.
pub fn substitute_ty(store: &mut TyStore, ty: TyId, subst: &SubstMap, bits: Symbol) -> (r: Option<TyId>)
    requires
        ty.0 < old(store).kinds().len(),
        subst_in_store(old(store).kinds(), subst@),
    ensures
        substituted(old(store).kinds(), final(store).kinds(), ty, subst@, bits, r),
{
    substitute_ty_in(store, ty, subst, bits)
}

/// Whether a named type of name `n` occurs anywhere in `t`.
pub open spec fn mentions(t: TyTree, n: Symbol) -> bool
    decreases t,
{
    match t {
        TyTree::Leaf { .. } => false,
        TyTree::Named { name, args } => name == n || mentions_any(args, n),
        TyTree::Pi { binder_ty, body, .. } => mentions(*binder_ty, n) || mentions(*body, n),
        TyTree::Arrow { params, ret, .. } => mentions_any(params, n) || mentions(*ret, n),
        TyTree::Sum { left, right } => mentions(*left, n) || mentions(*right, n),
        TyTree::Tuple { items } => mentions_any(items, n),
        TyTree::Sequence { item } => mentions(*item, n),
        TyTree::Array { item, .. } => mentions(*item, n),
        TyTree::Range { bound } => mentions(*bound, n),
        TyTree::Mut { inner } => mentions(*inner, n),
        TyTree::AnyShape { capability } => mentions(*capability, n),
        TyTree::SomeShape { capability } => mentions(*capability, n),
        TyTree::Record { types, .. } => mentions_any(types, n),
    }
}

/// Whether a named type of name `n` occurs in any of `ts`.
pub open spec fn mentions_any(ts: Seq<TyTree>, n: Symbol) -> bool
    decreases ts,
{
    if ts.len() == 0 {
        false
    } else {
        mentions_any(ts.drop_last(), n) || mentions(ts.last(), n)
    }
}

/// No parameter bound in `s` occurs in `t`.
pub open spec fn binds_none_of(s: Map<Symbol, TyTree>, t: TyTree) -> bool {
    forall|n: Symbol| #[trigger] s.contains_key(n) ==> !mentions(t, n)
}

/// No parameter bound in `s` occurs in any of `ts`.
pub open spec fn binds_none_of_any(s: Map<Symbol, TyTree>, ts: Seq<TyTree>) -> bool {
    forall|n: Symbol| #[trigger] s.contains_key(n) ==> !mentions_any(ts, n)
}

/// Substituting leaves a type as it is when none of the substituted
/// parameters occurs in it and it does not apply the bit type constructor
/// (which substitution turns into a bit type). In particular, substituting
/// nothing changes nothing.
pub proof fn lemma_subst_unused_identity(t: TyTree, s: Map<Symbol, TyTree>, bits: Symbol)
    requires
        binds_none_of(s, t),
        !mentions(t, bits),
    ensures
        subst_tree(t, s, bits) == t,
    decreases t,
{
    match t {
        TyTree::Leaf { .. } => {},
        TyTree::Named { name, args } => {
            assert(!s.contains_key(name));
            lemma_subst_unused_identity_list(args, s, bits);
        },
        TyTree::Pi { binder, binder_ty, body, .. } => {
            lemma_subst_unused_identity(*binder_ty, s, bits);
            lemma_subst_unused_identity(*body, s.remove(binder), bits);
        },
        TyTree::Arrow { params, ret, .. } => {
            lemma_subst_unused_identity_list(params, s, bits);
            lemma_subst_unused_identity(*ret, s, bits);
        },
        TyTree::Sum { left, right } => {
            lemma_subst_unused_identity(*left, s, bits);
            lemma_subst_unused_identity(*right, s, bits);
        },
        TyTree::Tuple { items } => {
            lemma_subst_unused_identity_list(items, s, bits);
        },
        TyTree::Sequence { item } => {
            lemma_subst_unused_identity(*item, s, bits);
        },
        TyTree::Array { item, .. } => {
            lemma_subst_unused_identity(*item, s, bits);
        },
        TyTree::Range { bound } => {
            lemma_subst_unused_identity(*bound, s, bits);
        },
        TyTree::Mut { inner } => {
            lemma_subst_unused_identity(*inner, s, bits);
        },
        TyTree::AnyShape { capability } => {
            lemma_subst_unused_identity(*capability, s, bits);
        },
        TyTree::SomeShape { capability } => {
            lemma_subst_unused_identity(*capability, s, bits);
        },
        TyTree::Record { types, .. } => {
            lemma_subst_unused_identity_list(types, s, bits);
        },
    }
}

/// Substituting leaves each of `ts` as it is when none of the substituted
/// parameters occurs in them and none applies the bit type constructor.
pub proof fn lemma_subst_unused_identity_list(ts: Seq<TyTree>, s: Map<Symbol, TyTree>, bits: Symbol)
    requires
        binds_none_of_any(s, ts),
        !mentions_any(ts, bits),
    ensures
        subst_trees(ts, s, bits) == ts,
    decreases ts,
{
    if ts.len() > 0 {
        assert(binds_none_of_any(s, ts.drop_last()));
        lemma_subst_unused_identity_list(ts.drop_last(), s, bits);
        assert(binds_none_of(s, ts.last()));
        lemma_subst_unused_identity(ts.last(), s, bits);
        assert(subst_trees(ts, s, bits) =~= ts);
    }
}

/// Substituting nothing leaves a type as it is, unless it applies the bit
/// type constructor.
pub proof fn lemma_subst_empty_identity(t: TyTree, bits: Symbol)
    requires
        !mentions(t, bits),
    ensures
        subst_tree(t, Map::empty(), bits) == t,
{
    lemma_subst_unused_identity(t, Map::empty(), bits);
}

} // verus!
