//! Questions the checker asks of a type: is it numeric, mutable, a bit type,
//! something that can be pinned, or does it hold a mutable type anywhere.
use vstd::prelude::*;

use crate::const_eval::symbol_text;
use crate::ty::{children_below, fields_below, ids_below, store_wf, Symbol, TyField, TyId, TyKind, TyNode, TyStore};

verus! {

/// Whether a `mut` type occurs anywhere in `ty`.
pub open spec fn contains_mut(tys: Seq<TyNode>, ty: TyId) -> bool
    decreases ty.0,
    when store_wf(tys) && ty.0 < tys.len()
{
    match tys[ty.0 as int] {
        TyNode::Mut { .. } => true,
        TyNode::Named { args, .. } => exists|k: int| 0 <= k < args.len() && contains_mut(tys, #[trigger] args[k]),
        TyNode::Pi { binder_ty, body, .. } => contains_mut(tys, binder_ty) || contains_mut(tys, body),
        TyNode::Arrow { params, ret, .. } => (exists|k: int|
            0 <= k < params.len() && contains_mut(tys, #[trigger] params[k])) || contains_mut(tys, ret),
        TyNode::Sum { left, right } => contains_mut(tys, left) || contains_mut(tys, right),
        TyNode::Tuple { items } => exists|k: int| 0 <= k < items.len() && contains_mut(tys, #[trigger] items[k]),
        TyNode::Sequence { item } => contains_mut(tys, item),
        TyNode::Range { bound } => contains_mut(tys, bound),
        TyNode::Array { item, .. } => contains_mut(tys, item),
        TyNode::AnyShape { capability } => contains_mut(tys, capability),
        TyNode::SomeShape { capability } => contains_mut(tys, capability),
        TyNode::Record { fields } => exists|k: int|
            0 <= k < fields.len() && contains_mut(tys, (#[trigger] fields[k]).ty),
        _ => false,
    }
}

fn any_contains_mut(store: &TyStore, ids: &Vec<TyId>, Ghost(parent): Ghost<TyId>) -> (r: bool)
    requires
        parent.0 < store.kinds().len(),
        ids_below(ids@, parent.0 as int),
    ensures
        r == exists|k: int| 0 <= k < ids@.len() && contains_mut(store.kinds(), #[trigger] ids@[k]),
    decreases parent.0, 0nat,
{
    let mut k: usize = 0;
    while k < ids.len()
        invariant
            parent.0 < store.kinds().len(),
            ids_below(ids@, parent.0 as int),
            k <= ids.len(),
            forall|j: int| 0 <= j < k ==> !contains_mut(store.kinds(), #[trigger] ids@[j]),
        decreases ids.len() - k,
    {
        assert(ids@[k as int].0 < parent.0);
        if contains_mut_ty(store, ids[k]) {
            return true;
        }
        k = k + 1;
    }
    false
}

fn any_field_contains_mut(store: &TyStore, fields: &Vec<TyField>, Ghost(parent): Ghost<TyId>) -> (r: bool)
    requires
        parent.0 < store.kinds().len(),
        fields_below(fields@, parent.0 as int),
    ensures
        r == exists|k: int| 0 <= k < fields@.len() && contains_mut(store.kinds(), (#[trigger] fields@[k]).ty),
    decreases parent.0, 0nat,
{
    let mut k: usize = 0;
    while k < fields.len()
        invariant
            parent.0 < store.kinds().len(),
            fields_below(fields@, parent.0 as int),
            k <= fields.len(),
            forall|j: int| 0 <= j < k ==> !contains_mut(store.kinds(), (#[trigger] fields@[j]).ty),
        decreases fields.len() - k,
    {
        assert(fields@[k as int].ty.0 < parent.0);
        if contains_mut_ty(store, fields[k].ty) {
            return true;
        }
        k = k + 1;
    }
    false
}

/// Whether a `mut` type occurs anywhere in `ty`.
pub fn contains_mut_ty(store: &TyStore, ty: TyId) -> (r: bool)
    requires
        ty.0 < store.kinds().len(),
    ensures
        r == contains_mut(store.kinds(), ty),
    decreases ty.0, 1nat,
{
    proof {
        use_type_invariant(store);
        assert(children_below(store.kinds()[ty.0 as int], ty.0 as int));
    }
    match store.kind(ty) {
        TyKind::Mut { .. } => true,
        TyKind::Named { args, .. } => any_contains_mut(store, args, Ghost(ty)),
        TyKind::Pi { binder_ty, body, .. } => contains_mut_ty(store, *binder_ty) || contains_mut_ty(
            store,
            *body,
        ),
        TyKind::Arrow { params, ret, .. } => any_contains_mut(store, params, Ghost(ty))
            || contains_mut_ty(store, *ret),
        TyKind::Sum { left, right } => contains_mut_ty(store, *left) || contains_mut_ty(store, *right),
        TyKind::Tuple { items } => any_contains_mut(store, items, Ghost(ty)),
        TyKind::Sequence { item } => contains_mut_ty(store, *item),
        TyKind::Range { bound } => contains_mut_ty(store, *bound),
        TyKind::Array { item, .. } => contains_mut_ty(store, *item),
        TyKind::AnyShape { capability } => contains_mut_ty(store, *capability),
        TyKind::SomeShape { capability } => contains_mut_ty(store, *capability),
        TyKind::Record { fields } => any_field_contains_mut(store, fields, Ghost(ty)),
        _ => false,
    }
}

/// `ty` with every outer `mut` taken off.
pub open spec fn peel_mut(tys: Seq<TyNode>, ty: TyId) -> TyId
    decreases ty.0,
    when store_wf(tys) && ty.0 < tys.len()
{
    match tys[ty.0 as int] {
        TyNode::Mut { inner } => peel_mut(tys, inner),
        _ => ty,
    }
}

/// `ty` with every outer `mut` taken off.
pub fn peel_mut_ty(store: &TyStore, ty: TyId) -> (r: TyId)
    requires
        ty.0 < store.kinds().len(),
    ensures
        r == peel_mut(store.kinds(), ty),
        r.0 < store.kinds().len(),
        !(store.kinds()[r.0 as int] is Mut),
{
    proof {
        use_type_invariant(store);
    }
    let mut t = ty;
    loop
        invariant
            store_wf(store.kinds()),
            t.0 < store.kinds().len(),
            peel_mut(store.kinds(), ty) == peel_mut(store.kinds(), t),
        decreases t.0,
    {
        match store.kind(t) {
            TyKind::Mut { inner } => {
                assert(children_below(store.kinds()[t.0 as int], t.0 as int));
                t = *inner;
            },
            _ => {
                return t;
            },
        }
    }
}

/// Whether `ty` is a `mut` type.
pub fn is_mut_ty(store: &TyStore, ty: TyId) -> (r: bool)
    requires
        ty.0 < store.kinds().len(),
    ensures
        r == (store.kinds()[ty.0 as int] is Mut),
{
    match store.kind(ty) {
        TyKind::Mut { .. } => true,
        _ => false,
    }
}

/// The integer types, natural literals among them.
pub open spec fn is_integer(k: TyNode) -> bool {
    match k {
        TyNode::Int | TyNode::Nat | TyNode::Int8 | TyNode::Int16 | TyNode::Int32 | TyNode::Int64
        | TyNode::Nat8 | TyNode::Nat16 | TyNode::Nat32 | TyNode::Nat64 | TyNode::NatLit(_) => true,
        _ => false,
    }
}

/// The floating-point types.
pub open spec fn is_float(k: TyNode) -> bool {
    match k {
        TyNode::Float | TyNode::Float32 | TyNode::Float64 => true,
        _ => false,
    }
}

/// Whether `ty` is an integer type.
pub fn is_integer_ty(store: &TyStore, ty: TyId) -> (r: bool)
    requires
        ty.0 < store.kinds().len(),
    ensures
        r == is_integer(store.kinds()[ty.0 as int]),
{
    match store.kind(ty) {
        TyKind::Int | TyKind::Nat | TyKind::Int8 | TyKind::Int16 | TyKind::Int32 | TyKind::Int64
        | TyKind::Nat8 | TyKind::Nat16 | TyKind::Nat32 | TyKind::Nat64 | TyKind::NatLit(_) => true,
        _ => false,
    }
}

/// Whether `ty` is a floating-point type.
pub fn is_float_ty(store: &TyStore, ty: TyId) -> (r: bool)
    requires
        ty.0 < store.kinds().len(),
    ensures
        r == is_float(store.kinds()[ty.0 as int]),
{
    match store.kind(ty) {
        TyKind::Float | TyKind::Float32 | TyKind::Float64 => true,
        _ => false,
    }
}

/// Whether `ty` is an integer or floating-point type.
pub fn is_numeric_ty(store: &TyStore, ty: TyId) -> (r: bool)
    requires
        ty.0 < store.kinds().len(),
    ensures
        r == (is_integer(store.kinds()[ty.0 as int]) || is_float(store.kinds()[ty.0 as int])),
{
    is_integer_ty(store, ty) || is_float_ty(store, ty)
}

/// Whether `ty` is a bit type: `Bits` of a width, or the named type `bits`
/// applied to one argument.
pub fn is_bits_ty(store: &TyStore, ty: TyId, bits: Symbol) -> (r: bool)
    requires
        ty.0 < store.kinds().len(),
    ensures
        r == match store.kinds()[ty.0 as int] {
            TyNode::Bits { .. } => true,
            TyNode::Named { name, args } => name == bits && args.len() == 1,
            _ => false,
        },
{
    match store.kind(ty) {
        TyKind::Bits { .. } => true,
        TyKind::Named { name, args } => *name == bits && args.len() == 1,
        _ => false,
    }
}

/// The types a value can be pinned at: strings, sequences, arrays, ranges,
/// named types and records.
pub open spec fn is_pinnable(k: TyNode) -> bool {
    match k {
        TyNode::String | TyNode::Sequence { .. } | TyNode::Array { .. } | TyNode::Range { .. }
        | TyNode::Named { .. } | TyNode::Record { .. } => true,
        _ => false,
    }
}

/// Whether a value of type `ty` can be pinned.
pub fn is_pinnable_ty(store: &TyStore, ty: TyId) -> (r: bool)
    requires
        ty.0 < store.kinds().len(),
    ensures
        r == is_pinnable(store.kinds()[ty.0 as int]),
{
    match store.kind(ty) {
        TyKind::String | TyKind::Sequence { .. } | TyKind::Array { .. } | TyKind::Range { .. }
        | TyKind::Named { .. } | TyKind::Record { .. } => true,
        _ => false,
    }
}

/// Whether `ty` is a pin: a named type whose name reads `Pin`.
pub fn is_pin_ty(store: &TyStore, names: &Vec<String>, ty: TyId) -> (r: bool)
    requires
        ty.0 < store.kinds().len(),
    ensures
        r == match store.kinds()[ty.0 as int] {
            TyNode::Named { name, .. } => symbol_text(names@.map_values(|t: String| t@), name)
                == "Pin"@,
            _ => false,
        },
{
    match store.kind(ty) {
        TyKind::Named { name, .. } => {
            if (name.0 as usize) < names.len() {
                crate::text::text_eq(names[name.0 as usize].as_str(), "Pin")
            } else {
                proof {
                    reveal_strlit("Pin");
                    assert("Pin"@.len() == 3);
                    assert(symbol_text(names@.map_values(|t: String| t@), *name).len() == 0);
                }
                false
            }
        },
        _ => false,
    }
}

} // verus!
