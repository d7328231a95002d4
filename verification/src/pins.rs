//! Pinned values must not be captured: finding the first use of a pinned
//! binding inside a lambda or a callable `let` body.
use vstd::prelude::*;

use crate::expr::{expr_ids_below, expr_kind_wf, exprs_wf, ExprForm, ExprId, ExprKind, ExprStore};

verus! {

/// The first use of binding `pin` inside a closure found from `e`, where
/// `in_lambda` tells whether `e` is already inside one. Sub-expressions are
/// searched in order; a lambda's body and a callable `let`'s value are inside
/// a closure; callable types, array types and data and shape declarations
/// are not searched.
pub open spec fn pin_capture(exprs: Seq<ExprKind>, bindings: int, e: ExprId, pin: u32, in_lambda: bool) -> Option<ExprId>
    decreases e.0, 1nat, 0nat,
    when exprs_wf(exprs, bindings) && e.0 < exprs.len()
{
    match exprs[e.0 as int] {
        ExprKind::Name { binding, .. } => if in_lambda && binding == Some(pin) {
            Some(e)
        } else {
            None
        },
        ExprKind::Field { base, .. } => pin_capture(exprs, bindings, base, pin, in_lambda),
        ExprKind::Variant { args, .. } => pin_capture_in(exprs, bindings, e, args@, pin, in_lambda, 0),
        ExprKind::Prefix { expr, .. } => pin_capture(exprs, bindings, expr, pin, in_lambda),
        ExprKind::Binary { left, right, .. } => match pin_capture(exprs, bindings, left, pin, in_lambda) {
            Some(n) => Some(n),
            None => pin_capture(exprs, bindings, right, pin, in_lambda),
        },
        ExprKind::Sequence { exprs: list } => pin_capture_in(exprs, bindings, e, list@, pin, in_lambda, 0),
        ExprKind::Tuple { items } => pin_capture_in(exprs, bindings, e, items@, pin, in_lambda, 0),
        ExprKind::Let { value, callable, .. } => pin_capture(exprs, bindings, value, pin, in_lambda || callable),
        ExprKind::Other { form, children } => match form {
            ExprForm::Lambda => pin_capture_in(exprs, bindings, e, children@, pin, true, 0),
            ExprForm::Pi | ExprForm::ArrayTy | ExprForm::Data | ExprForm::Shape => None,
            _ => pin_capture_in(exprs, bindings, e, children@, pin, in_lambda, 0),
        },
        _ => None,
    }
}

/// The first use found by `pin_capture` in `list[k..]`, children of `parent`.
pub open spec fn pin_capture_in(
    exprs: Seq<ExprKind>,
    bindings: int,
    parent: ExprId,
    list: Seq<ExprId>,
    pin: u32,
    in_lambda: bool,
    k: int,
) -> Option<ExprId>
    decreases parent.0, 0nat, list.len() - k,
    when exprs_wf(exprs, bindings) && parent.0 < exprs.len() && expr_ids_below(list, parent.0 as int) && 0 <= k
{
    if k >= list.len() {
        None
    } else {
        match pin_capture(exprs, bindings, list[k], pin, in_lambda) {
            Some(n) => Some(n),
            None => pin_capture_in(exprs, bindings, parent, list, pin, in_lambda, k + 1),
        }
    }
}

/// `n` is a use of binding `pin`.
pub open spec fn is_use_of(exprs: Seq<ExprKind>, n: ExprId, pin: u32) -> bool {
    &&& n.0 < exprs.len()
    &&& exprs[n.0 as int] matches ExprKind::Name { binding: Some(b), .. }
    &&& exprs[n.0 as int]->binding == Some(pin)
}

fn capture_in_list(
    store: &ExprStore,
    parent: ExprId,
    list: &Vec<ExprId>,
    pin: u32,
    in_lambda: bool,
) -> (r: Option<ExprId>)
    requires
        parent.0 < store.kinds().len(),
        expr_ids_below(list@, parent.0 as int),
    ensures
        r == pin_capture_in(store.kinds(), store.bindings() as int, parent, list@, pin, in_lambda, 0),
        r matches Some(n) ==> is_use_of(store.kinds(), n, pin),
    decreases parent.0, 0nat,
{
    proof {
        use_type_invariant(store);
    }
    let ghost exprs = store.kinds();
    let ghost bindings = store.bindings() as int;
    let mut k: usize = 0;
    while k < list.len()
        invariant
            exprs == store.kinds(),
            bindings == store.bindings() as int,
            exprs_wf(exprs, bindings),
            parent.0 < exprs.len(),
            expr_ids_below(list@, parent.0 as int),
            k <= list.len(),
            pin_capture_in(exprs, bindings, parent, list@, pin, in_lambda, 0) == pin_capture_in(
                exprs,
                bindings,
                parent,
                list@,
                pin,
                in_lambda,
                k as int,
            ),
        decreases list.len() - k,
    {
        let child = list[k];
        assert(child.0 < parent.0);
        if let Some(n) = capture_in(store, child, pin, in_lambda) {
            return Some(n);
        }
        k = k + 1;
    }
    None
}

fn capture_in(store: &ExprStore, e: ExprId, pin: u32, in_lambda: bool) -> (r: Option<ExprId>)
    requires
        e.0 < store.kinds().len(),
    ensures
        r == pin_capture(store.kinds(), store.bindings() as int, e, pin, in_lambda),
        r matches Some(n) ==> is_use_of(store.kinds(), n, pin),
    decreases e.0, 1nat,
{
    proof {
        use_type_invariant(store);
        assert(expr_kind_wf(store.kinds()[e.0 as int], e.0 as int, store.bindings() as int));
    }
    match store.kind(e) {
        ExprKind::Name { binding, .. } => {
            if in_lambda && *binding == Some(pin) {
                Some(e)
            } else {
                None
            }
        },
        ExprKind::Field { base, .. } => capture_in(store, *base, pin, in_lambda),
        ExprKind::Variant { args, .. } => capture_in_list(store, e, args, pin, in_lambda),
        ExprKind::Prefix { expr, .. } => capture_in(store, *expr, pin, in_lambda),
        ExprKind::Binary { left, right, .. } => match capture_in(store, *left, pin, in_lambda) {
            Some(n) => Some(n),
            None => capture_in(store, *right, pin, in_lambda),
        },
        ExprKind::Sequence { exprs } => capture_in_list(store, e, exprs, pin, in_lambda),
        ExprKind::Tuple { items } => capture_in_list(store, e, items, pin, in_lambda),
        ExprKind::Let { value, callable, .. } => capture_in(store, *value, pin, in_lambda || *callable),
        ExprKind::Other { form, children } => match form {
            ExprForm::Lambda => capture_in_list(store, e, children, pin, true),
            ExprForm::Pi | ExprForm::ArrayTy | ExprForm::Data | ExprForm::Shape => None,
            _ => capture_in_list(store, e, children, pin, in_lambda),
        },
        _ => None,
    }
}

/// The first use of the pinned binding `pin` captured by a closure in
/// `expr`, if any; `in_lambda` tells whether `expr` is already inside one.
pub fn find_pin_capture_in_expr(store: &ExprStore, expr: ExprId, pin: u32, in_lambda: bool) -> (r: Option<ExprId>)
    requires
        expr.0 < store.kinds().len(),
    ensures
        r == pin_capture(store.kinds(), store.bindings() as int, expr, pin, in_lambda),
        r matches Some(n) ==> is_use_of(store.kinds(), n, pin),
{
    capture_in(store, expr, pin, in_lambda)
}

/// The first use of the pinned binding `pin` captured by a closure in the
/// body of a `pin` expression.
pub fn find_pin_capture_in_closure(store: &ExprStore, body: ExprId, pin: u32) -> (r: Option<ExprId>)
    requires
        body.0 < store.kinds().len(),
    ensures
        r == pin_capture(store.kinds(), store.bindings() as int, body, pin, false),
        r matches Some(n) ==> is_use_of(store.kinds(), n, pin),
{
    capture_in(store, body, pin, false)
}

} // verus!
