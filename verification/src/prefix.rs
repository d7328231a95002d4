//! Prefix operators and pins: the type of `-e`, `not e`, `mut e` and
//! `known e`, the type of a compile-time value, and what a `pin` expression
//! reports.
use vstd::prelude::*;

use crate::binary_types::{builtins_in, Builtins};
use crate::const_eval::{symbol_text, ComptimeValue};
use crate::diag::SemaDiagKind;
use crate::expr::PrefixOp;
use crate::matching::{ty_matches, ty_matches_spec};
use crate::ty::{Symbol, TyId, TyNode, TyStore};
use crate::ty_props::{is_bits_ty, is_float, is_integer, is_numeric_ty, is_pin_ty, is_pinnable, is_pinnable_ty};

verus! {

/// The ids of the built-in types that compile-time values have.
#[derive(Debug, Clone, Copy, PartialEq, Eq, Structural)]
pub struct ValueTys {
    pub unit: TyId,
    pub int_: TyId,
    pub nat: TyId,
    pub float_: TyId,
    pub string_: TyId,
    pub rune: TyId,
    pub cptr: TyId,
    pub syntax: TyId,
    pub any: TyId,
}

/// The type of a compile-time value: its built-in type, and `Any` for values
/// of other kinds.
pub open spec fn value_ty(t: ValueTys, v: ComptimeValue) -> TyId {
    match v {
        ComptimeValue::Unit => t.unit,
        ComptimeValue::Int(_) => t.int_,
        ComptimeValue::Nat(_) => t.nat,
        ComptimeValue::Float(_) => t.float_,
        ComptimeValue::String(_) => t.string_,
        ComptimeValue::Rune(_) => t.rune,
        ComptimeValue::CPtr(_) => t.cptr,
        ComptimeValue::Syntax(_) => t.syntax,
        ComptimeValue::Other(_) => t.any,
    }
}

/// The type of a compile-time value.
pub fn comptime_value_ty(t: ValueTys, v: &ComptimeValue) -> (r: TyId)
    ensures
        r == value_ty(t, *v),
{
    match v {
        ComptimeValue::Unit => t.unit,
        ComptimeValue::Int(_) => t.int_,
        ComptimeValue::Nat(_) => t.nat,
        ComptimeValue::Float(_) => t.float_,
        ComptimeValue::String(_) => t.string_,
        ComptimeValue::Rune(_) => t.rune,
        ComptimeValue::CPtr(_) => t.cptr,
        ComptimeValue::Syntax(_) => t.syntax,
        ComptimeValue::Other(_) => t.any,
    }
}

/// The type a prefix expression gets.
#[derive(Debug, Clone, Copy, PartialEq, Eq, Structural)]
pub enum PrefixTy {
    /// This type.
    Id(TyId),
    /// `mut` of this type, to be added to the store.
    MutOf(TyId),
}

/// The type of a prefix expression, and the diagnostic it reports.
#[derive(Debug, Clone, Copy, PartialEq, Eq, Structural)]
pub struct PrefixTyping {
    pub ty: PrefixTy,
    pub issue: Option<SemaDiagKind>,
}

/// The typing of `op e` where `e` has type `inner`: `-` keeps a numeric
/// type, `not` keeps `Bool` and bit types, `mut` makes a mutable type, and
/// `known` (with no compile-time value) keeps the type; anything else is
/// reported and has the unknown type.
pub open spec fn prefix_spec(tys: Seq<TyNode>, b: Builtins, bits: Symbol, op: PrefixOp, inner: TyId) -> PrefixTyping {
    match op {
        PrefixOp::Neg => if is_integer(tys[inner.0 as int]) || is_float(tys[inner.0 as int]) {
            PrefixTyping { ty: PrefixTy::Id(inner), issue: None }
        } else {
            PrefixTyping { ty: PrefixTy::Id(b.unknown), issue: Some(SemaDiagKind::NumericOperandRequired) }
        },
        PrefixOp::Not => if ty_matches_spec(tys, b.bool_, inner) || match tys[inner.0 as int] {
            TyNode::Bits { .. } => true,
            TyNode::Named { name, args } => name == bits && args.len() == 1,
            _ => false,
        } {
            PrefixTyping { ty: PrefixTy::Id(inner), issue: None }
        } else {
            PrefixTyping { ty: PrefixTy::Id(b.unknown), issue: Some(SemaDiagKind::UnaryLogicalOperatorDomainMismatch) }
        },
        PrefixOp::Mut => PrefixTyping { ty: PrefixTy::MutOf(inner), issue: None },
        PrefixOp::Known => PrefixTyping { ty: PrefixTy::Id(inner), issue: None },
    }
}

/// The typing of `op e`, where `e` has type `inner`.
pub fn prefix_typing(store: &TyStore, b: Builtins, bits: Symbol, op: PrefixOp, inner: TyId) -> (r: PrefixTyping)
    requires
        builtins_in(store.kinds(), b),
        inner.0 < store.kinds().len(),
    ensures
        r == prefix_spec(store.kinds(), b, bits, op, inner),
{
    match op {
        PrefixOp::Neg => {
            if is_numeric_ty(store, inner) {
                PrefixTyping { ty: PrefixTy::Id(inner), issue: None }
            } else {
                PrefixTyping { ty: PrefixTy::Id(b.unknown), issue: Some(SemaDiagKind::NumericOperandRequired) }
            }
        },
        PrefixOp::Not => {
            if ty_matches(store, b.bool_, inner) || is_bits_ty(store, inner, bits) {
                PrefixTyping { ty: PrefixTy::Id(inner), issue: None }
            } else {
                PrefixTyping {
                    ty: PrefixTy::Id(b.unknown),
                    issue: Some(SemaDiagKind::UnaryLogicalOperatorDomainMismatch),
                }
            }
        },
        PrefixOp::Mut => PrefixTyping { ty: PrefixTy::MutOf(inner), issue: None },
        PrefixOp::Known => PrefixTyping { ty: PrefixTy::Id(inner), issue: None },
    }
}

/// The typing of `known e`: the type of `e`'s compile-time value when it has
/// one; else `e`'s own type, reported as a run-time value where a
/// compile-time one is asked for.
pub fn known_typing(t: ValueTys, value: &Option<ComptimeValue>, inner: TyId) -> (r: PrefixTyping)
    ensures
        r == match *value {
            Some(v) => PrefixTyping { ty: PrefixTy::Id(value_ty(t, v)), issue: None },
            None => PrefixTyping { ty: PrefixTy::Id(inner), issue: Some(SemaDiagKind::RuntimeValueInComptimeContext) },
        },
{
    match value {
        Some(v) => PrefixTyping { ty: PrefixTy::Id(comptime_value_ty(t, v)), issue: None },
        None => PrefixTyping { ty: PrefixTy::Id(inner), issue: Some(SemaDiagKind::RuntimeValueInComptimeContext) },
    }
}

/// What a `pin` expression reports, in order: a pin outside an `unsafe`
/// block, a value of a type that cannot be pinned, the pinned value captured
/// by a closure in the body, and the pin escaping as the body's value.
pub open spec fn pin_issues_spec(
    tys: Seq<TyNode>,
    names: Seq<Seq<char>>,
    in_unsafe: bool,
    target: TyId,
    captured: bool,
    body: TyId,
) -> Seq<SemaDiagKind> {
    let a: Seq<SemaDiagKind> = if in_unsafe {
        Seq::empty()
    } else {
        seq![SemaDiagKind::PinRequiresUnsafeBlock]
    };
    let b: Seq<SemaDiagKind> = if is_pinnable(tys[target.0 as int]) {
        Seq::empty()
    } else {
        seq![SemaDiagKind::UnsupportedPinTarget]
    };
    let c: Seq<SemaDiagKind> = if captured {
        seq![SemaDiagKind::PinnedValueCapturedByClosure]
    } else {
        Seq::empty()
    };
    let d: Seq<SemaDiagKind> = if match tys[body.0 as int] {
        TyNode::Named { name, .. } => symbol_text(names, name) == "Pin"@,
        _ => false,
    } {
        seq![SemaDiagKind::PinnedValueEscapes]
    } else {
        Seq::empty()
    };
    a + b + c + d
}

/// What a `pin` of a value of type `target` reports, given whether it stands
/// in an `unsafe` block, whether a closure in its body captures the pinned
/// name, and the type of its body.
pub fn pin_expr_issues(
    store: &TyStore,
    names: &Vec<String>,
    in_unsafe: bool,
    target: TyId,
    captured: bool,
    body: TyId,
) -> (r: Vec<SemaDiagKind>)
    requires
        target.0 < store.kinds().len(),
        body.0 < store.kinds().len(),
    ensures
        r@ == pin_issues_spec(store.kinds(), names@.map_values(|t: String| t@), in_unsafe, target, captured, body),
{
    let mut out: Vec<SemaDiagKind> = Vec::new();
    if !in_unsafe {
        out.push(SemaDiagKind::PinRequiresUnsafeBlock);
    }
    if !is_pinnable_ty(store, target) {
        out.push(SemaDiagKind::UnsupportedPinTarget);
    }
    if captured {
        out.push(SemaDiagKind::PinnedValueCapturedByClosure);
    }
    if is_pin_ty(store, names, body) {
        out.push(SemaDiagKind::PinnedValueEscapes);
    }
    proof {
        assert(out@ =~= pin_issues_spec(store.kinds(), names@.map_values(|t: String| t@), in_unsafe, target, captured, body));
    }
    out
}

} // verus!
