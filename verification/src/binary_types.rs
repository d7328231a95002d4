//! The types of arithmetic, logical and range operands and results.
use vstd::prelude::*;

use crate::expr::BinaryOp;
use crate::matching::{ty_matches, ty_matches_spec};
use crate::ty::{Symbol, TyId, TyKind, TyNode, TyStore};
use crate::ty_props::{is_float, is_float_ty, peel_mut, peel_mut_ty};

verus! {

/// The ids of the built-in types the operator rules use.
#[derive(Debug, Clone, Copy, PartialEq, Eq, Structural)]
pub struct Builtins {
    pub unknown: TyId,
    pub bool_: TyId,
    pub int_: TyId,
    pub nat: TyId,
    pub float_: TyId,
    pub string_: TyId,
}

/// Every built-in id names a type of the store `tys`.
pub open spec fn builtins_in(tys: Seq<TyNode>, b: Builtins) -> bool {
    &&& b.unknown.0 < tys.len()
    &&& b.bool_.0 < tys.len()
    &&& b.int_.0 < tys.len()
    &&& b.nat.0 < tys.len()
    &&& b.float_.0 < tys.len()
    &&& b.string_.0 < tys.len()
}

/// The mismatches a check of `found` against `expected` reports: none when
/// `found` matches, else the pair.
pub open spec fn mismatch_of(tys: Seq<TyNode>, expected: TyId, found: TyId) -> Seq<(TyId, TyId)> {
    if ty_matches_spec(tys, expected, found) {
        Seq::empty()
    } else {
        seq![(expected, found)]
    }
}

/// Checks `found` against `expected`, adding a reported mismatch to `out`.
fn check_mismatch(store: &TyStore, expected: TyId, found: TyId, out: &mut Vec<(TyId, TyId)>)
    requires
        expected.0 < store.kinds().len(),
        found.0 < store.kinds().len(),
    ensures
        final(out)@ == old(out)@ + mismatch_of(store.kinds(), expected, found),
{
    if !ty_matches(store, expected, found) {
        out.push((expected, found));
    }
    assert(final(out)@ =~= old(out)@ + mismatch_of(store.kinds(), expected, found));
}

/// The result type of an arithmetic operator: the operands' type when they
/// are the same type, else `Float` when either is a floating-point type and
/// `Int` otherwise; each operand that does not match the result is a
/// mismatch.
pub open spec fn numeric_result(tys: Seq<TyNode>, b: Builtins, left: TyId, right: TyId) -> TyId {
    if left == right {
        left
    } else if is_float(tys[left.0 as int]) || is_float(tys[right.0 as int]) {
        b.float_
    } else {
        b.int_
    }
}

/// The result type of an arithmetic operator on `left` and `right`, and the
/// mismatches it reports, in order (left operand first).
pub fn numeric_binary_type(store: &TyStore, b: Builtins, left: TyId, right: TyId) -> (r: (TyId, Vec<(TyId, TyId)>))
    requires
        builtins_in(store.kinds(), b),
        left.0 < store.kinds().len(),
        right.0 < store.kinds().len(),
    ensures
        r.0 == numeric_result(store.kinds(), b, left, right),
        r.1@ == mismatch_of(store.kinds(), r.0, left) + mismatch_of(store.kinds(), r.0, right),
{
    let ty = if is_float_ty(store, left) || is_float_ty(store, right) {
        if left == right {
            left
        } else {
            b.float_
        }
    } else {
        if left == right {
            left
        } else {
            b.int_
        }
    };
    let mut out: Vec<(TyId, TyId)> = Vec::new();
    check_mismatch(store, ty, left, &mut out);
    check_mismatch(store, ty, right, &mut out);
    assert(out@ =~= mismatch_of(store.kinds(), ty, left) + mismatch_of(store.kinds(), ty, right));
    (ty, out)
}

/// The type of `+` on strings: `String`, with each operand that is not a
/// string reported.
pub fn string_concat_type(store: &TyStore, b: Builtins, left: TyId, right: TyId) -> (r: (TyId, Vec<(TyId, TyId)>))
    requires
        builtins_in(store.kinds(), b),
        left.0 < store.kinds().len(),
        right.0 < store.kinds().len(),
    ensures
        r.0 == b.string_,
        r.1@ == mismatch_of(store.kinds(), b.string_, left) + mismatch_of(store.kinds(), b.string_, right),
{
    let mut out: Vec<(TyId, TyId)> = Vec::new();
    check_mismatch(store, b.string_, left, &mut out);
    check_mismatch(store, b.string_, right, &mut out);
    assert(out@ =~= mismatch_of(store.kinds(), b.string_, left) + mismatch_of(store.kinds(), b.string_, right));
    (b.string_, out)
}

/// Two bit types of one width: `Bits` of equal widths, or `bits` applied to
/// one argument on both sides with the right matching the left.
pub open spec fn matching_bits(tys: Seq<TyNode>, bits: Symbol, left: TyId, right: TyId) -> bool {
    match (tys[left.0 as int], tys[right.0 as int]) {
        (TyNode::Bits { width: l }, TyNode::Bits { width: r }) => l == r,
        (TyNode::Named { name: ln, args: la }, TyNode::Named { name: rn, args: ra }) => ln == bits
            && rn == bits && la.len() == 1 && ra.len() == 1 && ty_matches_spec(tys, left, right),
        _ => false,
    }
}

/// Whether `left` and `right` are bit types of one width.
pub fn matching_bits_tys(store: &TyStore, bits: Symbol, left: TyId, right: TyId) -> (r: bool)
    requires
        left.0 < store.kinds().len(),
        right.0 < store.kinds().len(),
    ensures
        r == matching_bits(store.kinds(), bits, left, right),
{
    match (store.kind(left), store.kind(right)) {
        (TyKind::Bits { width: l }, TyKind::Bits { width: r }) => *l == *r,
        (TyKind::Named { name: ln, args: la }, TyKind::Named { name: rn, args: ra }) => {
            if *ln == bits && *rn == bits {
                la.len() == 1 && ra.len() == 1 && ty_matches(store, left, right)
            } else {
                false
            }
        },
        _ => false,
    }
}

/// The type of a logical operator: `Bool` when both operands match `Bool`,
/// the left operand's type when both are bit types of one width, else
/// `Unknown` with a domain mismatch reported (`true` in the result).
pub open spec fn logical_result(tys: Seq<TyNode>, b: Builtins, bits: Symbol, left: TyId, right: TyId) -> (TyId, bool) {
    if ty_matches_spec(tys, b.bool_, left) && ty_matches_spec(tys, b.bool_, right) {
        (b.bool_, false)
    } else if matching_bits(tys, bits, left, right) {
        (left, false)
    } else {
        (b.unknown, true)
    }
}

/// The type of a logical operator on `left` and `right`, and whether a
/// domain mismatch is reported.
pub fn logical_binary_type(store: &TyStore, b: Builtins, bits: Symbol, left: TyId, right: TyId) -> (r: (TyId, bool))
    requires
        builtins_in(store.kinds(), b),
        left.0 < store.kinds().len(),
        right.0 < store.kinds().len(),
    ensures
        r == logical_result(store.kinds(), b, bits, left, right),
{
    if ty_matches(store, b.bool_, left) && ty_matches(store, b.bool_, right) {
        return (b.bool_, false);
    }
    if matching_bits_tys(store, bits, left, right) {
        return (left, false);
    }
    (b.unknown, true)
}

/// The name of a logical operator in diagnostics.
pub open spec fn logical_operator_text(op: BinaryOp) -> Seq<char> {
    match op {
        BinaryOp::Or => "or"@,
        BinaryOp::Xor => "xor"@,
        BinaryOp::And => "and"@,
        _ => "<operator>"@,
    }
}

/// How a diagnostic names a logical operator.
pub fn logical_operator_name(op: BinaryOp) -> (s: &'static str)
    ensures
        s@ == logical_operator_text(op),
{
    match op {
        BinaryOp::Or => "or",
        BinaryOp::Xor => "xor",
        BinaryOp::And => "and",
        _ => "<operator>",
    }
}

/// A range bound's type: a natural literal's type is `Nat`.
pub open spec fn range_bound(tys: Seq<TyNode>, b: Builtins, ty: TyId) -> TyId {
    if tys[ty.0 as int] is NatLit {
        b.nat
    } else {
        ty
    }
}

/// The type of a range bound: `Nat` for a natural literal, else the type.
pub fn normalize_range_bound_ty(store: &TyStore, b: Builtins, ty: TyId) -> (r: TyId)
    requires
        ty.0 < store.kinds().len(),
    ensures
        r == range_bound(store.kinds(), b, ty),
{
    match store.kind(ty) {
        TyKind::NatLit(_) => b.nat,
        _ => ty,
    }
}

/// The item type of a range over `left ..= right` after normalizing the
/// bounds: their common type; the left one when both are `Int` or `Nat`
/// (the right is checked against it); else `Int`, with both checked against
/// it.
pub open spec fn range_item(tys: Seq<TyNode>, b: Builtins, left: TyId, right: TyId) -> (TyId, Seq<(TyId, TyId)>) {
    let l = range_bound(tys, b, left);
    let r = range_bound(tys, b, right);
    if l == r {
        (l, Seq::empty())
    } else if (l == b.int_ || l == b.nat) && (r == b.int_ || r == b.nat) {
        (l, mismatch_of(tys, l, r))
    } else {
        (b.int_, mismatch_of(tys, b.int_, l) + mismatch_of(tys, b.int_, r))
    }
}

/// The item type of a range between bounds of types `left` and `right`, and
/// the mismatches it reports.
pub fn range_item_ty(store: &TyStore, b: Builtins, left: TyId, right: TyId) -> (r: (TyId, Vec<(TyId, TyId)>))
    requires
        builtins_in(store.kinds(), b),
        left.0 < store.kinds().len(),
        right.0 < store.kinds().len(),
    ensures
        (r.0, r.1@) == range_item(store.kinds(), b, left, right),
{
    let l = normalize_range_bound_ty(store, b, left);
    let r = normalize_range_bound_ty(store, b, right);
    let mut out: Vec<(TyId, TyId)> = Vec::new();
    if l == r {
        return (l, out);
    }
    if (l == b.int_ || l == b.nat) && (r == b.int_ || r == b.nat) {
        check_mismatch(store, l, r, &mut out);
        assert(out@ =~= mismatch_of(store.kinds(), l, r));
        return (l, out);
    }
    check_mismatch(store, b.int_, l, &mut out);
    check_mismatch(store, b.int_, r, &mut out);
    assert(out@ =~= mismatch_of(store.kinds(), b.int_, l) + mismatch_of(store.kinds(), b.int_, r));
    (b.int_, out)
}

/// The item type of a range type, seen through any `mut`.
pub fn range_item_type(store: &TyStore, ty: TyId) -> (r: Option<TyId>)
    requires
        ty.0 < store.kinds().len(),
    ensures
        r == match store.kinds()[peel_mut(store.kinds(), ty).0 as int] {
            TyNode::Range { bound } => Some(bound),
            _ => None,
        },
{
    let inner = peel_mut_ty(store, ty);
    match store.kind(inner) {
        TyKind::Range { bound } => Some(*bound),
        _ => None,
    }
}

/// How a binary expression is typed.
#[derive(Debug, Clone, Copy, PartialEq, Eq, Structural)]
pub enum BinaryRule {
    /// An assignment: the right side is checked against the target.
    Assign,
    /// A range between two bounds.
    Range,
    /// A membership test, of type `Bool`.
    Membership,
    /// An operator with no executable lowering: reported, of unknown type.
    NoLowering,
    /// `a -> b` between types: a callable type.
    FunctionType { effectful: bool },
    /// `a + b` where either side is a type: a sum type.
    SumType,
    /// `+` on strings.
    StringConcat,
    /// Arithmetic.
    Numeric,
    /// `and`, `or`, `xor`.
    Logical,
    /// A comparison, of type `Bool`; the right side is checked expecting the
    /// left side's type.
    Comparison,
}

/// Whether a binary operator compares its operands.
pub open spec fn is_comparison(op: BinaryOp) -> bool {
    op is Eq || op is TypeEq || op is Ne || op is Lt || op is Gt || op is Le || op is Ge
}

/// The rule that types `left op right`, given the kinds of the operands'
/// types.
pub open spec fn binary_rule_spec(op: BinaryOp, left: TyNode, right: TyNode) -> BinaryRule {
    match op {
        BinaryOp::Assign => BinaryRule::Assign,
        BinaryOp::Range { .. } => BinaryRule::Range,
        BinaryOp::In => BinaryRule::Membership,
        BinaryOp::Shl | BinaryOp::Shr | BinaryOp::UserOp(_) => BinaryRule::NoLowering,
        BinaryOp::Arrow => BinaryRule::FunctionType { effectful: false },
        BinaryOp::Add => if left is Type || right is Type {
            BinaryRule::SumType
        } else if left is String || right is String {
            BinaryRule::StringConcat
        } else {
            BinaryRule::Numeric
        },
        BinaryOp::Sub | BinaryOp::Mul | BinaryOp::Div | BinaryOp::Rem => BinaryRule::Numeric,
        BinaryOp::Or | BinaryOp::Xor | BinaryOp::And => BinaryRule::Logical,
        _ => BinaryRule::Comparison,
    }
}

/// Whether the right operand of `op` is checked expecting the left
/// operand's type.
pub fn expects_left_type(op: BinaryOp) -> (r: bool)
    ensures
        r == is_comparison(op),
{
    match op {
        BinaryOp::Eq | BinaryOp::TypeEq | BinaryOp::Ne | BinaryOp::Lt | BinaryOp::Gt | BinaryOp::Le
        | BinaryOp::Ge => true,
        _ => false,
    }
}

/// The rule that types `left op right`, where the operands have types
/// `left` and `right`.
pub fn binary_rule(store: &TyStore, op: BinaryOp, left: TyId, right: TyId) -> (r: BinaryRule)
    requires
        left.0 < store.kinds().len(),
        right.0 < store.kinds().len(),
    ensures
        r == binary_rule_spec(op, store.kinds()[left.0 as int], store.kinds()[right.0 as int]),
{
    match op {
        BinaryOp::Assign => BinaryRule::Assign,
        BinaryOp::Range { .. } => BinaryRule::Range,
        BinaryOp::In => BinaryRule::Membership,
        BinaryOp::Shl | BinaryOp::Shr | BinaryOp::UserOp(_) => BinaryRule::NoLowering,
        BinaryOp::Arrow => BinaryRule::FunctionType { effectful: false },
        BinaryOp::Add => {
            let l = store.kind(left);
            let r = store.kind(right);
            if matches!(l, TyKind::Type) || matches!(r, TyKind::Type) {
                BinaryRule::SumType
            } else if matches!(l, TyKind::String) || matches!(r, TyKind::String) {
                BinaryRule::StringConcat
            } else {
                BinaryRule::Numeric
            }
        },
        BinaryOp::Sub | BinaryOp::Mul | BinaryOp::Div | BinaryOp::Rem => BinaryRule::Numeric,
        BinaryOp::Or | BinaryOp::Xor | BinaryOp::And => BinaryRule::Logical,
        _ => BinaryRule::Comparison,
    }
}

} // verus!
