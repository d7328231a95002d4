//! The type of a literal: from its numeric suffix, from the expected type
//! when the literal fits it, or the default type of its kind.
use vstd::prelude::*;

use crate::expr::LitKind;
use crate::simple::SimpleTyKind;
use crate::ty::{TyId, TyKind, TyNode, TyStore};

verus! {

/// The class of a numeric suffix: signed integer, natural, or float.
#[derive(Debug, Clone, Copy, PartialEq, Eq, Structural)]
pub enum NumericSuffixClass {
    Z,
    N,
    F,
}

/// A numeric literal's suffix, as read from its text: its class and width.
#[derive(Debug, Clone, Copy, PartialEq, Eq, Structural)]
pub struct NumericSuffix {
    pub class: NumericSuffixClass,
    pub width: Option<u32>,
}

/// The built-in type a numeric suffix names: the type of its class and width,
/// or the class's unsized type for any other width.
pub open spec fn suffix_ty(suffix: NumericSuffix) -> SimpleTyKind {
    match suffix.class {
        NumericSuffixClass::Z => match suffix.width {
            Some(8) => SimpleTyKind::Int8,
            Some(16) => SimpleTyKind::Int16,
            Some(32) => SimpleTyKind::Int32,
            Some(64) => SimpleTyKind::Int64,
            _ => SimpleTyKind::Int,
        },
        NumericSuffixClass::N => match suffix.width {
            Some(8) => SimpleTyKind::Nat8,
            Some(16) => SimpleTyKind::Nat16,
            Some(32) => SimpleTyKind::Nat32,
            Some(64) => SimpleTyKind::Nat64,
            _ => SimpleTyKind::Nat,
        },
        NumericSuffixClass::F => match suffix.width {
            Some(32) => SimpleTyKind::Float32,
            Some(64) => SimpleTyKind::Float64,
            _ => SimpleTyKind::Float,
        },
    }
}

/// The built-in type named by a numeric literal's suffix, if it has one.
pub fn numeric_literal_suffix_ty(suffix: Option<NumericSuffix>) -> (r: Option<SimpleTyKind>)
    ensures
        r == match suffix {
            Some(s) => Some(suffix_ty(s)),
            None => None,
        },
{
    let s = match suffix {
        Some(s) => s,
        None => return None,
    };
    Some(
        match s.class {
            NumericSuffixClass::Z => match s.width {
                Some(8) => SimpleTyKind::Int8,
                Some(16) => SimpleTyKind::Int16,
                Some(32) => SimpleTyKind::Int32,
                Some(64) => SimpleTyKind::Int64,
                _ => SimpleTyKind::Int,
            },
            NumericSuffixClass::N => match s.width {
                Some(8) => SimpleTyKind::Nat8,
                Some(16) => SimpleTyKind::Nat16,
                Some(32) => SimpleTyKind::Nat32,
                Some(64) => SimpleTyKind::Nat64,
                _ => SimpleTyKind::Nat,
            },
            NumericSuffixClass::F => match s.width {
                Some(32) => SimpleTyKind::Float32,
                Some(64) => SimpleTyKind::Float64,
                _ => SimpleTyKind::Float,
            },
        },
    )
}

/// Whether an integer literal, read as a signed value `signed` and as an
/// unsigned value `unsigned` (each when it reads as one), fits the expected
/// type `expected`.
pub open spec fn int_lit_fits(expected: TyNode, signed: Option<i64>, unsigned: Option<u64>) -> bool {
    match expected {
        TyNode::Int8 => signed matches Some(v) && i8::MIN <= v <= i8::MAX,
        TyNode::Int16 => signed matches Some(v) && i16::MIN <= v <= i16::MAX,
        TyNode::Int32 => signed matches Some(v) && i32::MIN <= v <= i32::MAX,
        TyNode::Int64 | TyNode::Int => signed is Some,
        TyNode::Nat8 => unsigned matches Some(v) && v <= u8::MAX,
        TyNode::Nat16 => unsigned matches Some(v) && v <= u16::MAX,
        TyNode::Nat32 => unsigned matches Some(v) && v <= u32::MAX,
        TyNode::Nat64 | TyNode::Nat => unsigned is Some,
        _ => false,
    }
}

/// The expected type, when an integer literal with the given readings fits
/// it.
pub fn int_lit_ty_for_expected(store: &TyStore, expected: TyId, signed: Option<i64>, unsigned: Option<u64>) -> (r: Option<TyId>)
    requires
        expected.0 < store.kinds().len(),
    ensures
        r == if int_lit_fits(store.kinds()[expected.0 as int], signed, unsigned) {
            Some(expected)
        } else {
            None
        },
{
    let ok = match store.kind(expected) {
        TyKind::Int8 => match signed {
            Some(v) => i8::MIN as i64 <= v && v <= i8::MAX as i64,
            None => false,
        },
        TyKind::Int16 => match signed {
            Some(v) => i16::MIN as i64 <= v && v <= i16::MAX as i64,
            None => false,
        },
        TyKind::Int32 => match signed {
            Some(v) => i32::MIN as i64 <= v && v <= i32::MAX as i64,
            None => false,
        },
        TyKind::Int64 | TyKind::Int => signed.is_some(),
        TyKind::Nat8 => match unsigned {
            Some(v) => v <= u8::MAX as u64,
            None => false,
        },
        TyKind::Nat16 => match unsigned {
            Some(v) => v <= u16::MAX as u64,
            None => false,
        },
        TyKind::Nat32 => match unsigned {
            Some(v) => v <= u32::MAX as u64,
            None => false,
        },
        TyKind::Nat64 | TyKind::Nat => unsigned.is_some(),
        _ => false,
    };
    if ok {
        Some(expected)
    } else {
        None
    }
}

/// The type a literal gets.
#[derive(Debug, Clone, Copy, PartialEq, Eq, Structural)]
pub enum LitTy {
    /// The expected type.
    Expected(TyId),
    /// A built-in type.
    Builtin(SimpleTyKind),
}

/// What a literal reads as, beside its kind: its numeric suffix and its value
/// read as an unsigned integer, when it has them.
#[derive(Debug, Clone, Copy, PartialEq, Eq, Structural)]
pub struct LitReading {
    pub suffix: Option<NumericSuffix>,
    pub unsigned: Option<u64>,
}

/// Whether a simple type is a floating-point type.
pub open spec fn is_float_simple(s: SimpleTyKind) -> bool {
    s is Float || s is Float32 || s is Float64
}

/// The type of a literal: an integer takes its suffix's type, else the
/// expected type when it fits, else `Int`; a rune is a `Rune`; a float takes
/// its suffix's type when that is a float type, else a float expected type,
/// else `Float`; a string takes an expected `String` or `CString`, else
/// `String`.
pub open spec fn lit_ty(tys: Seq<TyNode>, lit: LitKind, reading: LitReading, expected: Option<TyId>) -> LitTy {
    match lit {
        LitKind::Int { parsed, .. } => match reading.suffix {
            Some(s) => LitTy::Builtin(suffix_ty(s)),
            None => match expected {
                Some(e) => if int_lit_fits(tys[e.0 as int], parsed, reading.unsigned) {
                    LitTy::Expected(e)
                } else {
                    LitTy::Builtin(SimpleTyKind::Int)
                },
                None => LitTy::Builtin(SimpleTyKind::Int),
            },
        },
        LitKind::Rune { .. } => LitTy::Builtin(SimpleTyKind::Rune),
        LitKind::Float { .. } => match reading.suffix {
            Some(s) if is_float_simple(suffix_ty(s)) => LitTy::Builtin(suffix_ty(s)),
            _ => match expected {
                Some(e) => if tys[e.0 as int] is Float || tys[e.0 as int] is Float32
                    || tys[e.0 as int] is Float64 {
                    LitTy::Expected(e)
                } else {
                    LitTy::Builtin(SimpleTyKind::Float)
                },
                None => LitTy::Builtin(SimpleTyKind::Float),
            },
        },
        LitKind::String { .. } => match expected {
            Some(e) => if tys[e.0 as int] is CString || tys[e.0 as int] is String {
                LitTy::Expected(e)
            } else {
                LitTy::Builtin(SimpleTyKind::String)
            },
            None => LitTy::Builtin(SimpleTyKind::String),
        },
    }
}

/// The type a literal gets, with `expected` the type the context expects.
pub fn check_lit_ty(store: &TyStore, lit: &LitKind, reading: LitReading, expected: Option<TyId>) -> (r: LitTy)
    requires
        expected matches Some(e) ==> e.0 < store.kinds().len(),
    ensures
        r == lit_ty(store.kinds(), *lit, reading, expected),
{
    match lit {
        LitKind::Int { parsed, .. } => match numeric_literal_suffix_ty(reading.suffix) {
            Some(s) => LitTy::Builtin(s),
            None => match expected {
                Some(e) => match int_lit_ty_for_expected(store, e, *parsed, reading.unsigned) {
                    Some(t) => LitTy::Expected(t),
                    None => LitTy::Builtin(SimpleTyKind::Int),
                },
                None => LitTy::Builtin(SimpleTyKind::Int),
            },
        },
        LitKind::Rune { .. } => LitTy::Builtin(SimpleTyKind::Rune),
        LitKind::Float { .. } => {
            let from_suffix = match numeric_literal_suffix_ty(reading.suffix) {
                Some(s) => match s {
                    SimpleTyKind::Float | SimpleTyKind::Float32 | SimpleTyKind::Float64 => Some(s),
                    _ => None,
                },
                None => None,
            };
            match from_suffix {
                Some(s) => LitTy::Builtin(s),
                None => match expected {
                    Some(e) => match store.kind(e) {
                        TyKind::Float | TyKind::Float32 | TyKind::Float64 => LitTy::Expected(e),
                        _ => LitTy::Builtin(SimpleTyKind::Float),
                    },
                    None => LitTy::Builtin(SimpleTyKind::Float),
                },
            }
        },
        LitKind::String { .. } => match expected {
            Some(e) => match store.kind(e) {
                TyKind::CString | TyKind::String => LitTy::Expected(e),
                _ => LitTy::Builtin(SimpleTyKind::String),
            },
            None => LitTy::Builtin(SimpleTyKind::String),
        },
    }
}


/// The class and bit width of a sized built-in number type.
pub open spec fn sized_number(k: SimpleTyKind) -> Option<(NumericSuffixClass, u32)> {
    match k {
        SimpleTyKind::Int8 => Some((NumericSuffixClass::Z, 8)),
        SimpleTyKind::Int16 => Some((NumericSuffixClass::Z, 16)),
        SimpleTyKind::Int32 => Some((NumericSuffixClass::Z, 32)),
        SimpleTyKind::Int64 => Some((NumericSuffixClass::Z, 64)),
        SimpleTyKind::Nat8 => Some((NumericSuffixClass::N, 8)),
        SimpleTyKind::Nat16 => Some((NumericSuffixClass::N, 16)),
        SimpleTyKind::Nat32 => Some((NumericSuffixClass::N, 32)),
        SimpleTyKind::Nat64 => Some((NumericSuffixClass::N, 64)),
        SimpleTyKind::Float32 => Some((NumericSuffixClass::F, 32)),
        SimpleTyKind::Float64 => Some((NumericSuffixClass::F, 64)),
        _ => None,
    }
}

/// The unsized built-in number type of a class.
pub open spec fn unsized_number(c: NumericSuffixClass) -> SimpleTyKind {
    match c {
        NumericSuffixClass::Z => SimpleTyKind::Int,
        NumericSuffixClass::N => SimpleTyKind::Nat,
        NumericSuffixClass::F => SimpleTyKind::Float,
    }
}

/// A suffix names the sized type of its class and width when there is one,
/// and else the unsized type of its class: every sized number type is
/// named by the suffix of its own class and width, a suffix naming a sized
/// type has that type's class and width, and no other suffix names one.
pub proof fn lemma_suffix_names_width(s: NumericSuffix, k: SimpleTyKind)
    ensures
        sized_number(k) == Some((s.class, s.width->0)) && s.width is Some ==> suffix_ty(s) == k,
        sized_number(suffix_ty(s)) matches Some((c, w)) ==> c == s.class && s.width == Some(w),
        sized_number(suffix_ty(s)) is None ==> suffix_ty(s) == unsized_number(s.class),
{
}

} // verus!
