//! The simple types, those with no children: the same in the checker's type
//! store and in a module's surface, and converted one for one between them.
use vstd::prelude::*;

use crate::surface::{RangeTyForm, SurfaceTyKind};
use crate::ty::{TyId, TyKind};

verus! {

/// A type with no children.
#[derive(Debug, Clone, Copy, PartialEq, Eq, Structural)]
pub enum SimpleTyKind {
    Error,
    Unknown,
    Type,
    Syntax,
    Any,
    Empty,
    Unit,
    Bool,
    Nat,
    Int,
    Int8,
    Int16,
    Int32,
    Int64,
    Nat8,
    Nat16,
    Nat32,
    Nat64,
    Float,
    Float32,
    Float64,
    String,
    Rune,
    CString,
    CPtr,
    NatLit(u64),
}

/// The simple type a checker type is, if it is one.
pub open spec fn simple_of_hir(k: TyKind) -> Option<SimpleTyKind> {
    match k {
        TyKind::Error => Some(SimpleTyKind::Error),
        TyKind::Unknown => Some(SimpleTyKind::Unknown),
        TyKind::Type => Some(SimpleTyKind::Type),
        TyKind::Syntax => Some(SimpleTyKind::Syntax),
        TyKind::Any => Some(SimpleTyKind::Any),
        TyKind::Empty => Some(SimpleTyKind::Empty),
        TyKind::Unit => Some(SimpleTyKind::Unit),
        TyKind::Bool => Some(SimpleTyKind::Bool),
        TyKind::Nat => Some(SimpleTyKind::Nat),
        TyKind::Int => Some(SimpleTyKind::Int),
        TyKind::Int8 => Some(SimpleTyKind::Int8),
        TyKind::Int16 => Some(SimpleTyKind::Int16),
        TyKind::Int32 => Some(SimpleTyKind::Int32),
        TyKind::Int64 => Some(SimpleTyKind::Int64),
        TyKind::Nat8 => Some(SimpleTyKind::Nat8),
        TyKind::Nat16 => Some(SimpleTyKind::Nat16),
        TyKind::Nat32 => Some(SimpleTyKind::Nat32),
        TyKind::Nat64 => Some(SimpleTyKind::Nat64),
        TyKind::Float => Some(SimpleTyKind::Float),
        TyKind::Float32 => Some(SimpleTyKind::Float32),
        TyKind::Float64 => Some(SimpleTyKind::Float64),
        TyKind::String => Some(SimpleTyKind::String),
        TyKind::Rune => Some(SimpleTyKind::Rune),
        TyKind::CString => Some(SimpleTyKind::CString),
        TyKind::CPtr => Some(SimpleTyKind::CPtr),
        TyKind::NatLit(v) => Some(SimpleTyKind::NatLit(v)),
        _ => None,
    }
}

/// The simple type a surface type is, if it is one.
pub open spec fn simple_of_surface(k: SurfaceTyKind) -> Option<SimpleTyKind> {
    match k {
        SurfaceTyKind::Error => Some(SimpleTyKind::Error),
        SurfaceTyKind::Unknown => Some(SimpleTyKind::Unknown),
        SurfaceTyKind::Type => Some(SimpleTyKind::Type),
        SurfaceTyKind::Syntax => Some(SimpleTyKind::Syntax),
        SurfaceTyKind::Any => Some(SimpleTyKind::Any),
        SurfaceTyKind::Empty => Some(SimpleTyKind::Empty),
        SurfaceTyKind::Unit => Some(SimpleTyKind::Unit),
        SurfaceTyKind::Bool => Some(SimpleTyKind::Bool),
        SurfaceTyKind::Nat => Some(SimpleTyKind::Nat),
        SurfaceTyKind::Int => Some(SimpleTyKind::Int),
        SurfaceTyKind::Int8 => Some(SimpleTyKind::Int8),
        SurfaceTyKind::Int16 => Some(SimpleTyKind::Int16),
        SurfaceTyKind::Int32 => Some(SimpleTyKind::Int32),
        SurfaceTyKind::Int64 => Some(SimpleTyKind::Int64),
        SurfaceTyKind::Nat8 => Some(SimpleTyKind::Nat8),
        SurfaceTyKind::Nat16 => Some(SimpleTyKind::Nat16),
        SurfaceTyKind::Nat32 => Some(SimpleTyKind::Nat32),
        SurfaceTyKind::Nat64 => Some(SimpleTyKind::Nat64),
        SurfaceTyKind::Float => Some(SimpleTyKind::Float),
        SurfaceTyKind::Float32 => Some(SimpleTyKind::Float32),
        SurfaceTyKind::Float64 => Some(SimpleTyKind::Float64),
        SurfaceTyKind::String => Some(SimpleTyKind::String),
        SurfaceTyKind::Rune => Some(SimpleTyKind::Rune),
        SurfaceTyKind::CString => Some(SimpleTyKind::CString),
        SurfaceTyKind::CPtr => Some(SimpleTyKind::CPtr),
        SurfaceTyKind::NatLit(v) => Some(SimpleTyKind::NatLit(v)),
        _ => None,
    }
}

/// The checker type of a simple type.
pub open spec fn hir_of_simple(s: SimpleTyKind) -> TyKind {
    match s {
        SimpleTyKind::Error => TyKind::Error,
        SimpleTyKind::Unknown => TyKind::Unknown,
        SimpleTyKind::Type => TyKind::Type,
        SimpleTyKind::Syntax => TyKind::Syntax,
        SimpleTyKind::Any => TyKind::Any,
        SimpleTyKind::Empty => TyKind::Empty,
        SimpleTyKind::Unit => TyKind::Unit,
        SimpleTyKind::Bool => TyKind::Bool,
        SimpleTyKind::Nat => TyKind::Nat,
        SimpleTyKind::Int => TyKind::Int,
        SimpleTyKind::Int8 => TyKind::Int8,
        SimpleTyKind::Int16 => TyKind::Int16,
        SimpleTyKind::Int32 => TyKind::Int32,
        SimpleTyKind::Int64 => TyKind::Int64,
        SimpleTyKind::Nat8 => TyKind::Nat8,
        SimpleTyKind::Nat16 => TyKind::Nat16,
        SimpleTyKind::Nat32 => TyKind::Nat32,
        SimpleTyKind::Nat64 => TyKind::Nat64,
        SimpleTyKind::Float => TyKind::Float,
        SimpleTyKind::Float32 => TyKind::Float32,
        SimpleTyKind::Float64 => TyKind::Float64,
        SimpleTyKind::String => TyKind::String,
        SimpleTyKind::Rune => TyKind::Rune,
        SimpleTyKind::CString => TyKind::CString,
        SimpleTyKind::CPtr => TyKind::CPtr,
        SimpleTyKind::NatLit(v) => TyKind::NatLit(v),
    }
}

/// The surface type of a simple type.
pub open spec fn surface_of_simple(s: SimpleTyKind) -> SurfaceTyKind {
    match s {
        SimpleTyKind::Error => SurfaceTyKind::Error,
        SimpleTyKind::Unknown => SurfaceTyKind::Unknown,
        SimpleTyKind::Type => SurfaceTyKind::Type,
        SimpleTyKind::Syntax => SurfaceTyKind::Syntax,
        SimpleTyKind::Any => SurfaceTyKind::Any,
        SimpleTyKind::Empty => SurfaceTyKind::Empty,
        SimpleTyKind::Unit => SurfaceTyKind::Unit,
        SimpleTyKind::Bool => SurfaceTyKind::Bool,
        SimpleTyKind::Nat => SurfaceTyKind::Nat,
        SimpleTyKind::Int => SurfaceTyKind::Int,
        SimpleTyKind::Int8 => SurfaceTyKind::Int8,
        SimpleTyKind::Int16 => SurfaceTyKind::Int16,
        SimpleTyKind::Int32 => SurfaceTyKind::Int32,
        SimpleTyKind::Int64 => SurfaceTyKind::Int64,
        SimpleTyKind::Nat8 => SurfaceTyKind::Nat8,
        SimpleTyKind::Nat16 => SurfaceTyKind::Nat16,
        SimpleTyKind::Nat32 => SurfaceTyKind::Nat32,
        SimpleTyKind::Nat64 => SurfaceTyKind::Nat64,
        SimpleTyKind::Float => SurfaceTyKind::Float,
        SimpleTyKind::Float32 => SurfaceTyKind::Float32,
        SimpleTyKind::Float64 => SurfaceTyKind::Float64,
        SimpleTyKind::String => SurfaceTyKind::String,
        SimpleTyKind::Rune => SurfaceTyKind::Rune,
        SimpleTyKind::CString => SurfaceTyKind::CString,
        SimpleTyKind::CPtr => SurfaceTyKind::CPtr,
        SimpleTyKind::NatLit(v) => SurfaceTyKind::NatLit(v),
    }
}

impl SimpleTyKind {
    /// The simple type `kind` is, if it is one.
    pub fn from_hir(kind: &TyKind) -> (r: Option<Self>)
        ensures
            r == simple_of_hir(*kind),
    {
        match kind {
            TyKind::Error => Some(SimpleTyKind::Error),
            TyKind::Unknown => Some(SimpleTyKind::Unknown),
            TyKind::Type => Some(SimpleTyKind::Type),
            TyKind::Syntax => Some(SimpleTyKind::Syntax),
            TyKind::Any => Some(SimpleTyKind::Any),
            TyKind::Empty => Some(SimpleTyKind::Empty),
            TyKind::Unit => Some(SimpleTyKind::Unit),
            TyKind::Bool => Some(SimpleTyKind::Bool),
            TyKind::Nat => Some(SimpleTyKind::Nat),
            TyKind::Int => Some(SimpleTyKind::Int),
            TyKind::Int8 => Some(SimpleTyKind::Int8),
            TyKind::Int16 => Some(SimpleTyKind::Int16),
            TyKind::Int32 => Some(SimpleTyKind::Int32),
            TyKind::Int64 => Some(SimpleTyKind::Int64),
            TyKind::Nat8 => Some(SimpleTyKind::Nat8),
            TyKind::Nat16 => Some(SimpleTyKind::Nat16),
            TyKind::Nat32 => Some(SimpleTyKind::Nat32),
            TyKind::Nat64 => Some(SimpleTyKind::Nat64),
            TyKind::Float => Some(SimpleTyKind::Float),
            TyKind::Float32 => Some(SimpleTyKind::Float32),
            TyKind::Float64 => Some(SimpleTyKind::Float64),
            TyKind::String => Some(SimpleTyKind::String),
            TyKind::Rune => Some(SimpleTyKind::Rune),
            TyKind::CString => Some(SimpleTyKind::CString),
            TyKind::CPtr => Some(SimpleTyKind::CPtr),
            TyKind::NatLit(v) => Some(SimpleTyKind::NatLit(*v)),
            _ => None,
        }
    }

    /// The simple type the surface type `kind` is, if it is one.
    pub fn from_surface(kind: &SurfaceTyKind) -> (r: Option<Self>)
        ensures
            r == simple_of_surface(*kind),
    {
        match kind {
            SurfaceTyKind::Error => Some(SimpleTyKind::Error),
            SurfaceTyKind::Unknown => Some(SimpleTyKind::Unknown),
            SurfaceTyKind::Type => Some(SimpleTyKind::Type),
            SurfaceTyKind::Syntax => Some(SimpleTyKind::Syntax),
            SurfaceTyKind::Any => Some(SimpleTyKind::Any),
            SurfaceTyKind::Empty => Some(SimpleTyKind::Empty),
            SurfaceTyKind::Unit => Some(SimpleTyKind::Unit),
            SurfaceTyKind::Bool => Some(SimpleTyKind::Bool),
            SurfaceTyKind::Nat => Some(SimpleTyKind::Nat),
            SurfaceTyKind::Int => Some(SimpleTyKind::Int),
            SurfaceTyKind::Int8 => Some(SimpleTyKind::Int8),
            SurfaceTyKind::Int16 => Some(SimpleTyKind::Int16),
            SurfaceTyKind::Int32 => Some(SimpleTyKind::Int32),
            SurfaceTyKind::Int64 => Some(SimpleTyKind::Int64),
            SurfaceTyKind::Nat8 => Some(SimpleTyKind::Nat8),
            SurfaceTyKind::Nat16 => Some(SimpleTyKind::Nat16),
            SurfaceTyKind::Nat32 => Some(SimpleTyKind::Nat32),
            SurfaceTyKind::Nat64 => Some(SimpleTyKind::Nat64),
            SurfaceTyKind::Float => Some(SimpleTyKind::Float),
            SurfaceTyKind::Float32 => Some(SimpleTyKind::Float32),
            SurfaceTyKind::Float64 => Some(SimpleTyKind::Float64),
            SurfaceTyKind::String => Some(SimpleTyKind::String),
            SurfaceTyKind::Rune => Some(SimpleTyKind::Rune),
            SurfaceTyKind::CString => Some(SimpleTyKind::CString),
            SurfaceTyKind::CPtr => Some(SimpleTyKind::CPtr),
            SurfaceTyKind::NatLit(v) => Some(SimpleTyKind::NatLit(*v)),
            _ => None,
        }
    }

    /// The checker type of this simple type.
    pub fn into_hir(self) -> (k: TyKind)
        ensures
            k == hir_of_simple(self),
    {
        match self {
            SimpleTyKind::Error => TyKind::Error,
            SimpleTyKind::Unknown => TyKind::Unknown,
            SimpleTyKind::Type => TyKind::Type,
            SimpleTyKind::Syntax => TyKind::Syntax,
            SimpleTyKind::Any => TyKind::Any,
            SimpleTyKind::Empty => TyKind::Empty,
            SimpleTyKind::Unit => TyKind::Unit,
            SimpleTyKind::Bool => TyKind::Bool,
            SimpleTyKind::Nat => TyKind::Nat,
            SimpleTyKind::Int => TyKind::Int,
            SimpleTyKind::Int8 => TyKind::Int8,
            SimpleTyKind::Int16 => TyKind::Int16,
            SimpleTyKind::Int32 => TyKind::Int32,
            SimpleTyKind::Int64 => TyKind::Int64,
            SimpleTyKind::Nat8 => TyKind::Nat8,
            SimpleTyKind::Nat16 => TyKind::Nat16,
            SimpleTyKind::Nat32 => TyKind::Nat32,
            SimpleTyKind::Nat64 => TyKind::Nat64,
            SimpleTyKind::Float => TyKind::Float,
            SimpleTyKind::Float32 => TyKind::Float32,
            SimpleTyKind::Float64 => TyKind::Float64,
            SimpleTyKind::String => TyKind::String,
            SimpleTyKind::Rune => TyKind::Rune,
            SimpleTyKind::CString => TyKind::CString,
            SimpleTyKind::CPtr => TyKind::CPtr,
            SimpleTyKind::NatLit(v) => TyKind::NatLit(v),
        }
    }

    /// The surface type of this simple type.
    pub fn into_surface(self) -> (k: SurfaceTyKind)
        ensures
            k == surface_of_simple(self),
    {
        match self {
            SimpleTyKind::Error => SurfaceTyKind::Error,
            SimpleTyKind::Unknown => SurfaceTyKind::Unknown,
            SimpleTyKind::Type => SurfaceTyKind::Type,
            SimpleTyKind::Syntax => SurfaceTyKind::Syntax,
            SimpleTyKind::Any => SurfaceTyKind::Any,
            SimpleTyKind::Empty => SurfaceTyKind::Empty,
            SimpleTyKind::Unit => SurfaceTyKind::Unit,
            SimpleTyKind::Bool => SurfaceTyKind::Bool,
            SimpleTyKind::Nat => SurfaceTyKind::Nat,
            SimpleTyKind::Int => SurfaceTyKind::Int,
            SimpleTyKind::Int8 => SurfaceTyKind::Int8,
            SimpleTyKind::Int16 => SurfaceTyKind::Int16,
            SimpleTyKind::Int32 => SurfaceTyKind::Int32,
            SimpleTyKind::Int64 => SurfaceTyKind::Int64,
            SimpleTyKind::Nat8 => SurfaceTyKind::Nat8,
            SimpleTyKind::Nat16 => SurfaceTyKind::Nat16,
            SimpleTyKind::Nat32 => SurfaceTyKind::Nat32,
            SimpleTyKind::Nat64 => SurfaceTyKind::Nat64,
            SimpleTyKind::Float => SurfaceTyKind::Float,
            SimpleTyKind::Float32 => SurfaceTyKind::Float32,
            SimpleTyKind::Float64 => SurfaceTyKind::Float64,
            SimpleTyKind::String => SurfaceTyKind::String,
            SimpleTyKind::Rune => SurfaceTyKind::Rune,
            SimpleTyKind::CString => SurfaceTyKind::CString,
            SimpleTyKind::CPtr => SurfaceTyKind::CPtr,
            SimpleTyKind::NatLit(v) => SurfaceTyKind::NatLit(v),
        }
    }
}

/// The surface form of a simple checker type; `None` for a type with children.
pub fn simple_surface_ty_kind(kind: &TyKind) -> (r: Option<SurfaceTyKind>)
    ensures
        r == match simple_of_hir(*kind) {
            Some(s) => Some(surface_of_simple(s)),
            None => None,
        },
{
    match SimpleTyKind::from_hir(kind) {
        Some(s) => Some(s.into_surface()),
        None => None,
    }
}

/// The checker form of a simple surface type; `None` for a type with children.
pub fn simple_hir_ty_kind(kind: &SurfaceTyKind) -> (r: Option<TyKind>)
    ensures
        r == match simple_of_surface(*kind) {
            Some(s) => Some(hir_of_simple(s)),
            None => None,
        },
{
    match SimpleTyKind::from_surface(kind) {
        Some(s) => Some(s.into_hir()),
        None => None,
    }
}

/// A simple type comes back from its checker form and from its surface form.
pub proof fn lemma_simple_round_trip(s: SimpleTyKind)
    ensures
        simple_of_hir(hir_of_simple(s)) == Some(s),
        simple_of_surface(surface_of_simple(s)) == Some(s),
{
}

/// A type that is simple is the form of the simple type it is, both in the
/// checker and in the surface.
pub proof fn lemma_simple_forms_exact(h: TyKind, u: SurfaceTyKind)
    ensures
        simple_of_hir(h) matches Some(s) ==> hir_of_simple(s) == h,
        simple_of_surface(u) matches Some(s) ==> surface_of_simple(s) == u,
{
}

/// Converting a simple checker type to the surface and back gives it again,
/// and so does converting a simple surface type to the checker and back.
pub proof fn lemma_simple_conversions_invert(h: TyKind, u: SurfaceTyKind)
    ensures
        simple_of_hir(h) matches Some(s) ==> simple_of_surface(surface_of_simple(s)) matches Some(t)
            && hir_of_simple(t) == h,
        simple_of_surface(u) matches Some(s) ==> simple_of_hir(hir_of_simple(s)) matches Some(t)
            && surface_of_simple(t) == u,
{
}

/// The checker range type over `bound`.
pub fn range_to_hir_kind(bound: TyId) -> (kind: TyKind)
    ensures
        kind == (TyKind::Range { bound }),
{
    TyKind::Range { bound }
}

/// The bound of `kind` when it is a range type.
pub fn hir_range_form(kind: &TyKind) -> (form: Option<RangeTyForm<TyId>>)
    ensures
        match *kind {
            TyKind::Range { bound } => form == Some(RangeTyForm { bound }),
            _ => form is None,
        },
{
    match kind {
        TyKind::Range { bound } => Some(RangeTyForm { bound: *bound }),
        _ => None,
    }
}

} // verus!
