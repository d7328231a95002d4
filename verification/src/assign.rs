//! What an assignment expects of its right side, given its target: a `mut`
//! binding, an element of a `mut` array or sequence, or a field of a `mut`
//! record.
use vstd::prelude::*;

use crate::binary_types::Builtins;
use crate::diag::SemaDiagKind;
use crate::ty::{Symbol, TyField, TyId, TyKind, TyNode, TyStore};
use crate::ty_props::{peel_mut, peel_mut_ty};

verus! {

/// A problem with the target of an assignment.
#[derive(Debug, Clone, Copy, PartialEq, Eq, Structural)]
pub enum WriteIssue {
    /// An indexed write with the wrong number of indices.
    IndexArgCount { expected: usize, found: usize },
    /// A write through a target that is not `mut`.
    RequiresMut,
    /// An indexed write into a value of type `target`, which cannot be
    /// indexed.
    InvalidIndexTarget { target: TyId },
    /// A write to a field the record does not have.
    UnknownField { field: Symbol },
    /// A field write into a value of type `target`, which has no fields.
    InvalidFieldTarget { target: TyId },
}

/// The diagnostic kind of a write issue.
pub open spec fn write_issue_kind(i: WriteIssue) -> SemaDiagKind {
    match i {
        WriteIssue::IndexArgCount { .. } => SemaDiagKind::InvalidIndexArgCount,
        WriteIssue::RequiresMut => SemaDiagKind::WriteTargetRequiresMut,
        WriteIssue::InvalidIndexTarget { .. } => SemaDiagKind::InvalidIndexTarget,
        WriteIssue::UnknownField { .. } => SemaDiagKind::UnknownField,
        WriteIssue::InvalidFieldTarget { .. } => SemaDiagKind::InvalidFieldTarget,
    }
}

/// The diagnostic kind of a write issue.
pub fn write_issue_diag(i: WriteIssue) -> (k: SemaDiagKind)
    ensures
        k == write_issue_kind(i),
{
    match i {
        WriteIssue::IndexArgCount { .. } => SemaDiagKind::InvalidIndexArgCount,
        WriteIssue::RequiresMut => SemaDiagKind::WriteTargetRequiresMut,
        WriteIssue::InvalidIndexTarget { .. } => SemaDiagKind::InvalidIndexTarget,
        WriteIssue::UnknownField { .. } => SemaDiagKind::UnknownField,
        WriteIssue::InvalidFieldTarget { .. } => SemaDiagKind::InvalidFieldTarget,
    }
}

/// What a write to a binding of type `ty` expects: the type under its `mut`,
/// or `Unknown` (and a `mut` required) when it is not `mut`.
pub open spec fn name_write(tys: Seq<TyNode>, b: Builtins, ty: TyId) -> (TyId, Option<WriteIssue>) {
    if tys[ty.0 as int] is Mut {
        (peel_mut(tys, ty), None)
    } else {
        (b.unknown, Some(WriteIssue::RequiresMut))
    }
}

/// What a write to a binding of type `ty` expects, and its issue.
pub fn name_assignment_contract(store: &TyStore, b: Builtins, ty: TyId) -> (r: (TyId, Option<WriteIssue>))
    requires
        ty.0 < store.kinds().len(),
    ensures
        r == name_write(store.kinds(), b, ty),
{
    match store.kind(ty) {
        TyKind::Mut { .. } => (peel_mut_ty(store, ty), None),
        _ => (b.unknown, Some(WriteIssue::RequiresMut)),
    }
}

/// What an indexed write with `arg_count` indices into a value of type
/// `base` expects. An array (under any `mut`) gives its items when `base` is
/// `mut`, where the index count must match a fixed number of dimensions; a
/// sequence takes one index and gives its items when `base` is `mut`; any
/// other type cannot be indexed. Otherwise the write expects `Unknown`.
pub open spec fn index_write(tys: Seq<TyNode>, b: Builtins, base: TyId, arg_count: usize) -> (TyId, Seq<WriteIssue>) {
    let is_mut = tys[base.0 as int] is Mut;
    match tys[peel_mut(tys, base).0 as int] {
        TyNode::Array { dims, item } => if is_mut {
            (item, if dims.len() != 0 && dims.len() != arg_count {
                seq![WriteIssue::IndexArgCount { expected: dims.len() as usize, found: arg_count }]
            } else {
                Seq::empty()
            })
        } else {
            (b.unknown, seq![WriteIssue::RequiresMut])
        },
        TyNode::Sequence { item } => {
            let count: Seq<WriteIssue> = if arg_count != 1 {
                seq![WriteIssue::IndexArgCount { expected: 1, found: arg_count }]
            } else {
                Seq::empty()
            };
            if is_mut {
                (item, count)
            } else {
                (b.unknown, count.push(WriteIssue::RequiresMut))
            }
        },
        _ => (b.unknown, seq![WriteIssue::InvalidIndexTarget { target: base }]),
    }
}

/// What an indexed write into a value of type `base` expects, and its
/// issues in order.
pub fn assignment_index_contract(store: &TyStore, b: Builtins, base: TyId, arg_count: usize) -> (r: (TyId, Vec<WriteIssue>))
    requires
        base.0 < store.kinds().len(),
    ensures
        (r.0, r.1@) == index_write(store.kinds(), b, base, arg_count),
{
    let is_mut = match store.kind(base) {
        TyKind::Mut { .. } => true,
        _ => false,
    };
    let inner = peel_mut_ty(store, base);
    let mut issues: Vec<WriteIssue> = Vec::new();
    match store.kind(inner) {
        TyKind::Array { dims, item } => {
            if is_mut {
                if dims.len() != 0 && dims.len() != arg_count {
                    issues.push(WriteIssue::IndexArgCount { expected: dims.len(), found: arg_count });
                }
                assert(issues@ =~= index_write(store.kinds(), b, base, arg_count).1);
                (*item, issues)
            } else {
                issues.push(WriteIssue::RequiresMut);
                assert(issues@ =~= index_write(store.kinds(), b, base, arg_count).1);
                (b.unknown, issues)
            }
        },
        TyKind::Sequence { item } => {
            if arg_count != 1 {
                issues.push(WriteIssue::IndexArgCount { expected: 1, found: arg_count });
            }
            if is_mut {
                assert(issues@ =~= index_write(store.kinds(), b, base, arg_count).1);
                (*item, issues)
            } else {
                issues.push(WriteIssue::RequiresMut);
                assert(issues@ =~= index_write(store.kinds(), b, base, arg_count).1);
                (b.unknown, issues)
            }
        },
        _ => {
            issues.push(WriteIssue::InvalidIndexTarget { target: base });
            assert(issues@ =~= index_write(store.kinds(), b, base, arg_count).1);
            (b.unknown, issues)
        },
    }
}

/// The type of the first field named `name` in `fields`, if any.
pub open spec fn first_field_ty(fields: Seq<TyField>, name: Symbol) -> Option<TyId>
    decreases fields.len(),
{
    if fields.len() == 0 {
        None
    } else if fields[0].name == name {
        Some(fields[0].ty)
    } else {
        first_field_ty(fields.drop_first(), name)
    }
}

/// What a write to field `name` of a value of type `base` expects: the type
/// of the record's first field of that name when `base` is `mut`; else
/// `Unknown`, with the field unknown, a `mut` required, or a target that
/// has no fields.
pub open spec fn field_write(tys: Seq<TyNode>, b: Builtins, base: TyId, name: Symbol) -> (TyId, Option<WriteIssue>) {
    match tys[peel_mut(tys, base).0 as int] {
        TyNode::Record { fields } => if tys[base.0 as int] is Mut {
            match first_field_ty(fields, name) {
                Some(t) => (t, None),
                None => (b.unknown, Some(WriteIssue::UnknownField { field: name })),
            }
        } else {
            (b.unknown, Some(WriteIssue::RequiresMut))
        },
        _ => (b.unknown, Some(WriteIssue::InvalidFieldTarget { target: base })),
    }
}

/// What a write to field `name` of a value of type `base` expects, and its
/// issue.
pub fn assignment_field_contract(store: &TyStore, b: Builtins, base: TyId, name: Symbol) -> (r: (TyId, Option<WriteIssue>))
    requires
        base.0 < store.kinds().len(),
    ensures
        r == field_write(store.kinds(), b, base, name),
{
    let is_mut = match store.kind(base) {
        TyKind::Mut { .. } => true,
        _ => false,
    };
    let inner = peel_mut_ty(store, base);
    match store.kind(inner) {
        TyKind::Record { fields } => {
            if !is_mut {
                return (b.unknown, Some(WriteIssue::RequiresMut));
            }
            let mut i: usize = 0;
            assert(fields@.subrange(0, fields@.len() as int) =~= fields@);
            while i < fields.len()
                invariant
                    is_mut,
                    store.kinds()[base.0 as int] is Mut,
                    inner == peel_mut(store.kinds(), base),
                    store.kinds()[inner.0 as int] == (TyNode::Record { fields: fields@ }),
                    i <= fields.len(),
                    first_field_ty(fields@, name) == first_field_ty(fields@.subrange(i as int, fields@.len() as int), name),
                decreases fields.len() - i,
            {
                assert(fields@.subrange(i as int, fields@.len() as int).drop_first() =~= fields@.subrange(
                    i + 1,
                    fields@.len() as int,
                ));
                if fields[i].name == name {
                    return (fields[i].ty, None);
                }
                i = i + 1;
            }
            assert(fields@.subrange(i as int, fields@.len() as int).len() == 0);
            (b.unknown, Some(WriteIssue::UnknownField { field: name }))
        },
        _ => (b.unknown, Some(WriteIssue::InvalidFieldTarget { target: base })),
    }
}

} // verus!
