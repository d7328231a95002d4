//! Members reached with a dot: a shape's member, whose type is a callable
//! type with the shape's own type parameters erased to the unknown type, and
//! the diagnostic for a field that a value does not have.
use vstd::prelude::*;

use crate::diag::SemaDiagKind;
use crate::facts::{ExprMemberFact, ExprMemberKind, ShapeFacts};
use crate::substitute::add_ty;
use crate::ty::{Symbol, TyId, TyKind, TyNode, TyStore};

verus! {

/// The position of the first member named `name`.
pub open spec fn first_member(members: Seq<Symbol>, name: Symbol) -> Option<int>
    decreases members.len(),
{
    if members.len() == 0 {
        None
    } else {
        match first_member(members.drop_last(), name) {
            Some(i) => Some(i),
            None => if members.last() == name {
                Some(members.len() - 1)
            } else {
                None
            },
        }
    }
}

/// A parameter type with the shape's type parameters erased: a bare type
/// parameter becomes the unknown type.
pub open spec fn erase_param(tys: Seq<TyNode>, type_params: Seq<Symbol>, unknown: TyId, ty: TyId) -> TyId {
    match tys[ty.0 as int] {
        TyNode::Named { name, args } => if type_params.contains(name) && args.len() == 0 {
            unknown
        } else {
            ty
        },
        _ => ty,
    }
}

/// The names of a shape's members.
pub open spec fn member_names(shape: ShapeFacts) -> Seq<Symbol> {
    shape.members@.map_values(|m: crate::facts::ShapeMemberFacts| m.name)
}

/// Every type a shape's members mention is a type of the store.
pub open spec fn shape_in(tys: Seq<TyNode>, shape: ShapeFacts) -> bool {
    forall|k: int| 0 <= k < shape.members@.len() ==> {
        &&& (#[trigger] shape.members@[k]).result.0 < tys.len()
        &&& forall|j: int| 0 <= j < shape.members@[k].params@.len() ==> (#[trigger] shape.members@[k].params@[j]).0 < tys.len()
    }
}

fn first_member_exec(shape: &ShapeFacts, name: Symbol) -> (r: Option<usize>)
    ensures
        match r {
            Some(i) => first_member(member_names(*shape), name) == Some(i as int),
            None => first_member(member_names(*shape), name) is None,
        },
{
    let ghost names = member_names(*shape);
    let mut k: usize = 0;
    while k < shape.members.len()
        invariant
            k <= shape.members@.len(),
            names == member_names(*shape),
            first_member(names.subrange(0, k as int), name) is None,
        decreases shape.members@.len() - k,
    {
        proof {
            assert(names.subrange(0, k + 1).drop_last() =~= names.subrange(0, k as int));
        }
        if shape.members[k].name == name {
            proof {
                lemma_first_member_prefix(names, name, k + 1);
            }
            return Some(k);
        }
        k = k + 1;
    }
    proof {
        assert(names.subrange(0, k as int) =~= names);
    }
    None
}

proof fn lemma_first_member_bounds(names: Seq<Symbol>, name: Symbol)
    requires
        first_member(names, name) is Some,
    ensures
        0 <= first_member(names, name)->0 < names.len(),
        names[first_member(names, name)->0] == name,
    decreases names.len(),
{
    if names.len() > 0 && first_member(names.drop_last(), name) is Some {
        lemma_first_member_bounds(names.drop_last(), name);
    }
}

proof fn lemma_first_member_prefix(names: Seq<Symbol>, name: Symbol, k: int)
    requires
        0 <= k <= names.len(),
        first_member(names.subrange(0, k), name) is Some,
    ensures
        first_member(names, name) == first_member(names.subrange(0, k), name),
    decreases names.len() - k,
{
    if k < names.len() {
        assert(names.subrange(0, k + 1).drop_last() =~= names.subrange(0, k));
        lemma_first_member_prefix(names, name, k + 1);
    } else {
        assert(names.subrange(0, k) =~= names);
    }
}

/// The member `name` of `shape` reached as `Shape.name`: its callable type,
/// with the member's parameters (type parameters erased) and result, added
/// to the store, and the member fact recording its position (`u16::MAX` past
/// that). `None`, with the store unchanged, when the shape has no such member
/// or the store is full.
pub fn shape_member_field(store: &mut TyStore, unknown: TyId, shape: &ShapeFacts, name: Symbol) -> (r: Option<(TyId, ExprMemberFact)>)
    requires
        shape_in(old(store).kinds(), *shape),
        unknown.0 < old(store).kinds().len(),
    ensures
        match first_member(member_names(*shape), name) {
            None => r is None && final(store).kinds() == old(store).kinds(),
            Some(i) => match r {
                None => final(store).kinds() == old(store).kinds() && old(store).kinds().len() == u32::MAX,
                Some((ty, fact)) => {
                    &&& ty.0 == old(store).kinds().len()
                    &&& final(store).kinds() == old(store).kinds().push(
                        TyNode::Arrow {
                            params: shape.members@[i].params@.map_values(
                                |p: TyId| erase_param(old(store).kinds(), shape.type_params@, unknown, p),
                            ),
                            ret: shape.members@[i].result,
                            is_effectful: false,
                        },
                    )
                    &&& fact == (ExprMemberFact {
                        kind: ExprMemberKind::ShapeMember,
                        name,
                        ty,
                        binding: None,
                        import_record_target: None,
                        index: Some(if i <= u16::MAX { i as u16 } else { u16::MAX }),
                    })
                },
            },
        },
{
    let i = match first_member_exec(shape, name) {
        Some(i) => i,
        None => {
            return None;
        },
    };
    proof {
        lemma_first_member_bounds(member_names(*shape), name);
    }
    let member = &shape.members[i];
    let ghost tys = store.kinds();
    let mut params: Vec<TyId> = Vec::new();
    let mut j: usize = 0;
    while j < member.params.len()
        invariant
            j <= member.params@.len(),
            tys == store.kinds(),
            shape_in(tys, *shape),
            i < shape.members@.len(),
            *member == shape.members@[i as int],
            unknown.0 < tys.len(),
            params@ == member.params@.subrange(0, j as int).map_values(
                |p: TyId| erase_param(tys, shape.type_params@, unknown, p),
            ),
            forall|q: int| 0 <= q < params@.len() ==> (#[trigger] params@[q]).0 < tys.len(),
        decreases member.params@.len() - j,
    {
        let p = member.params[j];
        proof {
            assert(member.params@[j as int].0 < tys.len());
        }
        let erased = match store.kind(p) {
            TyKind::Named { name: n, args } => {
                if args.len() == 0 && contains_symbol(&shape.type_params, *n) {
                    unknown
                } else {
                    p
                }
            },
            _ => p,
        };
        params.push(erased);
        j = j + 1;
        proof {
            assert(params@ =~= member.params@.subrange(0, j as int).map_values(
                |p: TyId| erase_param(tys, shape.type_params@, unknown, p),
            ));
        }
    }
    proof {
        assert(member.params@.subrange(0, j as int) =~= member.params@);
        assert(shape.members@[i as int].result.0 < tys.len());
    }
    let kind = TyKind::Arrow { params, ret: member.result, is_effectful: false };
    let ty = add_ty(store, kind)?;
    let index: u16 = if i <= u16::MAX as usize {
        i as u16
    } else {
        u16::MAX
    };
    let fact = ExprMemberFact::new(ExprMemberKind::ShapeMember, name, ty).with_index(index);
    Some((ty, fact))
}

fn contains_symbol(v: &Vec<Symbol>, s: Symbol) -> (r: bool)
    ensures
        r == v@.contains(s),
{
    let mut k: usize = 0;
    while k < v.len()
        invariant
            k <= v.len(),
            forall|j: int| 0 <= j < k ==> v@[j] != s,
        decreases v.len() - k,
    {
        if v[k] == s {
            assert(v@[k as int] == s);
            return true;
        }
        k = k + 1;
    }
    false
}

/// What a missing field of a value of type `base` (with `mut` taken off)
/// reports: an unknown field of a record or a range, else a value that
/// has no fields.
pub open spec fn missing_field_diag(k: TyNode) -> SemaDiagKind {
    match k {
        TyNode::Record { .. } | TyNode::Range { .. } => SemaDiagKind::UnknownField,
        _ => SemaDiagKind::InvalidFieldTarget,
    }
}

/// What a field that a value of type `base` does not have reports.
pub fn invalid_field_diag(store: &TyStore, base: TyId) -> (k: SemaDiagKind)
    requires
        base.0 < store.kinds().len(),
    ensures
        k == missing_field_diag(store.kinds()[base.0 as int]),
{
    match store.kind(base) {
        TyKind::Record { .. } | TyKind::Range { .. } => SemaDiagKind::UnknownField,
        _ => SemaDiagKind::InvalidFieldTarget,
    }
}

} // verus!
