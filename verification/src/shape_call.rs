//! Calls of a shape's member: the member a callee names, the shape's type
//! parameters found argument by argument, and what the call then needs.
use vstd::prelude::*;

use crate::expr::{ExprId, ExprKind, ExprStore};
use crate::facts::{copy_key, ConstraintKey, ConstraintKind, DefinitionKey, ExprMemberFact, ExprMemberKind, ShapeFacts};
use crate::subst_map::SubstMap;
use crate::substitute::{add_ty, lemma_subst_in_prefix, subst_in_store, substitute_ty, substituted};
use crate::ty::{Symbol, TyId, TyKind, TyNode, TyStore};
use crate::ty_tree::{lemma_prefix_trans, store_prefix};
use crate::unify::{unify_spec, unify_ty, UnifyState};

verus! {

/// The shape and the member position a callee names: a shape member fact
/// on a field of a name, the name being the shape's.
pub open spec fn shape_callee(exprs: Seq<ExprKind>, fact: Option<ExprMemberFact>, callee: ExprId) -> Option<(Symbol, Option<u16>)> {
    match fact {
        Some(f) => if f.kind == ExprMemberKind::ShapeMember && callee.0 < exprs.len() {
            match exprs[callee.0 as int] {
                ExprKind::Field { base, .. } => if base.0 < exprs.len() {
                    match exprs[base.0 as int] {
                        ExprKind::Name { name, .. } => Some((name, f.index)),
                        _ => None,
                    }
                } else {
                    None
                },
                _ => None,
            }
        } else {
            None
        },
        None => None,
    }
}

/// The fact a reference to one stands for.
pub open spec fn fact_of(fact: Option<&ExprMemberFact>) -> Option<ExprMemberFact> {
    match fact {
        Some(f) => Some(*f),
        None => None,
    }
}

/// The position of the first shape named `name` among the first `n`.
pub open spec fn first_shape_named(shapes: Seq<ShapeFacts>, name: Symbol, n: int) -> Option<int>
    decreases n,
{
    if n <= 0 {
        None
    } else {
        match first_shape_named(shapes, name, n - 1) {
            Some(i) => Some(i),
            None => if shapes[n - 1].name == name {
                Some(n - 1)
            } else {
                None
            },
        }
    }
}

/// The shape and the member a call of `callee` uses, by position: the shape
/// the callee names, and its member at the fact's position; none when the
/// callee is no shape member, no shape has that name, or the shape has no
/// member there.
pub fn shape_member_for_call(
    exprs: &ExprStore,
    fact: Option<&ExprMemberFact>,
    callee: ExprId,
    shapes: &Vec<ShapeFacts>,
) -> (r: Option<(usize, usize)>)
    ensures
        r == (match shape_callee(exprs.kinds(), fact_of(fact), callee) {
            Some((name, Some(index))) => match first_shape_named(shapes@, name, shapes@.len() as int) {
                Some(si) => if index < shapes@[si].members@.len() {
                    Some((si as usize, index as usize))
                } else {
                    None
                },
                None => None,
            },
            _ => None,
        }),
{
    let f = match fact {
        Some(f) => f,
        None => {
            return None;
        },
    };
    if f.kind != ExprMemberKind::ShapeMember || callee.0 as usize >= exprs.len() {
        return None;
    }
    let base = match exprs.kind(callee) {
        ExprKind::Field { base, .. } => *base,
        _ => {
            return None;
        },
    };
    if base.0 as usize >= exprs.len() {
        return None;
    }
    let name = match exprs.kind(base) {
        ExprKind::Name { name, .. } => *name,
        _ => {
            return None;
        },
    };
    let index = match f.index {
        Some(i) => i,
        None => {
            return None;
        },
    };
    proof {
        assert(shape_callee(exprs.kinds(), fact_of(fact), callee) == Some((name, Some(index))));
    }
    let mut i: usize = 0;
    while i < shapes.len()
        invariant
            i <= shapes@.len(),
            first_shape_named(shapes@, name, i as int) is None,
            shape_callee(exprs.kinds(), fact_of(fact), callee) == Some((name, Some(index))),
        decreases shapes@.len() - i,
    {
        if shapes[i].name == name {
            proof {
                assert(first_shape_named(shapes@, name, i + 1) == Some(i as int));
                lemma_first_shape_stays(shapes@, name, i + 1, shapes@.len() as int);
            }
            if (index as usize) < shapes[i].members.len() {
                return Some((i, index as usize));
            }
            return None;
        }
        i = i + 1;
    }
    proof {
        assert(first_shape_named(shapes@, name, shapes@.len() as int) is None);
    }
    None
}

proof fn lemma_first_shape_stays(shapes: Seq<ShapeFacts>, name: Symbol, n: int, m: int)
    requires
        0 <= n <= m,
        first_shape_named(shapes, name, n) is Some,
    ensures
        first_shape_named(shapes, name, m) == first_shape_named(shapes, name, n),
    decreases m - n,
{
    if m > n {
        lemma_first_shape_stays(shapes, name, n, m - 1);
    }
}

/// A call of a shape member being checked, argument by argument: the types
/// found so far for the shape's type parameters.
pub struct ShapeCallState {
    subst: SubstMap,
}

/// What a shape member call needs once its arguments are checked: the
/// call's type, and the evidence that the subject implements the shape.
#[derive(Debug, PartialEq, Eq)]
pub struct ShapeCallEnd {
    pub result: TyId,
    pub obligation: Option<ConstraintKey>,
}

/// The type whose evidence a shape member call needs, and the store after
/// finding it: the type found for the shape's first type parameter, else
/// that parameter as a new named type; the unknown type for a shape with no
/// type parameters.
pub open spec fn call_subject(tys: Seq<TyNode>, type_params: Seq<Symbol>, subst: Map<Symbol, TyId>, unknown: TyId) -> (TyId, Seq<TyNode>) {
    if type_params.len() == 0 {
        (unknown, tys)
    } else if subst.contains_key(type_params[0]) {
        (subst[type_params[0]], tys)
    } else {
        (TyId(tys.len() as u32), tys.push(TyNode::Named { name: type_params[0], args: Seq::empty() }))
    }
}

impl ShapeCallState {
    /// The types found for the shape's type parameters.
    pub closed spec fn subst(self) -> Map<Symbol, TyId> {
        self.subst@
    }

    /// A call with nothing found yet.
    pub fn new() -> (s: Self)
        ensures
            s.subst() == Map::<Symbol, TyId>::empty(),
    {
        ShapeCallState { subst: SubstMap::new() }
    }

    /// Matches the member parameter `param` against the argument type `arg`,
    /// finding type parameters on the way: `Some(None)` when it fits;
    /// `Some(Some(expected))` when it does not, with `expected` the parameter
    /// under the types found so far; `None` when the store is full.
    pub fn arg(&mut self, store: &mut TyStore, type_params: &Vec<Symbol>, param: TyId, arg: TyId, bits: Symbol) -> (r: Option<
        Option<TyId>,
    >)
        requires
            param.0 < old(store).kinds().len(),
            arg.0 < old(store).kinds().len(),
            subst_in_store(old(store).kinds(), old(self).subst()),
        ensures
            store_prefix(old(store).kinds(), final(store).kinds()),
            subst_in_store(final(store).kinds(), final(self).subst()),
            ({
                let (ok, st) = unify_spec(
                    type_params@,
                    UnifyState { tys: old(store).kinds(), subst: old(self).subst() },
                    param,
                    arg,
                );
                match r {
                    Some(None) => ok && final(store).kinds() == st.tys && final(self).subst() == st.subst,
                    Some(Some(expected)) => !ok && final(self).subst() == st.subst && substituted(
                        st.tys,
                        final(store).kinds(),
                        param,
                        st.subst,
                        bits,
                        Some(expected),
                    ),
                    None => final(store).kinds().len() == u32::MAX,
                }
            }),
    {
        let ghost tys0 = store.kinds();
        let ok = match unify_ty(store, type_params, param, arg, &mut self.subst) {
            Some(ok) => ok,
            None => {
                return None;
            },
        };
        if ok {
            return Some(None);
        }
        let ghost tys1 = store.kinds();
        match substitute_ty(store, param, &self.subst, bits) {
            Some(expected) => {
                proof {
                    lemma_prefix_trans(tys0, tys1, store.kinds());
                }
                Some(Some(expected))
            },
            None => None,
        }
    }

    /// Ends the call: finds the subject, and unless it is the unknown type,
    /// the shape as a named type and the evidence the call needs; then the
    /// member's result under the types found. `None` when the store is full.
    pub fn finish(
        self,
        store: &mut TyStore,
        type_params: &Vec<Symbol>,
        shape_name: Symbol,
        shape_key: &DefinitionKey,
        result: TyId,
        unknown: TyId,
        bits: Symbol,
    ) -> (r: Option<ShapeCallEnd>)
        requires
            result.0 < old(store).kinds().len(),
            subst_in_store(old(store).kinds(), self.subst()),
        ensures
            store_prefix(old(store).kinds(), final(store).kinds()),
            ({
                let (subject, tys1) = call_subject(old(store).kinds(), type_params@, self.subst(), unknown);
                let tys2 = tys1.push(TyNode::Named { name: shape_name, args: Seq::empty() });
                match r {
                    Some(end) => if subject == unknown {
                        end.obligation is None && substituted(tys1, final(store).kinds(), result, self.subst(), bits, Some(end.result))
                    } else {
                        end.obligation == Some(
                            ConstraintKey {
                                kind: ConstraintKind::Implements,
                                subject,
                                value: TyId(tys1.len() as u32),
                                shape_key: Some(*shape_key),
                            },
                        ) && substituted(tys2, final(store).kinds(), result, self.subst(), bits, Some(end.result))
                    },
                    None => final(store).kinds().len() == u32::MAX,
                }
            }),
    {
        let ghost tys0 = store.kinds();
        let subject = if type_params.len() == 0 {
            unknown
        } else {
            match self.subst.get(type_params[0]) {
                Some(t) => t,
                None => match add_ty(store, TyKind::Named { name: type_params[0], args: Vec::new() }) {
                    Some(t) => t,
                    None => {
                        return None;
                    },
                },
            }
        };
        let ghost tys1 = store.kinds();
        proof {
            assert(call_subject(tys0, type_params@, self.subst(), unknown) == (subject, tys1));
            lemma_subst_in_prefix(tys0, tys1, self.subst());
        }
        if subject == unknown {
            return match substitute_ty(store, result, &self.subst, bits) {
                Some(t) => {
                    proof {
                        lemma_prefix_trans(tys0, tys1, store.kinds());
                    }
                    Some(ShapeCallEnd { result: t, obligation: None })
                },
                None => None,
            };
        }
        let shape_ty = match add_ty(store, TyKind::Named { name: shape_name, args: Vec::new() }) {
            Some(t) => t,
            None => {
                return None;
            },
        };
        let ghost tys2 = store.kinds();
        proof {
            assert(tys2 == tys1.push(TyNode::Named { name: shape_name, args: Seq::empty() }));
            lemma_subst_in_prefix(tys1, tys2, self.subst());
        }
        let obligation = ConstraintKey::new(ConstraintKind::Implements, subject, shape_ty, Some(copy_key(shape_key)));
        match substitute_ty(store, result, &self.subst, bits) {
            Some(t) => {
                proof {
                    lemma_prefix_trans(tys0, tys1, tys2);
                    lemma_prefix_trans(tys0, tys2, store.kinds());
                }
                Some(ShapeCallEnd { result: t, obligation: Some(obligation) })
            },
            None => None,
        }
    }
}

} // verus!
