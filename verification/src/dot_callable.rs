//! Calls written with a dot, `receiver.name(...)`: which callable named
//! `name` takes the receiver as its first argument. Attached methods are
//! looked at first, then other callables; a callable fits when its first
//! parameter, with `mut` taken off, unifies with the receiver's type. One fit
//! is chosen, unless it needs a mutable receiver that the receiver is not;
//! several are ambiguous; none sends the lookup to imported methods.
use vstd::prelude::*;

use crate::subst_map::SubstMap;
use crate::substitute::add_ty;
use crate::ty::{children_below, Symbol, TyId, TyKind, TyNode, TyStore};
use crate::ty_props::{peel_mut, peel_mut_ty};
use crate::unify::{unify_spec, unify_ty, UnifyState};

verus! {

/// The type of a callable binding and the type parameters it may bind.
#[derive(Debug, Clone, PartialEq, Eq)]
pub struct CallableScheme {
    pub type_params: Vec<Symbol>,
    pub ty: TyId,
}

/// A callable binding named like the method, with its scheme when it has
/// one.
#[derive(Debug, Clone, PartialEq, Eq)]
pub struct DotCandidate {
    pub binding: u32,
    pub scheme: Option<CallableScheme>,
}

/// A candidate that fits the receiver, and whether it takes the receiver
/// as `mut`.
#[derive(Debug, Clone, Copy, PartialEq, Eq, Structural)]
pub struct DotMatch {
    pub binding: u32,
    pub requires_mut: bool,
}

/// Which callable a dot call calls.
#[derive(Debug, Clone, Copy, PartialEq, Eq, Structural)]
pub enum DotChoice {
    /// The receiver's type is unknown: no lookup.
    UnknownReceiver,
    /// No local callable fits: imported methods are looked at.
    Imported,
    /// Several fit.
    Ambiguous,
    /// The one that fits takes a `mut` receiver, and the receiver is not.
    RequiresMutReceiver,
    /// The binding called, and whether it is an attached method.
    Chosen { binding: u32, attached: bool },
}

/// The first parameter of a callable type.
pub open spec fn receiver_param(tys: Seq<TyNode>, ty: TyId) -> Option<TyId> {
    match tys[ty.0 as int] {
        TyNode::Arrow { params, .. } => if params.len() > 0 {
            Some(params[0])
        } else {
            None
        },
        _ => None,
    }
}

/// Whether a callable of type `ty`, over type parameters `params`, takes a
/// receiver of type `receiver`: its first parameter, with `mut` taken off,
/// unifies with it from no bindings.
pub open spec fn scheme_fits(tys: Seq<TyNode>, params: Seq<Symbol>, ty: TyId, receiver: TyId) -> bool {
    match receiver_param(tys, ty) {
        Some(p) => unify_spec(params, UnifyState { tys, subst: Map::empty() }, peel_mut(tys, p), receiver).0,
        None => false,
    }
}

/// Whether a callable of type `ty` takes its receiver as `mut`.
pub open spec fn takes_mut(tys: Seq<TyNode>, ty: TyId) -> bool {
    match receiver_param(tys, ty) {
        Some(p) => tys[p.0 as int] is Mut,
        None => false,
    }
}

/// Whether a candidate fits the receiver.
pub open spec fn candidate_fits(tys: Seq<TyNode>, c: DotCandidate, receiver: TyId) -> bool {
    match c.scheme {
        Some(s) => scheme_fits(tys, s.type_params@, s.ty, receiver),
        None => false,
    }
}

/// The candidates that fit the receiver, in order.
pub open spec fn fitting(tys: Seq<TyNode>, cands: Seq<DotCandidate>, receiver: TyId) -> Seq<DotMatch>
    decreases cands.len(),
{
    if cands.len() == 0 {
        Seq::empty()
    } else {
        let init = fitting(tys, cands.drop_last(), receiver);
        let c = cands.last();
        if candidate_fits(tys, c, receiver) {
            init.push(DotMatch { binding: c.binding, requires_mut: takes_mut(tys, c.scheme->0.ty) })
        } else {
            init
        }
    }
}

/// The choice among the attached methods that fit and, when none does,
/// the other callables that fit.
pub open spec fn choose_spec(unknown_receiver: bool, attached: Seq<DotMatch>, callables: Seq<DotMatch>, receiver_is_mut: bool) -> DotChoice {
    if unknown_receiver {
        DotChoice::UnknownReceiver
    } else {
        let is_attached = attached.len() > 0;
        let cands = if is_attached {
            attached
        } else {
            callables
        };
        if cands.len() == 0 {
            DotChoice::Imported
        } else if cands.len() > 1 {
            DotChoice::Ambiguous
        } else if cands[0].requires_mut && !receiver_is_mut {
            DotChoice::RequiresMutReceiver
        } else {
            DotChoice::Chosen { binding: cands[0].binding, attached: is_attached }
        }
    }
}

/// Every scheme of the candidates names a type of the store.
pub open spec fn schemes_in(tys: Seq<TyNode>, cands: Seq<DotCandidate>) -> bool {
    forall|k: int| 0 <= k < cands.len() ==> match (#[trigger] cands[k]).scheme {
        Some(s) => s.ty.0 < tys.len(),
        None => true,
    }
}

/// Whether unifying a candidate's receiver parameter with `receiver`
/// stays within the types a store's ids can name; a candidate with no
/// receiver parameter needs no room.
pub open spec fn candidate_room(tys: Seq<TyNode>, c: DotCandidate, receiver: TyId) -> bool {
    match c.scheme {
        Some(s) => match receiver_param(tys, s.ty) {
            Some(p) => unify_spec(s.type_params@, UnifyState { tys, subst: Map::empty() }, peel_mut(tys, p), receiver).1.tys.len()
                <= u32::MAX,
            None => true,
        },
        None => true,
    }
}

/// Whether every candidate has room to be tried.
pub open spec fn all_room(tys: Seq<TyNode>, cands: Seq<DotCandidate>, receiver: TyId) -> bool {
    forall|k: int| 0 <= k < cands.len() ==> candidate_room(tys, #[trigger] cands[k], receiver)
}

fn receiver_param_exec(store: &TyStore, ty: TyId) -> (r: Option<TyId>)
    requires
        ty.0 < store.kinds().len(),
    ensures
        r == receiver_param(store.kinds(), ty),
        r matches Some(p) ==> p.0 < store.kinds().len(),
{
    proof {
        use_type_invariant(store);
        assert(children_below(store.kinds()[ty.0 as int], ty.0 as int));
    }
    match store.kind(ty) {
        TyKind::Arrow { params, .. } => {
            if params.len() > 0 {
                Some(params[0])
            } else {
                None
            }
        },
        _ => None,
    }
}

/// Whether a candidate fits the receiver; `None` when unifying needed a new
/// type and a copy of the store had no room for it.
pub fn dot_callable_matches_binding(store: &TyStore, cand: &DotCandidate, receiver: TyId) -> (r: Option<bool>)
    requires
        receiver.0 < store.kinds().len(),
        match cand.scheme {
            Some(s) => s.ty.0 < store.kinds().len(),
            None => true,
        },
    ensures
        r matches Some(b) ==> b == candidate_fits(store.kinds(), *cand, receiver),
        r is Some <==> candidate_room(store.kinds(), *cand, receiver),
        cand.scheme is None ==> r == Some(false),
{
    match &cand.scheme {
        None => Some(false),
        Some(s) => {
            match receiver_param_exec(store, s.ty) {
                None => Some(false),
                Some(p) => {
                    let param = peel_mut_ty(store, p);
                    let mut scratch = store.copy();
                    let mut subst = SubstMap::new();
                    proof {
                        assert(subst@ =~= Map::<Symbol, TyId>::empty());
                    }
                    let r = unify_ty(&mut scratch, &s.type_params, param, receiver, &mut subst);
                    proof {
                        use_type_invariant(&scratch);
                    }
                    r
                },
            }
        },
    }
}

/// Whether a callable of type `ty` takes its receiver as `mut`.
pub fn dot_callable_requires_mut(store: &TyStore, ty: TyId) -> (r: bool)
    requires
        ty.0 < store.kinds().len(),
    ensures
        r == takes_mut(store.kinds(), ty),
{
    match receiver_param_exec(store, ty) {
        Some(p) => {
            if let TyKind::Mut { .. } = store.kind(p) {
                true
            } else {
                false
            }
        },
        None => false,
    }
}

/// The candidates that fit the receiver, in order; `None` when a copy of the
/// store ran out of room.
fn fitting_exec(store: &TyStore, cands: &Vec<DotCandidate>, receiver: TyId) -> (r: Option<Vec<DotMatch>>)
    requires
        receiver.0 < store.kinds().len(),
        schemes_in(store.kinds(), cands@),
    ensures
        r matches Some(v) ==> v@ == fitting(store.kinds(), cands@, receiver),
        r is Some <==> all_room(store.kinds(), cands@, receiver),
{
    let mut out: Vec<DotMatch> = Vec::new();
    let mut i: usize = 0;
    while i < cands.len()
        invariant
            i <= cands.len(),
            receiver.0 < store.kinds().len(),
            schemes_in(store.kinds(), cands@),
            out@ == fitting(store.kinds(), cands@.subrange(0, i as int), receiver),
            forall|k: int| 0 <= k < i ==> candidate_room(store.kinds(), #[trigger] cands@[k], receiver),
        decreases cands.len() - i,
    {
        proof {
            assert(cands@.subrange(0, i + 1).drop_last() =~= cands@.subrange(0, i as int));
            assert(cands@.subrange(0, i + 1).last() == cands@[i as int]);
        }
        let c = &cands[i];
        let fits = match dot_callable_matches_binding(store, c, receiver) {
            Some(b) => b,
            None => {
                proof {
                    assert(!candidate_room(store.kinds(), cands@[i as int], receiver));
                }
                return None;
            },
        };
        if fits {
            let requires_mut = match &c.scheme {
                Some(s) => dot_callable_requires_mut(store, s.ty),
                None => false,
            };
            out.push(DotMatch { binding: c.binding, requires_mut });
        }
        i = i + 1;
    }
    proof {
        assert(cands@.subrange(0, i as int) =~= cands@);
    }
    Some(out)
}

/// The choice among fitting attached methods and, when none fits, other
/// fitting callables.
pub fn choose_dot_callable(unknown_receiver: bool, attached: &Vec<DotMatch>, callables: &Vec<DotMatch>, receiver_is_mut: bool) -> (r: DotChoice)
    ensures
        r == choose_spec(unknown_receiver, attached@, callables@, receiver_is_mut),
{
    if unknown_receiver {
        return DotChoice::UnknownReceiver;
    }
    let is_attached = attached.len() > 0;
    let cands = if is_attached {
        attached
    } else {
        callables
    };
    if cands.len() == 0 {
        DotChoice::Imported
    } else if cands.len() > 1 {
        DotChoice::Ambiguous
    } else if cands[0].requires_mut && !receiver_is_mut {
        DotChoice::RequiresMutReceiver
    } else {
        DotChoice::Chosen { binding: cands[0].binding, attached: is_attached }
    }
}

/// Which callable `receiver.name(...)` calls, among the attached methods
/// and the other callables named `name`; `None` when a copy of the store ran
/// out of room while unifying.
pub fn dot_callable_choice(
    store: &TyStore,
    unknown: TyId,
    receiver: TyId,
    receiver_is_mut: bool,
    attached: &Vec<DotCandidate>,
    callables: &Vec<DotCandidate>,
) -> (r: Option<DotChoice>)
    requires
        receiver.0 < store.kinds().len(),
        schemes_in(store.kinds(), attached@),
        schemes_in(store.kinds(), callables@),
    ensures
        r matches Some(c) ==> c == choose_spec(
            receiver == unknown,
            fitting(store.kinds(), attached@, receiver),
            fitting(store.kinds(), callables@, receiver),
            receiver_is_mut,
        ),
        r is None <==> receiver != unknown && (!all_room(store.kinds(), attached@, receiver) || (fitting(
            store.kinds(),
            attached@,
            receiver,
        ).len() == 0 && !all_room(store.kinds(), callables@, receiver))),
{
    if receiver == unknown {
        return Some(DotChoice::UnknownReceiver);
    }
    let attached_fits = fitting_exec(store, attached, receiver)?;
    if attached_fits.len() > 0 {
        let none: Vec<DotMatch> = Vec::new();
        return Some(choose_dot_callable(false, &attached_fits, &none, receiver_is_mut));
    }
    let callable_fits = fitting_exec(store, callables, receiver)?;
    Some(choose_dot_callable(false, &attached_fits, &callable_fits, receiver_is_mut))
}

/// The type of a dot-called callable seen from the call: its callable type
/// without the receiver parameter.
pub open spec fn without_receiver(k: TyNode) -> Option<TyNode> {
    match k {
        TyNode::Arrow { params, ret, is_effectful } => Some(
            TyNode::Arrow { params: params.subrange(if params.len() > 0 { 1 } else { 0 }, params.len() as int), ret, is_effectful },
        ),
        _ => None,
    }
}

/// Adds the callable type `ty` without its receiver parameter to the store;
/// `None`, with the store unchanged, when `ty` is not callable or the store
/// is full.
pub fn strip_dot_callable_param(store: &mut TyStore, ty: TyId) -> (r: Option<TyId>)
    requires
        ty.0 < old(store).kinds().len(),
    ensures
        match without_receiver(old(store).kinds()[ty.0 as int]) {
            Some(k) => match r {
                Some(id) => final(store).kinds() == old(store).kinds().push(k) && id.0 == old(store).kinds().len(),
                None => final(store).kinds() == old(store).kinds() && old(store).kinds().len() == u32::MAX,
            },
            None => r is None && final(store).kinds() == old(store).kinds(),
        },
{
    proof {
        use_type_invariant(&*store);
        assert(children_below(store.kinds()[ty.0 as int], ty.0 as int));
    }
    let (tail, ret, is_effectful) = match store.kind(ty) {
        TyKind::Arrow { params, ret, is_effectful } => {
            let mut tail: Vec<TyId> = Vec::new();
            let start: usize = if params.len() > 0 { 1 } else { 0 };
            let mut i: usize = start;
            while i < params.len()
                invariant
                    start <= i <= params.len(),
                    start == (if params@.len() > 0 { 1usize } else { 0usize }),
                    tail@ == params@.subrange(start as int, i as int),
                decreases params.len() - i,
            {
                tail.push(params[i]);
                i = i + 1;
                assert(tail@ =~= params@.subrange(start as int, i as int));
            }
            (tail, *ret, *is_effectful)
        },
        _ => {
            return None;
        },
    };
    let kind = TyKind::Arrow { params: tail, ret, is_effectful };
    add_ty(store, kind)
}


/// What a method named through a receiver type's namespace resolves to.
#[derive(Debug, Clone, Copy, PartialEq, Eq, Structural)]
pub enum NamespaceChoice {
    /// Several fit.
    Ambiguous,
    /// The one visible attached method that fits, by position.
    Local { index: usize },
    /// The one imported attached method.
    Imported,
    /// None fits.
    Missing,
}

/// The positions of the first `n` candidates that fit the receiver.
pub open spec fn fit_positions(tys: Seq<TyNode>, cands: Seq<DotCandidate>, receiver: TyId, n: int) -> Seq<int>
    decreases n,
{
    if n <= 0 {
        Seq::empty()
    } else {
        let init = fit_positions(tys, cands, receiver, n - 1);
        if candidate_fits(tys, cands[n - 1], receiver) {
            init.push(n - 1)
        } else {
            init
        }
    }
}

/// The choice: the attached methods that fit, and only when none does, the
/// imported ones.
pub open spec fn namespace_spec(fits: Seq<int>, imported: int) -> NamespaceChoice {
    if fits.len() > 1 {
        NamespaceChoice::Ambiguous
    } else if fits.len() == 1 {
        NamespaceChoice::Local { index: fits[0] as usize }
    } else if imported > 1 {
        NamespaceChoice::Ambiguous
    } else if imported == 1 {
        NamespaceChoice::Imported
    } else {
        NamespaceChoice::Missing
    }
}

/// Resolves a method named through the namespace of the receiver type
/// `receiver`: among the visible attached methods of that name, those that
/// fit; when none does, the imported ones, of which there are `imported`.
/// `None` when a copy of the store ran out of room.
pub fn attached_namespace_choice(
    store: &TyStore,
    receiver: TyId,
    attached: &Vec<DotCandidate>,
    imported: usize,
) -> (r: Option<NamespaceChoice>)
    requires
        receiver.0 < store.kinds().len(),
        schemes_in(store.kinds(), attached@),
    ensures
        r matches Some(c) ==> c == namespace_spec(
            fit_positions(store.kinds(), attached@, receiver, attached@.len() as int),
            imported as int,
        ),
        r is None <==> !all_room(store.kinds(), attached@, receiver),
{
    let mut fits: Vec<usize> = Vec::new();
    let mut i: usize = 0;
    while i < attached.len()
        invariant
            i <= attached.len(),
            receiver.0 < store.kinds().len(),
            schemes_in(store.kinds(), attached@),
            fits@.len() == fit_positions(store.kinds(), attached@, receiver, i as int).len(),
            forall|k: int| 0 <= k < fits@.len() ==> #[trigger] fits@[k] as int == fit_positions(
                store.kinds(),
                attached@,
                receiver,
                i as int,
            )[k],
            forall|k: int| 0 <= k < i ==> candidate_room(store.kinds(), #[trigger] attached@[k], receiver),
        decreases attached.len() - i,
    {
        let c = &attached[i];
        proof {
            assert(schemes_in(store.kinds(), attached@));
            assert(attached@[i as int] == *c);
        }
        let fits_here = match dot_callable_matches_binding(store, c, receiver) {
            Some(b) => b,
            None => {
                proof {
                    assert(!candidate_room(store.kinds(), attached@[i as int], receiver));
                }
                return None;
            },
        };
        if fits_here {
            fits.push(i);
        }
        i = i + 1;
    }
    let fits_len = fits.len();
    if fits_len > 1 {
        Some(NamespaceChoice::Ambiguous)
    } else if fits_len == 1 {
        Some(NamespaceChoice::Local { index: fits[0] })
    } else if imported > 1 {
        Some(NamespaceChoice::Ambiguous)
    } else if imported == 1 {
        Some(NamespaceChoice::Imported)
    } else {
        Some(NamespaceChoice::Missing)
    }
}

} // verus!
