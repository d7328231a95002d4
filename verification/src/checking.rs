//! The state that checking a module's expressions builds up: the types,
//! schemes and compile-time values of bindings, the bindings a target gates
//! out, the facts recorded for member expressions and the diagnostics
//! reported; and the steps of checking `let`s, binary operators, dot calls
//! and `pin`s that read and write it. Each step takes what checking a
//! sub-expression gave as an argument; the walk over expressions is the
//! caller's.
use std::collections::{HashMap, HashSet};

use vstd::prelude::*;

use crate::const_eval::{eval_value, is_known_expr, ComptimeValue, ConstEnv};
use crate::diag::SemaDiagKind;
use crate::dot_callable::{
    all_room, choose_spec, dot_callable_choice, fitting, schemes_in, strip_dot_callable_param, without_receiver, DotCandidate,
    DotChoice,
};
use crate::expr::{BinaryOp, ExprId, ExprStore};
use crate::lets::{callable_let_issues, callable_let_issues_spec, known_let_value, let_route, let_route_spec, LetPath};
use crate::matching::{ty_matches, ty_matches_spec};
use crate::pats::{defs_tys_in, irrefutable, pat_is_irrefutable, PatId, PatKind, PatStep, PatStore};
use crate::pat_bind::{bind_pat, pat_steps_ok};
use crate::records::{data_defs_in, lemma_zip_subst_in, zip_subst, zip_subst_exec};
use crate::surface_lower::symbol_texts;
use crate::text_map::TextMap;
use crate::facts::{ConstraintFacts, ExprFacts, ExprMemberFact, ExprMemberKind, SemaDataDef};
use crate::pins::{find_pin_capture_in_closure, pin_capture};
use crate::substitute::{add_ty, substitute_ty, substituted};
use crate::ty::{Symbol, TyId, TyKind, TyNode, TyStore};
use crate::ty_props::{is_pin_ty, is_pinnable, is_pinnable_ty, peel_mut};
use crate::binary_types::{
    binary_rule, binary_rule_spec, builtins_in, logical_binary_type, logical_result, mismatch_of, numeric_binary_type,
    numeric_result, range_item, range_item_ty, range_item_type, string_concat_type, BinaryRule, Builtins,
};
use crate::name_set::NameSet;

verus! {

broadcast use vstd::std_specs::hash::group_hash_axioms;

/// What a diagnostic names besides its kind.
#[derive(Debug, Clone, Copy, PartialEq, Eq, Structural)]
pub enum DiagSubject {
    /// Nothing.
    Plain,
    /// A type, rendered when the diagnostic is shown.
    Ty(TyId),
    /// A name written in the source.
    Name(Symbol),
    /// A value of type `found` where `expected` was asked for.
    Mismatch { expected: TyId, found: TyId },
    /// An operator and the types of its operands.
    Operands { op: BinaryOp, left: TyId, right: TyId },
}

/// A reported diagnostic.
#[derive(Debug, Clone, Copy, PartialEq, Eq, Structural)]
pub struct CheckDiag {
    pub kind: SemaDiagKind,
    pub subject: DiagSubject,
}

/// A diagnostic that names nothing.
pub open spec fn plain(kind: SemaDiagKind) -> CheckDiag {
    CheckDiag { kind, subject: DiagSubject::Plain }
}

fn plain_diag(kind: SemaDiagKind) -> (d: CheckDiag)
    ensures
        d == plain(kind),
{
    CheckDiag { kind, subject: DiagSubject::Plain }
}

/// The scheme of a `let` binding: its type parameters with their kinds, the
/// names of its parameters and which of them are compile-time, its
/// constraints, and its type.
#[derive(Debug)]
pub struct LetScheme {
    pub type_params: Vec<Symbol>,
    pub type_param_kinds: Vec<TyId>,
    pub param_names: Vec<Symbol>,
    pub comptime_params: Vec<bool>,
    pub constraints: Vec<ConstraintFacts>,
    pub ty: TyId,
}

/// What checking has learnt so far.
#[derive(Debug)]
pub struct CheckState {
    /// The type of each binding.
    pub binding_tys: HashMap<u32, TyId>,
    /// The scheme of each `let` binding.
    pub schemes: HashMap<u32, LetScheme>,
    /// The bindings whose `@target` did not match.
    pub gated: HashSet<u32>,
    /// The compile-time value of each binding that has one.
    pub comptime_values: HashMap<u32, ComptimeValue>,
    /// The integer value of each binding whose compile-time value is one.
    pub const_ints: HashMap<u32, i64>,
    /// The attached methods, by the symbol of the method's name, in the
    /// order they were declared.
    pub attached_methods: HashMap<u32, Vec<u32>>,
    /// The binding a dot call calls, by expression id.
    pub dot_bindings: HashMap<u32, u32>,
    /// What each member expression resolved to, by expression id.
    pub member_facts: HashMap<u32, ExprMemberFact>,
    /// The module each member expression that reaches an imported record
    /// comes from, by expression id.
    pub expr_import_targets: HashMap<u32, String>,
    /// The module each binding bound to an imported record comes from.
    pub import_targets: HashMap<u32, String>,
    /// The diagnostics, in order.
    pub diags: Vec<CheckDiag>,
    /// The type parameters in scope, innermost last, each with its kind.
    pub type_param_scopes: Vec<Vec<(Symbol, TyId)>>,
    /// How many `pin` bodies enclose the expression being checked.
    pub pin_depth: usize,
    /// The type each pattern is matched against, by pattern id.
    pub pat_facts: HashMap<u32, TyId>,
}

/// `m` with `k` mapped to `v`, when there is a key.
pub open spec fn opt_insert<V>(m: Map<u32, V>, k: Option<u32>, v: V) -> Map<u32, V> {
    match k {
        Some(b) => m.insert(b, v),
        None => m,
    }
}

/// `m` with `k` mapped to the value, when there is one.
pub open spec fn insert_some<V>(m: Map<u32, V>, k: u32, v: Option<V>) -> Map<u32, V> {
    match v {
        Some(x) => m.insert(k, x),
        None => m,
    }
}

/// A diagnostic when `cond` holds, else none.
pub open spec fn diag_if(cond: bool, d: CheckDiag) -> Seq<CheckDiag> {
    if cond {
        seq![d]
    } else {
        Seq::empty()
    }
}

/// The attached methods named `name` once binding `b` is attached under
/// that name: those before, then `b`; other names keep theirs.
pub open spec fn attached_after(before: Map<u32, Vec<u32>>, after: Map<u32, Vec<u32>>, name: u32, b: u32) -> bool {
    &&& after.dom() == before.dom().insert(name)
    &&& after[name]@ == (if before.contains_key(name) {
        before[name]@
    } else {
        Seq::empty()
    }).push(b)
    &&& forall|k: u32| #[trigger] before.contains_key(k) && k != name ==> after[k] == before[k]
}

/// `b` is `a` but for the tables flagged as changed.
pub open spec fn frame(
    a: CheckState,
    b: CheckState,
    binding_tys: bool,
    schemes: bool,
    gated: bool,
    values: bool,
    attached: bool,
    members: bool,
    diags: bool,
    scopes: bool,
    pins: bool,
    pat_facts: bool,
) -> bool {
    &&& (binding_tys || a.binding_tys@ == b.binding_tys@)
    &&& (schemes || a.schemes@ == b.schemes@)
    &&& (gated || a.gated@ == b.gated@)
    &&& (values || (a.comptime_values@ == b.comptime_values@ && a.const_ints@ == b.const_ints@
        && a.import_targets@ == b.import_targets@))
    &&& (attached || a.attached_methods@ == b.attached_methods@)
    &&& (members || (a.dot_bindings@ == b.dot_bindings@ && a.member_facts@ == b.member_facts@
        && a.expr_import_targets@ == b.expr_import_targets@))
    &&& (diags || a.diags@ == b.diags@)
    &&& (scopes || a.type_param_scopes@ == b.type_param_scopes@)
    &&& (pins || a.pin_depth == b.pin_depth)
    &&& (pat_facts || a.pat_facts@ == b.pat_facts@)
}

/// The value a table holds for `k`, copied.
pub(crate) fn get_copy<V: Copy>(m: &HashMap<u32, V>, k: u32) -> (r: Option<V>)
    ensures
        r == m@.get(k),
{
    match m.get(&k) {
        Some(v) => Some(*v),
        None => None,
    }
}

/// The text a table holds for `k`, copied.
pub(crate) fn get_string(m: &HashMap<u32, String>, k: u32) -> (r: Option<String>)
    ensures
        r == m@.get(k),
{
    match m.get(&k) {
        Some(v) => Some(v.clone()),
        None => None,
    }
}

impl CheckState {
    /// Before anything is checked.
    pub fn new() -> (s: Self)
        ensures
            s.binding_tys@ == Map::<u32, TyId>::empty(),
            s.schemes@ == Map::<u32, LetScheme>::empty(),
            s.gated@ == Set::<u32>::empty(),
            s.comptime_values@ == Map::<u32, ComptimeValue>::empty(),
            s.const_ints@ == Map::<u32, i64>::empty(),
            s.attached_methods@ == Map::<u32, Vec<u32>>::empty(),
            s.dot_bindings@ == Map::<u32, u32>::empty(),
            s.member_facts@ == Map::<u32, ExprMemberFact>::empty(),
            s.expr_import_targets@ == Map::<u32, String>::empty(),
            s.import_targets@ == Map::<u32, String>::empty(),
            s.diags@ == Seq::<CheckDiag>::empty(),
            s.type_param_scopes@.len() == 0,
            s.pin_depth == 0,
            s.pat_facts@ == Map::<u32, TyId>::empty(),
    {
        CheckState {
            binding_tys: HashMap::new(),
            schemes: HashMap::new(),
            gated: HashSet::new(),
            comptime_values: HashMap::new(),
            const_ints: HashMap::new(),
            attached_methods: HashMap::new(),
            dot_bindings: HashMap::new(),
            member_facts: HashMap::new(),
            expr_import_targets: HashMap::new(),
            import_targets: HashMap::new(),
            diags: Vec::new(),
            type_param_scopes: Vec::new(),
            pin_depth: 0,
            pat_facts: HashMap::new(),
        }
    }

    /// The type of binding `b`, when it has one.
    pub fn binding_type(&self, b: u32) -> (r: Option<TyId>)
        ensures
            r == self.binding_tys@.get(b),
    {
        get_copy(&self.binding_tys, b)
    }

    /// Records that binding `b` is bound to an imported record of the
    /// module `target`.
    pub fn insert_binding_import_target(&mut self, b: u32, target: String)
        ensures
            frame(*old(self), *final(self), false, false, false, true, false, false, false, false, false, false),
            final(self).comptime_values@ == old(self).comptime_values@,
            final(self).const_ints@ == old(self).const_ints@,
            final(self).import_targets@ == old(self).import_targets@.insert(b, target),
    {
            self.import_targets.insert(b, target);
    }

    /// Whether binding `b` is gated out.
    pub fn is_gated_binding(&self, b: u32) -> (r: bool)
        ensures
            r == self.gated@.contains(b),
    {
            self.gated.contains(&b)
    }
}

// ---------------------------------------------------------------- pins

/// Entering `pin value as name in body`: outside an `unsafe` block the pin
/// is reported, before the value is checked.
pub fn pin_expr_enter(st: &mut CheckState, in_unsafe: bool)
    ensures
        frame(*old(st), *final(st), false, false, false, false, false, false, true, false, false, false),
        final(st).diags@ == old(st).diags@ + diag_if(!in_unsafe, plain(SemaDiagKind::PinRequiresUnsafeBlock)),
{
    if !in_unsafe {
        st.diags.push(plain_diag(SemaDiagKind::PinRequiresUnsafeBlock));
    }
    proof {
        assert(st.diags@ =~= old(st).diags@ + diag_if(!in_unsafe, plain(SemaDiagKind::PinRequiresUnsafeBlock)));
    }
}

/// The pinned value checked, of type `value_ty`: a type that cannot be
/// pinned is reported, the name `binding` gets the type `pin[value_ty]`
/// (`pin` is the symbol `Pin`), and the body is entered. `None`, with
/// nothing changed, when the store has no room for that type.
pub fn pin_expr_bind(st: &mut CheckState, store: &mut TyStore, pin: Symbol, value_ty: TyId, binding: Option<u32>) -> (r: Option<TyId>)
    requires
        value_ty.0 < old(store).kinds().len(),
        old(st).pin_depth < usize::MAX,
    ensures
        match r {
            Some(p) => {
                &&& final(store).kinds() == old(store).kinds().push(TyNode::Named { name: pin, args: seq![value_ty] })
                &&& p.0 == old(store).kinds().len()
                &&& frame(*old(st), *final(st), true, false, false, false, false, false, true, false, true, false)
                &&& final(st).diags@ == old(st).diags@ + diag_if(
                    !is_pinnable(old(store).kinds()[value_ty.0 as int]),
                    CheckDiag { kind: SemaDiagKind::UnsupportedPinTarget, subject: DiagSubject::Ty(value_ty) },
                )
                &&& final(st).binding_tys@ == opt_insert(old(st).binding_tys@, binding, p)
                &&& final(st).pin_depth == old(st).pin_depth + 1
            },
            None => {
                &&& old(store).kinds().len() == u32::MAX
                &&& final(store).kinds() == old(store).kinds()
                &&& frame(*old(st), *final(st), false, false, false, false, false, false, false, false, false, false)
            },
        },
{
    let pinnable = is_pinnable_ty(store, value_ty);
    let args = vec![value_ty];
    let kind = TyKind::Named { name: pin, args };
    proof {
        assert(kind@ == TyNode::Named { name: pin, args: seq![value_ty] }) by {
            assert(kind->args@ =~= seq![value_ty]);
        }
    }
    let p = match add_ty(store, kind) {
        Some(p) => p,
        None => {
            return None;
        },
    };
    if !pinnable {
        st.diags.push(CheckDiag { kind: SemaDiagKind::UnsupportedPinTarget, subject: DiagSubject::Ty(value_ty) });
    }
    if let Some(b) = binding {
        st.binding_tys.insert(b, p);
    }
    st.pin_depth = st.pin_depth + 1;
    proof {
        assert(st.diags@ =~= old(st).diags@ + diag_if(
            !is_pinnable(old(store).kinds()[value_ty.0 as int]),
            CheckDiag { kind: SemaDiagKind::UnsupportedPinTarget, subject: DiagSubject::Ty(value_ty) },
        ));
    }
    Some(p)
}

/// The type of `pin value as name in body` once its body, of type
/// `body_ty`, is checked: the body is left; a closure in the body that
/// captures the pinned name, and a pin that escapes as the body's value,
/// are reported naming `name`. Its type is the body's.
pub fn check_pin_expr(
    st: &mut CheckState,
    store: &TyStore,
    exprs: &ExprStore,
    names: &Vec<String>,
    name: Symbol,
    binding: Option<u32>,
    body: ExprId,
    body_ty: TyId,
) -> (r: ExprFacts)
    requires
        old(st).pin_depth > 0,
        body.0 < exprs.kinds().len(),
        body_ty.0 < store.kinds().len(),
    ensures
        r.ty == body_ty,
        frame(*old(st), *final(st), false, false, false, false, false, false, true, false, true, false),
        final(st).pin_depth == old(st).pin_depth - 1,
        final(st).diags@ == old(st).diags@ + diag_if(
            binding matches Some(b) && pin_capture(exprs.kinds(), exprs.bindings() as int, body, b, false) is Some,
            CheckDiag { kind: SemaDiagKind::PinnedValueCapturedByClosure, subject: DiagSubject::Name(name) },
        ) + diag_if(
            match store.kinds()[body_ty.0 as int] {
                TyNode::Named { name: n, .. } => crate::const_eval::symbol_text(names@.map_values(|t: String| t@), n) == "Pin"@,
                _ => false,
            },
            CheckDiag { kind: SemaDiagKind::PinnedValueEscapes, subject: DiagSubject::Name(name) },
        ),
{
    st.pin_depth = st.pin_depth - 1;
    let ghost d0 = st.diags@;
    let captured = match binding {
        Some(b) => find_pin_capture_in_closure(exprs, body, b).is_some(),
        None => false,
    };
    if captured {
        st.diags.push(CheckDiag { kind: SemaDiagKind::PinnedValueCapturedByClosure, subject: DiagSubject::Name(name) });
    }
    let escapes = is_pin_ty(store, names, body_ty);
    if escapes {
        st.diags.push(CheckDiag { kind: SemaDiagKind::PinnedValueEscapes, subject: DiagSubject::Name(name) });
    }
    proof {
        assert(st.diags@ =~= d0 + diag_if(
            binding matches Some(b) && pin_capture(exprs.kinds(), exprs.bindings() as int, body, b, false) is Some,
            CheckDiag { kind: SemaDiagKind::PinnedValueCapturedByClosure, subject: DiagSubject::Name(name) },
        ) + diag_if(escapes, CheckDiag { kind: SemaDiagKind::PinnedValueEscapes, subject: DiagSubject::Name(name) }));
    }
    ExprFacts::new(body_ty)
}

// ------------------------------------------------------------ dot calls

/// Every scheme's type is a type of the store.
pub open spec fn schemes_in_store(st: CheckState, tys: Seq<TyNode>) -> bool {
    forall|b: u32| #[trigger] st.schemes@.contains_key(b) ==> st.schemes@[b].ty.0 < tys.len()
}

/// What a field access resolves to when read as a dot call.
#[derive(Debug, Clone, Copy, PartialEq, Eq, Structural)]
pub enum DotField {
    /// Not a dot call: the receiver's type is unknown, or the binding
    /// chosen has no scheme.
    NotDotCallable,
    /// No local callable fits: imported attached methods are looked at.
    Imported,
    /// A dot call of this type.
    Ty(TyId),
}

/// Whether the copies of the store that the lookup unifies in have room.
pub open spec fn dot_room(tys: Seq<TyNode>, unknown: TyId, receiver: TyId, attached: Seq<DotCandidate>, callables: Seq<DotCandidate>) -> bool {
    !(receiver != unknown && (!all_room(tys, attached, receiver) || (fitting(tys, attached, receiver).len() == 0
        && !all_room(tys, callables, receiver))))
}

/// Resolves `receiver.method_name` in expression `expr` as a call of a
/// callable that takes the receiver first, among the visible attached
/// methods named `method_name` and then the visible callables so named.
/// Several that fit, or one that needs a `mut` receiver the receiver is
/// not, are reported and give `Unknown`. The one chosen is recorded for
/// the expression with a member fact, and the expression's type is its
/// scheme's type without the receiver parameter. `None` when a store had
/// no room.
pub fn check_dot_callable_field(
    st: &mut CheckState,
    store: &mut TyStore,
    expr: ExprId,
    unknown: TyId,
    receiver: TyId,
    receiver_is_mut: bool,
    method_name: Symbol,
    attached: &Vec<DotCandidate>,
    callables: &Vec<DotCandidate>,
) -> (r: Option<DotField>)
    requires
        receiver.0 < old(store).kinds().len(),
        schemes_in(old(store).kinds(), attached@),
        schemes_in(old(store).kinds(), callables@),
        schemes_in_store(*old(st), old(store).kinds()),
    ensures
        dot_room(old(store).kinds(), unknown, receiver, attached@, callables@) && old(store).kinds().len() < u32::MAX ==> r is Some,
        r is None ==> !dot_room(old(store).kinds(), unknown, receiver, attached@, callables@) || old(store).kinds().len() == u32::MAX,
        r matches Some(f) ==> match choose_spec(
            receiver == unknown,
            fitting(old(store).kinds(), attached@, receiver),
            fitting(old(store).kinds(), callables@, receiver),
            receiver_is_mut,
        ) {
            DotChoice::UnknownReceiver => f == DotField::NotDotCallable && final(store).kinds() == old(store).kinds()
                && frame(*old(st), *final(st), false, false, false, false, false, false, false, false, false, false),
            DotChoice::Imported => f == DotField::Imported && final(store).kinds() == old(store).kinds()
                && frame(*old(st), *final(st), false, false, false, false, false, false, false, false, false, false),
            DotChoice::Ambiguous => f == DotField::Ty(unknown) && final(store).kinds() == old(store).kinds()
                && frame(*old(st), *final(st), false, false, false, false, false, false, true, false, false, false)
                && final(st).diags@ == old(st).diags@.push(plain(SemaDiagKind::AmbiguousDotCallable)),
            DotChoice::RequiresMutReceiver => f == DotField::Ty(unknown) && final(store).kinds() == old(store).kinds()
                && frame(*old(st), *final(st), false, false, false, false, false, false, true, false, false, false)
                && final(st).diags@ == old(st).diags@.push(plain(SemaDiagKind::DotCallableRequiresMutableReceiver)),
            DotChoice::Chosen { binding, attached: is_attached } => {
                &&& frame(*old(st), *final(st), false, false, false, false, false, true, false, false, false, false)
                &&& final(st).dot_bindings@ == old(st).dot_bindings@.insert(expr.0, binding)
                &&& match old(st).schemes@.get(binding) {
                    None => f == DotField::NotDotCallable && final(store).kinds() == old(store).kinds()
                        && final(st).member_facts@ == old(st).member_facts@
                        && final(st).expr_import_targets@ == old(st).expr_import_targets@,
                    Some(s) => exists|v: TyId| {
                        &&& f == DotField::Ty(v)
                        &&& final(st).member_facts@ == old(st).member_facts@.insert(expr.0, ExprMemberFact {
                            kind: if is_attached { ExprMemberKind::AttachedMethod } else { ExprMemberKind::DotCallable },
                            name: method_name,
                            ty: v,
                            binding: Some(binding),
                            import_record_target: old(st).import_targets@.get(binding),
                            index: None,
                        })
                        &&& final(st).expr_import_targets@ == insert_some(
                            old(st).expr_import_targets@,
                            expr.0,
                            old(st).import_targets@.get(binding),
                        )
                        &&& match without_receiver(old(store).kinds()[s.ty.0 as int]) {
                            Some(k) => final(store).kinds() == old(store).kinds().push(k) && v.0 == old(store).kinds().len(),
                            None => final(store).kinds() == old(store).kinds() && v == s.ty,
                        }
                    },
                }
            },
        },
{
    let choice = match dot_callable_choice(store, unknown, receiver, receiver_is_mut, attached, callables) {
        Some(c) => c,
        None => {
            return None;
        },
    };
    match choice {
        DotChoice::UnknownReceiver => Some(DotField::NotDotCallable),
        DotChoice::Imported => Some(DotField::Imported),
        DotChoice::Ambiguous => {
            st.diags.push(plain_diag(SemaDiagKind::AmbiguousDotCallable));
            Some(DotField::Ty(unknown))
        },
        DotChoice::RequiresMutReceiver => {
            st.diags.push(plain_diag(SemaDiagKind::DotCallableRequiresMutableReceiver));
            Some(DotField::Ty(unknown))
        },
        DotChoice::Chosen { binding, attached: is_attached } => {
            st.dot_bindings.insert(expr.0, binding);
            let ty = match st.schemes.get(&binding) {
                Some(s) => s.ty,
                None => {
                    return Some(DotField::NotDotCallable);
                },
            };
            proof {
                assert(schemes_in_store(*old(st), old(store).kinds()));
                assert(old(st).schemes@.contains_key(binding));
            }
            let value_ty = match without_receiver_exec(store, ty) {
                false => ty,
                true => match strip_dot_callable_param(store, ty) {
                    Some(v) => v,
                    None => {
                        return None;
                    },
                },
            };
            let kind = if is_attached {
                ExprMemberKind::AttachedMethod
            } else {
                ExprMemberKind::DotCallable
            };
            let target = get_string(&st.import_targets, binding);
            if let Some(t) = &target {
                st.expr_import_targets.insert(expr.0, t.clone());
            }
            st.member_facts.insert(
                expr.0,
                ExprMemberFact { kind, name: method_name, ty: value_ty, binding: Some(binding), import_record_target: target, index: None },
            );
            Some(DotField::Ty(value_ty))
        },
    }
}

/// Whether a type is callable, so that it has a receiver to strip.
fn without_receiver_exec(store: &TyStore, ty: TyId) -> (r: bool)
    requires
        ty.0 < store.kinds().len(),
    ensures
        r == without_receiver(store.kinds()[ty.0 as int]) is Some,
{
    match store.kind(ty) {
        TyKind::Arrow { .. } => true,
        _ => false,
    }
}

// ---------------------------------------------------------------- lets

/// The kind of type parameter `j`: its lowered kind, else `Type`.
pub open spec fn kind_at(kinds: Seq<TyId>, type_: TyId, j: int) -> TyId {
    if j < kinds.len() {
        kinds[j]
    } else {
        type_
    }
}

/// The `Pi` types that wrap `ty` in the last `m` type parameters, innermost
/// first, added to a store of `base` types.
pub open spec fn pi_nodes(params: Seq<Symbol>, kinds: Seq<TyId>, type_: TyId, ty: TyId, base: nat, m: nat) -> Seq<TyNode>
    decreases m,
{
    if m == 0 {
        Seq::empty()
    } else {
        let j = params.len() - m;
        pi_nodes(params, kinds, type_, ty, base, (m - 1) as nat).push(TyNode::Pi {
            binder: params[j],
            binder_ty: kind_at(kinds, type_, j),
            body: if m == 1 {
                ty
            } else {
                TyId((base + m - 2) as u32)
            },
            is_effectful: false,
        })
    }
}

proof fn lemma_pi_nodes_len(params: Seq<Symbol>, kinds: Seq<TyId>, type_: TyId, ty: TyId, base: nat, m: nat)
    ensures
        pi_nodes(params, kinds, type_, ty, base, m).len() == m,
    decreases m,
{
    if m > 0 {
        lemma_pi_nodes_len(params, kinds, type_, ty, base, (m - 1) as nat);
    }
}

/// The outermost of those types.
pub open spec fn pi_top(ty: TyId, base: nat, m: nat) -> TyId {
    if m == 0 {
        ty
    } else {
        TyId((base + m - 1) as u32)
    }
}

/// The types that giving a binding the scheme of type `ty` over type
/// parameters `params` adds to a store `tys`: a callable type is wrapped in
/// a `Pi` for each type parameter, outermost first; any other type stays.
pub open spec fn scheme_nodes(tys: Seq<TyNode>, params: Seq<Symbol>, kinds: Seq<TyId>, type_: TyId, ty: TyId) -> Seq<TyNode> {
    if tys[ty.0 as int] is Arrow {
        pi_nodes(params, kinds, type_, ty, tys.len(), params.len())
    } else {
        Seq::empty()
    }
}

/// The type a binding with that scheme gets.
pub open spec fn scheme_ty(tys: Seq<TyNode>, params: Seq<Symbol>, ty: TyId) -> TyId {
    if tys[ty.0 as int] is Arrow {
        pi_top(ty, tys.len(), params.len())
    } else {
        ty
    }
}

/// The type a binding with the scheme `scheme` gets, added to the store;
/// `type_` is the type of types. `None` when the store ran out of room.
fn scheme_value_ty(store: &mut TyStore, type_: TyId, scheme: &LetScheme) -> (r: Option<TyId>)
    requires
        type_.0 < old(store).kinds().len(),
        scheme.ty.0 < old(store).kinds().len(),
        forall|k: int| 0 <= k < scheme.type_param_kinds@.len() ==> (#[trigger] scheme.type_param_kinds@[k]).0 < old(store).kinds().len(),
    ensures
        crate::ty_tree::store_prefix(old(store).kinds(), final(store).kinds()),
        match r {
            Some(v) => final(store).kinds() == old(store).kinds() + scheme_nodes(
                old(store).kinds(),
                scheme.type_params@,
                scheme.type_param_kinds@,
                type_,
                scheme.ty,
            ) && v == scheme_ty(old(store).kinds(), scheme.type_params@, scheme.ty) && v.0 < final(store).kinds().len(),
            None => final(store).kinds().len() == u32::MAX,
        },
{
    proof {
        use_type_invariant(&*store);
        assert(old(store).kinds() + Seq::<TyNode>::empty() =~= old(store).kinds());
    }
    let is_arrow = match store.kind(scheme.ty) {
        TyKind::Arrow { .. } => true,
        _ => false,
    };
    if !is_arrow {
        return Some(scheme.ty);
    }
    let ghost tys0 = store.kinds();
    let ghost base = tys0.len();
    let n = scheme.type_params.len();
    let mut cur = scheme.ty;
    let mut m: usize = 0;
    while m < n
        invariant
            m <= n,
            n == scheme.type_params@.len(),
            base == tys0.len(),
            tys0 == old(store).kinds(),
            type_.0 < tys0.len(),
            scheme.ty.0 < tys0.len(),
            forall|k: int| 0 <= k < scheme.type_param_kinds@.len() ==> (#[trigger] scheme.type_param_kinds@[k]).0 < tys0.len(),
            store.kinds() == tys0 + pi_nodes(scheme.type_params@, scheme.type_param_kinds@, type_, scheme.ty, base, m as nat),
            cur == pi_top(scheme.ty, base, m as nat),
            cur.0 < store.kinds().len(),
            crate::ty_tree::store_prefix(tys0, store.kinds()),
        decreases n - m,
    {
        let j = n - 1 - m;
        let binder_ty = if j < scheme.type_param_kinds.len() {
            scheme.type_param_kinds[j]
        } else {
            type_
        };
        let ghost before = store.kinds();
        proof {
            lemma_pi_nodes_len(scheme.type_params@, scheme.type_param_kinds@, type_, scheme.ty, base, m as nat);
        }
        let kind = TyKind::Pi { binder: scheme.type_params[j], binder_ty, body: cur, is_effectful: false };
        proof {
            use_type_invariant(&*store);
        }
        match add_ty(store, kind) {
            Some(id) => {
                proof {
                    assert(store.kinds() =~= tys0 + pi_nodes(scheme.type_params@, scheme.type_param_kinds@, type_, scheme.ty, base, (m + 1) as nat));
                    crate::ty_tree::lemma_prefix_trans(tys0, before, store.kinds());
                }
                cur = id;
            },
            None => {
                return None;
            },
        }
        m = m + 1;
    }
    Some(cur)
}

/// Attaches binding `b` as a method named `name`, after those attached
/// before under that name.
fn attach_method(st: &mut CheckState, name: Symbol, b: u32)
    ensures
        frame(*old(st), *final(st), false, false, false, false, true, false, false, false, false, false),
        attached_after(old(st).attached_methods@, final(st).attached_methods@, name.0, b),
{
    let mut list: Vec<u32> = match st.attached_methods.get(&name.0) {
        Some(v) => v.clone(),
        None => Vec::new(),
    };
    list.push(b);
    st.attached_methods.insert(name.0, list);
}

/// A parameter of a callable `let`: its name and whether it is
/// compile-time.
#[derive(Debug, Clone, Copy, PartialEq, Eq, Structural)]
pub struct LetParam {
    pub name: Symbol,
    pub is_comptime: bool,
}

/// The names of the parameters, in order.
pub open spec fn param_names_of(params: Seq<LetParam>) -> Seq<Symbol> {
    params.map_values(|p: LetParam| p.name)
}

/// Which parameters are compile-time, in order.
pub open spec fn comptime_of(params: Seq<LetParam>) -> Seq<bool> {
    params.map_values(|p: LetParam| p.is_comptime)
}

fn split_params(params: &Vec<LetParam>) -> (r: (Vec<Symbol>, Vec<bool>))
    ensures
        r.0@ == param_names_of(params@),
        r.1@ == comptime_of(params@),
{
    let mut names: Vec<Symbol> = Vec::new();
    let mut flags: Vec<bool> = Vec::new();
    let mut i: usize = 0;
    while i < params.len()
        invariant
            i <= params@.len(),
            names@ == param_names_of(params@.subrange(0, i as int)),
            flags@ == comptime_of(params@.subrange(0, i as int)),
        decreases params@.len() - i,
    {
        names.push(params[i].name);
        flags.push(params[i].is_comptime);
        i = i + 1;
        proof {
            assert(names@ =~= param_names_of(params@.subrange(0, i as int)));
            assert(flags@ =~= comptime_of(params@.subrange(0, i as int)));
        }
    }
    proof {
        assert(params@.subrange(0, i as int) =~= params@);
    }
    (names, flags)
}

/// What a `let` gives its binding: its type parameters with their kinds,
/// its parameters and constraints, and its type.
pub open spec fn scheme_is(
    s: LetScheme,
    type_params: Seq<Symbol>,
    kinds: Seq<TyId>,
    params: Seq<LetParam>,
    constraints: Seq<ConstraintFacts>,
    ty: TyId,
) -> bool {
    &&& s.type_params@ == type_params
    &&& s.type_param_kinds@ == kinds
    &&& s.param_names@ == param_names_of(params)
    &&& s.comptime_params@ == comptime_of(params)
    &&& s.constraints@ == constraints
    &&& s.ty == ty
}

/// Gives binding `b` the scheme built from the parts, and the type that
/// scheme gives. `None` when the store ran out of room.
fn insert_let_scheme(
    st: &mut CheckState,
    store: &mut TyStore,
    type_: TyId,
    b: u32,
    type_params: Vec<Symbol>,
    kinds: Vec<TyId>,
    params: &Vec<LetParam>,
    constraints: Vec<ConstraintFacts>,
    ty: TyId,
) -> (r: Option<TyId>)
    requires
        type_.0 < old(store).kinds().len(),
        ty.0 < old(store).kinds().len(),
        forall|k: int| 0 <= k < kinds@.len() ==> (#[trigger] kinds@[k]).0 < old(store).kinds().len(),
        schemes_in_store(*old(st), old(store).kinds()),
    ensures
        crate::ty_tree::store_prefix(old(store).kinds(), final(store).kinds()),
        schemes_in_store(*final(st), final(store).kinds()),
        match r {
            Some(v) => {
                &&& final(store).kinds() == old(store).kinds() + scheme_nodes(old(store).kinds(), type_params@, kinds@, type_, ty)
                &&& v == scheme_ty(old(store).kinds(), type_params@, ty)
                &&& v.0 < final(store).kinds().len()
                &&& frame(*old(st), *final(st), true, true, false, false, false, false, false, false, false, false)
                &&& final(st).binding_tys@ == old(st).binding_tys@.insert(b, v)
                &&& final(st).schemes@ == old(st).schemes@.insert(b, final(st).schemes@[b])
                &&& scheme_is(final(st).schemes@[b], type_params@, kinds@, params@, constraints@, ty)
            },
            None => final(store).kinds().len() == u32::MAX
                && frame(*old(st), *final(st), false, false, false, false, false, false, false, false, false, false),
        },
{
    let (param_names, comptime_params) = split_params(params);
    let scheme = LetScheme { type_params, type_param_kinds: kinds, param_names, comptime_params, constraints, ty };
    let v = match scheme_value_ty(store, type_, &scheme) {
        Some(v) => v,
        None => {
            return None;
        },
    };
    st.binding_tys.insert(b, v);
    st.schemes.insert(b, scheme);
    proof {
        assert forall|k: u32| #[trigger] st.schemes@.contains_key(k) implies st.schemes@[k].ty.0 < store.kinds().len() by {
            if k != b {
                assert(old(st).schemes@.contains_key(k));
            }
        }
    }
    Some(v)
}

/// What the caller does after `check_let_begin`.
#[derive(Debug, Clone, Copy, PartialEq, Eq, Structural)]
pub enum LetBegin {
    /// The `let` is gated out: its value is not checked, and it is finished
    /// as `finish` says, with the facts `facts`.
    Gated { facts: ExprFacts, finish: LetFinish },
    /// The value is checked the way `path` says, then `check_let_end`.
    Check { path: LetPath },
}

/// Binding the pattern `pat` of a `let` with value `value` against `ty`;
/// `binding` is the name it declares, if any.
#[derive(Debug, Clone, Copy, PartialEq, Eq, Structural)]
pub struct LetFinish {
    pub pat: PatId,
    pub value: ExprId,
    pub ty: TyId,
    pub binding: Option<u32>,
}

/// The start of checking a `let` with pattern `pat`, value `value` and type
/// parameters `type_params` (lowered, with their kinds): a `partial`
/// foreign `let` is reported, and the type parameters come into scope. A
/// module-level `let` whose `@target` does not match is finished at once:
/// its binding is gated, the type parameters leave scope, its pattern is
/// bound against `Unknown`, and its type is `Unit`.
pub fn check_let_begin(
    st: &mut CheckState,
    is_module_stmt: bool,
    is_native: bool,
    is_partial: bool,
    targets_match: bool,
    has_param_clause: bool,
    type_params: Vec<(Symbol, TyId)>,
    pat: PatId,
    value: ExprId,
    binding: Option<u32>,
    unit: TyId,
    unknown: TyId,
) -> (r: LetBegin)
    ensures
        ({
            let (path, conflict) = let_route_spec(is_module_stmt, is_native, is_partial, targets_match, has_param_clause);
            &&& final(st).diags@ == old(st).diags@ + diag_if(conflict, plain(SemaDiagKind::PartialForeignConflict))
            &&& if path == LetPath::Gated {
                &&& r == LetBegin::Gated {
                    facts: ExprFacts { ty: unit },
                    finish: LetFinish { pat, value, ty: unknown, binding },
                }
                &&& frame(*old(st), *final(st), false, false, true, false, false, false, true, false, false, false)
                &&& final(st).gated@ == match binding {
                    Some(b) => old(st).gated@.insert(b),
                    None => old(st).gated@,
                }
            } else {
                &&& r == LetBegin::Check { path }
                &&& frame(*old(st), *final(st), false, false, false, false, false, false, true, true, false, false)
                &&& final(st).type_param_scopes@.len() == old(st).type_param_scopes@.len() + 1
                &&& final(st).type_param_scopes@.drop_last() == old(st).type_param_scopes@
                &&& final(st).type_param_scopes@.last()@ == type_params@
            }
        }),
{
    let (path, conflict) = let_route(is_module_stmt, is_native, is_partial, targets_match, has_param_clause);
    if conflict {
        st.diags.push(plain_diag(SemaDiagKind::PartialForeignConflict));
    }
    proof {
        assert(st.diags@ =~= old(st).diags@ + diag_if(conflict, plain(SemaDiagKind::PartialForeignConflict)));
    }
    st.type_param_scopes.push(type_params);
    if path == LetPath::Gated {
        if let Some(b) = binding {
            st.gated.insert(b);
        }
        let _ = st.type_param_scopes.pop();
        proof {
            assert(st.type_param_scopes@ =~= old(st).type_param_scopes@);
        }
        let finish = LetFinish { pat, value, ty: unknown, binding };
        return LetBegin::Gated { facts: ExprFacts::new(unit), finish };
    }
    proof {
        assert(st.type_param_scopes@.drop_last() =~= old(st).type_param_scopes@);
    }
    LetBegin::Check { path }
}

/// The end of checking a `let` whose value (and fallback, if any) was
/// checked and whose binding's type is `final_ty`: the type parameters
/// leave scope, the pattern is to be bound against `final_ty`, and the
/// `let`'s type is `Unit`.
pub fn check_let_end(st: &mut CheckState, pat: PatId, value: ExprId, binding: Option<u32>, final_ty: TyId, unit: TyId) -> (r: (
    ExprFacts,
    LetFinish,
))
    requires
        old(st).type_param_scopes@.len() > 0,
    ensures
        r.0.ty == unit,
        r.1 == (LetFinish { pat, value, ty: final_ty, binding }),
        frame(*old(st), *final(st), false, false, false, false, false, false, false, true, false, false),
        final(st).type_param_scopes@ == old(st).type_param_scopes@.drop_last(),
{
    let _ = st.type_param_scopes.pop();
    (ExprFacts::new(unit), LetFinish { pat, value, ty: final_ty, binding })
}

/// Whether a callable `let`'s pattern is a plain binding or `_`.
pub open spec fn simple_pat(pats: Seq<PatKind>, pat: PatId) -> bool {
    pats[pat.0 as int] is Bind || pats[pat.0 as int] is Wildcard
}

/// Before a callable `let`'s body is checked: its form is reported, a
/// pattern that is not a plain binding or `_`, then an exported generic
/// callable with constraints.
pub fn callable_let_begin(
    st: &mut CheckState,
    pats: &PatStore,
    pat: PatId,
    exported: bool,
    type_param_count: usize,
    constraint_count: usize,
)
    requires
        pat.0 < pats.kinds().len(),
    ensures
        frame(*old(st), *final(st), false, false, false, false, false, false, true, false, false, false),
        final(st).diags@ == old(st).diags@ + callable_let_issues_spec(
            simple_pat(pats.kinds(), pat),
            exported,
            type_param_count as nat,
            constraint_count as nat,
        ).map_values(|k: SemaDiagKind| plain(k)),
{
    let simple = match pats.kind(pat) {
        PatKind::Bind { .. } | PatKind::Wildcard => true,
        _ => false,
    };
    let issues = callable_let_issues(simple, exported, type_param_count, constraint_count);
    let mut i: usize = 0;
    let ghost d0 = st.diags@;
    while i < issues.len()
        invariant
            i <= issues@.len(),
            st.diags@ == d0 + issues@.subrange(0, i as int).map_values(|k: SemaDiagKind| plain(k)),
            frame(*old(st), *st, false, false, false, false, false, false, true, false, false, false),
        decreases issues@.len() - i,
    {
        st.diags.push(plain_diag(issues[i]));
        i = i + 1;
        proof {
            assert(st.diags@ =~= d0 + issues@.subrange(0, i as int).map_values(|k: SemaDiagKind| plain(k)));
        }
    }
    proof {
        assert(issues@.subrange(0, i as int) =~= issues@);
    }
}

/// After a callable `let`'s body is checked, giving `checked_ty`: the
/// binding, if any, gets the scheme of its type parameters, parameters (names
/// and compile-time flags in order), constraints and `checked_ty`, and the
/// type that scheme gives, which is the `let`'s type; a method attached to a
/// receiver type is recorded by its name `method`. Without a binding the
/// `let`'s type is `checked_ty`. `None` when the store ran out of room.
pub fn callable_let_finish(
    st: &mut CheckState,
    store: &mut TyStore,
    type_: TyId,
    binding: Option<u32>,
    method: Option<Symbol>,
    type_params: Vec<Symbol>,
    kinds: Vec<TyId>,
    params: &Vec<LetParam>,
    constraints: Vec<ConstraintFacts>,
    checked_ty: TyId,
) -> (r: Option<TyId>)
    requires
        type_.0 < old(store).kinds().len(),
        checked_ty.0 < old(store).kinds().len(),
        forall|k: int| 0 <= k < kinds@.len() ==> (#[trigger] kinds@[k]).0 < old(store).kinds().len(),
        schemes_in_store(*old(st), old(store).kinds()),
    ensures
        crate::ty_tree::store_prefix(old(store).kinds(), final(store).kinds()),
        schemes_in_store(*final(st), final(store).kinds()),
        r is None ==> final(store).kinds().len() == u32::MAX && binding is Some,
        r matches Some(t) ==> match binding {
            None => t == checked_ty && final(store).kinds() == old(store).kinds()
                && frame(*old(st), *final(st), false, false, false, false, false, false, false, false, false, false),
            Some(b) => {
                &&& final(store).kinds() == old(store).kinds() + scheme_nodes(old(store).kinds(), type_params@, kinds@, type_, checked_ty)
                &&& t == scheme_ty(old(store).kinds(), type_params@, checked_ty)
                &&& frame(*old(st), *final(st), true, true, false, false, true, false, false, false, false, false)
                &&& final(st).binding_tys@ == old(st).binding_tys@.insert(b, t)
                &&& final(st).schemes@ == old(st).schemes@.insert(b, final(st).schemes@[b])
                &&& scheme_is(final(st).schemes@[b], type_params@, kinds@, params@, constraints@, checked_ty)
                &&& match method {
                    Some(m) => attached_after(old(st).attached_methods@, final(st).attached_methods@, m.0, b),
                    None => final(st).attached_methods@ == old(st).attached_methods@,
                }
                &&& final(st).binding_tys@.get(b) == Some(t)
            },
        },
{
    match binding {
        None => Some(checked_ty),
        Some(b) => {
            let t = insert_let_scheme(st, store, type_, b, type_params, kinds, params, constraints, checked_ty)?;
            if let Some(m) = method {
                attach_method(st, m, b);
            }
            Some(t)
        },
    }
}

/// Before a plain `let`'s value is checked: constraints on it are
/// reported, and a recursive `let`'s binding gets its declared type, or
/// `Unknown`, for the value to refer to.
pub fn non_callable_let_begin(
    st: &mut CheckState,
    constraint_count: usize,
    is_rec: bool,
    binding: Option<u32>,
    declared_ty: Option<TyId>,
    unknown: TyId,
)
    ensures
        frame(*old(st), *final(st), true, false, false, false, false, false, true, false, false, false),
        final(st).diags@ == old(st).diags@ + diag_if(constraint_count != 0, plain(SemaDiagKind::ConstrainedNonCallableBinding)),
        final(st).binding_tys@ == if is_rec {
            opt_insert(old(st).binding_tys@, binding, match declared_ty {
                Some(d) => d,
                None => unknown,
            })
        } else {
            old(st).binding_tys@
        },
{
    if constraint_count != 0 {
        st.diags.push(plain_diag(SemaDiagKind::ConstrainedNonCallableBinding));
    }
    if is_rec {
        if let Some(b) = binding {
            let t = match declared_ty {
                Some(d) => d,
                None => unknown,
            };
            st.binding_tys.insert(b, t);
        }
    }
    proof {
        assert(st.diags@ =~= old(st).diags@ + diag_if(constraint_count != 0, plain(SemaDiagKind::ConstrainedNonCallableBinding)));
    }
}

/// What a plain `let` reports once its value is checked, in order: a
/// refutable pattern without a fallback, a record pattern for a value that
/// is not a record, and a value that does not match the declared type.
pub open spec fn plain_let_diags(
    tys: Seq<TyNode>,
    pats: Seq<PatKind>,
    pat: PatId,
    has_fallback: bool,
    declared_ty: Option<TyId>,
    value_ty: TyId,
) -> Seq<CheckDiag> {
    let ty = match declared_ty {
        Some(d) => d,
        None => value_ty,
    };
    diag_if(!has_fallback && !irrefutable(pats, pat), plain(SemaDiagKind::PlainLetRequiresIrrefutablePattern))
        + diag_if(
        pats[pat.0 as int] is Record && !(tys[value_ty.0 as int] is Record),
        plain(SemaDiagKind::RecordDestructuringRequiresRecord),
    ) + diag_if(
        !ty_matches_spec(tys, ty, value_ty),
        CheckDiag { kind: SemaDiagKind::TypeMismatch, subject: DiagSubject::Mismatch { expected: ty, found: value_ty } },
    )
}

/// The compile-time value a plain `let` records: that of a `known` value,
/// when it evaluates.
pub open spec fn known_value_of(env: ConstEnv, value: ExprId) -> Option<ComptimeValue> {
    if is_known_expr(env.exprs.kinds()[value.0 as int]) {
        match eval_value(env.ctx(), Set::empty(), value) {
            Ok(v) => Some(v),
            Err(_) => None,
        }
    } else {
        None
    }
}

/// After a plain `let`'s value, of type `value_ty`, is checked: what
/// `plain_let_diags` says is reported; the `let`'s type is the declared
/// type, else the value's; the binding, if any, gets the scheme of that
/// type (with the type parameters, parameters and constraints) and the
/// type it gives, and the compile-time value of a `known` value that
/// evaluates. `None` when the store ran out of room.
pub fn non_callable_let_finish(
    st: &mut CheckState,
    store: &mut TyStore,
    pats: &PatStore,
    env: &ConstEnv,
    type_: TyId,
    pat: PatId,
    value: ExprId,
    has_fallback: bool,
    declared_ty: Option<TyId>,
    value_ty: TyId,
    binding: Option<u32>,
    type_params: Vec<Symbol>,
    kinds: Vec<TyId>,
    params: &Vec<LetParam>,
    constraints: Vec<ConstraintFacts>,
) -> (r: Option<TyId>)
    requires
        pat.0 < pats.kinds().len(),
        env.root.0 < env.exprs.kinds().len(),
        value.0 < env.exprs.kinds().len(),
        type_.0 < old(store).kinds().len(),
        value_ty.0 < old(store).kinds().len(),
        declared_ty matches Some(d) ==> d.0 < old(store).kinds().len(),
        forall|k: int| 0 <= k < kinds@.len() ==> (#[trigger] kinds@[k]).0 < old(store).kinds().len(),
        schemes_in_store(*old(st), old(store).kinds()),
    ensures
        crate::ty_tree::store_prefix(old(store).kinds(), final(store).kinds()),
        schemes_in_store(*final(st), final(store).kinds()),
        r is None ==> final(store).kinds().len() == u32::MAX && binding is Some,
        r matches Some(t) ==> {
            &&& t == match declared_ty {
                Some(d) => d,
                None => value_ty,
            }
            &&& final(st).diags@ == old(st).diags@ + plain_let_diags(
                old(store).kinds(),
                pats.kinds(),
                pat,
                has_fallback,
                declared_ty,
                value_ty,
            )
            &&& match binding {
                None => final(store).kinds() == old(store).kinds()
                    && frame(*old(st), *final(st), false, false, false, false, false, false, true, false, false, false),
                Some(b) => {
                    &&& final(store).kinds() == old(store).kinds() + scheme_nodes(old(store).kinds(), type_params@, kinds@, type_, t)
                    &&& frame(*old(st), *final(st), true, true, false, true, false, false, true, false, false, false)
                    &&& final(st).import_targets@ == old(st).import_targets@
                    &&& final(st).binding_tys@ == old(st).binding_tys@.insert(b, scheme_ty(old(store).kinds(), type_params@, t))
                    &&& final(st).schemes@ == old(st).schemes@.insert(b, final(st).schemes@[b])
                    &&& scheme_is(final(st).schemes@[b], type_params@, kinds@, params@, constraints@, t)
                    &&& final(st).comptime_values@ == insert_some(old(st).comptime_values@, b, known_value_of(*env, value))
                    &&& final(st).const_ints@ == match known_value_of(*env, value) {
                        Some(ComptimeValue::Int(n)) => old(st).const_ints@.insert(b, n),
                        _ => old(st).const_ints@,
                    }
                },
            }
        },
{
    proof {
        use_type_invariant(&*store);
    }
    let ghost d0 = st.diags@;
    if !has_fallback && !pat_is_irrefutable(pats, pat) {
        st.diags.push(plain_diag(SemaDiagKind::PlainLetRequiresIrrefutablePattern));
    }
    let is_record_pat = match pats.kind(pat) {
        PatKind::Record { .. } => true,
        _ => false,
    };
    let is_record_value = match store.kind(value_ty) {
        TyKind::Record { .. } => true,
        _ => false,
    };
    if is_record_pat && !is_record_value {
        st.diags.push(plain_diag(SemaDiagKind::RecordDestructuringRequiresRecord));
    }
    let ty = match declared_ty {
        Some(d) => d,
        None => value_ty,
    };
    if !ty_matches(store, ty, value_ty) {
        st.diags.push(CheckDiag { kind: SemaDiagKind::TypeMismatch, subject: DiagSubject::Mismatch { expected: ty, found: value_ty } });
    }
    proof {
        assert(st.diags@ =~= d0 + plain_let_diags(store.kinds(), pats.kinds(), pat, has_fallback, declared_ty, value_ty));
    }
    match binding {
        None => Some(ty),
        Some(b) => {
            let _ = insert_let_scheme(st, store, type_, b, type_params, kinds, params, constraints, ty)?;
            let known = known_let_value(env, value);
            match known {
                Some(v) => {
                    match v {
                        ComptimeValue::Int(n) => {
                            st.const_ints.insert(b, n);
                        },
                        _ => {},
                    }
                    st.comptime_values.insert(b, v);
                },
                None => {},
            }
            Some(ty)
        },
    }
}

// ------------------------------------------------------- binary operators

/// The effects of two expressions together.
pub fn join_effects(a: &NameSet, b: &NameSet) -> (r: NameSet)
    ensures
        r@ == a@.union(b@),
{
    let mut out = a.copy();
    let mut i: usize = 0;
    while i < b.len()
        invariant
            i <= b.names().len(),
            out@ == a@.union(b.names().subrange(0, i as int).to_set()),
        decreases b.names().len() - i,
    {
        let name = b.get(i).clone();
        let ghost x = b.names()[i as int];
        out.insert(name);
        proof {
            b.names().subrange(0, i as int).lemma_push_to_set_commute(x);
            assert(b.names().subrange(0, i + 1) =~= b.names().subrange(0, i as int).push(x));
            assert(b.names().subrange(0, i + 1).to_set() =~= b.names().subrange(0, i as int).to_set().insert(x));
        }
        i = i + 1;
        proof {
            assert(out@ =~= a@.union(b.names().subrange(0, i as int).to_set()));
        }
    }
    proof {
        assert(b.names().subrange(0, i as int) =~= b.names());
    }
    out
}

/// The type mismatches of a list of pairs, as diagnostics.
pub open spec fn mismatch_diags(pairs: Seq<(TyId, TyId)>) -> Seq<CheckDiag> {
    pairs.map_values(|p: (TyId, TyId)| CheckDiag { kind: SemaDiagKind::TypeMismatch, subject: DiagSubject::Mismatch { expected: p.0, found: p.1 } })
}

fn push_mismatches(st: &mut CheckState, pairs: &Vec<(TyId, TyId)>)
    ensures
        frame(*old(st), *final(st), false, false, false, false, false, false, true, false, false, false),
        final(st).diags@ == old(st).diags@ + mismatch_diags(pairs@),
{
    let mut i: usize = 0;
    while i < pairs.len()
        invariant
            i <= pairs@.len(),
            frame(*old(st), *st, false, false, false, false, false, false, true, false, false, false),
            st.diags@ == old(st).diags@ + mismatch_diags(pairs@.subrange(0, i as int)),
        decreases pairs@.len() - i,
    {
        let (e, f) = pairs[i];
        st.diags.push(CheckDiag { kind: SemaDiagKind::TypeMismatch, subject: DiagSubject::Mismatch { expected: e, found: f } });
        i = i + 1;
        proof {
            assert(st.diags@ =~= old(st).diags@ + mismatch_diags(pairs@.subrange(0, i as int)));
        }
    }
    proof {
        assert(pairs@.subrange(0, i as int) =~= pairs@);
    }
}

/// What typing `left op right` by the operator's own rule does, where the
/// operands have types `l` and `r` and, written as types, stand for
/// `lowered`: the type it adds to the store, if any; else its type; and
/// what it reports. Comparisons are `Bool`; `->` between types is a new
/// callable type and `+` with a type on either side a new sum type; `+` on
/// strings is `String`; arithmetic and logical operators follow their
/// rules; assignments, ranges, membership tests and operators with no
/// lowering are `Unknown` here.
pub open spec fn binary_ty_spec(
    tys: Seq<TyNode>,
    b: Builtins,
    bits: Symbol,
    op: BinaryOp,
    l: TyId,
    r: TyId,
    lowered: Option<(TyId, TyId)>,
) -> (Option<TyNode>, TyId, Seq<CheckDiag>) {
    match binary_rule_spec(op, tys[l.0 as int], tys[r.0 as int]) {
        BinaryRule::FunctionType { effectful } => (
            Some(TyNode::Arrow { params: seq![low_left(lowered)], ret: low_right(lowered), is_effectful: effectful }),
            b.unknown,
            Seq::empty(),
        ),
        BinaryRule::SumType => (Some(TyNode::Sum { left: low_left(lowered), right: low_right(lowered) }), b.unknown, Seq::empty()),
        BinaryRule::StringConcat => (None, b.string_, mismatch_diags(mismatch_of(tys, b.string_, l) + mismatch_of(tys, b.string_, r))),
        BinaryRule::Numeric => {
            let t = numeric_result(tys, b, l, r);
            (None, t, mismatch_diags(mismatch_of(tys, t, l) + mismatch_of(tys, t, r)))
        },
        BinaryRule::Logical => {
            let (t, bad) = logical_result(tys, b, bits, l, r);
            (None, t, diag_if(bad, CheckDiag {
                kind: SemaDiagKind::LogicalOperatorDomainMismatch,
                subject: DiagSubject::Operands { op, left: l, right: r },
            }))
        },
        BinaryRule::Comparison => (None, b.bool_, Seq::empty()),
        _ => (None, b.unknown, Seq::empty()),
    }
}

/// The left operand written as a type.
pub open spec fn low_left(lowered: Option<(TyId, TyId)>) -> TyId {
    match lowered {
        Some(p) => p.0,
        None => TyId(0),
    }
}

/// The right operand written as a type.
pub open spec fn low_right(lowered: Option<(TyId, TyId)>) -> TyId {
    match lowered {
        Some(p) => p.1,
        None => TyId(0),
    }
}

/// Whether the operands must be given as types too.
pub open spec fn needs_lowered(rule: BinaryRule) -> bool {
    rule is FunctionType || rule is SumType
}

/// The operands written as types are types of the store.
pub open spec fn lowered_in(tys: Seq<TyNode>, lowered: Option<(TyId, TyId)>) -> bool {
    lowered is Some && low_left(lowered).0 < tys.len() && low_right(lowered).0 < tys.len()
}

/// The type of `left op right` by the operator's own rule, for operands of
/// types `left` and `right`; `lowered` holds the operands written as types,
/// asked for by `->` and by `+` with a type on either side. `None` when the
/// store has no room for a new type.
pub fn binary_result_ty(
    st: &mut CheckState,
    store: &mut TyStore,
    b: Builtins,
    bits: Symbol,
    op: BinaryOp,
    left: TyId,
    right: TyId,
    lowered: Option<(TyId, TyId)>,
) -> (r: Option<TyId>)
    requires
        builtins_in(old(store).kinds(), b),
        left.0 < old(store).kinds().len(),
        right.0 < old(store).kinds().len(),
        needs_lowered(binary_rule_spec(op, old(store).kinds()[left.0 as int], old(store).kinds()[right.0 as int]))
            ==> lowered_in(old(store).kinds(), lowered),
    ensures
        ({
            let (node, t, ds) = binary_ty_spec(old(store).kinds(), b, bits, op, left, right, lowered);
            &&& frame(*old(st), *final(st), false, false, false, false, false, false, true, false, false, false)
            &&& match node {
                Some(k) => match r {
                    Some(id) => final(store).kinds() == old(store).kinds().push(k) && id.0 == old(store).kinds().len()
                        && final(st).diags@ == old(st).diags@,
                    None => final(store).kinds() == old(store).kinds() && old(store).kinds().len() == u32::MAX
                        && final(st).diags@ == old(st).diags@,
                },
                None => r == Some(t) && final(store).kinds() == old(store).kinds() && final(st).diags@ == old(st).diags@ + ds,
            }
        }),
{
    let rule = binary_rule(store, op, left, right);
    match rule {
        BinaryRule::FunctionType { effectful } => {
            let (l, r) = lowered.unwrap();
            let params = vec![l];
            let kind = TyKind::Arrow { params, ret: r, is_effectful: effectful };
            proof {
                assert(kind->params@ =~= seq![l]);
                assert(crate::ty::ids_below(seq![l], store.kinds().len() as int));
            }
            add_ty(store, kind)
        },
        BinaryRule::SumType => {
            let (l, r) = lowered.unwrap();
            add_ty(store, TyKind::Sum { left: l, right: r })
        },
        BinaryRule::StringConcat => {
            let (t, pairs) = string_concat_type(store, b, left, right);
            push_mismatches(st, &pairs);
            Some(t)
        },
        BinaryRule::Numeric => {
            let (t, pairs) = numeric_binary_type(store, b, left, right);
            push_mismatches(st, &pairs);
            Some(t)
        },
        BinaryRule::Logical => {
            let (t, bad) = logical_binary_type(store, b, bits, left, right);
            if bad {
                st.diags.push(CheckDiag {
                    kind: SemaDiagKind::LogicalOperatorDomainMismatch,
                    subject: DiagSubject::Operands { op, left, right },
                });
            }
            proof {
                assert(st.diags@ =~= old(st).diags@ + diag_if(bad, CheckDiag {
                    kind: SemaDiagKind::LogicalOperatorDomainMismatch,
                    subject: DiagSubject::Operands { op, left, right },
                }));
            }
            Some(t)
        },
        BinaryRule::Comparison => {
            proof {
                assert(st.diags@ =~= old(st).diags@ + Seq::<CheckDiag>::empty());
            }
            Some(b.bool_)
        },
        _ => {
            proof {
                assert(st.diags@ =~= old(st).diags@ + Seq::<CheckDiag>::empty());
            }
            Some(b.unknown)
        },
    }
}

/// Every arithmetic operator (`+ - * / %`) on two operands of one numeric
/// type has that type, and reports nothing; in particular it is never
/// `Bool`.
pub proof fn lemma_arithmetic_keeps_type(
    tys: Seq<TyNode>,
    b: Builtins,
    unit: TyId,
    bits: Symbol,
    op: BinaryOp,
    t: TyId,
    lowered: Option<(TyId, TyId)>,
)
    requires
        crate::ty::store_wf(tys),
        t.0 < tys.len(),
        crate::ty_props::is_integer(tys[t.0 as int]) || crate::ty_props::is_float(tys[t.0 as int]),
        op is Add || op is Sub || op is Mul || op is Div || op is Rem,
    ensures
        binary_ty_spec(tys, b, bits, op, t, t, lowered) == (None::<TyNode>, t, Seq::<CheckDiag>::empty()),
        binary_expr_spec(tys, b, unit, bits, op, t, t, lowered) == (None::<TyNode>, Some(t), Seq::<CheckDiag>::empty()),
{
    assert(ty_matches_spec(tys, t, t));
    assert(mismatch_of(tys, t, t) =~= Seq::<(TyId, TyId)>::empty());
    assert(mismatch_diags(mismatch_of(tys, t, t) + mismatch_of(tys, t, t)) =~= Seq::<CheckDiag>::empty());
}

/// Comparison operators (`== === != < > <= >=`) are `Bool` whatever their
/// operands and report nothing; logical operators (`or xor and`) on two
/// operands accepted as `Bool` are `Bool` and report nothing; `+` with a
/// `String` operand and no type operand is `String`.
pub proof fn lemma_operator_result_kinds(
    tys: Seq<TyNode>,
    b: Builtins,
    bits: Symbol,
    op: BinaryOp,
    l: TyId,
    r: TyId,
    lowered: Option<(TyId, TyId)>,
)
    requires
        crate::ty::store_wf(tys),
        l.0 < tys.len(),
        r.0 < tys.len(),
    ensures
        (op is Eq || op is TypeEq || op is Ne || op is Lt || op is Gt || op is Le || op is Ge) ==> binary_ty_spec(
            tys,
            b,
            bits,
            op,
            l,
            r,
            lowered,
        ) == (None::<TyNode>, b.bool_, Seq::<CheckDiag>::empty()),
        (op is Or || op is Xor || op is And) && ty_matches_spec(tys, b.bool_, l) && ty_matches_spec(tys, b.bool_, r)
            ==> binary_ty_spec(tys, b, bits, op, l, r, lowered) == (None::<TyNode>, b.bool_, Seq::<CheckDiag>::empty()),
        op is Add && !(tys[l.0 as int] is Type) && !(tys[r.0 as int] is Type) && (tys[l.0 as int] is String
            || tys[r.0 as int] is String) ==> binary_ty_spec(tys, b, bits, op, l, r, lowered).1 == b.string_,
{
    assert(diag_if(false, CheckDiag {
        kind: SemaDiagKind::LogicalOperatorDomainMismatch,
        subject: DiagSubject::Operands { op, left: l, right: r },
    }) =~= Seq::<CheckDiag>::empty());
}

/// What checking `left op right` does, beyond the operator's own rule: the
/// type it adds to the store, if any; else its type; and what it reports.
/// For an assignment, `l` is the type the target takes and `r` the
/// assigned value's: a mismatch is reported and the type is `Unit`. A range
/// is a new range type of its item type; a membership test is `Bool`, its
/// left side checked against the item type of the range on its right, or,
/// when the right side is no range, the right side against a new range type
/// of the left side. An operator with no lowering is reported and
/// `Unknown`.
pub open spec fn binary_expr_spec(
    tys: Seq<TyNode>,
    b: Builtins,
    unit: TyId,
    bits: Symbol,
    op: BinaryOp,
    l: TyId,
    r: TyId,
    lowered: Option<(TyId, TyId)>,
) -> (Option<TyNode>, Option<TyId>, Seq<CheckDiag>) {
    match binary_rule_spec(op, tys[l.0 as int], tys[r.0 as int]) {
        BinaryRule::Assign => (None, Some(unit), mismatch_diags(mismatch_of(tys, l, r))),
        BinaryRule::Range => {
            let (item, pairs) = range_item(tys, b, l, r);
            (Some(TyNode::Range { bound: item }), None, mismatch_diags(pairs))
        },
        BinaryRule::Membership => match tys[peel_mut(tys, r).0 as int] {
            TyNode::Range { bound } => (None, Some(b.bool_), mismatch_diags(mismatch_of(tys, bound, l))),
            _ => (
                Some(TyNode::Range { bound: l }),
                Some(b.bool_),
                mismatch_diags(mismatch_of(tys.push(TyNode::Range { bound: l }), TyId(tys.len() as u32), r)),
            ),
        },
        BinaryRule::NoLowering => (None, Some(b.unknown), seq![plain(SemaDiagKind::BinaryOperatorHasNoExecutableLowering)]),
        _ => {
            let (n, t, ds) = binary_ty_spec(tys, b, bits, op, l, r, lowered);
            (n, if n is Some {
                None
            } else {
                Some(t)
            }, ds)
        },
    }
}

/// What checking a binary expression gives: its facts and its effects.
#[derive(Debug)]
pub struct BinaryFacts {
    pub facts: ExprFacts,
    pub effects: NameSet,
}

/// Checks `left op right` once its operands are checked, with types `left`
/// and `right` and effects `left_effects` and `right_effects` (for an
/// assignment: the type and effects the target takes, and the value's);
/// `lowered` holds the operands written as types, when the operator asks
/// for them. Its effects are those of both operands. `None` when the store
/// has no room for a new type.
pub fn check_binary_expr(
    st: &mut CheckState,
    store: &mut TyStore,
    b: Builtins,
    unit: TyId,
    bits: Symbol,
    op: BinaryOp,
    left: TyId,
    right: TyId,
    left_effects: &NameSet,
    right_effects: &NameSet,
    lowered: Option<(TyId, TyId)>,
) -> (r: Option<BinaryFacts>)
    requires
        builtins_in(old(store).kinds(), b),
        left.0 < old(store).kinds().len(),
        right.0 < old(store).kinds().len(),
        needs_lowered(binary_rule_spec(op, old(store).kinds()[left.0 as int], old(store).kinds()[right.0 as int]))
            ==> lowered_in(old(store).kinds(), lowered),
    ensures
        ({
            let (node, t, ds) = binary_expr_spec(old(store).kinds(), b, unit, bits, op, left, right, lowered);
            &&& frame(*old(st), *final(st), false, false, false, false, false, false, true, false, false, false)
            &&& match node {
                Some(k) => match r {
                    Some(f) => final(store).kinds() == old(store).kinds().push(k) && f.facts.ty == match t {
                        Some(x) => x,
                        None => TyId(old(store).kinds().len() as u32),
                    } && final(st).diags@ == old(st).diags@ + ds,
                    None => final(store).kinds() == old(store).kinds() && old(store).kinds().len() == u32::MAX
                        && final(st).diags@ == old(st).diags@,
                },
                None => r is Some && t is Some && r->0.facts.ty == t->0 && final(store).kinds() == old(store).kinds()
                    && final(st).diags@ == old(st).diags@ + ds,
            }
            &&& r matches Some(f) ==> f.effects@ == left_effects@.union(right_effects@)
        }),
{
    let rule = binary_rule(store, op, left, right);
    let ty = match rule {
        BinaryRule::Assign => {
            let mut pairs: Vec<(TyId, TyId)> = Vec::new();
            if !ty_matches(store, left, right) {
                pairs.push((left, right));
            }
            proof {
                assert(pairs@ =~= mismatch_of(store.kinds(), left, right));
            }
            push_mismatches(st, &pairs);
            unit
        },
        BinaryRule::Range => {
            let (item, pairs) = range_item_ty(store, b, left, right);
            proof {
                use_type_invariant(&*store);
            }
            match add_ty(store, TyKind::Range { bound: item }) {
                Some(t) => {
                    push_mismatches(st, &pairs);
                    t
                },
                None => {
                    return None;
                },
            }
        },
        BinaryRule::Membership => {
            match range_item_type(store, right) {
                Some(item) => {
                    let p = crate::ty_props::peel_mut_ty(store, right);
                    proof {
                        use_type_invariant(&*store);
                        assert(crate::ty::children_below(store.kinds()[p.0 as int], p.0 as int));
                    }
                    let mut pairs: Vec<(TyId, TyId)> = Vec::new();
                    if !ty_matches(store, item, left) {
                        pairs.push((item, left));
                    }
                    proof {
                        assert(pairs@ =~= mismatch_of(store.kinds(), item, left));
                    }
                    push_mismatches(st, &pairs);
                },
                None => {
                    let expected = match add_ty(store, TyKind::Range { bound: left }) {
                        Some(t) => t,
                        None => {
                            return None;
                        },
                    };
                    let mut pairs: Vec<(TyId, TyId)> = Vec::new();
                    if !ty_matches(store, expected, right) {
                        pairs.push((expected, right));
                    }
                    proof {
                        assert(pairs@ =~= mismatch_of(store.kinds(), expected, right));
                    }
                    push_mismatches(st, &pairs);
                },
            }
            b.bool_
        },
        BinaryRule::NoLowering => {
            st.diags.push(plain_diag(SemaDiagKind::BinaryOperatorHasNoExecutableLowering));
            proof {
                assert(st.diags@ =~= old(st).diags@ + seq![plain(SemaDiagKind::BinaryOperatorHasNoExecutableLowering)]);
            }
            b.unknown
        },
        _ => match binary_result_ty(st, store, b, bits, op, left, right, lowered) {
            Some(t) => t,
            None => {
                return None;
            },
        },
    };
    let effects = join_effects(left_effects, right_effects);
    Some(BinaryFacts { facts: ExprFacts::new(ty), effects })
}

// ------------------------------------------------------- binding patterns

/// The binding types `m` holds once the binding types of a list of pattern
/// steps are written into it, in order.
pub open spec fn bind_steps(m: Map<u32, TyId>, steps: Seq<PatStep>) -> Map<u32, TyId>
    decreases steps.len(),
{
    if steps.len() == 0 {
        m
    } else {
        let before = bind_steps(m, steps.drop_last());
        match steps.last() {
            PatStep::BindType { binding, ty } => before.insert(binding, ty),
            _ => before,
        }
    }
}

/// The pattern types `m` holds once the pattern facts of a list of pattern
/// steps are written into it, in order.
pub open spec fn fact_steps(m: Map<u32, TyId>, steps: Seq<PatStep>) -> Map<u32, TyId>
    decreases steps.len(),
{
    if steps.len() == 0 {
        m
    } else {
        let before = fact_steps(m, steps.drop_last());
        match steps.last() {
            PatStep::Fact { pat, ty } => before.insert(pat.0, ty),
            _ => before,
        }
    }
}

/// The diagnostics a list of pattern steps reports, in order.
pub open spec fn step_diags(steps: Seq<PatStep>) -> Seq<CheckDiag>
    decreases steps.len(),
{
    if steps.len() == 0 {
        Seq::empty()
    } else {
        step_diags(steps.drop_last()) + match steps.last() {
            PatStep::Diag { kind } => seq![plain(kind)],
            PatStep::FieldDiag { kind, name } => seq![CheckDiag { kind, subject: DiagSubject::Name(name) }],
            _ => Seq::empty(),
        }
    }
}

/// Records what pattern steps give: each pattern's type, each binding's
/// type and each diagnostic. Checking literals, making sum definitions and
/// naming missing fields are left to the caller.
pub fn apply_pat_steps(st: &mut CheckState, steps: &Vec<PatStep>)
    ensures
        frame(*old(st), *final(st), true, false, false, false, false, false, true, false, false, true),
        final(st).binding_tys@ == bind_steps(old(st).binding_tys@, steps@),
        final(st).pat_facts@ == fact_steps(old(st).pat_facts@, steps@),
        final(st).diags@ == old(st).diags@ + step_diags(steps@),
{
    let mut i: usize = 0;
    while i < steps.len()
        invariant
            i <= steps@.len(),
            frame(*old(st), *st, true, false, false, false, false, false, true, false, false, true),
            st.binding_tys@ == bind_steps(old(st).binding_tys@, steps@.subrange(0, i as int)),
            st.pat_facts@ == fact_steps(old(st).pat_facts@, steps@.subrange(0, i as int)),
            st.diags@ == old(st).diags@ + step_diags(steps@.subrange(0, i as int)),
        decreases steps@.len() - i,
    {
        proof {
            assert(steps@.subrange(0, i + 1).drop_last() =~= steps@.subrange(0, i as int));
            assert(steps@.subrange(0, i + 1).last() == steps@[i as int]);
        }
        match steps[i] {
            PatStep::BindType { binding, ty } => {
                st.binding_tys.insert(binding, ty);
            },
            PatStep::Fact { pat, ty } => {
                st.pat_facts.insert(pat.0, ty);
            },
            PatStep::Diag { kind } => {
                st.diags.push(plain_diag(kind));
            },
            PatStep::FieldDiag { kind, name } => {
                st.diags.push(CheckDiag { kind, subject: DiagSubject::Name(name) });
            },
            _ => {},
        }
        i = i + 1;
        proof {
            assert(st.diags@ =~= old(st).diags@ + step_diags(steps@.subrange(0, i as int)));
        }
    }
    proof {
        assert(steps@.subrange(0, i as int) =~= steps@);
    }
}

/// Finishes a `let` as `finish` says: its pattern is bound against its
/// type, and what binding it gives is recorded; the steps are returned for
/// the caller to check literals, make sum definitions and report missing
/// fields. `None` when the store ran out of room.
pub fn bind_let_pattern(
    st: &mut CheckState,
    pats: &PatStore,
    store: &mut TyStore,
    names: &Vec<String>,
    defs: &TextMap<SemaDataDef>,
    bool_: TyId,
    bits: Symbol,
    unknown: TyId,
    finish: LetFinish,
) -> (r: Option<Vec<PatStep>>)
    requires
        finish.pat.0 < pats.kinds().len(),
        finish.ty.0 < old(store).kinds().len(),
        unknown.0 < old(store).kinds().len(),
        bool_.0 < old(store).kinds().len(),
        defs_tys_in(old(store).kinds().len() as int, defs.map()),
        data_defs_in(old(store).kinds(), defs.map()),
    ensures
        crate::ty_tree::store_prefix(old(store).kinds(), final(store).kinds()),
        r is None ==> final(store).kinds().len() == u32::MAX
            && frame(*old(st), *final(st), false, false, false, false, false, false, false, false, false, false),
        r matches Some(steps) ==> {
            &&& pat_steps_ok(
                final(store).kinds(),
                symbol_texts(names@),
                defs.map(),
                bool_,
                bits,
                unknown,
                pats.kinds(),
                finish.pat,
                finish.ty,
                steps@,
            )
            &&& frame(*old(st), *final(st), true, false, false, false, false, false, true, false, false, true)
            &&& final(st).binding_tys@ == bind_steps(old(st).binding_tys@, steps@)
            &&& final(st).pat_facts@ == fact_steps(old(st).pat_facts@, steps@)
            &&& final(st).diags@ == old(st).diags@ + step_diags(steps@)
        },
{
    let steps = bind_pat(pats, store, names, defs, bool_, bits, unknown, finish.pat, finish.ty)?;
    apply_pat_steps(st, &steps);
    Some(steps)
}

// ---------------------------------------------------------- instantiation

/// Instantiates a scheme of type `ty` over `type_params` with the type
/// arguments `args`: `Some(None)`, with an arity mismatch reported, when
/// their counts differ; else `Some(Some(t))` where `t` stands for `ty` with
/// each argument put in for its parameter. `None` when the store ran out of
/// room.
pub fn instantiate_scheme_ty(
    st: &mut CheckState,
    store: &mut TyStore,
    type_params: &Vec<Symbol>,
    args: &Vec<TyId>,
    ty: TyId,
    bits: Symbol,
) -> (r: Option<Option<TyId>>)
    requires
        ty.0 < old(store).kinds().len(),
        forall|k: int| 0 <= k < args@.len() ==> (#[trigger] args@[k]).0 < old(store).kinds().len(),
    ensures
        crate::ty_tree::store_prefix(old(store).kinds(), final(store).kinds()),
        type_params@.len() != args@.len() ==> r == Some(None::<TyId>) && final(store).kinds() == old(store).kinds()
            && frame(*old(st), *final(st), false, false, false, false, false, false, true, false, false, false)
            && final(st).diags@ == old(st).diags@.push(plain(SemaDiagKind::TypeApplicationArityMismatch)),
        type_params@.len() == args@.len() ==> frame(*old(st), *final(st), false, false, false, false, false, false, false, false, false, false)
            && match r {
                Some(t) => t is Some && substituted(
                    old(store).kinds(),
                    final(store).kinds(),
                    ty,
                    zip_subst(type_params@, args@, args@.len() as int),
                    bits,
                    t,
                ),
                None => final(store).kinds().len() == u32::MAX,
            },
{
    if type_params.len() != args.len() {
        st.diags.push(plain_diag(SemaDiagKind::TypeApplicationArityMismatch));
        return Some(None);
    }
    let subst = zip_subst_exec(type_params, args);
    proof {
        assert forall|k: Symbol| #[trigger] subst@.contains_key(k) implies subst@[k].0 < store.kinds().len() by {
            lemma_zip_subst_in(type_params@, args@, args@.len() as int, k);
        }
    }
    match substitute_ty(store, ty, &subst, bits) {
        Some(t) => Some(Some(t)),
        None => {
            proof {
                use_type_invariant(&*store);
            }
            None
        },
    }
}

/// The binders of the `Pi` types at the head of `ty`, outermost first, and
/// the type under them.
pub open spec fn pi_binders(tys: Seq<TyNode>, ty: TyId) -> (Seq<Symbol>, TyId)
    decreases ty.0,
    when crate::ty::store_wf(tys) && ty.0 < tys.len()
{
    match tys[ty.0 as int] {
        TyNode::Pi { binder, body, .. } => {
            let (rest, inner) = pi_binders(tys, body);
            (seq![binder] + rest, inner)
        },
        _ => (Seq::empty(), ty),
    }
}

/// Instantiates the `Pi` type `ty` with the type arguments `args`: its
/// binders, outermost first, are the type parameters of the type under
/// them. `Some(None)` when `ty` is no `Pi` type; otherwise as
/// `instantiate_scheme_ty` says.
pub fn instantiate_pi_ty(
    st: &mut CheckState,
    store: &mut TyStore,
    args: &Vec<TyId>,
    ty: TyId,
    bits: Symbol,
) -> (r: Option<Option<TyId>>)
    requires
        ty.0 < old(store).kinds().len(),
        forall|k: int| 0 <= k < args@.len() ==> (#[trigger] args@[k]).0 < old(store).kinds().len(),
    ensures
        crate::ty_tree::store_prefix(old(store).kinds(), final(store).kinds()),
        ({
            let (binders, body) = pi_binders(old(store).kinds(), ty);
            &&& binders.len() == 0 ==> r == Some(None::<TyId>) && final(store).kinds() == old(store).kinds()
                && frame(*old(st), *final(st), false, false, false, false, false, false, false, false, false, false)
            &&& binders.len() != 0 && binders.len() != args@.len() ==> r == Some(None::<TyId>)
                && final(store).kinds() == old(store).kinds()
                && frame(*old(st), *final(st), false, false, false, false, false, false, true, false, false, false)
                && final(st).diags@ == old(st).diags@.push(plain(SemaDiagKind::TypeApplicationArityMismatch))
            &&& binders.len() != 0 && binders.len() == args@.len() ==> frame(*old(st), *final(st), false, false, false, false, false, false, false, false, false, false)
                && match r {
                    Some(t) => t is Some && substituted(
                        old(store).kinds(),
                        final(store).kinds(),
                        body,
                        zip_subst(binders, args@, args@.len() as int),
                        bits,
                        t,
                    ),
                    None => final(store).kinds().len() == u32::MAX,
                }
        }),
{
    proof {
        use_type_invariant(&*store);
    }
    let mut binders: Vec<Symbol> = Vec::new();
    let mut body = ty;
    loop
        invariant
            crate::ty::store_wf(store.kinds()),
            store.kinds() == old(store).kinds(),
            body.0 < store.kinds().len(),
            pi_binders(store.kinds(), ty) == (binders@ + pi_binders(store.kinds(), body).0, pi_binders(store.kinds(), body).1),
        ensures
            store.kinds() == old(store).kinds(),
            body.0 < store.kinds().len(),
            pi_binders(store.kinds(), ty) == (binders@, body),
        decreases body.0,
    {
        match store.kind(body) {
            TyKind::Pi { binder, body: next, .. } => {
                proof {
                    assert(crate::ty::children_below(store.kinds()[body.0 as int], body.0 as int));
                    assert(binders@.push(*binder) + pi_binders(store.kinds(), *next).0 =~= binders@ + (seq![*binder] + pi_binders(store.kinds(), *next).0));
                }
                binders.push(*binder);
                body = *next;
            },
            _ => {
                proof {
                    assert(pi_binders(store.kinds(), body) == (Seq::<Symbol>::empty(), body));
                    assert(binders@ + Seq::<Symbol>::empty() =~= binders@);
                }
                break;
            },
        }
    }
    if binders.len() == 0 {
        return Some(None);
    }
    instantiate_scheme_ty(st, store, &binders, args, body, bits)
}

} // verus!
