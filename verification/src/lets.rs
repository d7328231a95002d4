//! The decisions of checking a `let`: which way it is checked, what it
//! reports about its form, and the compile-time value it records.
use vstd::prelude::*;

use crate::const_eval::{eval_value, is_known_expr, try_comptime_value, ComptimeValue, ConstEnv};
use crate::diag::SemaDiagKind;
use crate::expr::{ExprForm, ExprId, ExprKind, ExprStore, PrefixOp};
use crate::pats::{PatId, PatKind, PatStore};

verus! {

/// How a `let` is checked.
#[derive(Debug, Clone, Copy, PartialEq, Eq, Structural)]
pub enum LetPath {
    /// A module-level `let` whose `@target` does not match: its binding is
    /// gated and its value not checked.
    Gated,
    /// A module-level foreign `let`.
    Native,
    /// A `let` with a parameter clause: a callable.
    Callable,
    /// Any other `let`.
    Plain,
}

/// The way a `let` is checked, and whether it is reported as both `partial`
/// and foreign.
pub open spec fn let_route_spec(
    is_module_stmt: bool,
    is_native: bool,
    is_partial: bool,
    targets_match: bool,
    has_param_clause: bool,
) -> (LetPath, bool) {
    let conflict = is_partial && is_native;
    let path = if is_module_stmt && !is_native && !targets_match {
        LetPath::Gated
    } else if is_module_stmt && is_native {
        LetPath::Native
    } else if has_param_clause {
        LetPath::Callable
    } else {
        LetPath::Plain
    };
    (path, conflict)
}

/// The way a `let` is checked, and whether a `partial` foreign `let` is
/// reported.
pub fn let_route(
    is_module_stmt: bool,
    is_native: bool,
    is_partial: bool,
    targets_match: bool,
    has_param_clause: bool,
) -> (r: (LetPath, bool))
    ensures
        r == let_route_spec(is_module_stmt, is_native, is_partial, targets_match, has_param_clause),
{
    let conflict = is_partial && is_native;
    let path = if is_module_stmt && !is_native && !targets_match {
        LetPath::Gated
    } else if is_module_stmt && is_native {
        LetPath::Native
    } else if has_param_clause {
        LetPath::Callable
    } else {
        LetPath::Plain
    };
    (path, conflict)
}

/// What a callable `let` reports about its form: a pattern that is not a
/// plain binding or `_`, then an exported generic callable with
/// constraints.
pub open spec fn callable_let_issues_spec(
    pattern_is_simple: bool,
    exported: bool,
    type_param_count: nat,
    constraint_count: nat,
) -> Seq<SemaDiagKind> {
    let first: Seq<SemaDiagKind> = if pattern_is_simple {
        Seq::empty()
    } else {
        seq![SemaDiagKind::CallableLetRequiresSimpleBindingPattern]
    };
    if exported && type_param_count != 0 && constraint_count != 0 {
        first.push(SemaDiagKind::ExportedCallableRequiresConcreteConstraints)
    } else {
        first
    }
}

/// What a callable `let` reports about its form, in order.
pub fn callable_let_issues(
    pattern_is_simple: bool,
    exported: bool,
    type_param_count: usize,
    constraint_count: usize,
) -> (r: Vec<SemaDiagKind>)
    ensures
        r@ == callable_let_issues_spec(
            pattern_is_simple,
            exported,
            type_param_count as nat,
            constraint_count as nat,
        ),
{
    let mut out: Vec<SemaDiagKind> = Vec::new();
    if !pattern_is_simple {
        out.push(SemaDiagKind::CallableLetRequiresSimpleBindingPattern);
    }
    if exported && type_param_count != 0 && constraint_count != 0 {
        out.push(SemaDiagKind::ExportedCallableRequiresConcreteConstraints);
    }
    assert(out@ =~= callable_let_issues_spec(
        pattern_is_simple,
        exported,
        type_param_count as nat,
        constraint_count as nat,
    ));
    out
}

/// What a plain `let` reports: constraints on a binding that is not
/// callable.
pub fn non_callable_let_issue(constraint_count: usize) -> (r: Option<SemaDiagKind>)
    ensures
        r == if constraint_count != 0 {
            Some(SemaDiagKind::ConstrainedNonCallableBinding)
        } else {
            None
        },
{
    if constraint_count != 0 {
        Some(SemaDiagKind::ConstrainedNonCallableBinding)
    } else {
        None
    }
}

/// The compile-time value a `let` records for its binding: the value of a
/// `known` expression, when it has one.
pub fn known_let_value(env: &ConstEnv, value: ExprId) -> (r: Option<ComptimeValue>)
    requires
        env.root.0 < env.exprs.kinds().len(),
        value.0 < env.exprs.kinds().len(),
    ensures
        r == if is_known_expr(env.exprs.kinds()[value.0 as int]) {
            match eval_value(env.ctx(), Set::empty(), value) {
                Ok(v) => Some(v),
                Err(_) => None,
            }
        } else {
            None
        },
{
    match env.exprs.kind(value) {
        ExprKind::Prefix { op: PrefixOp::Known, .. } => try_comptime_value(env, value),
        _ => None,
    }
}


/// The items of a `let`'s value that a tuple pattern's items stand for: a
/// tuple's items, or those of the tuple or sequence an import takes.
pub open spec fn import_value_items(exprs: Seq<ExprKind>, value: ExprId) -> Option<Seq<ExprId>> {
    if value.0 >= exprs.len() {
        None
    } else {
        match exprs[value.0 as int] {
            ExprKind::Tuple { items } => Some(items@),
            ExprKind::Other { form: ExprForm::Import, children } => if children@.len() == 1 && children@[0].0 < exprs.len() {
                match exprs[children@[0].0 as int] {
                    ExprKind::Tuple { items } => Some(items@),
                    ExprKind::Sequence { exprs: xs } => Some(xs@),
                    _ => None,
                }
            } else {
                None
            },
            _ => None,
        }
    }
}

/// The bindings declared by the first `n` pattern items that are plain
/// names, each with the value item at its place.
pub open spec fn bind_pairs(pats: Seq<PatKind>, items: Seq<PatId>, values: Seq<ExprId>, n: int) -> Seq<(u32, ExprId)>
    decreases n,
{
    if n <= 0 {
        Seq::empty()
    } else {
        let prior = bind_pairs(pats, items, values, n - 1);
        if items[n - 1].0 < pats.len() {
            match pats[items[n - 1].0 as int] {
                PatKind::Bind { binding: Some(b), .. } => prior.push((b, values[n - 1])),
                _ => prior,
            }
        } else {
            prior
        }
    }
}

/// The bindings of a tuple pattern that take an import target from the
/// value item at their place, when the value has as many items as the
/// pattern.
pub open spec fn tuple_import_pairs_spec(pats: Seq<PatKind>, exprs: Seq<ExprKind>, pat: PatId, value: ExprId) -> Seq<(u32, ExprId)> {
    if pat.0 < pats.len() {
        match pats[pat.0 as int] {
            PatKind::Tuple { items } => match import_value_items(exprs, value) {
                Some(vs) => if vs.len() == items@.len() {
                    bind_pairs(pats, items@, vs, items@.len() as int)
                } else {
                    Seq::empty()
                },
                None => Seq::empty(),
            },
            _ => Seq::empty(),
        }
    } else {
        Seq::empty()
    }
}

/// The bindings of the tuple pattern `pat` paired with the items of the
/// value `value` they take an import target from; the caller looks the
/// target of each item up.
pub fn tuple_import_pairs(pats: &PatStore, exprs: &ExprStore, pat: PatId, value: ExprId) -> (r: Vec<(u32, ExprId)>)
    ensures
        r@ == tuple_import_pairs_spec(pats.kinds(), exprs.kinds(), pat, value),
{
    let mut out: Vec<(u32, ExprId)> = Vec::new();
    if pat.0 as usize >= pats.len() {
        return out;
    }
    let items = match pats.kind(pat) {
        PatKind::Tuple { items } => items,
        _ => {
            return out;
        },
    };
    if value.0 as usize >= exprs.len() {
        return out;
    }
    let values: &Vec<ExprId> = match exprs.kind(value) {
        ExprKind::Tuple { items } => items,
        ExprKind::Other { form: ExprForm::Import, children } => {
            if children.len() != 1 || children[0].0 as usize >= exprs.len() {
                return out;
            }
            match exprs.kind(children[0]) {
                ExprKind::Tuple { items } => items,
                ExprKind::Sequence { exprs: xs } => xs,
                _ => {
                    return out;
                },
            }
        },
        _ => {
            return out;
        },
    };
    proof {
        assert(import_value_items(exprs.kinds(), value) == Some(values@));
    }
    if values.len() != items.len() {
        return out;
    }
    let mut k: usize = 0;
    while k < items.len()
        invariant
            k <= items@.len(),
            values@.len() == items@.len(),
            out@ == bind_pairs(pats.kinds(), items@, values@, k as int),
        decreases items@.len() - k,
    {
        let p = items[k];
        if (p.0 as usize) < pats.len() {
            if let PatKind::Bind { binding: Some(b), .. } = pats.kind(p) {
                out.push((*b, values[k]));
            }
        }
        k = k + 1;
    }
    out
}

} // verus!
