//! Compile-time evaluation of integer constant expressions: literals, names of
//! `known` bindings, negation, `+ - * / %` with overflow checks, and
//! single-item sequences and tuples.
use vstd::prelude::*;

use crate::expr::{
    BinaryOp, ExprId, ExprKind, ExprStore, LetPat, LitKind, PrefixOp, expr_kind_wf, exprs_wf, expr_ids_below,
};
use crate::text::text_eq;
use crate::ty::Symbol;
use std::collections::HashSet;

verus! {

/// A value known at compile time.
#[derive(Debug, PartialEq, Eq)]
pub enum ComptimeValue {
    Unit,
    Int(i64),
    Nat(u64),
    Float(String),
    String(String),
    Rune(u32),
    CPtr(usize),
    /// A syntax term, by its id.
    Syntax(u32),
    /// A value of another kind (a type, a closure, a module, ...), which
    /// constant evaluation carries but does not read.
    Other(u32),
}

/// Why an expression has no constant value.
#[derive(Debug, Clone, Copy, PartialEq, Eq, Structural)]
pub enum ConstEvalError {
    /// The expression is not a constant expression, or its value overflows.
    Invalid,
    /// The expression's value depends on itself.
    Cycle,
}

/// A copy of a compile-time value.
pub fn copy_value(v: &ComptimeValue) -> (r: ComptimeValue)
    ensures
        r == *v,
{
    match v {
        ComptimeValue::Unit => ComptimeValue::Unit,
        ComptimeValue::Int(x) => ComptimeValue::Int(*x),
        ComptimeValue::Nat(x) => ComptimeValue::Nat(*x),
        ComptimeValue::Float(s) => ComptimeValue::Float(s.clone()),
        ComptimeValue::String(s) => ComptimeValue::String(s.clone()),
        ComptimeValue::Rune(x) => ComptimeValue::Rune(*x),
        ComptimeValue::CPtr(x) => ComptimeValue::CPtr(*x),
        ComptimeValue::Syntax(x) => ComptimeValue::Syntax(*x),
        ComptimeValue::Other(x) => ComptimeValue::Other(*x),
    }
}

/// What constant evaluation reads: the expressions, how many bindings they
/// refer to, the compile-time values already known for bindings, the text of
/// each symbol, and the root expression of the module.
pub struct EvalCtx {
    pub exprs: Seq<ExprKind>,
    pub bindings: u32,
    pub known: Seq<Option<ComptimeValue>>,
    pub names: Seq<Seq<char>>,
    pub root: ExprId,
}

/// The value already known for binding `b`, if any.
pub open spec fn known_value(known: Seq<Option<ComptimeValue>>, b: u32) -> Option<ComptimeValue> {
    if b < known.len() {
        known[b as int]
    } else {
        None
    }
}

/// The expression bound to `b` by a `let` found from `e` through sequences and
/// the values of `let`s.
pub open spec fn binding_value_expr(exprs: Seq<ExprKind>, bindings: int, e: ExprId, b: u32) -> Option<ExprId>
    decreases e.0, 1nat, 0nat,
    when exprs_wf(exprs, bindings) && e.0 < exprs.len()
{
    match exprs[e.0 as int] {
        ExprKind::Sequence { exprs: list } => binding_value_in_list(exprs, bindings, e, list@, b, 0),
        ExprKind::Let { pat, value, .. } => if pat == (LetPat::Bind { binding: Some(b) }) {
            Some(value)
        } else {
            binding_value_expr(exprs, bindings, value, b)
        },
        _ => None,
    }
}

/// The first expression bound to `b` found from the items of `list` at
/// position `k` or later; `list` holds children of `parent`.
pub open spec fn binding_value_in_list(
    exprs: Seq<ExprKind>,
    bindings: int,
    parent: ExprId,
    list: Seq<ExprId>,
    b: u32,
    k: int,
) -> Option<ExprId>
    decreases parent.0, 0nat, list.len() - k,
    when exprs_wf(exprs, bindings) && parent.0 < exprs.len() && expr_ids_below(list, parent.0 as int) && 0 <= k
{
    if k >= list.len() {
        None
    } else {
        match binding_value_expr(exprs, bindings, list[k], b) {
            Some(x) => Some(x),
            None => binding_value_in_list(exprs, bindings, parent, list, b, k + 1),
        }
    }
}

/// The number of bindings below `n` that are not in `seen`.
pub open spec fn unseen(seen: Set<u32>, n: nat) -> nat
    decreases n,
{
    if n == 0 {
        0
    } else {
        unseen(seen, (n - 1) as nat) + if seen.contains((n - 1) as u32) {
            0nat
        } else {
            1nat
        }
    }
}

proof fn lemma_unseen_insert_above(seen: Set<u32>, n: nat, b: u32)
    requires
        n <= b,
    ensures
        unseen(seen.insert(b), n) == unseen(seen, n),
    decreases n,
{
    if n > 0 {
        lemma_unseen_insert_above(seen, (n - 1) as nat, b);
    }
}

/// Marking one more binding below `n` as seen leaves one binding fewer unseen.
pub proof fn lemma_unseen_insert(seen: Set<u32>, n: nat, b: u32)
    requires
        b < n,
        n <= u32::MAX + 1,
        !seen.contains(b),
    ensures
        unseen(seen.insert(b), n) + 1 == unseen(seen, n),
    decreases n,
{
    if b == n - 1 {
        lemma_unseen_insert_above(seen, (n - 1) as nat, b);
    } else {
        lemma_unseen_insert(seen, (n - 1) as nat, b);
        assert(seen.insert(b).contains((n - 1) as u32) == seen.contains((n - 1) as u32));
    }
}

/// The text of symbol `s`; empty for a symbol with no text.
pub open spec fn symbol_text(names: Seq<Seq<char>>, s: Symbol) -> Seq<char> {
    if s.0 < names.len() {
        names[s.0 as int]
    } else {
        Seq::empty()
    }
}

/// The text of symbol `s` as a new string; empty for a symbol with no text.
pub(crate) fn symbol_string(names: &Vec<String>, s: Symbol) -> (out: String)
    ensures
        out@ == symbol_text(names@.map_values(|t: String| t@), s),
{
    if (s.0 as usize) < names.len() {
        names[s.0 as usize].clone()
    } else {
        String::new()
    }
}

/// Whether the text of symbol `name` is `text`.
pub(crate) fn symbol_is(names: &Vec<String>, name: Symbol, text: &str) -> (r: bool)
    ensures
        r == (symbol_text(names@.map_values(|t: String| t@), name) == text@),
{
    if (name.0 as usize) < names.len() {
        text_eq(names[name.0 as usize].as_str(), text)
    } else {
        let n = text.unicode_len();
        if n == 0 {
            assert(text@ =~= Seq::<char>::empty());
            true
        } else {
            false
        }
    }
}

/// The value of applying the operator written `text` to two integers: one of
/// `+ - * / %`, with `None` on overflow and on division by zero.
pub open spec fn named_int_op(text: Seq<char>, l: i64, r: i64) -> Option<i64> {
    if text == seq!['+'] {
        l.checked_add(r)
    } else if text == seq!['-'] {
        l.checked_sub(r)
    } else if text == seq!['*'] {
        l.checked_mul(r)
    } else if text == seq!['/'] && r != 0 {
        l.checked_div(r)
    } else if text == seq!['%'] && r != 0 {
        l.checked_rem(r)
    } else {
        None
    }
}

/// The value of a binary operator on two integer constants, if it has one.
pub open spec fn int_op(names: Seq<Seq<char>>, op: BinaryOp, l: i64, r: i64) -> Option<i64> {
    match op {
        BinaryOp::Add => l.checked_add(r),
        BinaryOp::Sub => l.checked_sub(r),
        BinaryOp::Mul => l.checked_mul(r),
        BinaryOp::Div => if r != 0 {
            l.checked_div(r)
        } else {
            None
        },
        BinaryOp::Rem => if r != 0 {
            l.checked_rem(r)
        } else {
            None
        },
        BinaryOp::UserOp(s) => named_int_op(symbol_text(names, s), l, r),
        _ => None,
    }
}

/// The constant value of a literal.
pub open spec fn lit_value(lit: LitKind) -> Result<ComptimeValue, ConstEvalError> {
    match lit {
        LitKind::Int { parsed, .. } => match parsed {
            Some(v) => Ok(ComptimeValue::Int(v)),
            None => Err(ConstEvalError::Invalid),
        },
        LitKind::Float { raw } => Ok(ComptimeValue::Float(raw)),
        LitKind::String { value } => Ok(ComptimeValue::String(value)),
        LitKind::Rune { value } => Ok(ComptimeValue::Rune(value)),
    }
}

/// Whether an expression is marked `known`.
pub open spec fn is_known_expr(k: ExprKind) -> bool {
    k matches ExprKind::Prefix { op: PrefixOp::Known, .. }
}

/// The well-formedness the evaluator relies on.
pub open spec fn ctx_wf(ctx: EvalCtx) -> bool {
    &&& exprs_wf(ctx.exprs, ctx.bindings as int)
    &&& ctx.root.0 < ctx.exprs.len()
}

/// The constant value of expression `e`, while the bindings in `seen` are
/// being evaluated: a literal; a binding's known value, or else the value of
/// the `known` expression it is bound to (a binding met again while its own
/// value is evaluated is a cycle); negation and `+ - * / %` on integers,
/// checked; `known e`; a sequence of one expression; the empty tuple and a
/// tuple of one item. Operands are evaluated left to right and the first
/// error is the result.
pub open spec fn eval_value(ctx: EvalCtx, seen: Set<u32>, e: ExprId) -> Result<ComptimeValue, ConstEvalError>
    decreases unseen(seen, ctx.bindings as nat), e.0,
    when ctx_wf(ctx) && e.0 < ctx.exprs.len()
    via eval_value_decreases
{
    match ctx.exprs[e.0 as int] {
        ExprKind::Lit { lit } => lit_value(lit),
        ExprKind::Name { binding, .. } => match binding {
            None => Err(ConstEvalError::Invalid),
            Some(b) => match known_value(ctx.known, b) {
                Some(v) => Ok(v),
                None => if seen.contains(b) {
                    Err(ConstEvalError::Cycle)
                } else {
                    match binding_value_expr(ctx.exprs, ctx.bindings as int, ctx.root, b) {
                        None => Err(ConstEvalError::Invalid),
                        Some(v) => if is_known_expr(ctx.exprs[v.0 as int]) {
                            eval_value(ctx, seen.insert(b), v)
                        } else {
                            Err(ConstEvalError::Invalid)
                        },
                    }
                },
            },
        },
        ExprKind::Prefix { op, expr } => match op {
            PrefixOp::Neg => match eval_value(ctx, seen, expr) {
                Ok(ComptimeValue::Int(x)) => if x == i64::MIN {
                    Err(ConstEvalError::Invalid)
                } else {
                    Ok(ComptimeValue::Int((-x) as i64))
                },
                Ok(_) => Err(ConstEvalError::Invalid),
                Err(err) => Err(err),
            },
            PrefixOp::Known => eval_value(ctx, seen, expr),
            _ => Err(ConstEvalError::Invalid),
        },
        ExprKind::Binary { op, left, right } => match eval_value(ctx, seen, left) {
            Ok(ComptimeValue::Int(l)) => match eval_value(ctx, seen, right) {
                Ok(ComptimeValue::Int(r)) => match int_op(ctx.names, op, l, r) {
                    Some(v) => Ok(ComptimeValue::Int(v)),
                    None => Err(ConstEvalError::Invalid),
                },
                Ok(_) => Err(ConstEvalError::Invalid),
                Err(err) => Err(err),
            },
            Ok(_) => Err(ConstEvalError::Invalid),
            Err(err) => Err(err),
        },
        ExprKind::Sequence { exprs } => if exprs@.len() == 1 {
            eval_value(ctx, seen, exprs@[0])
        } else {
            Err(ConstEvalError::Invalid)
        },
        ExprKind::Tuple { items } => if items@.len() == 0 {
            Ok(ComptimeValue::Unit)
        } else if items@.len() == 1 {
            eval_value(ctx, seen, items@[0])
        } else {
            Err(ConstEvalError::Invalid)
        },
        _ => Err(ConstEvalError::Invalid),
    }
}

#[via_fn]
proof fn eval_value_decreases(ctx: EvalCtx, seen: Set<u32>, e: ExprId) {
    if let ExprKind::Name { binding: Some(b), .. } = ctx.exprs[e.0 as int] {
        if !seen.contains(b) {
            lemma_unseen_insert(seen, ctx.bindings as nat, b);
        }
    }
}

/// What constant evaluation reads, borrowed from the checker: the expressions,
/// the values already known for bindings (by binding), the text of each
/// symbol (by symbol), and the root expression of the module.
pub struct ConstEnv<'a> {
    pub exprs: &'a ExprStore,
    pub known: &'a Vec<Option<ComptimeValue>>,
    pub names: &'a Vec<String>,
    pub root: ExprId,
}

impl<'a> ConstEnv<'a> {
    /// The evaluation context this environment stands for.
    pub open spec fn ctx(&self) -> EvalCtx {
        EvalCtx {
            exprs: self.exprs.kinds(),
            bindings: self.exprs.bindings(),
            known: self.known@,
            names: self.names@.map_values(|s: String| s@),
            root: self.root,
        }
    }
}

/// The expression bound to `b` by a `let` found from `e` through sequences and
/// the values of `let`s; it comes before `e`.
fn find_binding_value(store: &ExprStore, e: ExprId, b: u32) -> (r: Option<ExprId>)
    requires
        e.0 < store.kinds().len(),
    ensures
        r == binding_value_expr(store.kinds(), store.bindings() as int, e, b),
        r matches Some(v) ==> v.0 < e.0,
    decreases e.0,
{
    proof {
        use_type_invariant(store);
    }
    match store.kind(e) {
        ExprKind::Sequence { exprs: list } => {
            let ghost exprs = store.kinds();
            let ghost bindings = store.bindings() as int;
            assert(exprs_wf(exprs, bindings));
            assert(expr_ids_below(list@, e.0 as int));
            let mut k: usize = 0;
            while k < list.len()
                invariant
                    e.0 < exprs.len(),
                    exprs == store.kinds(),
                    bindings == store.bindings() as int,
                    exprs_wf(exprs, bindings),
                    exprs[e.0 as int] == (ExprKind::Sequence { exprs: *list }),
                    expr_ids_below(list@, e.0 as int),
                    k <= list.len(),
                    binding_value_expr(exprs, bindings, e, b) == binding_value_in_list(
                        exprs,
                        bindings,
                        e,
                        list@,
                        b,
                        k as int,
                    ),
                decreases list.len() - k,
            {
                let child = list[k];
                assert(child == list@[k as int]);
                let found = find_binding_value(store, child, b);
                if let Some(v) = found {
                    return Some(v);
                }
                k = k + 1;
            }
            None
        },
        ExprKind::Let { pat, value, .. } => {
            if let LetPat::Bind { binding: Some(p) } = pat {
                if *p == b {
                    return Some(*value);
                }
            }
            find_binding_value(store, *value, b)
        },
        _ => None,
    }
}

/// The value of the operator written `text` on two integers.
fn named_int_op_exec(text: &str, l: i64, r: i64) -> (v: Option<i64>)
    ensures
        v == named_int_op(text@, l, r),
{
    if text.unicode_len() != 1 {
        proof {
            assert(text@ != seq!['+']);
            assert(text@ != seq!['-']);
            assert(text@ != seq!['*']);
            assert(text@ != seq!['/']);
            assert(text@ != seq!['%']);
        }
        return None;
    }
    let c = text.get_char(0);
    proof {
        assert(text@ =~= seq![c]);
    }
    if c == '+' {
        assert(text@ =~= seq!['+']);
        l.checked_add(r)
    } else if c == '-' {
        assert(text@ =~= seq!['-']);
        l.checked_sub(r)
    } else if c == '*' {
        assert(text@ =~= seq!['*']);
        l.checked_mul(r)
    } else if c == '/' {
        assert(text@ =~= seq!['/']);
        if r != 0 {
            l.checked_div(r)
        } else {
            None
        }
    } else if c == '%' {
        assert(text@ =~= seq!['%']);
        if r != 0 {
            l.checked_rem(r)
        } else {
            None
        }
    } else {
        proof {
            assert(seq!['+'][0] == '+');
            assert(seq!['-'][0] == '-');
            assert(seq!['*'][0] == '*');
            assert(seq!['/'][0] == '/');
            assert(seq!['%'][0] == '%');
        }
        None
    }
}

/// The value of a binary operator on two integer constants.
fn int_op_exec(names: &Vec<String>, op: BinaryOp, l: i64, r: i64) -> (v: Option<i64>)
    ensures
        v == int_op(names@.map_values(|s: String| s@), op, l, r),
{
    match op {
        BinaryOp::Add => l.checked_add(r),
        BinaryOp::Sub => l.checked_sub(r),
        BinaryOp::Mul => l.checked_mul(r),
        BinaryOp::Div => if r != 0 {
            l.checked_div(r)
        } else {
            None
        },
        BinaryOp::Rem => if r != 0 {
            l.checked_rem(r)
        } else {
            None
        },
        BinaryOp::UserOp(s) => {
            if (s.0 as usize) < names.len() {
                named_int_op_exec(names[s.0 as usize].as_str(), l, r)
            } else {
                proof {
                    assert(seq!['+'].len() == 1);
                    assert(seq!['-'].len() == 1);
                    assert(seq!['*'].len() == 1);
                    assert(seq!['/'].len() == 1);
                    assert(seq!['%'].len() == 1);
                }
                None
            }
        },
        _ => None,
    }
}

/// The constant value of a literal.
fn lit_value_exec(lit: &LitKind) -> (r: Result<ComptimeValue, ConstEvalError>)
    ensures
        r == lit_value(*lit),
{
    match lit {
        LitKind::Int { parsed, .. } => match parsed {
            Some(v) => Ok(ComptimeValue::Int(*v)),
            None => Err(ConstEvalError::Invalid),
        },
        LitKind::Float { raw } => Ok(ComptimeValue::Float(raw.clone())),
        LitKind::String { value } => Ok(ComptimeValue::String(value.clone())),
        LitKind::Rune { value } => Ok(ComptimeValue::Rune(*value)),
    }
}

/// Evaluates `e` while the bindings in `seen` are being evaluated; `seen` is
/// the same afterwards.
fn eval_in(env: &ConstEnv, seen: &mut HashSet<u32>, e: ExprId) -> (r: Result<ComptimeValue, ConstEvalError>)
    requires
        ctx_wf(env.ctx()),
        e.0 < env.ctx().exprs.len(),
    ensures
        r == eval_value(env.ctx(), old(seen)@, e),
        final(seen)@ == old(seen)@,
    decreases unseen(old(seen)@, env.ctx().bindings as nat), e.0,
{
    broadcast use vstd::std_specs::hash::group_hash_axioms;

    let ghost ctx = env.ctx();
    proof {
        use_type_invariant(env.exprs);
        assert(exprs_wf(ctx.exprs, ctx.bindings as int));
        assert(expr_kind_wf(ctx.exprs[e.0 as int], e.0 as int, ctx.bindings as int));
    }
    match env.exprs.kind(e) {
        ExprKind::Lit { lit } => lit_value_exec(lit),
        ExprKind::Name { binding, .. } => match binding {
            None => Err(ConstEvalError::Invalid),
            Some(b) => {
                let b = *b;
                if (b as usize) < env.known.len() {
                    if let Some(v) = &env.known[b as usize] {
                        return Ok(copy_value(v));
                    }
                }
                if seen.contains(&b) {
                    return Err(ConstEvalError::Cycle);
                }
                match find_binding_value(env.exprs, env.root, b) {
                    None => Err(ConstEvalError::Invalid),
                    Some(v) => {
                        let is_known = match env.exprs.kind(v) {
                            ExprKind::Prefix { op: PrefixOp::Known, .. } => true,
                            _ => false,
                        };
                        if !is_known {
                            return Err(ConstEvalError::Invalid);
                        }
                        let ghost before = seen@;
                        seen.insert(b);
                        proof {
                            lemma_unseen_insert(before, ctx.bindings as nat, b);
                        }
                        let r = eval_in(env, seen, v);
                        seen.remove(&b);
                        assert(seen@ =~= before);
                        r
                    },
                }
            },
        },
        ExprKind::Prefix { op, expr } => match op {
            PrefixOp::Neg => match eval_in(env, seen, *expr) {
                Ok(ComptimeValue::Int(x)) => if x == i64::MIN {
                    Err(ConstEvalError::Invalid)
                } else {
                    Ok(ComptimeValue::Int(-x))
                },
                Ok(_) => Err(ConstEvalError::Invalid),
                Err(err) => Err(err),
            },
            PrefixOp::Known => eval_in(env, seen, *expr),
            _ => Err(ConstEvalError::Invalid),
        },
        ExprKind::Binary { op, left, right } => match eval_in(env, seen, *left) {
            Ok(ComptimeValue::Int(l)) => match eval_in(env, seen, *right) {
                Ok(ComptimeValue::Int(r)) => match int_op_exec(env.names, *op, l, r) {
                    Some(v) => Ok(ComptimeValue::Int(v)),
                    None => Err(ConstEvalError::Invalid),
                },
                Ok(_) => Err(ConstEvalError::Invalid),
                Err(err) => Err(err),
            },
            Ok(_) => Err(ConstEvalError::Invalid),
            Err(err) => Err(err),
        },
        ExprKind::Sequence { exprs } => if exprs.len() == 1 {
            assert(exprs@[0].0 < e.0);
            eval_in(env, seen, exprs[0])
        } else {
            Err(ConstEvalError::Invalid)
        },
        ExprKind::Tuple { items } => if items.len() == 0 {
            Ok(ComptimeValue::Unit)
        } else if items.len() == 1 {
            assert(items@[0].0 < e.0);
            eval_in(env, seen, items[0])
        } else {
            Err(ConstEvalError::Invalid)
        },
        _ => Err(ConstEvalError::Invalid),
    }
}

/// The constant value of `expr`, or why it has none.
pub fn eval_const(env: &ConstEnv, expr: ExprId) -> (r: Result<ComptimeValue, ConstEvalError>)
    requires
        env.root.0 < env.exprs.kinds().len(),
        expr.0 < env.exprs.kinds().len(),
    ensures
        r == eval_value(env.ctx(), Set::empty(), expr),
{
    proof {
        use_type_invariant(env.exprs);
    }
    let mut seen: HashSet<u32> = HashSet::new();
    eval_in(env, &mut seen, expr)
}

/// The constant value of `expr`, when it has one.
pub fn try_comptime_value(env: &ConstEnv, expr: ExprId) -> (r: Option<ComptimeValue>)
    requires
        env.root.0 < env.exprs.kinds().len(),
        expr.0 < env.exprs.kinds().len(),
    ensures
        r == match eval_value(env.ctx(), Set::empty(), expr) {
            Ok(v) => Some(v),
            Err(_) => None,
        },
{
    match eval_const(env, expr) {
        Ok(v) => Some(v),
        Err(_) => None,
    }
}


/// Addition, subtraction and multiplication of two integer constants give
/// their sum, difference and product when it fits in 64 bits, and no value
/// otherwise; division and remainder by zero give no value, and of a
/// non-negative constant by a positive one give the quotient and remainder.
pub proof fn lemma_int_arith(ctx: EvalCtx, seen: Set<u32>, e: ExprId, op: BinaryOp, left: ExprId, right: ExprId, l: i64, r: i64)
    requires
        ctx_wf(ctx),
        e.0 < ctx.exprs.len(),
        ctx.exprs[e.0 as int] == (ExprKind::Binary { op, left, right }),
        eval_value(ctx, seen, left) == Ok::<ComptimeValue, ConstEvalError>(ComptimeValue::Int(l)),
        eval_value(ctx, seen, right) == Ok::<ComptimeValue, ConstEvalError>(ComptimeValue::Int(r)),
    ensures
        op is Add ==> eval_value(ctx, seen, e) == if i64::MIN <= l + r <= i64::MAX {
            Ok::<ComptimeValue, ConstEvalError>(ComptimeValue::Int((l + r) as i64))
        } else {
            Err(ConstEvalError::Invalid)
        },
        op is Sub ==> eval_value(ctx, seen, e) == if i64::MIN <= l - r <= i64::MAX {
            Ok::<ComptimeValue, ConstEvalError>(ComptimeValue::Int((l - r) as i64))
        } else {
            Err(ConstEvalError::Invalid)
        },
        op is Mul ==> eval_value(ctx, seen, e) == if i64::MIN <= l * r <= i64::MAX {
            Ok::<ComptimeValue, ConstEvalError>(ComptimeValue::Int((l * r) as i64))
        } else {
            Err(ConstEvalError::Invalid)
        },
        (op is Div || op is Rem) && r == 0 ==> eval_value(ctx, seen, e) == Err::<ComptimeValue, ConstEvalError>(
            ConstEvalError::Invalid,
        ),
        op is Div && l >= 0 && r > 0 ==> eval_value(ctx, seen, e) == Ok::<ComptimeValue, ConstEvalError>(
            ComptimeValue::Int((l / r) as i64),
        ),
        op is Rem && l >= 0 && r > 0 ==> eval_value(ctx, seen, e) == Ok::<ComptimeValue, ConstEvalError>(
            ComptimeValue::Int((l % r) as i64),
        ),
{
    if l >= 0 && r > 0 {
        assert(0 <= l / r <= l) by (nonlinear_arith)
            requires
                l >= 0,
                r > 0,
        ;
        assert(0 <= l % r < r) by (nonlinear_arith)
            requires
                l >= 0,
                r > 0,
        ;
        assert(l == 0 ==> l / r == 0 && l % r == 0) by (nonlinear_arith)
            requires
                r > 0,
        ;
    }
}

} // verus!
