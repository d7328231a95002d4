use lib::const_eval::{eval_const, try_comptime_value, ComptimeValue, ConstEnv, ConstEvalError};
use lib::data_tags::{data_variant_tag, duplicate_tag_positions, record_data_variant_tag, DiscriminantIssue};
use lib::diag::SemaDiagKind;
use lib::expr::{BinaryOp, ExprForm, ExprId, ExprKind, ExprStore, LetPat, LitKind, PrefixOp};
use lib::ty::Symbol;
use std::collections::HashSet;

fn push(store: &mut ExprStore, kind: ExprKind) -> ExprId {
    store.push_expr(kind).expect("expression fits")
}

fn int_lit(store: &mut ExprStore, value: i64) -> ExprId {
    push(store, ExprKind::Lit { lit: LitKind::Int { raw: value.to_string(), parsed: Some(value) } })
}

fn known(store: &mut ExprStore, expr: ExprId) -> ExprId {
    push(store, ExprKind::Prefix { op: PrefixOp::Known, expr })
}

fn let_bind(store: &mut ExprStore, binding: u32, value: ExprId) -> ExprId {
    push(store, ExprKind::Let { pat: LetPat::Bind { binding: Some(binding) }, value, callable: false })
}

fn name(store: &mut ExprStore, symbol: u32, binding: u32) -> ExprId {
    push(store, ExprKind::Name { name: Symbol(symbol), binding: Some(binding) })
}

fn binary(store: &mut ExprStore, op: BinaryOp, left: ExprId, right: ExprId) -> ExprId {
    push(store, ExprKind::Binary { op, left, right })
}

fn names() -> Vec<String> {
    vec!["base".to_string(), "+".to_string(), "-".to_string(), "%".to_string(), "max".to_string()]
}

/// `let base := known 20; Debug := 10; Warn := base + 10`
#[test]
fn data_variant_discriminants_accept_const_int_expressions() {
    let mut store = ExprStore::new(1);
    let twenty = int_lit(&mut store, 20);
    let known_twenty = known(&mut store, twenty);
    let base_let = let_bind(&mut store, 0, known_twenty);
    let debug = int_lit(&mut store, 10);
    let base = name(&mut store, 0, 0);
    let ten = int_lit(&mut store, 10);
    let warn = binary(&mut store, BinaryOp::Add, base, ten);
    let root = push(&mut store, ExprKind::Sequence { exprs: vec![base_let] });
    let known_values: Vec<Option<ComptimeValue>> = vec![None];
    let names = names();
    let env = ConstEnv { exprs: &store, known: &known_values, names: &names, root };
    assert_eq!(data_variant_tag(&env, Some(debug), 0), (10, None));
    assert_eq!(data_variant_tag(&env, Some(warn), 1), (30, None));
}

/// `let base := 20; Warn := base + 10` (the binding is not `known`).
#[test]
fn data_variant_discriminants_reject_plain_let_values() {
    let mut store = ExprStore::new(1);
    let twenty = int_lit(&mut store, 20);
    let base_let = let_bind(&mut store, 0, twenty);
    let base = name(&mut store, 0, 0);
    let ten = int_lit(&mut store, 10);
    let warn = binary(&mut store, BinaryOp::Add, base, ten);
    let root = push(&mut store, ExprKind::Sequence { exprs: vec![base_let] });
    let known_values: Vec<Option<ComptimeValue>> = vec![None];
    let names = names();
    let env = ConstEnv { exprs: &store, known: &known_values, names: &names, root };
    assert_eq!(eval_const(&env, warn), Err(ConstEvalError::Invalid));
    assert_eq!(
        data_variant_tag(&env, Some(warn), 7),
        (
            7,
            Some(DiscriminantIssue {
                kind: SemaDiagKind::InvalidDataVariantDiscriminant,
                at: warn,
                discriminant: Some("+".to_string()),
            })
        )
    );
}

/// `Debug := 10; Trace := 10`
#[test]
fn data_variant_discriminants_reject_duplicate_values() {
    assert_eq!(duplicate_tag_positions(&vec![10, 10]), vec![1]);
    assert_eq!(duplicate_tag_positions(&vec![0, 1, 2]), Vec::<usize>::new());
    assert_eq!(duplicate_tag_positions(&vec![3, 1, 3, 1, 3]), vec![2, 3, 4]);
    let mut seen = HashSet::new();
    assert!(record_data_variant_tag(&mut seen, 10));
    assert!(!record_data_variant_tag(&mut seen, 10));
    assert!(record_data_variant_tag(&mut seen, -10));
}

/// `Debug := level()` (a call is not a constant expression).
#[test]
fn data_variant_discriminants_reject_runtime_expressions() {
    let mut store = ExprStore::new(1);
    let callee = name(&mut store, 4, 0);
    let call = push(&mut store, ExprKind::Other { form: ExprForm::Call, children: vec![callee] });
    let root = push(&mut store, ExprKind::Sequence { exprs: vec![] });
    let known_values: Vec<Option<ComptimeValue>> = vec![None];
    let names = names();
    let env = ConstEnv { exprs: &store, known: &known_values, names: &names, root };
    assert_eq!(
        data_variant_tag(&env, Some(call), 0),
        (
            0,
            Some(DiscriminantIssue {
                kind: SemaDiagKind::InvalidDataVariantDiscriminant,
                at: call,
                discriminant: Some("call expression".to_string()),
            })
        )
    );
    assert_eq!(data_variant_tag(&env, None, 5), (5, None));
}

/// `known (1 + 2)`
#[test]
fn known_prefix_accepts_const_int_expressions() {
    let mut store = ExprStore::new(0);
    let one = int_lit(&mut store, 1);
    let two = int_lit(&mut store, 2);
    let sum = binary(&mut store, BinaryOp::Add, one, two);
    let group = push(&mut store, ExprKind::Tuple { items: vec![sum] });
    let value = known(&mut store, group);
    let root = push(&mut store, ExprKind::Sequence { exprs: vec![] });
    let known_values: Vec<Option<ComptimeValue>> = vec![];
    let names = names();
    let env = ConstEnv { exprs: &store, known: &known_values, names: &names, root };
    assert_eq!(try_comptime_value(&env, value), Some(ComptimeValue::Int(3)));
}

/// `known "hello"` and `known ()`
#[test]
fn known_prefix_accepts_non_int_literals() {
    let mut store = ExprStore::new(0);
    let hello = push(&mut store, ExprKind::Lit { lit: LitKind::String { value: "hello".to_string() } });
    let text = known(&mut store, hello);
    let empty = push(&mut store, ExprKind::Tuple { items: vec![] });
    let unit = known(&mut store, empty);
    let root = push(&mut store, ExprKind::Sequence { exprs: vec![] });
    let known_values: Vec<Option<ComptimeValue>> = vec![];
    let names = names();
    let env = ConstEnv { exprs: &store, known: &known_values, names: &names, root };
    assert_eq!(eval_const(&env, text), Ok(ComptimeValue::String("hello".to_string())));
    assert_eq!(eval_const(&env, unit), Ok(ComptimeValue::Unit));
}

#[test]
fn mutually_dependent_known_bindings_are_cyclic() {
    // let a := known b; let b := known a;
    let mut store = ExprStore::new(2);
    let use_b = name(&mut store, 0, 1);
    let known_b = known(&mut store, use_b);
    let let_a = let_bind(&mut store, 0, known_b);
    let use_a = name(&mut store, 0, 0);
    let known_a = known(&mut store, use_a);
    let let_b = let_bind(&mut store, 1, known_a);
    let root = push(&mut store, ExprKind::Sequence { exprs: vec![let_a, let_b] });
    let probe = name(&mut store, 0, 0);
    let known_values: Vec<Option<ComptimeValue>> = vec![None, None];
    let names = names();
    let env = ConstEnv { exprs: &store, known: &known_values, names: &names, root };
    assert_eq!(eval_const(&env, probe), Err(ConstEvalError::Cycle));
    assert_eq!(
        data_variant_tag(&env, Some(probe), 4),
        (
            4,
            Some(DiscriminantIssue {
                kind: SemaDiagKind::CyclicDataVariantDiscriminant,
                at: probe,
                discriminant: None,
            })
        )
    );
}

#[test]
fn known_binding_values_are_used_first() {
    let mut store = ExprStore::new(1);
    let use_x = name(&mut store, 0, 0);
    let root = push(&mut store, ExprKind::Sequence { exprs: vec![] });
    let known_values = vec![Some(ComptimeValue::Int(42))];
    let names = names();
    let env = ConstEnv { exprs: &store, known: &known_values, names: &names, root };
    assert_eq!(eval_const(&env, use_x), Ok(ComptimeValue::Int(42)));
}

#[test]
fn integer_arithmetic_is_checked() {
    let mut store = ExprStore::new(0);
    let max = int_lit(&mut store, i64::MAX);
    let min = int_lit(&mut store, i64::MIN);
    let one = int_lit(&mut store, 1);
    let zero = int_lit(&mut store, 0);
    let minus_one = int_lit(&mut store, -1);
    let seven = int_lit(&mut store, -7);
    let three = int_lit(&mut store, 3);
    let overflow = binary(&mut store, BinaryOp::Add, max, one);
    let by_zero = binary(&mut store, BinaryOp::Div, one, zero);
    let rem_zero = binary(&mut store, BinaryOp::Rem, one, zero);
    let min_div = binary(&mut store, BinaryOp::Div, min, minus_one);
    let neg_min = push(&mut store, ExprKind::Prefix { op: PrefixOp::Neg, expr: min });
    let neg_one = push(&mut store, ExprKind::Prefix { op: PrefixOp::Neg, expr: one });
    let rem = binary(&mut store, BinaryOp::Rem, seven, three);
    let div = binary(&mut store, BinaryOp::Div, seven, three);
    let user_minus = binary(&mut store, BinaryOp::UserOp(Symbol(2)), three, seven);
    let user_other = binary(&mut store, BinaryOp::UserOp(Symbol(4)), three, seven);
    let comparison = binary(&mut store, BinaryOp::Lt, three, seven);
    let not = push(&mut store, ExprKind::Prefix { op: PrefixOp::Not, expr: one });
    let root = push(&mut store, ExprKind::Sequence { exprs: vec![] });
    let known_values: Vec<Option<ComptimeValue>> = vec![];
    let names = names();
    let env = ConstEnv { exprs: &store, known: &known_values, names: &names, root };
    assert_eq!(eval_const(&env, overflow), Err(ConstEvalError::Invalid));
    assert_eq!(eval_const(&env, by_zero), Err(ConstEvalError::Invalid));
    assert_eq!(eval_const(&env, rem_zero), Err(ConstEvalError::Invalid));
    assert_eq!(eval_const(&env, min_div), Err(ConstEvalError::Invalid));
    assert_eq!(eval_const(&env, neg_min), Err(ConstEvalError::Invalid));
    assert_eq!(eval_const(&env, neg_one), Ok(ComptimeValue::Int(-1)));
    assert_eq!(eval_const(&env, rem), Ok(ComptimeValue::Int(-1)));
    assert_eq!(eval_const(&env, div), Ok(ComptimeValue::Int(-2)));
    assert_eq!(eval_const(&env, user_minus), Ok(ComptimeValue::Int(10)));
    assert_eq!(eval_const(&env, user_other), Err(ConstEvalError::Invalid));
    assert_eq!(eval_const(&env, comparison), Err(ConstEvalError::Invalid));
    assert_eq!(eval_const(&env, not), Err(ConstEvalError::Invalid));
}

#[test]
fn unparsed_int_literals_and_long_sequences_are_invalid() {
    let mut store = ExprStore::new(0);
    let big = push(
        &mut store,
        ExprKind::Lit { lit: LitKind::Int { raw: "99999999999999999999".to_string(), parsed: None } },
    );
    let one = int_lit(&mut store, 1);
    let pair = push(&mut store, ExprKind::Tuple { items: vec![one, one] });
    let seq = push(&mut store, ExprKind::Sequence { exprs: vec![one, one] });
    let single = push(&mut store, ExprKind::Sequence { exprs: vec![one] });
    let rune = push(&mut store, ExprKind::Lit { lit: LitKind::Rune { value: 0x41 } });
    let float = push(&mut store, ExprKind::Lit { lit: LitKind::Float { raw: "1.5".to_string() } });
    let root = push(&mut store, ExprKind::Sequence { exprs: vec![] });
    let known_values: Vec<Option<ComptimeValue>> = vec![];
    let names = names();
    let env = ConstEnv { exprs: &store, known: &known_values, names: &names, root };
    assert_eq!(eval_const(&env, big), Err(ConstEvalError::Invalid));
    assert_eq!(eval_const(&env, pair), Err(ConstEvalError::Invalid));
    assert_eq!(eval_const(&env, seq), Err(ConstEvalError::Invalid));
    assert_eq!(eval_const(&env, single), Ok(ComptimeValue::Int(1)));
    assert_eq!(eval_const(&env, rune), Ok(ComptimeValue::Rune(0x41)));
    assert_eq!(eval_const(&env, float), Ok(ComptimeValue::Float("1.5".to_string())));
    assert_eq!(try_comptime_value(&env, big), None);
}
