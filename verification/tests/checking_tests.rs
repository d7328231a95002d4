use lib::binary_types::Builtins;
use lib::checking::{
    bind_let_pattern, instantiate_pi_ty, instantiate_scheme_ty,
    callable_let_begin, callable_let_finish, check_binary_expr, check_dot_callable_field, check_let_begin,
    check_let_end, check_pin_expr, join_effects, non_callable_let_begin, non_callable_let_finish, pin_expr_bind,
    pin_expr_enter, CheckDiag, CheckState, DiagSubject, DotField, LetBegin, LetFinish, LetParam, LetScheme,
};
use lib::const_eval::{ComptimeValue, ConstEnv};
use lib::diag::SemaDiagKind;
use lib::dot_callable::{CallableScheme, DotCandidate};
use lib::expr::{BinaryOp, ExprForm, ExprId, ExprKind, ExprStore, LitKind, PrefixOp};
use lib::facts::{ExprFacts, ExprMemberFact, ExprMemberKind};
use lib::lets::LetPath;
use lib::name_set::NameSet;
use lib::pats::{PatKind, PatStep, PatStore};
use lib::facts::SemaDataDef;
use lib::text_map::TextMap;
use lib::target::TargetInfo;
use lib::ty::{Symbol, TyId, TyKind, TyStore};

const BITS: Symbol = Symbol(9);
const PIN: Symbol = Symbol(0);

struct Fixture {
    store: TyStore,
    b: Builtins,
    unit: TyId,
    type_: TyId,
}

fn fixture() -> Fixture {
    let mut store = TyStore::new();
    let unknown = store.push_kind(TyKind::Unknown);
    let bool_ = store.push_kind(TyKind::Bool);
    let int_ = store.push_kind(TyKind::Int);
    let nat = store.push_kind(TyKind::Nat);
    let float_ = store.push_kind(TyKind::Float);
    let string_ = store.push_kind(TyKind::String);
    let unit = store.push_kind(TyKind::Unit);
    let type_ = store.push_kind(TyKind::Type);
    Fixture { store, b: Builtins { unknown, bool_, int_, nat, float_, string_ }, unit, type_ }
}

fn plain(kind: SemaDiagKind) -> CheckDiag {
    CheckDiag { kind, subject: DiagSubject::Plain }
}

fn names_of(items: &[&str]) -> NameSet {
    let mut s = NameSet::new();
    for i in items {
        s.insert(i.to_string());
    }
    s
}

#[test]
fn a_let_gated_out_by_its_target_is_unit_and_gated() {
    let f = fixture();
    let mut st = CheckState::new();
    let mut pats = PatStore::new();
    let pat = pats.push_pat(PatKind::Bind { name: Symbol(1), binding: Some(7) }).unwrap();
    let r = check_let_begin(&mut st, true, false, false, false, false, vec![(Symbol(2), f.type_)], pat, ExprId(3), Some(7), f.unit, f.b.unknown);
    assert_eq!(
        r,
        LetBegin::Gated {
            facts: ExprFacts { ty: f.unit },
            finish: LetFinish { pat, value: ExprId(3), ty: f.b.unknown, binding: Some(7) },
        }
    );
    assert_eq!(st.gated.len(), 1);
    assert!(st.is_gated_binding(7));
    assert!(st.type_param_scopes.is_empty());
    assert!(st.diags.is_empty());
    let mut store = f.store;
    let finish = match r {
        LetBegin::Gated { finish, .. } => finish,
        _ => unreachable!(),
    };
    let names: Vec<String> = vec![];
    let defs: TextMap<SemaDataDef> = TextMap::new();
    let steps = bind_let_pattern(&mut st, &pats, &mut store, &names, &defs, f.b.bool_, BITS, f.b.unknown, finish).unwrap();
    assert_eq!(steps, vec![PatStep::Fact { pat, ty: f.b.unknown }, PatStep::BindType { binding: 7, ty: f.b.unknown }]);
    assert_eq!(st.binding_type(7), Some(f.b.unknown));
    assert_eq!(st.pat_facts.len(), 1);
    assert_eq!(st.pat_facts.get(&pat.0), Some(&f.b.unknown));
}

#[test]
fn a_checked_let_keeps_its_type_parameters_until_its_end() {
    let f = fixture();
    let mut st = CheckState::new();
    let r = check_let_begin(&mut st, true, true, true, true, false, vec![(Symbol(2), f.type_)], lib::pats::PatId(0), ExprId(1), None, f.unit, f.b.unknown);
    assert_eq!(r, LetBegin::Check { path: LetPath::Native });
    assert_eq!(st.diags, vec![plain(SemaDiagKind::PartialForeignConflict)]);
    assert_eq!(st.type_param_scopes, vec![vec![(Symbol(2), f.type_)]]);
    let (facts, finish) = check_let_end(&mut st, lib::pats::PatId(0), ExprId(1), None, f.b.int_, f.unit);
    assert_eq!(facts.ty, f.unit);
    assert_eq!(finish.ty, f.b.int_);
    assert!(st.type_param_scopes.is_empty());
    assert!(st.gated.is_empty());
}

#[test]
fn a_callable_let_records_its_scheme_in_parameter_order() {
    let mut f = fixture();
    let mut st = CheckState::new();
    let mut pats = PatStore::new();
    let a = pats.push_pat(PatKind::Wildcard).unwrap();
    let tuple = pats.push_pat(PatKind::Tuple { items: vec![a] }).unwrap();
    callable_let_begin(&mut st, &pats, tuple, true, 1, 1);
    assert_eq!(
        st.diags,
        vec![
            plain(SemaDiagKind::CallableLetRequiresSimpleBindingPattern),
            plain(SemaDiagKind::ExportedCallableRequiresConcreteConstraints),
        ]
    );
    let arrow = f.store.push_kind(TyKind::Arrow { params: vec![f.b.int_], ret: f.b.int_, is_effectful: false });
    let before = f.store.len();
    let params = vec![LetParam { name: Symbol(5), is_comptime: true }, LetParam { name: Symbol(6), is_comptime: false }];
    let t = callable_let_finish(&mut st, &mut f.store, f.type_, Some(4), Some(Symbol(8)), vec![Symbol(2)], vec![], &params, vec![], arrow)
        .expect("room");
    assert_eq!(t.0 as usize, before);
    assert_eq!(
        f.store.kind(t),
        &TyKind::Pi { binder: Symbol(2), binder_ty: f.type_, body: arrow, is_effectful: false }
    );
    assert_eq!(st.binding_type(4), Some(t));
    assert_eq!(st.schemes.len(), 1);
    let s: &LetScheme = st.schemes.get(&4).expect("scheme");
    assert_eq!(s.param_names, vec![Symbol(5), Symbol(6)]);
    assert_eq!(s.comptime_params, vec![true, false]);
    assert_eq!(s.ty, arrow);
    assert_eq!(st.attached_methods.get(&8), Some(&vec![4]));
}

#[test]
fn a_callable_let_without_binding_has_its_checked_type() {
    let mut f = fixture();
    let mut st = CheckState::new();
    let t = callable_let_finish(&mut st, &mut f.store, f.type_, None, None, vec![], vec![], &vec![], vec![], f.b.int_);
    assert_eq!(t, Some(f.b.int_));
    assert!(st.binding_tys.is_empty());
}

#[test]
fn a_plain_let_reports_refutable_patterns_and_records_known_values() {
    let mut f = fixture();
    let mut st = CheckState::new();
    non_callable_let_begin(&mut st, 2, true, Some(3), None, f.b.unknown);
    assert_eq!(st.diags, vec![plain(SemaDiagKind::ConstrainedNonCallableBinding)]);
    assert_eq!(st.binding_type(3), Some(f.b.unknown));

    let mut exprs = ExprStore::new(0);
    let forty = exprs.push_expr(ExprKind::Lit { lit: LitKind::Int { raw: "40".to_string(), parsed: Some(40) } }).unwrap();
    let two = exprs.push_expr(ExprKind::Lit { lit: LitKind::Int { raw: "2".to_string(), parsed: Some(2) } }).unwrap();
    let sum = exprs.push_expr(ExprKind::Binary { op: BinaryOp::Add, left: forty, right: two }).unwrap();
    let known = exprs.push_expr(ExprKind::Prefix { op: PrefixOp::Known, expr: sum }).unwrap();
    let root = exprs.push_expr(ExprKind::Sequence { exprs: vec![] }).unwrap();
    let known_values: Vec<Option<ComptimeValue>> = vec![];
    let names: Vec<String> = vec![];
    let env = ConstEnv { exprs: &exprs, known: &known_values, names: &names, root };
    let mut pats = PatStore::new();
    let lit = pats.push_pat(PatKind::Lit { expr: forty }).unwrap();
    let t = non_callable_let_finish(
        &mut st, &mut f.store, &pats, &env, f.type_, lit, known, false, Some(f.b.string_), f.b.int_, Some(3),
        vec![], vec![], &vec![], vec![],
    );
    assert_eq!(t, Some(f.b.string_));
    assert_eq!(
        st.diags,
        vec![
            plain(SemaDiagKind::ConstrainedNonCallableBinding),
            plain(SemaDiagKind::PlainLetRequiresIrrefutablePattern),
            CheckDiag { kind: SemaDiagKind::TypeMismatch, subject: DiagSubject::Mismatch { expected: f.b.string_, found: f.b.int_ } },
        ]
    );
    assert_eq!(st.binding_type(3), Some(f.b.string_));
    assert_eq!(st.comptime_values.get(&3), Some(&ComptimeValue::Int(42)));
    assert_eq!(st.const_ints.get(&3), Some(&42));
}

#[test]
fn a_plain_let_with_a_fallback_and_a_plain_value_records_no_value() {
    let mut f = fixture();
    let mut st = CheckState::new();
    let mut exprs = ExprStore::new(0);
    let one = exprs.push_expr(ExprKind::Lit { lit: LitKind::Int { raw: "1".to_string(), parsed: Some(1) } }).unwrap();
    let known_values: Vec<Option<ComptimeValue>> = vec![];
    let names: Vec<String> = vec![];
    let env = ConstEnv { exprs: &exprs, known: &known_values, names: &names, root: one };
    let mut pats = PatStore::new();
    let lit = pats.push_pat(PatKind::Lit { expr: one }).unwrap();
    let t = non_callable_let_finish(
        &mut st, &mut f.store, &pats, &env, f.type_, lit, one, true, None, f.b.int_, Some(1),
        vec![], vec![], &vec![], vec![],
    );
    assert_eq!(t, Some(f.b.int_));
    assert!(st.diags.is_empty());
    assert!(st.comptime_values.is_empty());
}

#[test]
fn binary_operators_get_their_types() {
    let mut f = fixture();
    let mut st = CheckState::new();
    let left = names_of(&["IO"]);
    let right = names_of(&["State", "IO"]);
    let r = check_binary_expr(&mut st, &mut f.store, f.b, f.unit, BITS, BinaryOp::Lt, f.b.int_, f.b.string_, &left, &right, None).unwrap();
    assert_eq!(r.facts.ty, f.b.bool_);
    assert_eq!(r.effects.len(), 2);
    assert!(r.effects.contains("State"));

    let r = check_binary_expr(&mut st, &mut f.store, f.b, f.unit, BITS, BinaryOp::Shl, f.b.int_, f.b.int_, &left, &left, None).unwrap();
    assert_eq!(r.facts.ty, f.b.unknown);
    assert_eq!(st.diags, vec![plain(SemaDiagKind::BinaryOperatorHasNoExecutableLowering)]);

    let n = f.store.len();
    let r = check_binary_expr(&mut st, &mut f.store, f.b, f.unit, BITS, BinaryOp::Range { include_lower: true, include_upper: false }, f.b.int_, f.b.int_, &left, &left, None).unwrap();
    assert_eq!(r.facts.ty.0 as usize, n);
    assert_eq!(f.store.kind(r.facts.ty), &TyKind::Range { bound: f.b.int_ });

    let n = f.store.len();
    let r = check_binary_expr(&mut st, &mut f.store, f.b, f.unit, BITS, BinaryOp::In, f.b.int_, f.b.string_, &left, &left, None).unwrap();
    assert_eq!(r.facts.ty, f.b.bool_);
    assert_eq!(f.store.kind(TyId(n as u32)), &TyKind::Range { bound: f.b.int_ });
    assert_eq!(
        st.diags[1],
        CheckDiag { kind: SemaDiagKind::TypeMismatch, subject: DiagSubject::Mismatch { expected: TyId(n as u32), found: f.b.string_ } }
    );

    let n = f.store.len();
    let r = check_binary_expr(&mut st, &mut f.store, f.b, f.unit, BITS, BinaryOp::Arrow, f.type_, f.type_, &left, &left, Some((f.b.int_, f.b.bool_))).unwrap();
    assert_eq!(r.facts.ty.0 as usize, n);
    assert_eq!(f.store.kind(r.facts.ty), &TyKind::Arrow { params: vec![f.b.int_], ret: f.b.bool_, is_effectful: false });

    let r = check_binary_expr(&mut st, &mut f.store, f.b, f.unit, BITS, BinaryOp::Add, f.type_, f.b.int_, &left, &left, Some((f.b.int_, f.b.bool_))).unwrap();
    assert_eq!(f.store.kind(r.facts.ty), &TyKind::Sum { left: f.b.int_, right: f.b.bool_ });

    let r = check_binary_expr(&mut st, &mut f.store, f.b, f.unit, BITS, BinaryOp::Assign, f.b.int_, f.b.int_, &left, &left, None).unwrap();
    assert_eq!(r.facts.ty, f.unit);

    let count = st.diags.len();
    let r = check_binary_expr(&mut st, &mut f.store, f.b, f.unit, BITS, BinaryOp::And, f.b.int_, f.b.bool_, &left, &left, None).unwrap();
    assert_eq!(r.facts.ty, f.b.unknown);
    assert_eq!(
        st.diags[count],
        CheckDiag {
            kind: SemaDiagKind::LogicalOperatorDomainMismatch,
            subject: DiagSubject::Operands { op: BinaryOp::And, left: f.b.int_, right: f.b.bool_ },
        }
    );
}

#[test]
fn effects_of_both_operands_are_joined() {
    let joined = join_effects(&names_of(&["A", "B"]), &names_of(&["B", "C"]));
    assert_eq!(joined.len(), 3);
    assert!(joined.contains("A") && joined.contains("B") && joined.contains("C"));
}

fn dot_setup(f: &mut Fixture, st: &mut CheckState) -> (TyId, DotCandidate, DotCandidate) {
    let method = f.store.push_kind(TyKind::Arrow { params: vec![f.b.int_, f.b.bool_], ret: f.b.int_, is_effectful: false });
    for b in [1u32, 2u32] {
        st.schemes.insert(b, LetScheme {
            type_params: vec![],
            type_param_kinds: vec![],
            param_names: vec![],
            comptime_params: vec![],
            constraints: vec![],
            ty: method,
        });
    }
    let scheme = CallableScheme { type_params: vec![], ty: method };
    (
        method,
        DotCandidate { binding: 1, scheme: Some(scheme.clone()) },
        DotCandidate { binding: 2, scheme: Some(scheme) },
    )
}

#[test]
fn a_chosen_dot_call_records_its_binding_and_strips_the_receiver() {
    let mut f = fixture();
    let mut st = CheckState::new();
    let (_, one, _) = dot_setup(&mut f, &mut st);
    st.insert_binding_import_target(1, "std/io".to_string());
    let n = f.store.len();
    let r = check_dot_callable_field(&mut st, &mut f.store, ExprId(5), f.b.unknown, f.b.int_, false, Symbol(3), &vec![one], &vec![]);
    assert_eq!(r, Some(DotField::Ty(TyId(n as u32))));
    assert_eq!(f.store.kind(TyId(n as u32)), &TyKind::Arrow { params: vec![f.b.bool_], ret: f.b.int_, is_effectful: false });
    assert_eq!(st.dot_bindings.get(&5), Some(&1));
    assert_eq!(st.expr_import_targets.get(&5), Some(&"std/io".to_string()));
    assert_eq!(st.member_facts.len(), 1);
    assert_eq!(
        st.member_facts.get(&5),
        Some(&ExprMemberFact {
                kind: ExprMemberKind::AttachedMethod,
                name: Symbol(3),
                ty: TyId(n as u32),
                binding: Some(1),
                import_record_target: Some("std/io".to_string()),
                index: None,
            })
    );
}

#[test]
fn an_ambiguous_dot_call_is_reported_and_unknown() {
    let mut f = fixture();
    let mut st = CheckState::new();
    let (_, one, two) = dot_setup(&mut f, &mut st);
    let r = check_dot_callable_field(&mut st, &mut f.store, ExprId(5), f.b.unknown, f.b.int_, false, Symbol(3), &vec![], &vec![one, two]);
    assert_eq!(r, Some(DotField::Ty(f.b.unknown)));
    assert_eq!(st.diags, vec![plain(SemaDiagKind::AmbiguousDotCallable)]);
    assert!(st.member_facts.is_empty());
    let r = check_dot_callable_field(&mut st, &mut f.store, ExprId(6), f.b.unknown, f.b.unknown, false, Symbol(3), &vec![], &vec![]);
    assert_eq!(r, Some(DotField::NotDotCallable));
    let r = check_dot_callable_field(&mut st, &mut f.store, ExprId(6), f.b.unknown, f.b.string_, false, Symbol(3), &vec![], &vec![]);
    assert_eq!(r, Some(DotField::Imported));
}

#[test]
fn a_pinned_name_gets_a_pin_type_and_the_pin_its_body_type() {
    let mut f = fixture();
    let mut st = CheckState::new();
    pin_expr_enter(&mut st, false);
    assert_eq!(st.diags, vec![plain(SemaDiagKind::PinRequiresUnsafeBlock)]);
    let n = f.store.len();
    let pin_ty = pin_expr_bind(&mut st, &mut f.store, PIN, f.b.int_, Some(4)).unwrap();
    assert_eq!(pin_ty.0 as usize, n);
    assert_eq!(f.store.kind(pin_ty), &TyKind::Named { name: PIN, args: vec![f.b.int_] });
    assert_eq!(st.binding_type(4), Some(pin_ty));
    assert_eq!(st.pin_depth, 1);
    assert_eq!(st.diags[1], CheckDiag { kind: SemaDiagKind::UnsupportedPinTarget, subject: DiagSubject::Ty(f.b.int_) });

    let mut exprs = ExprStore::new(5);
    let use_pin = exprs.push_expr(ExprKind::Name { name: Symbol(1), binding: Some(4) }).unwrap();
    let lambda = exprs.push_expr(ExprKind::Other { form: ExprForm::Lambda, children: vec![use_pin] }).unwrap();
    let names = vec!["Pin".to_string()];
    let facts = check_pin_expr(&mut st, &f.store, &exprs, &names, Symbol(1), Some(4), lambda, pin_ty);
    assert_eq!(facts.ty, pin_ty);
    assert_eq!(st.pin_depth, 0);
    assert_eq!(
        &st.diags[2..],
        &[
            CheckDiag { kind: SemaDiagKind::PinnedValueCapturedByClosure, subject: DiagSubject::Name(Symbol(1)) },
            CheckDiag { kind: SemaDiagKind::PinnedValueEscapes, subject: DiagSubject::Name(Symbol(1)) },
        ]
    );
}

#[test]
fn a_pin_in_an_unsafe_block_of_a_string_reports_nothing() {
    let mut f = fixture();
    let mut st = CheckState::new();
    pin_expr_enter(&mut st, true);
    let _ = pin_expr_bind(&mut st, &mut f.store, PIN, f.b.string_, None).unwrap();
    let exprs = {
        let mut e = ExprStore::new(0);
        e.push_expr(ExprKind::Sequence { exprs: vec![] }).unwrap();
        e
    };
    let names = vec!["Pin".to_string()];
    let facts = check_pin_expr(&mut st, &f.store, &exprs, &names, Symbol(1), None, ExprId(0), f.b.int_);
    assert_eq!(facts.ty, f.b.int_);
    assert!(st.diags.is_empty());
    assert!(st.binding_tys.is_empty());
}

#[test]
fn a_default_target_is_a_new_one() {
    let d = TargetInfo::default();
    assert_eq!(d, TargetInfo::new());
    assert_eq!(d.clone(), d);
}

#[test]
fn instantiating_with_the_wrong_number_of_arguments_is_reported() {
    let mut f = fixture();
    let mut st = CheckState::new();
    let r = instantiate_scheme_ty(&mut st, &mut f.store, &vec![Symbol(1), Symbol(2)], &vec![f.b.int_], f.b.int_, BITS);
    assert_eq!(r, Some(None));
    assert_eq!(st.diags, vec![plain(SemaDiagKind::TypeApplicationArityMismatch)]);
}

#[test]
fn a_pi_type_is_instantiated_by_putting_arguments_for_binders() {
    let mut f = fixture();
    let mut st = CheckState::new();
    let t = f.store.push_kind(TyKind::Named { name: Symbol(1), args: vec![] });
    let arrow = f.store.push_kind(TyKind::Arrow { params: vec![t], ret: t, is_effectful: false });
    let pi = f.store.push_kind(TyKind::Pi { binder: Symbol(1), binder_ty: f.type_, body: arrow, is_effectful: false });
    let r = instantiate_pi_ty(&mut st, &mut f.store, &vec![f.b.int_], pi, BITS).unwrap().unwrap();
    match f.store.kind(r) {
        TyKind::Arrow { params, ret, is_effectful } => {
            assert_eq!(params, &vec![f.b.int_]);
            assert_eq!(*ret, f.b.int_);
            assert!(!*is_effectful);
        },
        other => panic!("not a callable type: {:?}", other),
    }
    assert!(st.diags.is_empty());
    assert_eq!(instantiate_pi_ty(&mut st, &mut f.store, &vec![], arrow, BITS), Some(None));
}
