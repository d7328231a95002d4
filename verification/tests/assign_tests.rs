use lib::assign::{
    assignment_field_contract, assignment_index_contract, name_assignment_contract,
    write_issue_diag, WriteIssue,
};
use lib::binary_types::Builtins;
use lib::const_eval::{ComptimeValue, ConstEnv};
use lib::diag::SemaDiagKind;
use lib::expr::{BinaryOp, ExprForm, ExprKind, ExprStore, LitKind, PrefixOp};
use lib::lets::{callable_let_issues, known_let_value, let_route, non_callable_let_issue, tuple_import_pairs, LetPath};
use lib::pats::{PatKind, PatStore};
use lib::ty::{Dim, Symbol, TyField, TyKind, TyStore};

fn builtins(store: &mut TyStore) -> Builtins {
    let unknown = store.push_kind(TyKind::Unknown);
    let bool_ = store.push_kind(TyKind::Bool);
    let int_ = store.push_kind(TyKind::Int);
    let nat = store.push_kind(TyKind::Nat);
    let float_ = store.push_kind(TyKind::Float);
    let string_ = store.push_kind(TyKind::String);
    Builtins { unknown, bool_, int_, nat, float_, string_ }
}

#[test]
fn assignment_requires_mut_location() {
    let mut store = TyStore::new();
    let b = builtins(&mut store);
    let mut_int = store.push_kind(TyKind::Mut { inner: b.int_ });
    assert_eq!(name_assignment_contract(&store, b, mut_int), (b.int_, None));
    assert_eq!(name_assignment_contract(&store, b, b.int_), (b.unknown, Some(WriteIssue::RequiresMut)));
    assert_eq!(write_issue_diag(WriteIssue::RequiresMut), SemaDiagKind::WriteTargetRequiresMut);
}

#[test]
fn indexed_writes_check_the_target() {
    let mut store = TyStore::new();
    let b = builtins(&mut store);
    let array = store.push_kind(TyKind::Array { dims: vec![Dim::Int(2), Dim::Int(3)], item: b.int_ });
    let mut_array = store.push_kind(TyKind::Mut { inner: array });
    let slice = store.push_kind(TyKind::Array { dims: vec![], item: b.bool_ });
    let mut_slice = store.push_kind(TyKind::Mut { inner: slice });
    let seq = store.push_kind(TyKind::Sequence { item: b.string_ });
    let mut_seq = store.push_kind(TyKind::Mut { inner: seq });
    assert_eq!(assignment_index_contract(&store, b, mut_array, 2), (b.int_, vec![]));
    assert_eq!(
        assignment_index_contract(&store, b, mut_array, 1),
        (b.int_, vec![WriteIssue::IndexArgCount { expected: 2, found: 1 }])
    );
    assert_eq!(assignment_index_contract(&store, b, mut_slice, 5), (b.bool_, vec![]));
    assert_eq!(assignment_index_contract(&store, b, array, 2), (b.unknown, vec![WriteIssue::RequiresMut]));
    assert_eq!(assignment_index_contract(&store, b, mut_seq, 1), (b.string_, vec![]));
    assert_eq!(
        assignment_index_contract(&store, b, seq, 2),
        (b.unknown, vec![WriteIssue::IndexArgCount { expected: 1, found: 2 }, WriteIssue::RequiresMut])
    );
    assert_eq!(
        assignment_index_contract(&store, b, b.int_, 1),
        (b.unknown, vec![WriteIssue::InvalidIndexTarget { target: b.int_ }])
    );
}

#[test]
fn field_writes_check_the_target() {
    let mut store = TyStore::new();
    let b = builtins(&mut store);
    let record = store.push_kind(TyKind::Record {
        fields: vec![TyField { name: Symbol(0), ty: b.int_ }, TyField { name: Symbol(0), ty: b.bool_ }],
    });
    let mut_record = store.push_kind(TyKind::Mut { inner: record });
    assert_eq!(assignment_field_contract(&store, b, mut_record, Symbol(0)), (b.int_, None));
    assert_eq!(
        assignment_field_contract(&store, b, mut_record, Symbol(1)),
        (b.unknown, Some(WriteIssue::UnknownField { field: Symbol(1) }))
    );
    assert_eq!(assignment_field_contract(&store, b, record, Symbol(0)), (b.unknown, Some(WriteIssue::RequiresMut)));
    assert_eq!(
        assignment_field_contract(&store, b, b.nat, Symbol(0)),
        (b.unknown, Some(WriteIssue::InvalidFieldTarget { target: b.nat }))
    );
}

#[test]
fn let_routes_and_issues() {
    assert_eq!(let_route(true, false, false, false, true), (LetPath::Gated, false));
    assert_eq!(let_route(true, true, true, false, false), (LetPath::Native, true));
    assert_eq!(let_route(false, true, false, false, true), (LetPath::Callable, false));
    assert_eq!(let_route(true, false, false, true, false), (LetPath::Plain, false));
    assert_eq!(callable_let_issues(true, false, 1, 1), vec![]);
    assert_eq!(
        callable_let_issues(false, true, 1, 2),
        vec![
            SemaDiagKind::CallableLetRequiresSimpleBindingPattern,
            SemaDiagKind::ExportedCallableRequiresConcreteConstraints
        ]
    );
    assert_eq!(callable_let_issues(true, true, 0, 2), vec![]);
    assert_eq!(non_callable_let_issue(1), Some(SemaDiagKind::ConstrainedNonCallableBinding));
    assert_eq!(non_callable_let_issue(0), None);
}

#[test]
fn known_lets_record_their_values() {
    let mut store = ExprStore::new(0);
    let forty = store.push_expr(ExprKind::Lit { lit: LitKind::Int { raw: "40".to_string(), parsed: Some(40) } }).unwrap();
    let two = store.push_expr(ExprKind::Lit { lit: LitKind::Int { raw: "2".to_string(), parsed: Some(2) } }).unwrap();
    let sum = store.push_expr(ExprKind::Binary { op: BinaryOp::Add, left: forty, right: two }).unwrap();
    let known = store.push_expr(ExprKind::Prefix { op: PrefixOp::Known, expr: sum }).unwrap();
    let root = store.push_expr(ExprKind::Sequence { exprs: vec![] }).unwrap();
    let known_values: Vec<Option<ComptimeValue>> = vec![];
    let names: Vec<String> = vec![];
    let env = ConstEnv { exprs: &store, known: &known_values, names: &names, root };
    assert_eq!(known_let_value(&env, known), Some(ComptimeValue::Int(42)));
    assert_eq!(known_let_value(&env, sum), None);
}

#[test]
fn tuple_bindings_pair_with_the_items_an_import_takes() {
    let mut pats = PatStore::new();
    let a = pats.push_pat(PatKind::Bind { name: Symbol(0), binding: Some(3) }).expect("room");
    let wild = pats.push_pat(PatKind::Wildcard).expect("room");
    let c = pats.push_pat(PatKind::Bind { name: Symbol(2), binding: Some(5) }).expect("room");
    let tuple = pats.push_pat(PatKind::Tuple { items: vec![a, wild, c] }).expect("room");
    let pair = pats.push_pat(PatKind::Tuple { items: vec![a, c] }).expect("room");
    let mut exprs = ExprStore::new(0);
    let x = exprs.push_expr(ExprKind::Name { name: Symbol(0), binding: None }).expect("room");
    let y = exprs.push_expr(ExprKind::Name { name: Symbol(1), binding: None }).expect("room");
    let z = exprs.push_expr(ExprKind::Name { name: Symbol(2), binding: None }).expect("room");
    let seq = exprs.push_expr(ExprKind::Sequence { exprs: vec![x, y, z] }).expect("room");
    let import = exprs.push_expr(ExprKind::Other { form: ExprForm::Import, children: vec![seq] }).expect("room");
    let plain = exprs.push_expr(ExprKind::Tuple { items: vec![z, y, x] }).expect("room");
    assert_eq!(tuple_import_pairs(&pats, &exprs, tuple, import), vec![(3, x), (5, z)]);
    assert_eq!(tuple_import_pairs(&pats, &exprs, tuple, plain), vec![(3, z), (5, x)]);
    assert_eq!(tuple_import_pairs(&pats, &exprs, pair, import), vec![]);
    assert_eq!(tuple_import_pairs(&pats, &exprs, a, plain), vec![]);
    assert_eq!(tuple_import_pairs(&pats, &exprs, tuple, x), vec![]);
}
