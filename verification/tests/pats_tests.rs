use lib::diag::SemaDiagKind;
use lib::expr::ExprId;
use lib::facts::{DataVariants, DefinitionKey, SemaDataDef, SemaDataVariantDef};
use lib::pat_bind::{bind_node, bind_pat};
use lib::pats::{
    binders_in_pat, or_pattern_binders_match, pat_is_irrefutable, PatId, PatKind, PatStep, PatStore, RecordPatField,
    VariantPatArg,
};
use lib::records::FieldTys;
use lib::text_map::TextMap;
use lib::ty::{Symbol, TyField, TyId, TyKind, TyStore};

const X: Symbol = Symbol(0);
const Y: Symbol = Symbol(1);
const LEFT: Symbol = Symbol(2);
const RIGHT: Symbol = Symbol(3);
const OPT: Symbol = Symbol(4);
const SOME: Symbol = Symbol(5);
const VALUE: Symbol = Symbol(6);
const BITS: Symbol = Symbol(7);
const Z: Symbol = Symbol(8);
const PAIR: Symbol = Symbol(9);

fn names() -> Vec<String> {
    ["x", "y", "Left", "Right", "Opt", "Some", "value", "Bits", "z", "Pair"].iter().map(|s| s.to_string()).collect()
}

struct Fixture {
    store: TyStore,
    unknown: TyId,
    int: TyId,
    boolean: TyId,
    point: TyId,
    opt: TyId,
    pair: TyId,
    defs: TextMap<SemaDataDef>,
}

fn fixture() -> Fixture {
    let mut store = TyStore::new();
    let unknown = store.push_kind(TyKind::Unknown);
    let int = store.push_kind(TyKind::Int);
    let boolean = store.push_kind(TyKind::Bool);
    let point = store.push_kind(TyKind::Record {
        fields: vec![TyField { name: X, ty: int }, TyField { name: Y, ty: boolean }],
    });
    let opt = store.push_kind(TyKind::Named { name: OPT, args: vec![] });
    let pair = store.push_kind(TyKind::Named { name: PAIR, args: vec![] });
    let mut opt_variants = DataVariants::new();
    opt_variants.insert(
        "Some".to_string(),
        SemaDataVariantDef::new(0, None, None, vec![int], vec![Some("value".to_string())]),
    );
    let mut pair_variants = DataVariants::new();
    pair_variants.insert("Some".to_string(), SemaDataVariantDef::new(0, None, None, vec![int, boolean], vec![None, None]));
    let opt_def = SemaDataDef::new(
        DefinitionKey { module: "main".to_string(), name: "Opt".to_string() },
        opt_variants,
        None,
        None,
        None,
        false,
    );
    let pair_def = SemaDataDef::new(
        DefinitionKey { module: "main".to_string(), name: "Pair".to_string() },
        pair_variants,
        None,
        None,
        None,
        false,
    );
    let mut defs = TextMap::new();
    defs.insert("Opt".to_string(), opt_def);
    defs.insert("Pair".to_string(), pair_def);
    Fixture { store, unknown, int, boolean, point, opt, pair, defs }
}

fn push(pats: &mut PatStore, kind: PatKind) -> PatId {
    pats.push_pat(kind).expect("sub-patterns are in the store")
}

fn bind(pats: &mut PatStore, name: Symbol, binding: u32) -> PatId {
    push(pats, PatKind::Bind { name, binding: Some(binding) })
}

#[test]
fn push_pat_refuses_a_pattern_whose_parts_are_missing() {
    let mut pats = PatStore::new();
    assert_eq!(pats.push_pat(PatKind::Tuple { items: vec![PatId(0)] }), None);
    assert_eq!(pats.len(), 0);
    assert_eq!(pats.push_pat(PatKind::Wildcard), Some(PatId(0)));
    assert_eq!(pats.push_pat(PatKind::Tuple { items: vec![PatId(0)] }), Some(PatId(1)));
}

#[test]
fn irrefutable_patterns_are_those_without_tests() {
    let mut pats = PatStore::new();
    let wild = push(&mut pats, PatKind::Wildcard);
    let x = bind(&mut pats, X, 1);
    let lit = push(&mut pats, PatKind::Lit { expr: ExprId(0) });
    let tuple = push(&mut pats, PatKind::Tuple { items: vec![wild, x] });
    let with_lit = push(&mut pats, PatKind::Tuple { items: vec![x, lit] });
    let record = push(&mut pats, PatKind::Record {
        fields: vec![RecordPatField { name: X, binding: Some(2), value: None }],
    });
    let record_lit = push(&mut pats, PatKind::Record {
        fields: vec![RecordPatField { name: X, binding: None, value: Some(lit) }],
    });
    let as_pat = push(&mut pats, PatKind::As { pat: tuple, name: Z, binding: Some(3) });
    let or = push(&mut pats, PatKind::Or { left: wild, right: x });
    let variant = push(&mut pats, PatKind::Variant { tag: SOME, args: vec![] });
    let error = push(&mut pats, PatKind::Error);
    assert!(pat_is_irrefutable(&pats, wild));
    assert!(pat_is_irrefutable(&pats, x));
    assert!(pat_is_irrefutable(&pats, tuple));
    assert!(pat_is_irrefutable(&pats, record));
    assert!(pat_is_irrefutable(&pats, as_pat));
    assert!(pat_is_irrefutable(&pats, error));
    assert!(!pat_is_irrefutable(&pats, lit));
    assert!(!pat_is_irrefutable(&pats, with_lit));
    assert!(!pat_is_irrefutable(&pats, record_lit));
    assert!(!pat_is_irrefutable(&pats, or));
    assert!(!pat_is_irrefutable(&pats, variant));
}

#[test]
fn binders_collect_every_declared_binding() {
    let mut pats = PatStore::new();
    let x = bind(&mut pats, X, 1);
    let wild = push(&mut pats, PatKind::Wildcard);
    let record = push(&mut pats, PatKind::Record {
        fields: vec![RecordPatField { name: Y, binding: Some(2), value: None }],
    });
    let as_pat = push(&mut pats, PatKind::As { pat: wild, name: Z, binding: Some(3) });
    let unresolved = push(&mut pats, PatKind::Bind { name: Z, binding: None });
    let tuple = push(&mut pats, PatKind::Tuple { items: vec![x, record, as_pat, unresolved] });
    let mut found = binders_in_pat(&pats, tuple);
    found.sort();
    found.dedup();
    assert_eq!(found, vec![1, 2, 3]);
    assert!(binders_in_pat(&pats, wild).is_empty());
}

#[test]
fn alternatives_must_bind_the_same_names() {
    let mut pats = PatStore::new();
    let x = bind(&mut pats, X, 1);
    let x_again = bind(&mut pats, X, 1);
    let y = bind(&mut pats, Y, 2);
    let tuple = push(&mut pats, PatKind::Tuple { items: vec![x, y] });
    let swapped = push(&mut pats, PatKind::Tuple { items: vec![y, x_again] });
    assert!(or_pattern_binders_match(&pats, x, x_again));
    assert!(or_pattern_binders_match(&pats, tuple, swapped));
    assert!(!or_pattern_binders_match(&pats, x, y));

    let f = fixture();
    let or = push(&mut pats, PatKind::Or { left: x, right: y });
    let steps = bind_node(&pats, &f.store, &names(), &f.defs, f.unknown, &FieldTys::new(), or, f.int);
    assert_eq!(
        steps,
        vec![
            PatStep::Fact { pat: or, ty: f.int },
            PatStep::Diag { kind: SemaDiagKind::OrPatternBindersMismatch },
            PatStep::Visit { pat: x, ty: f.int },
            PatStep::Visit { pat: y, ty: f.int },
        ]
    );
}

#[test]
fn tuple_patterns_take_the_item_types_when_the_arity_matches() {
    let mut f = fixture();
    let mut pats = PatStore::new();
    let x = bind(&mut pats, X, 1);
    let y = bind(&mut pats, Y, 2);
    let tuple = push(&mut pats, PatKind::Tuple { items: vec![x, y] });
    let pair_ty = f.store.push_kind(TyKind::Tuple { items: vec![f.int, f.boolean] });
    let triple_ty = f.store.push_kind(TyKind::Tuple { items: vec![f.int, f.int, f.int] });
    let record = FieldTys::new();
    let steps = bind_node(&pats, &f.store, &names(), &f.defs, f.unknown, &record, tuple, pair_ty);
    assert_eq!(
        steps,
        vec![
            PatStep::Fact { pat: tuple, ty: pair_ty },
            PatStep::Visit { pat: x, ty: f.int },
            PatStep::Visit { pat: y, ty: f.boolean },
        ]
    );
    let steps = bind_node(&pats, &f.store, &names(), &f.defs, f.unknown, &record, tuple, triple_ty);
    assert_eq!(
        steps,
        vec![
            PatStep::Fact { pat: tuple, ty: triple_ty },
            PatStep::Visit { pat: x, ty: f.unknown },
            PatStep::Visit { pat: y, ty: f.unknown },
        ]
    );
}

#[test]
fn array_patterns_take_the_item_type() {
    let mut f = fixture();
    let mut pats = PatStore::new();
    let x = bind(&mut pats, X, 1);
    let wild = push(&mut pats, PatKind::Wildcard);
    let array = push(&mut pats, PatKind::Array { items: vec![x, wild] });
    let array_ty = f.store.push_kind(TyKind::Array { dims: vec![], item: f.boolean });
    let record = FieldTys::new();
    let steps = bind_node(&pats, &f.store, &names(), &f.defs, f.unknown, &record, array, array_ty);
    assert_eq!(
        steps,
        vec![
            PatStep::Fact { pat: array, ty: array_ty },
            PatStep::Visit { pat: x, ty: f.boolean },
            PatStep::Visit { pat: wild, ty: f.boolean },
        ]
    );
    let steps = bind_node(&pats, &f.store, &names(), &f.defs, f.unknown, &record, array, f.int);
    assert_eq!(steps[1], PatStep::Visit { pat: x, ty: f.unknown });
}

#[test]
fn record_patterns_read_the_offered_fields() {
    let f = fixture();
    let mut pats = PatStore::new();
    let lit = push(&mut pats, PatKind::Lit { expr: ExprId(7) });
    let record = push(&mut pats, PatKind::Record {
        fields: vec![
            RecordPatField { name: X, binding: Some(1), value: None },
            RecordPatField { name: Y, binding: None, value: Some(lit) },
            RecordPatField { name: Z, binding: Some(3), value: None },
        ],
    });
    let mut offered = FieldTys::new();
    offered.insert("x".to_string(), f.int);
    offered.insert("y".to_string(), f.boolean);
    let steps = bind_node(&pats, &f.store, &names(), &f.defs, f.unknown, &offered, record, f.point);
    assert_eq!(
        steps,
        vec![
            PatStep::Fact { pat: record, ty: f.point },
            PatStep::BindType { binding: 1, ty: f.int },
            PatStep::Visit { pat: lit, ty: f.boolean },
            PatStep::BindType { binding: 3, ty: f.unknown },
        ]
    );
    let lit_steps = bind_node(&pats, &f.store, &names(), &f.defs, f.unknown, &offered, lit, f.boolean);
    assert_eq!(
        lit_steps,
        vec![PatStep::Fact { pat: lit, ty: f.boolean }, PatStep::CheckLit { expr: ExprId(7), expected: f.boolean }]
    );
}

#[test]
fn sum_variants_take_their_side_and_make_the_sum_exist() {
    let mut f = fixture();
    let mut pats = PatStore::new();
    let x = bind(&mut pats, X, 1);
    let y = bind(&mut pats, Y, 2);
    let left = push(&mut pats, PatKind::Variant { tag: LEFT, args: vec![VariantPatArg { name: None, pat: x }] });
    let right = push(&mut pats, PatKind::Variant {
        tag: RIGHT,
        args: vec![VariantPatArg { name: None, pat: x }, VariantPatArg { name: None, pat: y }],
    });
    let other = push(&mut pats, PatKind::Variant { tag: SOME, args: vec![VariantPatArg { name: None, pat: x }] });
    let tuple_ty = f.store.push_kind(TyKind::Tuple { items: vec![f.int, f.boolean] });
    let sum = f.store.push_kind(TyKind::Sum { left: f.boolean, right: tuple_ty });
    let record = FieldTys::new();
    let steps = bind_node(&pats, &f.store, &names(), &f.defs, f.unknown, &record, left, sum);
    assert_eq!(
        steps,
        vec![
            PatStep::Fact { pat: left, ty: sum },
            PatStep::EnsureSum { left: f.boolean, right: tuple_ty },
            PatStep::Visit { pat: x, ty: f.boolean },
        ]
    );
    let steps = bind_node(&pats, &f.store, &names(), &f.defs, f.unknown, &record, right, sum);
    assert_eq!(
        steps,
        vec![
            PatStep::Fact { pat: right, ty: sum },
            PatStep::EnsureSum { left: f.boolean, right: tuple_ty },
            PatStep::Visit { pat: x, ty: f.int },
            PatStep::Visit { pat: y, ty: f.boolean },
        ]
    );
    let steps = bind_node(&pats, &f.store, &names(), &f.defs, f.unknown, &record, other, sum);
    assert_eq!(
        steps,
        vec![
            PatStep::Fact { pat: other, ty: sum },
            PatStep::Diag { kind: SemaDiagKind::VariantPatternArityMismatch },
            PatStep::Visit { pat: x, ty: f.unknown },
        ]
    );
}

#[test]
fn named_variant_fields_are_matched_by_name() {
    let f = fixture();
    let mut pats = PatStore::new();
    let value = bind(&mut pats, VALUE, 1);
    let wild = push(&mut pats, PatKind::Wildcard);
    let record = FieldTys::new();
    let n = names();

    let by_binder = push(&mut pats, PatKind::Variant { tag: SOME, args: vec![VariantPatArg { name: None, pat: value }] });
    let steps = bind_node(&pats, &f.store, &n, &f.defs, f.unknown, &record, by_binder, f.opt);
    assert_eq!(steps, vec![PatStep::Fact { pat: by_binder, ty: f.opt }, PatStep::Visit { pat: value, ty: f.int }]);

    let unnamed = push(&mut pats, PatKind::Variant { tag: SOME, args: vec![VariantPatArg { name: None, pat: wild }] });
    let steps = bind_node(&pats, &f.store, &n, &f.defs, f.unknown, &record, unnamed, f.opt);
    assert_eq!(
        steps,
        vec![
            PatStep::Fact { pat: unnamed, ty: f.opt },
            PatStep::Diag { kind: SemaDiagKind::VariantNamedFieldsRequired },
            PatStep::Visit { pat: wild, ty: f.unknown },
            PatStep::MissingField { index: 0 },
        ]
    );

    let unknown_field = push(&mut pats, PatKind::Variant { tag: SOME, args: vec![VariantPatArg { name: Some(Y), pat: wild }] });
    let steps = bind_node(&pats, &f.store, &n, &f.defs, f.unknown, &record, unknown_field, f.opt);
    assert_eq!(
        steps,
        vec![
            PatStep::Fact { pat: unknown_field, ty: f.opt },
            PatStep::FieldDiag { kind: SemaDiagKind::UnknownVariantField, name: Y },
            PatStep::Visit { pat: wild, ty: f.unknown },
            PatStep::MissingField { index: 0 },
        ]
    );

    let twice = push(&mut pats, PatKind::Variant {
        tag: SOME,
        args: vec![VariantPatArg { name: Some(VALUE), pat: wild }, VariantPatArg { name: Some(VALUE), pat: wild }],
    });
    let steps = bind_node(&pats, &f.store, &n, &f.defs, f.unknown, &record, twice, f.opt);
    assert_eq!(
        steps,
        vec![
            PatStep::Fact { pat: twice, ty: f.opt },
            PatStep::Visit { pat: wild, ty: f.int },
            PatStep::FieldDiag { kind: SemaDiagKind::DuplicateVariantField, name: VALUE },
            PatStep::Visit { pat: wild, ty: f.int },
        ]
    );
}

#[test]
fn positional_variants_refuse_names_and_check_arity() {
    let f = fixture();
    let mut pats = PatStore::new();
    let wild = push(&mut pats, PatKind::Wildcard);
    let record = FieldTys::new();
    let named = push(&mut pats, PatKind::Variant {
        tag: SOME,
        args: vec![VariantPatArg { name: Some(X), pat: wild }, VariantPatArg { name: None, pat: wild }],
    });
    let steps = bind_node(&pats, &f.store, &names(), &f.defs, f.unknown, &record, named, f.pair);
    assert_eq!(
        steps,
        vec![
            PatStep::Fact { pat: named, ty: f.pair },
            PatStep::Diag { kind: SemaDiagKind::VariantNamedFieldsUnexpected },
            PatStep::Visit { pat: wild, ty: f.int },
            PatStep::Visit { pat: wild, ty: f.boolean },
        ]
    );
    let short = push(&mut pats, PatKind::Variant { tag: SOME, args: vec![VariantPatArg { name: None, pat: wild }] });
    let steps = bind_node(&pats, &f.store, &names(), &f.defs, f.unknown, &record, short, f.pair);
    assert_eq!(
        steps,
        vec![
            PatStep::Fact { pat: short, ty: f.pair },
            PatStep::Diag { kind: SemaDiagKind::VariantPatternArityMismatch },
            PatStep::Visit { pat: wild, ty: f.int },
        ]
    );
}

#[test]
fn binding_a_pattern_types_each_declared_binding() {
    let mut f = fixture();
    let mut pats = PatStore::new();
    let x = bind(&mut pats, X, 1);
    let record = push(&mut pats, PatKind::Record {
        fields: vec![
            RecordPatField { name: X, binding: Some(2), value: None },
            RecordPatField { name: Y, binding: Some(3), value: None },
        ],
    });
    let tuple = push(&mut pats, PatKind::Tuple { items: vec![x, record] });
    let whole = push(&mut pats, PatKind::As { pat: tuple, name: Z, binding: Some(4) });
    let tuple_ty = f.store.push_kind(TyKind::Tuple { items: vec![f.int, f.point] });
    let steps = bind_pat(&pats, &mut f.store, &names(), &f.defs, f.boolean, BITS, f.unknown, whole, tuple_ty)
        .expect("room in the store");
    assert_eq!(
        steps,
        vec![
            PatStep::Fact { pat: whole, ty: tuple_ty },
            PatStep::Fact { pat: tuple, ty: tuple_ty },
            PatStep::Fact { pat: x, ty: f.int },
            PatStep::BindType { binding: 1, ty: f.int },
            PatStep::Fact { pat: record, ty: f.point },
            PatStep::BindType { binding: 2, ty: f.int },
            PatStep::BindType { binding: 3, ty: f.boolean },
            PatStep::BindType { binding: 4, ty: tuple_ty },
        ]
    );
    assert!(!steps.iter().any(|s| matches!(s, PatStep::Visit { .. })));
}
