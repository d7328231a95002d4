use lib::binary_types::{
    binary_rule, expects_left_type, logical_binary_type, logical_operator_name, matching_bits_tys,
    normalize_range_bound_ty, numeric_binary_type, range_item_ty, range_item_type,
    string_concat_type, BinaryRule, Builtins,
};
use lib::expr::{BinaryOp, LitKind};
use lib::facts::{
    ConstraintFacts, ConstraintKind, DataVariants, DefinitionKey, ExprMemberFact, ExprMemberKind,
    SemaDataDef, SemaDataVariantDef,
};
use lib::literals::{
    check_lit_ty, int_lit_ty_for_expected, numeric_literal_suffix_ty, LitReading, LitTy,
    NumericSuffix, NumericSuffixClass,
};
use lib::render::{render_ty, type_mismatch_for, TypeMismatch};
use lib::simple::SimpleTyKind;
use lib::ty::{Dim, Symbol, TyField, TyId, TyKind, TyStore};

fn display() -> Vec<Option<String>> {
    [
        "Error", "Unknown", "Type", "Syntax", "Any", "Empty", "Unit", "Bool", "Nat", "Int", "Int8",
        "Int16", "Int32", "Int64", "Nat8", "Nat16", "Nat32", "Nat64", "Float", "Float32", "Float64",
        "String", "Rune", "CString", "CPtr",
    ]
    .iter()
    .map(|s| Some(s.to_string()))
    .collect()
}

fn names() -> Vec<String> {
    ["List", "x", "n", "Bits", "T"].iter().map(|s| s.to_string()).collect()
}

struct Fixture {
    store: TyStore,
    b: Builtins,
}

fn fixture() -> Fixture {
    let mut store = TyStore::new();
    let unknown = store.push_kind(TyKind::Unknown);
    let bool_ = store.push_kind(TyKind::Bool);
    let int_ = store.push_kind(TyKind::Int);
    let nat = store.push_kind(TyKind::Nat);
    let float_ = store.push_kind(TyKind::Float);
    let string_ = store.push_kind(TyKind::String);
    Fixture { store, b: Builtins { unknown, bool_, int_, nat, float_, string_ } }
}

#[test]
fn types_are_written_for_diagnostics() {
    let Fixture { mut store, b } = fixture();
    let names = names();
    let display = display();
    let list = store.push_kind(TyKind::Named { name: Symbol(0), args: vec![b.int_, b.bool_] });
    let arrow1 = store.push_kind(TyKind::Arrow { params: vec![b.int_], ret: b.bool_, is_effectful: false });
    let arrow2 = store.push_kind(TyKind::Arrow { params: vec![b.int_, list], ret: b.unknown, is_effectful: true });
    let pi = store.push_kind(TyKind::Pi { binder: Symbol(4), binder_ty: b.int_, body: list, is_effectful: false });
    let tuple = store.push_kind(TyKind::Tuple { items: vec![] });
    let seq = store.push_kind(TyKind::Sequence { item: b.string_ });
    let array = store.push_kind(TyKind::Array { dims: vec![Dim::Int(2), Dim::Name(Symbol(2)), Dim::Unknown], item: b.nat });
    let bits = store.push_kind(TyKind::Bits { width: 16 });
    let range = store.push_kind(TyKind::Range { bound: b.int_ });
    let mutable = store.push_kind(TyKind::Mut { inner: b.float_ });
    let any = store.push_kind(TyKind::AnyShape { capability: list });
    let some = store.push_kind(TyKind::SomeShape { capability: b.int_ });
    let record = store.push_kind(TyKind::Record { fields: vec![TyField { name: Symbol(1), ty: b.int_ }, TyField { name: Symbol(2), ty: seq }] });
    let sum = store.push_kind(TyKind::Sum { left: b.int_, right: b.string_ });
    let lit = store.push_kind(TyKind::NatLit(1024));
    assert_eq!(render_ty(&store, &names, &display, b.int_), "Int");
    assert_eq!(render_ty(&store, &names, &display, list), "List[Int, Bool]");
    assert_eq!(render_ty(&store, &names, &display, arrow1), "Int -> Bool");
    assert_eq!(render_ty(&store, &names, &display, arrow2), "(Int, List[Int, Bool]) ~> Unknown");
    assert_eq!(render_ty(&store, &names, &display, pi), "forall (T : Int) -> List[Int, Bool]");
    assert_eq!(render_ty(&store, &names, &display, tuple), "()");
    assert_eq!(render_ty(&store, &names, &display, seq), "[]String");
    assert_eq!(render_ty(&store, &names, &display, array), "[2][n][_]Nat");
    assert_eq!(render_ty(&store, &names, &display, bits), "Bits[16]");
    assert_eq!(render_ty(&store, &names, &display, range), "Range[Int]");
    assert_eq!(render_ty(&store, &names, &display, mutable), "mut Float");
    assert_eq!(render_ty(&store, &names, &display, any), "any List[Int, Bool]");
    assert_eq!(render_ty(&store, &names, &display, some), "some Int");
    assert_eq!(render_ty(&store, &names, &display, record), "{x = Int, n = []String}");
    assert_eq!(render_ty(&store, &names, &display, sum), "Int + String");
    assert_eq!(render_ty(&store, &names, &display, lit), "1024");
    let no_names: Vec<Option<String>> = vec![];
    assert_eq!(render_ty(&store, &names, &no_names, b.int_), "<error>");
}

#[test]
fn type_mismatches_are_reported_with_written_types() {
    let Fixture { store, b } = fixture();
    let names = names();
    let display = display();
    assert_eq!(type_mismatch_for(&store, &names, &display, "value", b.int_, b.int_), None);
    assert_eq!(
        type_mismatch_for(&store, &names, &display, "argument", b.int_, b.string_),
        Some(TypeMismatch { subject: "argument".to_string(), expected: "Int".to_string(), found: "String".to_string() })
    );
}

#[test]
fn arithmetic_operand_types() {
    let Fixture { mut store, b } = fixture();
    let f32_ = store.push_kind(TyKind::Float32);
    assert_eq!(numeric_binary_type(&store, b, b.int_, b.int_), (b.int_, vec![]));
    assert_eq!(numeric_binary_type(&store, b, b.int_, b.nat), (b.int_, vec![(b.int_, b.nat)]));
    assert_eq!(
        numeric_binary_type(&store, b, f32_, b.int_),
        (b.float_, vec![(b.float_, f32_), (b.float_, b.int_)])
    );
    assert_eq!(string_concat_type(&store, b, b.string_, b.int_), (b.string_, vec![(b.string_, b.int_)]));
}

#[test]
fn logical_operand_types() {
    let Fixture { mut store, b } = fixture();
    let bits = Symbol(3);
    let w8 = store.push_kind(TyKind::Bits { width: 8 });
    let w8b = store.push_kind(TyKind::Bits { width: 8 });
    let w16 = store.push_kind(TyKind::Bits { width: 16 });
    let lit = store.push_kind(TyKind::NatLit(4));
    let named = store.push_kind(TyKind::Named { name: bits, args: vec![lit] });
    assert_eq!(logical_binary_type(&store, b, bits, b.bool_, b.bool_), (b.bool_, false));
    assert_eq!(logical_binary_type(&store, b, bits, w8, w8b), (w8, false));
    assert_eq!(logical_binary_type(&store, b, bits, w8, w16), (b.unknown, true));
    assert_eq!(logical_binary_type(&store, b, bits, b.int_, b.bool_), (b.unknown, true));
    assert!(matching_bits_tys(&store, bits, named, named));
    assert!(!matching_bits_tys(&store, bits, named, w8));
    assert_eq!(logical_operator_name(BinaryOp::Xor), "xor");
    assert_eq!(logical_operator_name(BinaryOp::Add), "<operator>");
}

#[test]
fn range_bound_types() {
    let Fixture { mut store, b } = fixture();
    let lit = store.push_kind(TyKind::NatLit(3));
    let range = store.push_kind(TyKind::Range { bound: b.int_ });
    let mut_range = store.push_kind(TyKind::Mut { inner: range });
    assert_eq!(normalize_range_bound_ty(&store, b, lit), b.nat);
    assert_eq!(normalize_range_bound_ty(&store, b, b.int_), b.int_);
    assert_eq!(range_item_ty(&store, b, lit, lit), (b.nat, vec![]));
    assert_eq!(range_item_ty(&store, b, b.int_, lit), (b.int_, vec![(b.int_, b.nat)]));
    assert_eq!(range_item_ty(&store, b, b.string_, b.bool_), (b.int_, vec![(b.int_, b.string_), (b.int_, b.bool_)]));
    assert_eq!(range_item_type(&store, mut_range), Some(b.int_));
    assert_eq!(range_item_type(&store, b.int_), None);
}

#[test]
fn binary_operator_rules() {
    let Fixture { mut store, b } = fixture();
    let ty = store.push_kind(TyKind::Type);
    assert_eq!(binary_rule(&store, BinaryOp::Add, ty, b.int_), BinaryRule::SumType);
    assert_eq!(binary_rule(&store, BinaryOp::Add, b.int_, b.string_), BinaryRule::StringConcat);
    assert_eq!(binary_rule(&store, BinaryOp::Add, b.int_, b.int_), BinaryRule::Numeric);
    assert_eq!(binary_rule(&store, BinaryOp::Rem, b.int_, b.int_), BinaryRule::Numeric);
    assert_eq!(binary_rule(&store, BinaryOp::And, b.bool_, b.bool_), BinaryRule::Logical);
    assert_eq!(binary_rule(&store, BinaryOp::Le, b.int_, b.int_), BinaryRule::Comparison);
    assert_eq!(binary_rule(&store, BinaryOp::Shl, b.int_, b.int_), BinaryRule::NoLowering);
    assert_eq!(binary_rule(&store, BinaryOp::UserOp(Symbol(0)), b.int_, b.int_), BinaryRule::NoLowering);
    assert_eq!(binary_rule(&store, BinaryOp::Assign, b.int_, b.int_), BinaryRule::Assign);
    assert_eq!(binary_rule(&store, BinaryOp::In, b.int_, b.int_), BinaryRule::Membership);
    assert_eq!(
        binary_rule(&store, BinaryOp::Range { include_lower: true, include_upper: false }, b.int_, b.int_),
        BinaryRule::Range
    );
    assert_eq!(binary_rule(&store, BinaryOp::Arrow, ty, ty), BinaryRule::FunctionType { effectful: false });
    assert!(expects_left_type(BinaryOp::Ne));
    assert!(!expects_left_type(BinaryOp::Add));
}

#[test]
fn literal_types() {
    let Fixture { mut store, b } = fixture();
    let i8_ = store.push_kind(TyKind::Int8);
    let n16 = store.push_kind(TyKind::Nat16);
    let f64_ = store.push_kind(TyKind::Float64);
    let cstring = store.push_kind(TyKind::CString);
    let int_lit = |v: i64| LitKind::Int { raw: v.to_string(), parsed: Some(v) };
    let plain = LitReading { suffix: None, unsigned: None };
    let z8 = Some(NumericSuffix { class: NumericSuffixClass::Z, width: Some(8) });
    let n = Some(NumericSuffix { class: NumericSuffixClass::N, width: None });
    let f32s = Some(NumericSuffix { class: NumericSuffixClass::F, width: Some(32) });
    assert_eq!(numeric_literal_suffix_ty(z8), Some(SimpleTyKind::Int8));
    assert_eq!(numeric_literal_suffix_ty(n), Some(SimpleTyKind::Nat));
    assert_eq!(numeric_literal_suffix_ty(f32s), Some(SimpleTyKind::Float32));
    assert_eq!(numeric_literal_suffix_ty(Some(NumericSuffix { class: NumericSuffixClass::F, width: Some(16) })), Some(SimpleTyKind::Float));
    assert_eq!(numeric_literal_suffix_ty(None), None);
    assert_eq!(int_lit_ty_for_expected(&store, i8_, Some(127), Some(127)), Some(i8_));
    assert_eq!(int_lit_ty_for_expected(&store, i8_, Some(128), Some(128)), None);
    assert_eq!(int_lit_ty_for_expected(&store, n16, Some(-1), None), None);
    assert_eq!(int_lit_ty_for_expected(&store, n16, Some(65535), Some(65535)), Some(n16));
    assert_eq!(int_lit_ty_for_expected(&store, b.nat, None, Some(u64::MAX)), Some(b.nat));
    assert_eq!(int_lit_ty_for_expected(&store, b.string_, Some(1), Some(1)), None);
    assert_eq!(check_lit_ty(&store, &int_lit(5), plain, Some(i8_)), LitTy::Expected(i8_));
    assert_eq!(check_lit_ty(&store, &int_lit(500), plain, Some(i8_)), LitTy::Builtin(SimpleTyKind::Int));
    assert_eq!(check_lit_ty(&store, &int_lit(5), LitReading { suffix: z8, unsigned: Some(5) }, Some(n16)), LitTy::Builtin(SimpleTyKind::Int8));
    assert_eq!(check_lit_ty(&store, &int_lit(5), plain, None), LitTy::Builtin(SimpleTyKind::Int));
    let float = LitKind::Float { raw: "1.5".to_string() };
    assert_eq!(check_lit_ty(&store, &float, LitReading { suffix: f32s, unsigned: None }, Some(f64_)), LitTy::Builtin(SimpleTyKind::Float32));
    assert_eq!(check_lit_ty(&store, &float, LitReading { suffix: z8, unsigned: None }, Some(f64_)), LitTy::Expected(f64_));
    assert_eq!(check_lit_ty(&store, &float, plain, Some(b.int_)), LitTy::Builtin(SimpleTyKind::Float));
    let text = LitKind::String { value: "x".to_string() };
    assert_eq!(check_lit_ty(&store, &text, plain, Some(cstring)), LitTy::Expected(cstring));
    assert_eq!(check_lit_ty(&store, &text, plain, Some(b.int_)), LitTy::Builtin(SimpleTyKind::String));
    assert_eq!(check_lit_ty(&store, &LitKind::Rune { value: 65 }, plain, Some(b.int_)), LitTy::Builtin(SimpleTyKind::Rune));
}

#[test]
fn data_definitions_order_variants_by_name() {
    let mut variants = DataVariants::new();
    variants.insert("Warn".to_string(), SemaDataVariantDef::new(30, None, None, vec![], vec![]));
    variants.insert("Debug".to_string(), SemaDataVariantDef::new(10, None, None, vec![], vec![]));
    variants.insert("Info".to_string(), SemaDataVariantDef::new(20, Some(TyId(1)), None, vec![TyId(1)], vec![Some("msg".to_string())]));
    variants.insert("Warn".to_string(), SemaDataVariantDef::new(31, None, None, vec![], vec![]));
    let key = DefinitionKey { module: "main".to_string(), name: "Level".to_string() };
    let def = SemaDataDef::new(key, variants, Some("u8".to_string()), None, None, false);
    assert_eq!(def.variant_count(), 3);
    assert_eq!(def.variant_index("Debug"), Some(0));
    assert_eq!(def.variant_index("Info"), Some(1));
    assert_eq!(def.variant_index("Warn"), Some(2));
    assert_eq!(def.variant_index("Error"), None);
    assert_eq!(def.variant("Warn").map(SemaDataVariantDef::tag), Some(31));
    assert_eq!(def.variant("Info").and_then(SemaDataVariantDef::payload), Some(TyId(1)));
    assert_eq!(def.variant("Info").map(|v| v.field_names().clone()), Some(vec![Some("msg".to_string())]));
    assert!(def.record_shape_variant().is_none());
    let (name, first) = def.variants.at(0);
    assert_eq!(name, "Debug");
    assert_eq!(first.tag(), 10);
}

#[test]
fn record_shaped_data_finds_its_variant() {
    let mut variants = DataVariants::new();
    variants.insert("Point".to_string(), SemaDataVariantDef::new(0, None, None, vec![TyId(0), TyId(0)], vec![]));
    let key = DefinitionKey { module: "main".to_string(), name: "Point".to_string() };
    let def = SemaDataDef::new(key, variants, None, Some(8), Some(1), true).with_record_shape(true);
    assert_eq!(def.record_shape_variant().map(|v| v.field_tys().len()), Some(2));
    assert_eq!(def.layout_align, Some(8));
    assert!(def.frozen);
}

#[test]
fn facts_builders_set_fields() {
    let fact = ExprMemberFact::new(ExprMemberKind::RecordField, Symbol(1), TyId(2))
        .with_binding(7)
        .with_index(3)
        .with_import_record_target("std/io".to_string());
    assert_eq!(fact.kind, ExprMemberKind::RecordField);
    assert_eq!(fact.binding, Some(7));
    assert_eq!(fact.index, Some(3));
    assert_eq!(fact.import_record_target.as_deref(), Some("std/io"));
    let key = DefinitionKey { module: "m".to_string(), name: "Eq".to_string() };
    let c = ConstraintFacts::new(Symbol(0), ConstraintKind::Implements, TyId(4)).with_shape_key(key.clone());
    assert_eq!(c.kind, ConstraintKind::Implements);
    assert_eq!(c.shape_key, Some(key));
}
