use lib::facts::{DataVariants, DefinitionKey, SemaDataDef, SemaDataVariantDef};
use lib::records::{
    data_record_fields, expected_record_fields, range_field_tys, record_field_tys, record_like_fields,
    record_update_ty, RecordLitState, RecordLitTy, UpdateTy,
};
use lib::text_map::TextMap;
use lib::ty::{Symbol, TyField, TyId, TyKind, TyStore};

const X: Symbol = Symbol(0);
const Y: Symbol = Symbol(1);
const BOX: Symbol = Symbol(2);
const T: Symbol = Symbol(3);
const BITS: Symbol = Symbol(4);

fn names() -> Vec<String> {
    ["x", "y", "Box", "T", "Bits"].iter().map(|s| s.to_string()).collect()
}

struct Fixture {
    store: TyStore,
    unknown: TyId,
    int: TyId,
    boolean: TyId,
    point: TyId,
    defs: TextMap<SemaDataDef>,
}

fn fixture() -> Fixture {
    let mut store = TyStore::new();
    let unknown = store.push_kind(TyKind::Unknown);
    let int = store.push_kind(TyKind::Int);
    let boolean = store.push_kind(TyKind::Bool);
    let point = store.push_kind(TyKind::Record {
        fields: vec![TyField { name: X, ty: int }, TyField { name: Y, ty: boolean }],
    });
    let t = store.push_kind(TyKind::Named { name: T, args: vec![] });
    let mut variants = DataVariants::new();
    variants.insert(
        "Box".to_string(),
        SemaDataVariantDef::new(0, None, None, vec![t, boolean], vec![Some("value".to_string()), None]),
    );
    let key = DefinitionKey { module: "main".to_string(), name: "Box".to_string() };
    let def = SemaDataDef::new(key, variants, None, None, None, false)
        .with_type_params(vec![T], vec![])
        .with_record_shape(true);
    let mut defs = TextMap::new();
    defs.insert("Box".to_string(), def);
    Fixture { store, unknown, int, boolean, point, defs }
}

#[test]
fn record_and_range_types_offer_their_fields() {
    let f = fixture();
    let fields = record_field_tys(&names(), &vec![TyField { name: X, ty: f.int }, TyField { name: X, ty: f.boolean }]);
    assert_eq!(fields.len(), 1);
    assert_eq!(fields.get("x"), Some(&f.boolean));
    let range = range_field_tys(f.int, f.boolean);
    assert_eq!(range.len(), 4);
    assert_eq!(range.get("lowerBound"), Some(&f.int));
    assert_eq!(range.get("includeUpper"), Some(&f.boolean));
    let (first, _) = range.at(0);
    assert_eq!(first, "includeLower");
}

#[test]
fn record_shaped_data_puts_in_its_arguments() {
    let mut f = fixture();
    let def = f.defs.get("Box").expect("Box");
    let fields = data_record_fields(&mut f.store, def, &vec![f.int], BITS)
        .expect("room in the store")
        .expect("record-shaped");
    assert_eq!(fields.len(), 1);
    let value = *fields.get("value").expect("value field");
    assert_eq!(f.store.kind(value), &TyKind::Int);
}

#[test]
fn other_types_offer_no_fields() {
    let mut f = fixture();
    let boxed = f.store.push_kind(TyKind::Named { name: BOX, args: vec![f.boolean] });
    let other = f.store.push_kind(TyKind::Named { name: X, args: vec![] });
    let names = names();
    let found = record_like_fields(&mut f.store, &names, &f.defs, f.boolean, BITS, boxed).expect("room");
    let value = *found.expect("fields").get("value").expect("value field");
    assert_eq!(f.store.kind(value), &TyKind::Bool);
    assert!(record_like_fields(&mut f.store, &names, &f.defs, f.boolean, BITS, other).expect("room").is_none());
    assert!(record_like_fields(&mut f.store, &names, &f.defs, f.boolean, BITS, f.int).expect("room").is_none());
    let range = f.store.push_kind(TyKind::Range { bound: f.int });
    assert!(record_like_fields(&mut f.store, &names, &f.defs, f.boolean, BITS, range).expect("room").is_some());
    assert!(expected_record_fields(&mut f.store, &names, &f.defs, f.boolean, BITS, range).expect("room").is_none());
}

#[test]
fn a_literal_against_an_expected_record() {
    let mut f = fixture();
    let names = names();
    let expected = expected_record_fields(&mut f.store, &names, &f.defs, f.boolean, BITS, f.point).expect("room");
    let mut state = RecordLitState::new();
    assert_eq!(state.expected_field(&expected, "x", f.unknown), (f.int, false));
    assert!(!state.named_found("x".to_string(), f.int));
    assert_eq!(state.expected_field(&expected, "z", f.unknown), (f.unknown, true));
    assert!(!state.named_found("z".to_string(), f.boolean));
    assert_eq!(state.expected_field(&None, "z", f.unknown), (f.boolean, false));
    assert!(state.named_found("x".to_string(), f.int));
    assert_eq!(state.missing_fields(&expected), vec!["y".to_string()]);
    assert_eq!(state.missing_fields(&None), Vec::<String>::new());
    let ty = state
        .literal_ty(&mut f.store, &names, &f.defs, f.boolean, BITS, Some(f.point), expected.is_some())
        .expect("room");
    assert_eq!(ty, RecordLitTy::Fresh);
}

#[test]
fn a_spread_suggests_the_literal_type() {
    let mut f = fixture();
    let names = names();
    let boxed = f.store.push_kind(TyKind::Named { name: BOX, args: vec![f.int] });
    let mut state = RecordLitState::new();
    assert_eq!(state.spread(&mut f.store, &names, &f.defs, f.boolean, BITS, boxed), Some(true));
    assert_eq!(state.inferred, Some(boxed));
    let ty = state
        .literal_ty(&mut f.store, &names, &f.defs, f.boolean, BITS, None, false)
        .expect("room");
    assert_eq!(ty, RecordLitTy::Inferred(boxed));
    assert!(!state.named_found("extra".to_string(), f.int));
    let ty = state
        .literal_ty(&mut f.store, &names, &f.defs, f.boolean, BITS, None, false)
        .expect("room");
    assert_eq!(ty, RecordLitTy::Fresh);
    assert_eq!(state.spread(&mut f.store, &names, &f.defs, f.boolean, BITS, f.int), Some(false));
    let ty = state
        .literal_ty(&mut f.store, &names, &f.defs, f.boolean, BITS, Some(boxed), true)
        .expect("room");
    assert_eq!(ty, RecordLitTy::Expected(boxed));
}

#[test]
fn record_updates_keep_ranges_and_data_types() {
    let mut f = fixture();
    let names = names();
    let range = f.store.push_kind(TyKind::Range { bound: f.int });
    let base = record_like_fields(&mut f.store, &names, &f.defs, f.boolean, BITS, range)
        .expect("room")
        .expect("a range offers fields");
    let mut state = RecordLitState::from_fields(base);
    assert_eq!(state.expected_field(&None, "upperBound", f.unknown), (f.int, false));
    state.named_found("upperBound".to_string(), f.boolean);
    assert_eq!(
        record_update_ty(&mut f.store, &names, &f.defs, f.boolean, BITS, range, &state.fields),
        Some(UpdateTy::Range { bound: f.int, lower: Some(f.int), upper: Some(f.boolean) })
    );
    let boxed = f.store.push_kind(TyKind::Named { name: BOX, args: vec![f.int] });
    assert_eq!(
        record_update_ty(&mut f.store, &names, &f.defs, f.boolean, BITS, boxed, &state.fields),
        Some(UpdateTy::Base(boxed))
    );
    assert_eq!(
        record_update_ty(&mut f.store, &names, &f.defs, f.boolean, BITS, f.point, &state.fields),
        Some(UpdateTy::Fresh)
    );
}
