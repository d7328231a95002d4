use lib::matching::ty_matches;
use lib::simple::{simple_hir_ty_kind, simple_surface_ty_kind, SimpleTyKind};
use lib::subst_map::SubstMap;
use lib::substitute::substitute_ty;
use lib::surface::{range_to_surface_kind, surface_range_form, SurfaceTyId, SurfaceTyKind};
use lib::ty::{Dim, Symbol, TyField, TyId, TyKind, TyStore};
use lib::ty_props::{
    contains_mut_ty, is_bits_ty, is_float_ty, is_integer_ty, is_mut_ty, is_numeric_ty,
    is_pin_ty, is_pinnable_ty, peel_mut_ty,
};
use lib::unify::unify_ty;

const T: Symbol = Symbol(0);
const LIST: Symbol = Symbol(1);
const BITS: Symbol = Symbol(2);
const MAP: Symbol = Symbol(3);
const F: Symbol = Symbol(4);
const A: Symbol = Symbol(5);
const PIN: Symbol = Symbol(6);

fn names() -> Vec<String> {
    ["T", "List", "Bits", "Map", "F", "A", "Pin"].iter().map(|s| s.to_string()).collect()
}

fn named(store: &mut TyStore, name: Symbol, args: Vec<TyId>) -> TyId {
    store.push_kind(TyKind::Named { name, args })
}

#[test]
fn substitution_replaces_parameters() {
    let mut store = TyStore::new();
    let t = named(&mut store, T, vec![]);
    let int = store.push_kind(TyKind::Int);
    let list_t = named(&mut store, LIST, vec![t]);
    let mut subst = SubstMap::new();
    subst.insert(T, int);
    assert_eq!(substitute_ty(&mut store, t, &subst, BITS), Some(int));
    let before = store.len();
    let out = substitute_ty(&mut store, list_t, &subst, BITS).expect("room in the store");
    assert!(store.len() > before);
    assert_eq!(store.kind(out), &TyKind::Named { name: LIST, args: vec![int] });
    assert_eq!(store.kind(list_t), &TyKind::Named { name: LIST, args: vec![t] });
}

#[test]
fn substitution_leaves_childless_types_alone() {
    let mut store = TyStore::new();
    let int = store.push_kind(TyKind::Int);
    let subst = SubstMap::new();
    assert_eq!(substitute_ty(&mut store, int, &subst, BITS), Some(int));
    assert_eq!(store.len(), 1);
}

#[test]
fn substitution_applies_constructor_parameters() {
    // T := Map[Int]; T[Bool] becomes Map[Int, Bool].
    let mut store = TyStore::new();
    let int = store.push_kind(TyKind::Int);
    let boolean = store.push_kind(TyKind::Bool);
    let map_int = named(&mut store, MAP, vec![int]);
    let t_bool = named(&mut store, T, vec![boolean]);
    let mut subst = SubstMap::new();
    subst.insert(T, map_int);
    let out = substitute_ty(&mut store, t_bool, &subst, BITS).expect("room in the store");
    assert_eq!(store.kind(out), &TyKind::Named { name: MAP, args: vec![int, boolean] });
}

#[test]
fn substitution_canonicalizes_bit_widths() {
    let mut store = TyStore::new();
    let w32 = store.push_kind(TyKind::NatLit(32));
    let w0 = store.push_kind(TyKind::NatLit(0));
    let bits32 = named(&mut store, BITS, vec![w32]);
    let bits0 = named(&mut store, BITS, vec![w0]);
    let subst = SubstMap::new();
    let out = substitute_ty(&mut store, bits32, &subst, BITS).expect("room in the store");
    assert_eq!(store.kind(out), &TyKind::Bits { width: 32 });
    let out0 = substitute_ty(&mut store, bits0, &subst, BITS).expect("room in the store");
    assert_eq!(store.kind(out0), &TyKind::Named { name: BITS, args: vec![w0] });
}

#[test]
fn substitution_respects_pi_binders() {
    let mut store = TyStore::new();
    let int = store.push_kind(TyKind::Int);
    let t = named(&mut store, T, vec![]);
    let pi = store.push_kind(TyKind::Pi { binder: T, binder_ty: t, body: t, is_effectful: false });
    let mut subst = SubstMap::new();
    subst.insert(T, int);
    let out = substitute_ty(&mut store, pi, &subst, BITS).expect("room in the store");
    match store.kind(out) {
        TyKind::Pi { binder, binder_ty, body, is_effectful } => {
            assert_eq!(*binder, T);
            assert_eq!(*binder_ty, int);
            assert_eq!(store.kind(*body), &TyKind::Named { name: T, args: vec![] });
            assert!(!*is_effectful);
        }
        other => panic!("expected a Pi type, got {:?}", other),
    }
}

#[test]
fn substitution_rebuilds_records_and_arrays() {
    let mut store = TyStore::new();
    let int = store.push_kind(TyKind::Int);
    let t = named(&mut store, T, vec![]);
    let record = store.push_kind(TyKind::Record { fields: vec![TyField { name: A, ty: t }] });
    let array = store.push_kind(TyKind::Array { dims: vec![Dim::Int(3), Dim::Unknown], item: t });
    let mut subst = SubstMap::new();
    subst.insert(T, int);
    let r = substitute_ty(&mut store, record, &subst, BITS).expect("room in the store");
    assert_eq!(store.kind(r), &TyKind::Record { fields: vec![TyField { name: A, ty: int }] });
    let a = substitute_ty(&mut store, array, &subst, BITS).expect("room in the store");
    assert_eq!(store.kind(a), &TyKind::Array { dims: vec![Dim::Int(3), Dim::Unknown], item: int });
}

#[test]
fn unification_binds_parameters() {
    let mut store = TyStore::new();
    let t = named(&mut store, T, vec![]);
    let int = store.push_kind(TyKind::Int);
    let list_t = named(&mut store, LIST, vec![t]);
    let list_int = named(&mut store, LIST, vec![int]);
    let params = vec![T];
    let mut subst = SubstMap::new();
    assert_eq!(unify_ty(&mut store, &params, list_t, list_int, &mut subst), Some(true));
    assert_eq!(subst.get(T), Some(int));
}

#[test]
fn unification_rejects_conflicting_bindings() {
    let mut store = TyStore::new();
    let t = named(&mut store, T, vec![]);
    let int = store.push_kind(TyKind::Int);
    let boolean = store.push_kind(TyKind::Bool);
    let pattern = store.push_kind(TyKind::Tuple { items: vec![t, t] });
    let actual = store.push_kind(TyKind::Tuple { items: vec![int, boolean] });
    let params = vec![T];
    let mut subst = SubstMap::new();
    assert_eq!(unify_ty(&mut store, &params, pattern, actual, &mut subst), Some(false));
    assert_eq!(subst.get(T), Some(int));
    let other = store.push_kind(TyKind::Tuple { items: vec![int] });
    let mut fresh = SubstMap::new();
    assert_eq!(unify_ty(&mut store, &params, pattern, other, &mut fresh), Some(false));
    assert_eq!(fresh.get(T), None);
}

#[test]
fn unification_splits_type_constructors() {
    // F[A] against Map[Int, Bool] binds F to Map[Int] and A to Bool.
    let mut store = TyStore::new();
    let a = named(&mut store, A, vec![]);
    let f_a = named(&mut store, F, vec![a]);
    let int = store.push_kind(TyKind::Int);
    let boolean = store.push_kind(TyKind::Bool);
    let map = named(&mut store, MAP, vec![int, boolean]);
    let params = vec![F, A];
    let mut subst = SubstMap::new();
    assert_eq!(unify_ty(&mut store, &params, f_a, map, &mut subst), Some(true));
    let ctor = subst.get(F).expect("F is bound");
    assert_eq!(store.kind(ctor), &TyKind::Named { name: MAP, args: vec![int] });
    assert_eq!(subst.get(A), Some(boolean));
}

#[test]
fn unification_falls_back_to_matching() {
    let mut store = TyStore::new();
    let any = store.push_kind(TyKind::Any);
    let int = store.push_kind(TyKind::Int);
    let string = store.push_kind(TyKind::String);
    let params: Vec<Symbol> = vec![];
    let mut subst = SubstMap::new();
    assert_eq!(unify_ty(&mut store, &params, any, int, &mut subst), Some(true));
    assert_eq!(unify_ty(&mut store, &params, string, int, &mut subst), Some(false));
}

#[test]
fn any_expected_matches_concrete_types() {
    let mut store = TyStore::new();
    let any = store.push_kind(TyKind::Any);
    let int = store.push_kind(TyKind::Int);
    let string = store.push_kind(TyKind::String);
    let rune_a = store.push_kind(TyKind::Rune);
    let rune_b = store.push_kind(TyKind::Rune);
    let mut_int = store.push_kind(TyKind::Mut { inner: int });
    let int2 = store.push_kind(TyKind::Int);
    assert!(ty_matches(&store, any, int));
    assert!(!ty_matches(&store, int, any));
    assert!(!ty_matches(&store, int, string));
    assert!(ty_matches(&store, int, int2));
    assert!(ty_matches(&store, rune_a, rune_a));
    assert!(!ty_matches(&store, rune_a, rune_b));
    assert!(ty_matches(&store, int, mut_int));
}

#[test]
fn type_properties() {
    let mut store = TyStore::new();
    let int = store.push_kind(TyKind::Int);
    let float = store.push_kind(TyKind::Float32);
    let lit = store.push_kind(TyKind::NatLit(3));
    let mut_int = store.push_kind(TyKind::Mut { inner: int });
    let mut_mut = store.push_kind(TyKind::Mut { inner: mut_int });
    let tuple = store.push_kind(TyKind::Tuple { items: vec![int, mut_int] });
    let plain = store.push_kind(TyKind::Tuple { items: vec![int, float] });
    let bits = store.push_kind(TyKind::Bits { width: 8 });
    let bits_named = named(&mut store, BITS, vec![lit]);
    let pin = named(&mut store, PIN, vec![int]);
    let names = names();
    assert!(is_integer_ty(&store, int));
    assert!(is_integer_ty(&store, lit));
    assert!(!is_integer_ty(&store, float));
    assert!(is_float_ty(&store, float));
    assert!(is_numeric_ty(&store, float));
    assert!(!is_numeric_ty(&store, tuple));
    assert!(is_mut_ty(&store, mut_int));
    assert!(!is_mut_ty(&store, int));
    assert_eq!(peel_mut_ty(&store, mut_mut), int);
    assert_eq!(peel_mut_ty(&store, int), int);
    assert!(contains_mut_ty(&store, tuple));
    assert!(!contains_mut_ty(&store, plain));
    assert!(is_bits_ty(&store, bits, BITS));
    assert!(is_bits_ty(&store, bits_named, BITS));
    assert!(!is_bits_ty(&store, pin, BITS));
    assert!(is_pinnable_ty(&store, pin));
    assert!(!is_pinnable_ty(&store, int));
    assert!(is_pin_ty(&store, &names, pin));
    assert!(!is_pin_ty(&store, &names, bits_named));
}

#[test]
fn simple_types_convert_both_ways() {
    assert_eq!(SimpleTyKind::from_hir(&TyKind::Int), Some(SimpleTyKind::Int));
    assert_eq!(SimpleTyKind::from_hir(&TyKind::NatLit(7)), Some(SimpleTyKind::NatLit(7)));
    assert_eq!(SimpleTyKind::from_hir(&TyKind::Bits { width: 8 }), None);
    assert_eq!(SimpleTyKind::from_surface(&SurfaceTyKind::CString), Some(SimpleTyKind::CString));
    assert_eq!(SimpleTyKind::Rune.into_surface(), SurfaceTyKind::Rune);
    assert_eq!(SimpleTyKind::Float64.into_hir(), TyKind::Float64);
    assert_eq!(simple_surface_ty_kind(&TyKind::Unit), Some(SurfaceTyKind::Unit));
    assert_eq!(simple_hir_ty_kind(&SurfaceTyKind::NatLit(9)), Some(TyKind::NatLit(9)));
    assert_eq!(simple_hir_ty_kind(&SurfaceTyKind::Mut { inner: SurfaceTyId::new(0) }), None);
    for kind in [TyKind::Error, TyKind::Unknown, TyKind::Any, TyKind::Nat16, TyKind::CPtr] {
        let surface = simple_surface_ty_kind(&kind).expect("simple");
        assert_eq!(simple_hir_ty_kind(&surface), Some(kind));
    }
}

#[test]
fn surface_ranges_round_trip() {
    let id = SurfaceTyId::new(4);
    assert_eq!(id.raw(), 4);
    let range = range_to_surface_kind(id);
    assert_eq!(surface_range_form(&range).map(|form| form.bound), Some(id));
    assert!(surface_range_form(&SurfaceTyKind::Int).is_none());
}
