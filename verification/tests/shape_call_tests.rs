use lib::expr::{ExprKind, ExprStore};
use lib::facts::{ConstraintKey, ConstraintKind, DefinitionKey, ExprMemberFact, ExprMemberKind, ShapeFacts, ShapeMemberFacts};
use lib::shape_call::{shape_member_for_call, ShapeCallState};
use lib::ty::{Symbol, TyId, TyKind, TyStore};

const EQ: Symbol = Symbol(0);
const T: Symbol = Symbol(1);
const EQUALS: Symbol = Symbol(2);
const OTHER: Symbol = Symbol(3);
const BITS: Symbol = Symbol(4);

fn eq_key() -> DefinitionKey {
    DefinitionKey { module: "std/eq".to_string(), name: "Eq".to_string() }
}

#[test]
fn a_shape_member_callee_names_its_shape_and_member() {
    let mut exprs = ExprStore::new(0);
    let base = exprs.push_expr(ExprKind::Name { name: EQ, binding: None }).expect("room");
    let callee = exprs.push_expr(ExprKind::Field { base, name: EQUALS }).expect("room");
    let other_base = exprs.push_expr(ExprKind::Name { name: OTHER, binding: None }).expect("room");
    let other_callee = exprs.push_expr(ExprKind::Field { base: other_base, name: EQUALS }).expect("room");
    let shapes = vec![
        ShapeFacts::new(eq_key(), OTHER, vec![], vec![]),
        ShapeFacts::new(eq_key(), EQ, vec![ShapeMemberFacts::new(EQUALS, vec![], TyId(0))], vec![]),
        ShapeFacts::new(eq_key(), EQ, vec![], vec![]),
    ];
    let fact = ExprMemberFact::new(ExprMemberKind::ShapeMember, EQUALS, TyId(0)).with_index(0);
    assert_eq!(shape_member_for_call(&exprs, Some(&fact), callee, &shapes), Some((1, 0)));
    // The first shape of the name decides; it has no member 0.
    assert_eq!(shape_member_for_call(&exprs, Some(&fact), other_callee, &shapes), None);
    let far = ExprMemberFact::new(ExprMemberKind::ShapeMember, EQUALS, TyId(0)).with_index(1);
    assert_eq!(shape_member_for_call(&exprs, Some(&far), callee, &shapes), None);
    let field = ExprMemberFact::new(ExprMemberKind::RecordField, EQUALS, TyId(0)).with_index(0);
    assert_eq!(shape_member_for_call(&exprs, Some(&field), callee, &shapes), None);
    let unplaced = ExprMemberFact::new(ExprMemberKind::ShapeMember, EQUALS, TyId(0));
    assert_eq!(shape_member_for_call(&exprs, Some(&unplaced), callee, &shapes), None);
    assert_eq!(shape_member_for_call(&exprs, None, callee, &shapes), None);
    assert_eq!(shape_member_for_call(&exprs, Some(&fact), base, &shapes), None);
}

#[test]
fn arguments_find_the_subject_and_the_call_needs_its_evidence() {
    let mut store = TyStore::new();
    let unknown = store.push_kind(TyKind::Unknown);
    let int = store.push_kind(TyKind::Int);
    let boolean = store.push_kind(TyKind::Bool);
    let t = store.push_kind(TyKind::Named { name: T, args: vec![] });
    let params = vec![T];
    let mut call = ShapeCallState::new();
    assert_eq!(call.arg(&mut store, &params, t, int, BITS), Some(None));
    // `T` is now `Int`, so a `Bool` argument does not fit; the expected type
    // is the parameter under what was found.
    let mismatch = call.arg(&mut store, &params, t, boolean, BITS).expect("room").expect("a mismatch");
    assert_eq!(store.kind(mismatch), &TyKind::Int);
    let len = store.len();
    let end = call.finish(&mut store, &params, EQ, &eq_key(), boolean, unknown, BITS).expect("room");
    let shape_ty = TyId(len as u32);
    assert_eq!(store.kind(shape_ty), &TyKind::Named { name: EQ, args: vec![] });
    assert_eq!(
        end.obligation,
        Some(ConstraintKey { kind: ConstraintKind::Implements, subject: int, value: shape_ty, shape_key: Some(eq_key()) })
    );
    assert_eq!(store.kind(end.result), &TyKind::Bool);
}

#[test]
fn an_unfound_parameter_is_its_own_subject() {
    let mut store = TyStore::new();
    let unknown = store.push_kind(TyKind::Unknown);
    let int = store.push_kind(TyKind::Int);
    let t = store.push_kind(TyKind::Named { name: T, args: vec![] });
    let params = vec![T];
    let call = ShapeCallState::new();
    let len = store.len();
    let end = call.finish(&mut store, &params, EQ, &eq_key(), t, unknown, BITS).expect("room");
    let subject = TyId(len as u32);
    assert_eq!(store.kind(subject), &TyKind::Named { name: T, args: vec![] });
    let Some(obligation) = end.obligation else {
        panic!("an obligation");
    };
    assert_eq!(obligation.subject, subject);
    assert_eq!(store.kind(obligation.value), &TyKind::Named { name: EQ, args: vec![] });
    assert_eq!(store.kind(end.result), &TyKind::Named { name: T, args: vec![] });
    let _ = int;
}

#[test]
fn a_shape_without_parameters_needs_no_evidence() {
    let mut store = TyStore::new();
    let unknown = store.push_kind(TyKind::Unknown);
    let int = store.push_kind(TyKind::Int);
    let call = ShapeCallState::new();
    let end = call.finish(&mut store, &vec![], EQ, &eq_key(), int, unknown, BITS).expect("room");
    assert_eq!(end.obligation, None);
    assert_eq!(store.kind(end.result), &TyKind::Int);
    // A subject found as the unknown type needs none either.
    let t = store.push_kind(TyKind::Named { name: T, args: vec![] });
    let mut call = ShapeCallState::new();
    assert_eq!(call.arg(&mut store, &vec![T], t, unknown, BITS), Some(None));
    let end = call.finish(&mut store, &vec![T], EQ, &eq_key(), t, unknown, BITS).expect("room");
    assert_eq!(end.obligation, None);
    assert_eq!(store.kind(end.result), &TyKind::Unknown);
}
