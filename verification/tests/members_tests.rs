use lib::diag::SemaDiagKind;
use lib::facts::{DefinitionKey, ExprMemberKind, ShapeFacts, ShapeMemberFacts};
use lib::members::{invalid_field_diag, shape_member_field};
use lib::ty::{Symbol, TyKind, TyStore};

const T: Symbol = Symbol(0);
const EQ: Symbol = Symbol(1);
const SHOW: Symbol = Symbol(2);
const HASH: Symbol = Symbol(3);

#[test]
fn shape_members_erase_the_shape_parameters() {
    let mut store = TyStore::new();
    let unknown = store.push_kind(TyKind::Unknown);
    let boolean = store.push_kind(TyKind::Bool);
    let int = store.push_kind(TyKind::Int);
    let t = store.push_kind(TyKind::Named { name: T, args: vec![] });
    let key = DefinitionKey { module: "main".to_string(), name: "Eq".to_string() };
    let shape = ShapeFacts::new(
        key,
        EQ,
        vec![
            ShapeMemberFacts::new(EQ, vec![t, t, int], boolean),
            ShapeMemberFacts::new(SHOW, vec![t], t),
        ],
        vec![],
    )
    .with_type_params(vec![T]);
    let (ty, fact) = shape_member_field(&mut store, unknown, &shape, SHOW).expect("a member");
    assert_eq!(store.kind(ty), &TyKind::Arrow { params: vec![unknown], ret: t, is_effectful: false });
    assert_eq!(fact.kind, ExprMemberKind::ShapeMember);
    assert_eq!(fact.index, Some(1));
    assert_eq!(fact.ty, ty);
    let (eq_ty, eq_fact) = shape_member_field(&mut store, unknown, &shape, EQ).expect("a member");
    assert_eq!(
        store.kind(eq_ty),
        &TyKind::Arrow { params: vec![unknown, unknown, int], ret: boolean, is_effectful: false }
    );
    assert_eq!(eq_fact.index, Some(0));
    let before = store.len();
    assert!(shape_member_field(&mut store, unknown, &shape, HASH).is_none());
    assert_eq!(store.len(), before);
}

#[test]
fn missing_fields_of_records_and_other_values() {
    let mut store = TyStore::new();
    let int = store.push_kind(TyKind::Int);
    let record = store.push_kind(TyKind::Record { fields: vec![] });
    let range = store.push_kind(TyKind::Range { bound: int });
    assert_eq!(invalid_field_diag(&store, record), SemaDiagKind::UnknownField);
    assert_eq!(invalid_field_diag(&store, range), SemaDiagKind::UnknownField);
    assert_eq!(invalid_field_diag(&store, int), SemaDiagKind::InvalidFieldTarget);
}
