use lib::expr::{ExprForm, ExprId, ExprKind, ExprStore, LetPat};
use lib::facts::{DataVariants, DefinitionKey, SemaDataDef, SemaEffectDef, ShapeFacts};
use lib::import_records::{expr_structural_target, import_record_ty, runtime_import_result_ty, StructuralTarget};
use lib::surface::{SurfaceTy, SurfaceTyField, SurfaceTyId, SurfaceTyKind};
use lib::text_map::TextMap;
use lib::ty::{Symbol, TyId, TyKind, TyStore};

fn key(name: &str) -> DefinitionKey {
    DefinitionKey { module: "main".to_string(), name: name.to_string() }
}

#[test]
fn a_module_record_has_a_field_for_each_export() {
    let table = vec![SurfaceTy::new(SurfaceTyKind::Int), SurfaceTy::new(SurfaceTyKind::Bool)];
    let exports = vec![SurfaceTyField::new("count", SurfaceTyId::new(0)), SurfaceTyField::new("ready", SurfaceTyId::new(1))];
    let mut store = TyStore::new();
    let mut names: Vec<String> = vec!["ready".to_string()];
    let record = import_record_ty(&mut store, &mut names, &table, &exports).expect("room");
    assert_eq!(record, TyId(store.len() as u32 - 1));
    let TyKind::Record { fields } = store.kind(record).clone() else {
        panic!("a record type");
    };
    assert_eq!(fields.len(), 2);
    assert_eq!(names[fields[0].name.0 as usize], "count");
    assert_eq!(fields[1].name, Symbol(0));
    assert_eq!(store.kind(fields[0].ty), &TyKind::Int);
    assert_eq!(store.kind(fields[1].ty), &TyKind::Bool);
    assert_eq!(names, vec!["ready", "count"]);
}

#[test]
fn a_runtime_import_gives_a_result_of_any_or_import_error() {
    let mut store = TyStore::new();
    let any = store.push_kind(TyKind::Any);
    let mut names: Vec<String> = vec!["ImportError".to_string()];
    let r = runtime_import_result_ty(&mut store, &mut names, any).expect("room");
    assert_eq!(r, TyId(2));
    assert_eq!(store.kind(TyId(1)), &TyKind::Named { name: Symbol(0), args: vec![] });
    assert_eq!(store.kind(r), &TyKind::Named { name: Symbol(1), args: vec![any, TyId(1)] });
    assert_eq!(names, vec!["ImportError", "Result"]);
}

#[test]
fn declarations_and_their_names_are_structural_targets() {
    let names: Vec<String> = vec!["Point".to_string(), "Io".to_string(), "Eq".to_string(), "x".to_string(), "field".to_string()];
    let mut exprs = ExprStore::new(1);
    let data = exprs.push_expr(ExprKind::Other { form: ExprForm::Data, children: vec![] }).expect("room");
    let effect = exprs.push_expr(ExprKind::Other { form: ExprForm::Effect, children: vec![] }).expect("room");
    let call = exprs.push_expr(ExprKind::Other { form: ExprForm::Call, children: vec![] }).expect("room");
    let bound = exprs.push_expr(ExprKind::Let { pat: LetPat::Bind { binding: Some(0) }, value: data, callable: false }).expect("room");
    let point = exprs.push_expr(ExprKind::Name { name: Symbol(0), binding: None }).expect("room");
    let io = exprs.push_expr(ExprKind::Name { name: Symbol(1), binding: None }).expect("room");
    let eq = exprs.push_expr(ExprKind::Name { name: Symbol(2), binding: None }).expect("room");
    let x = exprs.push_expr(ExprKind::Name { name: Symbol(3), binding: None }).expect("room");
    let field = exprs.push_expr(ExprKind::Field { base: x, name: Symbol(4) }).expect("room");
    let mut data_defs: TextMap<SemaDataDef> = TextMap::new();
    data_defs.insert("Point".to_string(), SemaDataDef::new(key("Point"), DataVariants::new(), None, None, None, false));
    let mut effect_defs: TextMap<SemaEffectDef> = TextMap::new();
    effect_defs.insert("Io".to_string(), SemaEffectDef { key: key("Io"), ops: TextMap::new(), laws: vec![] });
    let shapes = vec![ShapeFacts::new(key("Eq"), Symbol(2), vec![], vec![])];
    let target = |e: ExprId| expr_structural_target(&exprs, &names, &data_defs, &effect_defs, &shapes, e);
    assert_eq!(target(data), StructuralTarget::Yes);
    assert_eq!(target(effect), StructuralTarget::Yes);
    assert_eq!(target(call), StructuralTarget::No);
    assert_eq!(target(bound), StructuralTarget::Yes);
    assert_eq!(target(point), StructuralTarget::Yes);
    assert_eq!(target(io), StructuralTarget::Yes);
    assert_eq!(target(eq), StructuralTarget::Yes);
    assert_eq!(target(x), StructuralTarget::No);
    assert_eq!(target(field), StructuralTarget::Export { base: x, name: Symbol(4) });
    assert_eq!(target(ExprId(99)), StructuralTarget::No);
}
