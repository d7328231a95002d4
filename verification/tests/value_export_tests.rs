use lib::attrs::Attr;
use lib::checking::{callable_let_finish, CheckState, LetParam};
use lib::const_eval::ComptimeValue;
use lib::facts::{ConstraintFacts, ConstraintKind, DataVariants, DefinitionKey, SemaDataDef};
use lib::surface::SurfaceTyKind;
use lib::surface_lower::SurfaceTyBuilder;
use lib::text_map::TextMap;
use lib::ty::{Symbol, TyKind, TyStore};
use lib::value_export::export_value;

fn attr(path: &[&str]) -> Attr {
    Attr { path: path.iter().map(|p| p.to_string()).collect(), args: vec![] }
}

#[test]
fn an_exported_callable_carries_its_scheme() {
    let mut hir = TyStore::new();
    let type_ = hir.push_kind(TyKind::Type);
    let int = hir.push_kind(TyKind::Int);
    let t = hir.push_kind(TyKind::Named { name: Symbol(0), args: vec![] });
    let arrow = hir.push_kind(TyKind::Arrow { params: vec![t], ret: int, is_effectful: false });
    let names = vec!["T".to_string(), "x".to_string(), "Eq".to_string()];
    let mut st = CheckState::new();
    let params = vec![LetParam { name: Symbol(1), is_comptime: true }];
    let constraints = vec![ConstraintFacts::new(Symbol(0), ConstraintKind::Implements, int)];
    callable_let_finish(&mut st, &mut hir, type_, Some(3), None, vec![Symbol(0)], vec![type_], &params, constraints, arrow)
        .expect("room");
    st.insert_binding_import_target(3, "std/io".to_string());
    let defs: TextMap<SemaDataDef> = TextMap::new();
    let mut builder = SurfaceTyBuilder::new(&hir);
    let v = export_value(
        &mut builder, &hir, &names, &st, &defs, 3, "apply".to_string(), false, None, true,
        vec![attr(&["deprecated"]), attr(&["link"])],
    )
    .expect("exported");
    let table = builder.finish();
    assert_eq!(v.name, "apply");
    assert_eq!(v.type_params, vec!["T".to_string()]);
    assert_eq!(v.param_names, vec!["x".to_string()]);
    assert_eq!(v.comptime_params, vec![true]);
    assert_eq!(v.constraints.len(), 1);
    assert_eq!(v.constraints[0].name, "T");
    assert_eq!(v.import_record_target, Some("std/io".to_string()));
    assert!(v.is_attached_method);
    assert_eq!(v.data_key, None);
    assert_eq!(v.inert_attrs, vec![attr(&["deprecated"])]);
    assert!(v.musi_attrs.is_empty());
    // The scheme's own type is exported, not the type the binding got.
    match &table[v.ty.raw() as usize].kind {
        SurfaceTyKind::Arrow { params, .. } => assert_eq!(params.len(), 1),
        other => panic!("not a callable type: {:?}", other),
    }
    assert_eq!(table[v.type_param_kinds[0].raw() as usize].kind, SurfaceTyKind::Type);
}

#[test]
fn an_exported_value_reads_its_known_value_and_data_key() {
    let mut hir = TyStore::new();
    let int = hir.push_kind(TyKind::Int);
    let mut st = CheckState::new();
    st.binding_tys.insert(5, int);
    st.comptime_values.insert(5, ComptimeValue::Int(42));
    let mut defs: TextMap<SemaDataDef> = TextMap::new();
    let key = DefinitionKey { module: "m".to_string(), name: "answer".to_string() };
    defs.insert("answer".to_string(), SemaDataDef::new(key.clone(), DataVariants::new(), None, None, None, false));
    let mut builder = SurfaceTyBuilder::new(&hir);
    let v = export_value(&mut builder, &hir, &vec![], &st, &defs, 5, "answer".to_string(), true, None, false, vec![])
        .expect("exported");
    assert_eq!(v.const_int, Some(42));
    assert_eq!(v.comptime_value, Some(ComptimeValue::Int(42)));
    assert_eq!(v.data_key, Some(key));
    assert!(v.opaque);
    assert!(v.type_params.is_empty());
    assert_eq!(builder.finish()[v.ty.raw() as usize].kind, SurfaceTyKind::Int);
}

#[test]
fn gated_and_untyped_bindings_are_not_exported() {
    let mut hir = TyStore::new();
    let int = hir.push_kind(TyKind::Int);
    let mut st = CheckState::new();
    st.binding_tys.insert(1, int);
    st.gated.insert(1);
    let defs: TextMap<SemaDataDef> = TextMap::new();
    let mut builder = SurfaceTyBuilder::new(&hir);
    assert!(export_value(&mut builder, &hir, &vec![], &st, &defs, 1, "a".to_string(), false, None, false, vec![]).is_none());
    assert!(export_value(&mut builder, &hir, &vec![], &st, &defs, 2, "b".to_string(), false, None, false, vec![]).is_none());
    assert!(builder.finish().is_empty());
}
