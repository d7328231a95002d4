use lib::attrs::Attr;
use lib::facts::{ConstraintFacts, ConstraintKind, DefinitionKey, LawFacts, LawParamFacts, ShapeFacts, ShapeMemberFacts};
use lib::shape_export::export_shape_surface;
use lib::shape_surface::{
    import_shape_alias_as, ConstraintSurface, LawParamSurface, LawSurface, ShapeMemberSurface, ShapeSurface,
};
use lib::surface::{SurfaceTy, SurfaceTyId, SurfaceTyKind};
use lib::surface_lower::SurfaceTyBuilder;
use lib::ty::{Symbol, TyKind, TyStore};

fn sid(raw: u32) -> SurfaceTyId {
    SurfaceTyId::new(raw)
}

fn eq_key() -> DefinitionKey {
    DefinitionKey { module: "std/eq".to_string(), name: "Eq".to_string() }
}

fn text(names: &[String], s: Symbol) -> &str {
    names[s.0 as usize].as_str()
}

#[test]
fn an_exported_shape_is_read_with_its_names_interned() {
    let table = vec![
        SurfaceTy::new(SurfaceTyKind::Type),
        SurfaceTy::new(SurfaceTyKind::Named { name: "T".to_string(), args: vec![] }),
        SurfaceTy::new(SurfaceTyKind::Bool),
    ];
    let surface = ShapeSurface {
        key: eq_key(),
        type_params: vec!["T".to_string()],
        type_param_kinds: vec![sid(0)],
        constraints: vec![ConstraintSurface {
            name: "T".to_string(),
            kind: ConstraintKind::Implements,
            value: sid(1),
            shape_key: Some(eq_key()),
        }],
        members: vec![ShapeMemberSurface { name: "equals".to_string(), params: vec![sid(1), sid(1)], result: sid(2) }],
        laws: vec![LawSurface {
            name: "reflexive".to_string(),
            params: vec![LawParamSurface { name: "x".to_string(), ty: sid(1) }],
        }],
        inert_attrs: vec![],
        musi_attrs: vec![],
    };
    let mut store = TyStore::new();
    let mut names: Vec<String> = vec!["Equal".to_string()];
    let read = import_shape_alias_as(&mut store, &mut names, &table, Symbol(0), &surface, true).expect("room");
    assert_eq!(read.sealed, Some(eq_key()));
    let facts = read.facts;
    assert_eq!(facts.key, eq_key());
    assert_eq!(facts.name, Symbol(0));
    assert_eq!(facts.members.len(), 1);
    assert_eq!(text(&names, facts.members[0].name), "equals");
    assert_eq!(facts.members[0].params.len(), 2);
    assert_eq!(store.kind(facts.members[0].result), &TyKind::Bool);
    assert_eq!(text(&names, facts.laws[0].name), "reflexive");
    assert_eq!(text(&names, facts.laws[0].params[0].name), "x");
    assert_eq!(text(&names, facts.constraints[0].name), "T");
    assert_eq!(facts.constraints[0].kind, ConstraintKind::Implements);
    assert_eq!(facts.constraints[0].shape_key, Some(eq_key()));
    assert_eq!(text(&names, facts.type_params[0]), "T");
    assert_eq!(store.kind(facts.type_param_kinds[0]), &TyKind::Type);
    // Names are interned in reading order: members, laws, constraints,
    // then type parameters.
    assert_eq!(names, vec!["Equal", "equals", "T", "reflexive", "x"]);
    let open = import_shape_alias_as(&mut store, &mut names, &table, Symbol(0), &surface, false).expect("room");
    assert_eq!(open.sealed, None);
}

#[test]
fn a_written_shape_reads_back_the_same() {
    let mut hir = TyStore::new();
    let hir_names: Vec<String> = vec!["Ord".to_string(), "T".to_string(), "compare".to_string(), "a".to_string()];
    let ty = hir.push_kind(TyKind::Type);
    let t = hir.push_kind(TyKind::Named { name: Symbol(1), args: vec![] });
    let int = hir.push_kind(TyKind::Int);
    let facts = ShapeFacts::new(
        eq_key(),
        Symbol(0),
        vec![ShapeMemberFacts::new(Symbol(2), vec![t, t], int)],
        vec![LawFacts::new(Symbol(0), vec![LawParamFacts::new(Symbol(3), t)])],
    )
    .with_type_params(vec![Symbol(1)])
    .with_type_param_kinds(vec![ty])
    .with_constraints(vec![ConstraintFacts::new(Symbol(1), ConstraintKind::TypeEq, int)]);
    let mut builder = SurfaceTyBuilder::new(&hir);
    let inert = Attr { path: vec!["since".to_string()], args: vec![] };
    let reserved = Attr { path: vec!["frozen".to_string()], args: vec![] };
    let surface = export_shape_surface(&mut builder, &hir, &hir_names, &facts, vec![reserved, inert]);
    assert_eq!(surface.inert_attrs, vec![Attr { path: vec!["since".to_string()], args: vec![] }]);
    assert!(surface.musi_attrs.is_empty());
    let table = builder.finish();
    assert_eq!(surface.members[0].name, "compare");
    assert_eq!(surface.laws[0].params[0].name, "a");
    assert_eq!(surface.type_params, vec!["T".to_string()]);
    assert_eq!(surface.constraints[0].shape_key, None);

    let mut store = TyStore::new();
    let mut names: Vec<String> = vec![];
    let read = import_shape_alias_as(&mut store, &mut names, &table, Symbol(7), &surface, false).expect("room").facts;
    assert_eq!(read.name, Symbol(7));
    assert_eq!(text(&names, read.members[0].name), "compare");
    let TyKind::Named { name, .. } = store.kind(read.members[0].params[1]).clone() else {
        panic!("a named type");
    };
    assert_eq!(text(&names, name), "T");
    assert_eq!(store.kind(read.members[0].result), &TyKind::Int);
    assert_eq!(text(&names, read.laws[0].name), "Ord");
    assert_eq!(read.constraints[0].kind, ConstraintKind::TypeEq);
    assert_eq!(store.kind(read.constraints[0].value), &TyKind::Int);
    assert_eq!(store.kind(read.type_param_kinds[0]), &TyKind::Type);
}
