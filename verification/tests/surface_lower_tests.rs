use lib::surface::{SurfaceDim, SurfaceTy, SurfaceTyField, SurfaceTyId, SurfaceTyKind};
use lib::surface_lower::SurfaceTyBuilder;
use lib::ty::{Dim, Symbol, TyField, TyKind, TyStore};

fn names() -> Vec<String> {
    ["List", "x", "N"].iter().map(|s| s.to_string()).collect()
}

#[test]
fn lowering_writes_children_before_parents() {
    let mut store = TyStore::new();
    let int = store.push_kind(TyKind::Int);
    let list = store.push_kind(TyKind::Named { name: Symbol(0), args: vec![int] });
    let names = names();
    let mut builder = SurfaceTyBuilder::new(&store);
    let out = builder.lower(&store, &names, list);
    assert_eq!(out, SurfaceTyId::new(1));
    let tys = builder.finish();
    assert_eq!(
        tys,
        vec![
            SurfaceTy::new(SurfaceTyKind::Int),
            SurfaceTy::new(SurfaceTyKind::Named {
                name: "List".to_string(),
                args: vec![SurfaceTyId::new(0)],
            }),
        ]
    );
}

#[test]
fn lowering_reuses_cached_types() {
    let mut store = TyStore::new();
    let int = store.push_kind(TyKind::Int);
    let sum = store.push_kind(TyKind::Sum { left: int, right: int });
    let names = names();
    let mut builder = SurfaceTyBuilder::new(&store);
    let first = builder.lower(&store, &names, sum);
    let again = builder.lower(&store, &names, sum);
    assert_eq!(first, again);
    let tys = builder.finish();
    assert_eq!(tys.len(), 2);
    assert_eq!(
        tys[1].kind,
        SurfaceTyKind::Sum { left: SurfaceTyId::new(0), right: SurfaceTyId::new(0) }
    );
}

#[test]
fn lowering_names_fields_and_dims_by_text() {
    let mut store = TyStore::new();
    let boolean = store.push_kind(TyKind::Bool);
    let record = store.push_kind(TyKind::Record {
        fields: vec![TyField { name: Symbol(1), ty: boolean }],
    });
    let array = store.push_kind(TyKind::Array {
        dims: vec![Dim::Name(Symbol(2)), Dim::Int(4), Dim::Unknown, Dim::Name(Symbol(9))],
        item: record,
    });
    let names = names();
    let mut builder = SurfaceTyBuilder::new(&store);
    let out = builder.lower(&store, &names, array);
    assert_eq!(out, SurfaceTyId::new(2));
    let tys = builder.finish();
    assert_eq!(
        tys[1].kind,
        SurfaceTyKind::Record { fields: vec![SurfaceTyField::new("x", SurfaceTyId::new(0))] }
    );
    assert_eq!(
        tys[2].kind,
        SurfaceTyKind::Array {
            dims: vec![
                SurfaceDim::Name("N".to_string()),
                SurfaceDim::Int(4),
                SurfaceDim::Unknown,
                SurfaceDim::Name(String::new()),
            ],
            item: SurfaceTyId::new(1),
        }
    );
}
