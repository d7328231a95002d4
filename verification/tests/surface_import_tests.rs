use lib::surface::{SurfaceDim, SurfaceTy, SurfaceTyField, SurfaceTyId, SurfaceTyKind};
use lib::surface_import::{import_surface_ty, intern_name};
use lib::surface_lower::SurfaceTyBuilder;
use lib::ty::{Dim, Symbol, TyField, TyId, TyKind, TyStore};

fn sid(raw: u32) -> SurfaceTyId {
    SurfaceTyId::new(raw)
}

fn text(names: &[String], s: Symbol) -> &str {
    names[s.0 as usize].as_str()
}

#[test]
fn interning_finds_a_name_or_adds_it() {
    let mut names: Vec<String> = vec!["a".to_string(), "b".to_string(), "b".to_string()];
    assert_eq!(intern_name(&mut names, "b"), Some(Symbol(1)));
    assert_eq!(names.len(), 3);
    assert_eq!(intern_name(&mut names, "c"), Some(Symbol(3)));
    assert_eq!(names, vec!["a", "b", "b", "c"]);
    assert_eq!(intern_name(&mut names, "c"), Some(Symbol(3)));
    assert_eq!(names.len(), 4);
}

#[test]
fn importing_reads_each_surface_type_once() {
    let table = vec![
        SurfaceTy::new(SurfaceTyKind::Int),
        SurfaceTy::new(SurfaceTyKind::Named { name: "Box".to_string(), args: vec![sid(0)] }),
        SurfaceTy::new(SurfaceTyKind::Tuple { items: vec![sid(0), sid(1), sid(0)] }),
    ];
    let mut store = TyStore::new();
    let unit = store.push_kind(TyKind::Unit);
    let mut names: Vec<String> = vec!["Box".to_string()];
    let tuple = import_surface_ty(&mut store, &mut names, &table, sid(2)).expect("room");
    assert_eq!(store.len(), 4);
    assert_eq!(names, vec!["Box"]);
    let int = TyId(1);
    assert_eq!(store.kind(unit), &TyKind::Unit);
    assert_eq!(store.kind(int), &TyKind::Int);
    assert_eq!(store.kind(TyId(2)), &TyKind::Named { name: Symbol(0), args: vec![int] });
    assert_eq!(store.kind(tuple), &TyKind::Tuple { items: vec![int, TyId(2), int] });
    // A second import reads the table afresh.
    let again = import_surface_ty(&mut store, &mut names, &table, sid(0)).expect("room");
    assert_eq!(again, TyId(4));
    assert_eq!(store.kind(again), &TyKind::Int);
}

#[test]
fn importing_interns_every_name() {
    let table = vec![
        SurfaceTy::new(SurfaceTyKind::Bool),
        SurfaceTy::new(SurfaceTyKind::Record {
            fields: vec![SurfaceTyField::new("x", sid(0)), SurfaceTyField::new("y", sid(0))],
        }),
        SurfaceTy::new(SurfaceTyKind::Array {
            dims: vec![SurfaceDim::Name("n".to_string()), SurfaceDim::Int(3), SurfaceDim::Unknown],
            item: sid(1),
        }),
        SurfaceTy::new(SurfaceTyKind::Pi { binder: "T".to_string(), binder_ty: sid(0), body: sid(2), is_effectful: true }),
        SurfaceTy::new(SurfaceTyKind::Range { bound: sid(0) }),
        SurfaceTy::new(SurfaceTyKind::Arrow { params: vec![sid(3), sid(4)], ret: sid(0), is_effectful: false }),
    ];
    let mut store = TyStore::new();
    let mut names: Vec<String> = vec!["y".to_string()];
    let arrow = import_surface_ty(&mut store, &mut names, &table, sid(5)).expect("room");
    let TyKind::Arrow { params, ret, is_effectful } = store.kind(arrow).clone() else {
        panic!("an arrow type");
    };
    assert!(!is_effectful);
    assert_eq!(store.kind(ret), &TyKind::Bool);
    let TyKind::Pi { binder, binder_ty, body, is_effectful } = store.kind(params[0]).clone() else {
        panic!("a pi type");
    };
    assert!(is_effectful);
    assert_eq!(text(&names, binder), "T");
    assert_eq!(binder_ty, ret);
    let TyKind::Array { dims, item } = store.kind(body).clone() else {
        panic!("an array type");
    };
    assert_eq!(dims.len(), 3);
    let Dim::Name(n) = dims[0] else {
        panic!("a named dimension");
    };
    assert_eq!(text(&names, n), "n");
    assert_eq!(dims[1], Dim::Int(3));
    assert_eq!(dims[2], Dim::Unknown);
    let TyKind::Record { fields } = store.kind(item).clone() else {
        panic!("a record type");
    };
    assert_eq!(fields.len(), 2);
    assert_eq!(text(&names, fields[0].name), "x");
    assert_eq!(fields[1].name, Symbol(0));
    assert_eq!(fields[0].ty, ret);
    assert_eq!(store.kind(params[1]), &TyKind::Range { bound: ret });
    assert_eq!(names, vec!["y", "T", "n", "x"]);
}

#[test]
fn reading_back_a_written_type_gives_the_same_type() {
    let mut hir = TyStore::new();
    let hir_names: Vec<String> = vec!["Pair".to_string(), "left".to_string(), "right".to_string()];
    let int = hir.push_kind(TyKind::Int);
    let string = hir.push_kind(TyKind::String);
    let record = hir.push_kind(TyKind::Record {
        fields: vec![TyField { name: Symbol(1), ty: int }, TyField { name: Symbol(2), ty: string }],
    });
    let named = hir.push_kind(TyKind::Named { name: Symbol(0), args: vec![record, int] });
    let mut builder = SurfaceTyBuilder::new(&hir);
    let written = builder.lower(&hir, &hir_names, named);
    let table = builder.finish();

    let mut store = TyStore::new();
    let mut names: Vec<String> = vec!["right".to_string()];
    let read = import_surface_ty(&mut store, &mut names, &table, written).expect("room");
    let TyKind::Named { name, args } = store.kind(read).clone() else {
        panic!("a named type");
    };
    assert_eq!(text(&names, name), "Pair");
    assert_eq!(args.len(), 2);
    assert_eq!(store.kind(args[1]), &TyKind::Int);
    let TyKind::Record { fields } = store.kind(args[0]).clone() else {
        panic!("a record type");
    };
    assert_eq!(text(&names, fields[0].name), "left");
    assert_eq!(text(&names, fields[1].name), "right");
    assert_eq!(fields[1].name, Symbol(0));
    assert_eq!(fields[0].ty, args[1]);
    assert_eq!(store.kind(fields[1].ty), &TyKind::String);
}
