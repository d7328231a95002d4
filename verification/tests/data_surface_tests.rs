use lib::attrs::Attr;
use lib::data_export::export_data_surface;
use lib::data_surface::{import_data_alias_as, DataSurface, DataVariantSurface};
use lib::facts::{DataVariants, DefinitionKey, SemaDataDef, SemaDataVariantDef};
use lib::surface::{SurfaceTy, SurfaceTyId, SurfaceTyKind};
use lib::surface_lower::SurfaceTyBuilder;
use lib::text_map::TextMap;
use lib::ty::{Symbol, TyKind, TyStore};

fn attr(path: &[&str]) -> Attr {
    Attr { path: path.iter().map(|p| p.to_string()).collect(), args: vec![] }
}

fn sid(raw: u32) -> SurfaceTyId {
    SurfaceTyId::new(raw)
}

fn key() -> DefinitionKey {
    DefinitionKey { module: "std/option".to_string(), name: "Option".to_string() }
}

fn table() -> Vec<SurfaceTy> {
    vec![
        SurfaceTy::new(SurfaceTyKind::Type),
        SurfaceTy::new(SurfaceTyKind::Named { name: "T".to_string(), args: vec![] }),
        SurfaceTy::new(SurfaceTyKind::Named { name: "Option".to_string(), args: vec![sid(1)] }),
    ]
}

fn option_surface() -> DataSurface {
    DataSurface {
        key: key(),
        variants: vec![
            DataVariantSurface {
                name: "Some".to_string(),
                tag: 1,
                payload: Some(sid(1)),
                result: Some(sid(2)),
                field_tys: vec![sid(1)],
                field_names: vec![Some("value".to_string())],
            },
            DataVariantSurface {
                name: "None".to_string(),
                tag: 7,
                payload: None,
                result: None,
                field_tys: vec![],
                field_names: vec![],
            },
            DataVariantSurface {
                name: "None".to_string(),
                tag: 0,
                payload: None,
                result: Some(sid(2)),
                field_tys: vec![],
                field_names: vec![],
            },
        ],
        type_params: vec!["T".to_string()],
        type_param_kinds: vec![sid(0)],
        repr_kind: Some("c".to_string()),
        layout_align: Some(8),
        layout_pack: None,
        frozen: true,
        is_record_shape: false,
        inert_attrs: vec![],
        musi_attrs: vec![],
    }
}

#[test]
fn an_exported_data_definition_is_read_under_its_alias() {
    let mut store = TyStore::new();
    let mut names: Vec<String> = vec!["Maybe".to_string()];
    let mut defs: TextMap<SemaDataDef> = TextMap::new();
    let done = import_data_alias_as(&mut store, &mut names, &mut defs, &table(), Symbol(0), &option_surface(), false);
    assert!(done);
    assert_eq!(defs.len(), 1);
    let def = defs.get("Maybe").expect("recorded under the alias");
    assert_eq!(def.key, key());
    assert_eq!(def.repr_kind, Some("c".to_string()));
    assert_eq!(def.layout_align, Some(8));
    assert_eq!(def.layout_pack, None);
    assert!(def.frozen);
    assert!(!def.is_record_shape);
    assert_eq!(def.type_params.len(), 1);
    assert_eq!(names[def.type_params[0].0 as usize], "T");
    assert_eq!(store.kind(def.type_param_kinds[0]), &TyKind::Type);
    assert_eq!(def.variant_count(), 2);

    let some = def.variant("Some").expect("Some");
    assert_eq!(some.tag(), 1);
    let payload = some.payload().expect("payload");
    let TyKind::Named { name, args } = store.kind(payload).clone() else {
        panic!("a named type");
    };
    assert_eq!(names[name.0 as usize], "T");
    assert!(args.is_empty());
    let result = some.result().expect("result");
    let TyKind::Named { name, args } = store.kind(result).clone() else {
        panic!("a named type");
    };
    assert_eq!(names[name.0 as usize], "Option");
    assert_eq!(args.len(), 1);
    assert_eq!(some.field_tys().len(), 1);
    assert_eq!(some.field_names(), &vec![Some("value".to_string())]);

    // The last variant of a name is the one kept.
    let none = def.variant("None").expect("None");
    assert_eq!(none.tag(), 0);
    assert_eq!(none.payload(), None);
    assert!(none.result().is_some());
    assert_eq!(names, vec!["Maybe", "T", "Option"]);
}

#[test]
fn an_opaque_data_definition_is_not_read() {
    let mut store = TyStore::new();
    let mut names: Vec<String> = vec!["Maybe".to_string()];
    let mut defs: TextMap<SemaDataDef> = TextMap::new();
    let done = import_data_alias_as(&mut store, &mut names, &mut defs, &table(), Symbol(0), &option_surface(), true);
    assert!(done);
    assert_eq!(defs.len(), 0);
    assert_eq!(store.len(), 0);
    assert_eq!(names, vec!["Maybe"]);
}

#[test]
fn a_written_data_definition_reads_back_the_same() {
    let mut hir = TyStore::new();
    let hir_names: Vec<String> = vec!["T".to_string(), "Option".to_string()];
    let ty = hir.push_kind(TyKind::Type);
    let t = hir.push_kind(TyKind::Named { name: Symbol(0), args: vec![] });
    let option_t = hir.push_kind(TyKind::Named { name: Symbol(1), args: vec![t] });
    let mut variants = DataVariants::new();
    variants.insert(
        "Some".to_string(),
        SemaDataVariantDef::new(1, Some(t), Some(option_t), vec![t], vec![Some("value".to_string())]),
    );
    variants.insert("None".to_string(), SemaDataVariantDef::new(0, None, Some(option_t), vec![], vec![]));
    let def = SemaDataDef::new(key(), variants, None, Some(4), Some(2), false)
        .with_type_params(vec![Symbol(0)], vec![ty])
        .with_record_shape(false);

    let mut builder = SurfaceTyBuilder::new(&hir);
    let attrs = vec![attr(&["deprecated"]), attr(&["target"]), attr(&["musi", "builtin"]), attr(&["doc", "note"])];
    let surface = export_data_surface(&mut builder, &hir, &hir_names, &def, false, attrs);
    assert_eq!(surface.inert_attrs, vec![attr(&["deprecated"]), attr(&["doc", "note"])]);
    assert!(surface.musi_attrs.is_empty());
    let table = builder.finish();
    assert_eq!(surface.key, key());
    assert_eq!(surface.type_params, vec!["T".to_string()]);
    assert_eq!(surface.variants.len(), 2);
    // Variants are written in name order.
    assert_eq!(surface.variants[0].name, "None");
    assert_eq!(surface.variants[1].name, "Some");
    assert_eq!(surface.variants[1].tag, 1);
    assert_eq!(surface.variants[1].field_names, vec![Some("value".to_string())]);
    assert_eq!(surface.layout_align, Some(4));
    assert_eq!(surface.layout_pack, Some(2));

    let mut store = TyStore::new();
    let mut names: Vec<String> = vec!["Opt".to_string()];
    let mut defs: TextMap<SemaDataDef> = TextMap::new();
    assert!(import_data_alias_as(&mut store, &mut names, &mut defs, &table, Symbol(0), &surface, false));
    let read = defs.get("Opt").expect("read under the alias");
    assert_eq!(read.key, def.key);
    assert_eq!(read.layout_align, Some(4));
    assert_eq!(names[read.type_params[0].0 as usize], "T");
    assert_eq!(store.kind(read.type_param_kinds[0]), &TyKind::Type);
    let some = read.variant("Some").expect("Some");
    let payload = some.payload().expect("payload");
    let TyKind::Named { name, args } = store.kind(payload).clone() else {
        panic!("a named type");
    };
    assert_eq!(names[name.0 as usize], "T");
    assert!(args.is_empty());
    let TyKind::Named { name, args } = store.kind(some.result().expect("result")).clone() else {
        panic!("a named type");
    };
    assert_eq!(names[name.0 as usize], "Option");
    assert_eq!(store.kind(args[0]), store.kind(payload));
    let none = read.variant("None").expect("None");
    assert_eq!(none.tag(), 0);
    assert_eq!(none.payload(), None);
}

#[test]
fn an_opaque_export_writes_no_variants() {
    let mut hir = TyStore::new();
    let int = hir.push_kind(TyKind::Int);
    let mut variants = DataVariants::new();
    variants.insert("Box".to_string(), SemaDataVariantDef::new(0, None, None, vec![int], vec![None]));
    let def = SemaDataDef::new(key(), variants, Some("c".to_string()), None, None, true);
    let mut builder = SurfaceTyBuilder::new(&hir);
    let surface = export_data_surface(&mut builder, &hir, &vec![], &def, true, vec![]);
    assert!(surface.variants.is_empty());
    assert!(surface.frozen);
    assert_eq!(surface.repr_kind, Some("c".to_string()));
    assert!(builder.finish().is_empty());
}
