use lib::effect_surface::{import_effect_alias_as, EffectOpSurface, EffectSurface};
use lib::facts::{DefinitionKey, SemaEffectDef};
use lib::shape_surface::{LawParamSurface, LawSurface};
use lib::surface::{SurfaceTy, SurfaceTyId, SurfaceTyKind};
use lib::text_map::TextMap;
use lib::ty::{Symbol, TyKind, TyStore};

fn sid(raw: u32) -> SurfaceTyId {
    SurfaceTyId::new(raw)
}

fn console() -> EffectSurface {
    EffectSurface {
        key: DefinitionKey { module: "std/io".to_string(), name: "Console".to_string() },
        ops: vec![
            EffectOpSurface {
                name: "print".to_string(),
                params: vec![sid(0)],
                param_names: vec!["text".to_string()],
                result: sid(1),
                is_comptime_safe: false,
            },
            EffectOpSurface {
                name: "read".to_string(),
                params: vec![],
                param_names: vec![],
                result: sid(0),
                is_comptime_safe: true,
            },
        ],
        laws: vec![LawSurface {
            name: "echo".to_string(),
            params: vec![LawParamSurface { name: "text".to_string(), ty: sid(0) }],
        }],
    }
}

fn table() -> Vec<SurfaceTy> {
    vec![SurfaceTy::new(SurfaceTyKind::String), SurfaceTy::new(SurfaceTyKind::Unit)]
}

#[test]
fn an_exported_effect_is_read_under_its_alias() {
    let mut store = TyStore::new();
    let mut names: Vec<String> = vec!["Io".to_string()];
    let mut defs: TextMap<SemaEffectDef> = TextMap::new();
    assert!(import_effect_alias_as(&mut store, &mut names, &mut defs, &table(), Symbol(0), &console(), false));
    let def = defs.get("Io").expect("recorded under the alias");
    assert_eq!(def.key.name, "Console");
    assert_eq!(def.ops.len(), 2);
    let print = def.ops.get("print").expect("print");
    assert_eq!(print.params.len(), 1);
    assert_eq!(store.kind(print.params[0]), &TyKind::String);
    assert_eq!(names[print.param_names[0].0 as usize], "text");
    assert_eq!(store.kind(print.result), &TyKind::Unit);
    assert!(!print.comptime_safe);
    let read = def.ops.get("read").expect("read");
    assert!(read.comptime_safe);
    assert_eq!(store.kind(read.result), &TyKind::String);
    assert_eq!(def.laws.len(), 1);
    assert_eq!(names[def.laws[0].name.0 as usize], "echo");
    assert_eq!(names, vec!["Io", "text", "echo"]);
}

#[test]
fn an_opaque_effect_is_not_read() {
    let mut store = TyStore::new();
    let mut names: Vec<String> = vec!["Io".to_string()];
    let mut defs: TextMap<SemaEffectDef> = TextMap::new();
    assert!(import_effect_alias_as(&mut store, &mut names, &mut defs, &table(), Symbol(0), &console(), true));
    assert_eq!(defs.len(), 0);
    assert_eq!(store.len(), 0);
}
