//! Imported modules as values: the record type of a module's exports, the
//! type of a runtime import, and which expressions name a data type, an
//! effect or a shape.
use vstd::prelude::*;

use crate::const_eval::{symbol_string, symbol_text};
use crate::data_surface::{lemma_read_as_grow, read_as, read_ty, reading};
use crate::expr::{ExprForm, ExprId, ExprKind, ExprStore};
use crate::facts::{SemaDataDef, SemaEffectDef, ShapeFacts};
use crate::shape_surface::{growth, intern_step, lemma_growth_trans, lemma_text_grow, text_is};
use crate::substitute::add_ty;
use crate::surface::{surface_wf, table_nodes, SurfaceTy, SurfaceTyField};
use crate::surface_import::{import_full, names_prefix};
use crate::surface_lower::symbol_texts;
use crate::text_map::TextMap;
use crate::ty::{Symbol, TyField, TyId, TyKind, TyNode, TyStore};
use crate::ty_tree::store_prefix;

verus! {

/// The record type of a module's exports, each export a field: its name
/// interned, then its type read from the module's surface; the record is
/// added to the store after its fields. `None` when the store or the name
/// table ran out of room.
pub fn import_record_ty(store: &mut TyStore, names: &mut Vec<String>, table: &Vec<SurfaceTy>, exports: &Vec<SurfaceTyField>) -> (r:
    Option<TyId>)
    requires
        surface_wf(table_nodes(table@)),
        forall|k: int| 0 <= k < exports@.len() ==> (#[trigger] exports@[k]).ty.index() < table.len(),
    ensures
        store_prefix(old(store).kinds(), final(store).kinds()),
        names_prefix(symbol_texts(old(names)@), symbol_texts(final(names)@)),
        match r {
            Some(t) => t.0 == final(store).kinds().len() - 1 && match final(store).kinds()[t.0 as int] {
                TyNode::Record { fields } => fields.len() == exports@.len() && forall|k: int|
                    0 <= k < fields.len() ==> text_is(symbol_texts(final(names)@), (#[trigger] fields[k]).name, exports@[k].name@)
                        && read_as(
                        final(store).kinds(),
                        symbol_texts(final(names)@),
                        table_nodes(table@),
                        old(store).kinds().len() as int,
                        fields[k].ty,
                        exports@[k].ty,
                    ),
                _ => false,
            },
            None => import_full(final(store).kinds(), final(names).len() as int),
        },
{
    proof {
        use_type_invariant(&*store);
    }
    let ghost nodes = table_nodes(table@);
    let ghost h0 = store.kinds();
    let ghost n0 = symbol_texts(names@);
    let ghost base = h0.len() as int;
    let mut fields: Vec<TyField> = Vec::new();
    let mut k: usize = 0;
    proof {
        assert(store_prefix(h0, h0));
        assert(names_prefix(n0, n0));
    }
    while k < exports.len()
        invariant
            k <= exports@.len(),
            fields@.len() == k,
            nodes == table_nodes(table@),
            surface_wf(nodes),
            forall|q: int| 0 <= q < exports@.len() ==> (#[trigger] exports@[q]).ty.index() < table.len(),
            h0 == old(store).kinds(),
            n0 == symbol_texts(old(names)@),
            base == h0.len(),
            growth(h0, store.kinds(), n0, symbol_texts(names@), base),
            reading(store.kinds(), names.len() as int, base),
            forall|q: int|
                0 <= q < k ==> text_is(symbol_texts(names@), (#[trigger] fields@[q]).name, exports@[q].name@) && read_as(
                    store.kinds(),
                    symbol_texts(names@),
                    nodes,
                    base,
                    fields@[q].ty,
                    exports@[q].ty,
                ),
        decreases exports@.len() - k,
    {
        let ghost h1 = store.kinds();
        let ghost n1 = symbol_texts(names@);
        let ghost prev = fields@;
        let name = match intern_step(names, exports[k].name.as_str(), Ghost(h1), Ghost(base)) {
            Some(s) => s,
            None => {
                proof {
                    lemma_growth_trans(h0, h1, h1, n0, n1, symbol_texts(names@), base);
                }
                return None;
            },
        };
        let ghost n2 = symbol_texts(names@);
        proof {
            lemma_growth_trans(h0, h1, h1, n0, n1, n2, base);
        }
        let ty = match read_ty(store, names, table, exports[k].ty, Ghost(base)) {
            Some(t) => t,
            None => {
                proof {
                    lemma_growth_trans(h0, h1, store.kinds(), n0, n2, symbol_texts(names@), base);
                }
                return None;
            },
        };
        proof {
            let h3 = store.kinds();
            let n3 = symbol_texts(names@);
            lemma_growth_trans(h0, h1, h3, n0, n2, n3, base);
            lemma_growth_trans(h1, h1, h3, n1, n2, n3, base);
            lemma_text_grow(n2, n3, name, exports@[k as int].name@);
            assert forall|q: int| 0 <= q < k implies text_is(n3, (#[trigger] prev[q]).name, exports@[q].name@) && read_as(
                h3,
                n3,
                nodes,
                base,
                prev[q].ty,
                exports@[q].ty,
            ) by {
                lemma_text_grow(n1, n3, prev[q].name, exports@[q].name@);
                lemma_read_as_grow(h1, h3, n1, n3, nodes, base, prev[q].ty, exports@[q].ty);
            }
        }
        fields.push(TyField { name, ty });
        k = k + 1;
        proof {
            assert forall|q: int| 0 <= q < k implies text_is(symbol_texts(names@), (#[trigger] fields@[q]).name, exports@[q].name@)
                && read_as(store.kinds(), symbol_texts(names@), nodes, base, fields@[q].ty, exports@[q].ty) by {
                if q < k - 1 {
                    assert(fields@[q] == prev[q]);
                }
            }
        }
    }
    let ghost h1 = store.kinds();
    let ghost n1 = symbol_texts(names@);
    let ghost fs = fields@;
    proof {
        assert forall|q: int| 0 <= q < fs.len() implies (#[trigger] fs[q]).ty.0 < h1.len() by {
            assert(read_as(h1, n1, nodes, base, fs[q].ty, exports@[q].ty));
        }
    }
    let r = match add_ty(store, TyKind::Record { fields }) {
        Some(t) => t,
        None => {
            proof {
                lemma_growth_trans(h0, h1, h1, n0, n1, n1, base);
            }
            return None;
        },
    };
    proof {
        use_type_invariant(&*store);
        let h2 = store.kinds();
        assert(h2 == h1.push(TyNode::Record { fields: fs }));
        assert(store_prefix(h1, h2));
        assert(names_prefix(n1, n1));
        lemma_growth_trans(h0, h1, h2, n0, n1, n1, base);
        assert forall|q: int| 0 <= q < fs.len() implies text_is(n1, (#[trigger] fs[q]).name, exports@[q].name@) && read_as(
            h2,
            n1,
            nodes,
            base,
            fs[q].ty,
            exports@[q].ty,
        ) by {
            lemma_read_as_grow(h1, h2, n1, n1, nodes, base, fs[q].ty, exports@[q].ty);
        }
    }
    Some(r)
}

/// The type of an import whose module is only known when the program runs:
/// `Result[Any, ImportError]`, the names `Result` and `ImportError`
/// interned in that order, then `ImportError` and the result added to the
/// store. `None` when the store or the name table ran out of room.
pub fn runtime_import_result_ty(store: &mut TyStore, names: &mut Vec<String>, any: TyId) -> (r: Option<TyId>)
    requires
        any.0 < old(store).kinds().len(),
    ensures
        store_prefix(old(store).kinds(), final(store).kinds()),
        names_prefix(symbol_texts(old(names)@), symbol_texts(final(names)@)),
        match r {
            Some(t) => {
                let n = old(store).kinds().len();
                &&& t.0 == n + 1
                &&& final(store).kinds().len() == n + 2
                &&& final(store).kinds()[n as int] matches TyNode::Named { name: e, args: ea } && ea.len() == 0
                    && text_is(symbol_texts(final(names)@), e, "ImportError"@)
                &&& final(store).kinds()[n + 1int] matches TyNode::Named { name: res, args } && text_is(
                    symbol_texts(final(names)@),
                    res,
                    "Result"@,
                ) && args == seq![any, TyId(n as u32)]
            },
            None => import_full(final(store).kinds(), final(names).len() as int),
        },
{
    proof {
        use_type_invariant(&*store);
        reveal_strlit("Result");
        reveal_strlit("ImportError");
    }
    let ghost h0 = store.kinds();
    let ghost n0 = symbol_texts(names@);
    let ghost base = h0.len() as int;
    proof {
        assert(store_prefix(h0, h0));
        assert(reading(h0, names.len() as int, base));
    }
    let result = match intern_step(names, "Result", Ghost(h0), Ghost(base)) {
        Some(s) => s,
        None => {
            return None;
        },
    };
    let ghost n1 = symbol_texts(names@);
    let import_error = match intern_step(names, "ImportError", Ghost(h0), Ghost(base)) {
        Some(s) => s,
        None => {
            proof {
                lemma_growth_trans(h0, h0, h0, n0, n1, symbol_texts(names@), base);
            }
            return None;
        },
    };
    let ghost n2 = symbol_texts(names@);
    proof {
        lemma_growth_trans(h0, h0, h0, n0, n1, n2, base);
        lemma_text_grow(n1, n2, result, "Result"@);
    }
    let error_ty = match add_ty(store, TyKind::Named { name: import_error, args: Vec::new() }) {
        Some(t) => t,
        None => {
            return None;
        },
    };
    let ghost h1 = store.kinds();
    let r = match add_ty(store, TyKind::Named { name: result, args: vec![any, error_ty] }) {
        Some(t) => t,
        None => {
            proof {
                lemma_prefix_push(h0, h1);
            }
            return None;
        },
    };
    proof {
        let h2 = store.kinds();
        assert(h2[base] == h1[base]);
        assert forall|i: int| 0 <= i < h0.len() implies #[trigger] h2[i] == h0[i] by {
            assert(h2[i] == h1[i]);
        }
    }
    Some(r)
}

proof fn lemma_prefix_push(a: Seq<TyNode>, b: Seq<TyNode>)
    requires
        b.len() == a.len() + 1,
        forall|i: int| 0 <= i < a.len() ==> #[trigger] b[i] == a[i],
    ensures
        store_prefix(a, b),
{
}

/// Whether an expression names a data type, an effect or a shape, as far
/// as this module knows; for a field of another expression, the export it
/// names is to be looked at.
#[derive(Debug, Clone, Copy, PartialEq, Eq, Structural)]
pub enum StructuralTarget {
    Yes,
    No,
    /// Whether the export named `name` of the module `base` evaluates to is
    /// a data type, an effect or a shape decides.
    Export { base: ExprId, name: Symbol },
}

/// Whether a shape is named `name`.
pub open spec fn shape_named(shapes: Seq<ShapeFacts>, name: Symbol) -> bool {
    exists|i: int| 0 <= i < shapes.len() && (#[trigger] shapes[i]).name == name
}

/// What expression `e` names: a data, effect or shape declaration does; a
/// `let` names what its value names; a name does when a data type or an
/// effect has its text or a shape has it; a field asks for the export.
pub open spec fn structural_target(
    exprs: Seq<ExprKind>,
    names: Seq<Seq<char>>,
    data: Set<Seq<char>>,
    effects: Set<Seq<char>>,
    shapes: Seq<ShapeFacts>,
    e: ExprId,
) -> StructuralTarget
    decreases e.0,
{
    if e.0 >= exprs.len() {
        StructuralTarget::No
    } else {
        match exprs[e.0 as int] {
            ExprKind::Other { form: ExprForm::Data, .. } | ExprKind::Other { form: ExprForm::Effect, .. }
            | ExprKind::Other { form: ExprForm::Shape, .. } => StructuralTarget::Yes,
            ExprKind::Let { value, .. } => if value.0 < e.0 {
                structural_target(exprs, names, data, effects, shapes, value)
            } else {
                StructuralTarget::No
            },
            ExprKind::Name { name, .. } => if data.contains(symbol_text(names, name)) || effects.contains(
                symbol_text(names, name),
            ) || shape_named(shapes, name) {
                StructuralTarget::Yes
            } else {
                StructuralTarget::No
            },
            ExprKind::Field { base, name } => StructuralTarget::Export { base, name },
            _ => StructuralTarget::No,
        }
    }
}

/// Whether expression `e` names a data type, an effect or a shape, or which
/// export decides.
pub fn expr_structural_target(
    exprs: &ExprStore,
    names: &Vec<String>,
    data: &TextMap<SemaDataDef>,
    effects: &TextMap<SemaEffectDef>,
    shapes: &Vec<ShapeFacts>,
    e: ExprId,
) -> (r: StructuralTarget)
    ensures
        r == structural_target(exprs.kinds(), symbol_texts(names@), data.map().dom(), effects.map().dom(), shapes@, e),
    decreases e.0,
{
    if e.0 as usize >= exprs.len() {
        return StructuralTarget::No;
    }
    match exprs.kind(e) {
        ExprKind::Other { form, .. } => match form {
            ExprForm::Data | ExprForm::Effect | ExprForm::Shape => StructuralTarget::Yes,
            _ => StructuralTarget::No,
        },
        ExprKind::Let { value, .. } => {
            if value.0 < e.0 {
                expr_structural_target(exprs, names, data, effects, shapes, *value)
            } else {
                StructuralTarget::No
            }
        },
        ExprKind::Name { name, .. } => {
            let text = symbol_string(names, *name);
            if data.get(text.as_str()).is_some() || effects.get(text.as_str()).is_some() {
                return StructuralTarget::Yes;
            }
            let ghost t = symbol_text(symbol_texts(names@), *name);
            proof {
                assert(text@ == t);
            }
            let mut i: usize = 0;
            while i < shapes.len()
                invariant
                    i <= shapes@.len(),
                    e.0 < exprs.kinds().len(),
                    exprs.kinds()[e.0 as int] matches ExprKind::Name { name: n, .. } && n == *name,
                    t == symbol_text(symbol_texts(names@), *name),
                    !data.map().dom().contains(t),
                    !effects.map().dom().contains(t),
                    forall|j: int| 0 <= j < i ==> (#[trigger] shapes@[j]).name != *name,
                decreases shapes@.len() - i,
            {
                if shapes[i].name == *name {
                    proof {
                        assert(shapes@[i as int].name == *name);
                    }
                    return StructuralTarget::Yes;
                }
                i = i + 1;
            }
            StructuralTarget::No
        },
        ExprKind::Field { base, name } => StructuralTarget::Export { base: *base, name: *name },
        _ => StructuralTarget::No,
    }
}

} // verus!
