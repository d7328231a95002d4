//! An effect as a module's surface exports it, and reading one back into
//! this module's effect definitions.
use vstd::prelude::*;

use crate::const_eval::{symbol_string, symbol_text};
use crate::data_surface::{
    lemma_list_grow, lemma_read_as_grow, list_read_as, read_as, read_list, read_ty, reading, surface_ids_in,
};
use crate::facts::{copy_key, DefinitionKey, LawFacts, SemaEffectDef, SemaEffectOpDef};
use crate::shape_surface::{
    growth, intern_step, law_read_as, lemma_growth_trans, lemma_laws_grow, lemma_texts_grow, read_law, text_is,
    LawSurface,
};
use crate::surface::{surface_wf, table_nodes, SurfaceNode, SurfaceTy, SurfaceTyId};
use crate::surface_import::{import_full, names_prefix};
use crate::surface_lower::symbol_texts;
use crate::text_map::TextMap;
use crate::ty::{Symbol, TyNode, TyStore};
use crate::ty_tree::store_prefix;

verus! {

/// An operation of an exported effect: its name, parameter types and
/// names, result type, and whether it may run at compile time.
#[derive(Debug, PartialEq, Eq)]
pub struct EffectOpSurface {
    pub name: String,
    pub params: Vec<SurfaceTyId>,
    pub param_names: Vec<String>,
    pub result: SurfaceTyId,
    pub is_comptime_safe: bool,
}

/// An exported effect: its key, operations and laws.
#[derive(Debug, PartialEq, Eq)]
pub struct EffectSurface {
    pub key: DefinitionKey,
    pub ops: Vec<EffectOpSurface>,
    pub laws: Vec<LawSurface>,
}

/// Every type an effect surface names is in a table of `len` types.
pub open spec fn effect_surface_in(s: EffectSurface, len: int) -> bool {
    &&& forall|j: int|
        0 <= j < s.ops@.len() ==> surface_ids_in((#[trigger] s.ops@[j]).params@, len) && s.ops@[j].result.index() < len
    &&& forall|j: int|
        0 <= j < s.laws@.len() ==> forall|k: int|
            0 <= k < (#[trigger] s.laws@[j]).params@.len() ==> (#[trigger] s.laws@[j].params@[k]).ty.index() < len
}

/// The operation `d` was read from the surface operation `s`.
pub open spec fn op_read_as(hir: Seq<TyNode>, names: Seq<Seq<char>>, nodes: Seq<SurfaceNode>, base: int, d: SemaEffectOpDef, s: EffectOpSurface) -> bool {
    &&& list_read_as(hir, names, nodes, base, d.params@, s.params@)
    &&& d.param_names@.len() == s.param_names@.len()
    &&& forall|k: int| 0 <= k < d.param_names@.len() ==> text_is(names, #[trigger] d.param_names@[k], s.param_names@[k]@)
    &&& read_as(hir, names, nodes, base, d.result, s.result)
    &&& d.comptime_safe == s.is_comptime_safe
}

/// The operations `m` were read from the first `n` surface operations:
/// one for each name, read from the last operation of that name.
pub open spec fn ops_read_as(
    hir: Seq<TyNode>,
    names: Seq<Seq<char>>,
    nodes: Seq<SurfaceNode>,
    base: int,
    m: Map<Seq<char>, SemaEffectOpDef>,
    ops: Seq<EffectOpSurface>,
    n: int,
) -> bool {
    &&& forall|t: Seq<char>| #[trigger] m.contains_key(t) ==> exists|j: int| 0 <= j < n && (#[trigger] ops[j]).name@ == t
    &&& forall|j: int|
        0 <= j < n && (forall|i: int| j < i < n ==> (#[trigger] ops[i]).name@ != ops[j].name@) ==> m.contains_key(
            (#[trigger] ops[j]).name@,
        ) && op_read_as(hir, names, nodes, base, m[ops[j].name@], ops[j])
}

/// The effect `d` was read from the effect surface `s`: the same key, its
/// operations and its laws read from the surface's.
pub open spec fn effect_read_as(hir: Seq<TyNode>, names: Seq<Seq<char>>, nodes: Seq<SurfaceNode>, base: int, d: SemaEffectDef, s: EffectSurface) -> bool {
    &&& d.key == s.key
    &&& ops_read_as(hir, names, nodes, base, d.ops.map(), s.ops@, s.ops@.len() as int)
    &&& d.laws@.len() == s.laws@.len()
    &&& forall|j: int| 0 <= j < d.laws@.len() ==> law_read_as(hir, names, nodes, base, #[trigger] d.laws@[j], s.laws@[j])
}

proof fn lemma_op_grow(
    h0: Seq<TyNode>,
    h1: Seq<TyNode>,
    n0: Seq<Seq<char>>,
    n1: Seq<Seq<char>>,
    nodes: Seq<SurfaceNode>,
    base: int,
    d: SemaEffectOpDef,
    s: EffectOpSurface,
)
    requires
        growth(h0, h1, n0, n1, base),
        op_read_as(h0, n0, nodes, base, d, s),
    ensures
        op_read_as(h1, n1, nodes, base, d, s),
{
    lemma_list_grow(h0, h1, n0, n1, nodes, base, d.params@, s.params@);
    lemma_texts_grow(n0, n1, d.param_names@, s.param_names@);
    lemma_read_as_grow(h0, h1, n0, n1, nodes, base, d.result, s.result);
}

proof fn lemma_ops_grow(
    h0: Seq<TyNode>,
    h1: Seq<TyNode>,
    n0: Seq<Seq<char>>,
    n1: Seq<Seq<char>>,
    nodes: Seq<SurfaceNode>,
    base: int,
    m: Map<Seq<char>, SemaEffectOpDef>,
    ops: Seq<EffectOpSurface>,
    n: int,
)
    requires
        growth(h0, h1, n0, n1, base),
        ops_read_as(h0, n0, nodes, base, m, ops, n),
    ensures
        ops_read_as(h1, n1, nodes, base, m, ops, n),
{
    assert forall|j: int|
        0 <= j < n && (forall|i: int| j < i < n ==> (#[trigger] ops[i]).name@ != ops[j].name@) implies m.contains_key(
        (#[trigger] ops[j]).name@,
    ) && op_read_as(h1, n1, nodes, base, m[ops[j].name@], ops[j]) by {
        lemma_op_grow(h0, h1, n0, n1, nodes, base, m[ops[j].name@], ops[j]);
    }
}

/// Reads one operation: its parameter types, then its parameter names,
/// then its result type.
fn read_op(
    store: &mut TyStore,
    names: &mut Vec<String>,
    table: &Vec<SurfaceTy>,
    op: &EffectOpSurface,
    Ghost(base): Ghost<int>,
) -> (r: Option<SemaEffectOpDef>)
    requires
        surface_wf(table_nodes(table@)),
        surface_ids_in(op.params@, table.len() as int),
        op.result.index() < table.len(),
        reading(old(store).kinds(), old(names).len() as int, base),
    ensures
        growth(old(store).kinds(), final(store).kinds(), symbol_texts(old(names)@), symbol_texts(final(names)@), base),
        reading(final(store).kinds(), final(names).len() as int, base),
        match r {
            Some(d) => op_read_as(final(store).kinds(), symbol_texts(final(names)@), table_nodes(table@), base, d, *op),
            None => import_full(final(store).kinds(), final(names).len() as int),
        },
{
    let ghost nodes = table_nodes(table@);
    let ghost h0 = store.kinds();
    let ghost n0 = symbol_texts(names@);
    let params = match read_list(store, names, table, &op.params, Ghost(base)) {
        Some(p) => p,
        None => {
            return None;
        },
    };
    let ghost h1 = store.kinds();
    let ghost n1 = symbol_texts(names@);
    let mut param_names: Vec<Symbol> = Vec::new();
    let mut k: usize = 0;
    proof {
        assert(store_prefix(h1, h1));
        assert(names_prefix(n1, n1));
    }
    while k < op.param_names.len()
        invariant
            k <= op.param_names@.len(),
            param_names@.len() == k,
            store.kinds() == h1,
            h0 == old(store).kinds(),
            n0 == symbol_texts(old(names)@),
            growth(h0, h1, n0, n1, base),
            growth(h1, h1, n1, symbol_texts(names@), base),
            reading(h1, names.len() as int, base),
            forall|q: int| 0 <= q < k ==> text_is(symbol_texts(names@), #[trigger] param_names@[q], op.param_names@[q]@),
        decreases op.param_names@.len() - k,
    {
        let ghost nk = symbol_texts(names@);
        let ghost prev = param_names@;
        let s = match intern_step(names, op.param_names[k].as_str(), Ghost(h1), Ghost(base)) {
            Some(s) => s,
            None => {
                proof {
                    lemma_growth_trans(h1, h1, h1, n1, nk, symbol_texts(names@), base);
                    lemma_growth_trans(h0, h1, h1, n0, n1, symbol_texts(names@), base);
                }
                return None;
            },
        };
        proof {
            lemma_growth_trans(h1, h1, h1, n1, nk, symbol_texts(names@), base);
            lemma_texts_grow(nk, symbol_texts(names@), prev, op.param_names@);
        }
        param_names.push(s);
        k = k + 1;
        proof {
            assert forall|q: int| 0 <= q < k implies text_is(symbol_texts(names@), #[trigger] param_names@[q], op.param_names@[q]@) by {
                if q < k - 1 {
                    assert(param_names@[q] == prev[q]);
                }
            }
        }
    }
    let ghost n2 = symbol_texts(names@);
    proof {
        lemma_growth_trans(h0, h1, h1, n0, n1, n2, base);
    }
    let result = match read_ty(store, names, table, op.result, Ghost(base)) {
        Some(t) => t,
        None => {
            proof {
                lemma_growth_trans(h0, h1, store.kinds(), n0, n2, symbol_texts(names@), base);
            }
            return None;
        },
    };
    proof {
        let h3 = store.kinds();
        let n3 = symbol_texts(names@);
        lemma_growth_trans(h0, h1, h3, n0, n2, n3, base);
        lemma_growth_trans(h0, h1, h3, n0, n1, n2, base);
        lemma_growth_trans(h1, h1, h3, n1, n2, n3, base);
        lemma_list_grow(h1, h3, n1, n3, nodes, base, params@, op.params@);
        lemma_texts_grow(n2, n3, param_names@, op.param_names@);
    }
    Some(SemaEffectOpDef::new(params, param_names, result).with_comptime_safe(op.is_comptime_safe))
}

/// Reads the exported effect `surface` under the name of `alias`: unless
/// the effect is opaque, its operations, then its laws, are read, and the
/// effect is recorded under the text of `alias`. `false`, with the effects
/// unchanged, when the store or the name table ran out of room.
pub fn import_effect_alias_as(
    store: &mut TyStore,
    names: &mut Vec<String>,
    defs: &mut TextMap<SemaEffectDef>,
    table: &Vec<SurfaceTy>,
    alias: Symbol,
    surface: &EffectSurface,
    is_opaque: bool,
) -> (done: bool)
    requires
        surface_wf(table_nodes(table@)),
        effect_surface_in(*surface, table.len() as int),
    ensures
        store_prefix(old(store).kinds(), final(store).kinds()),
        names_prefix(symbol_texts(old(names)@), symbol_texts(final(names)@)),
        is_opaque ==> done && final(store).kinds() == old(store).kinds() && final(names)@ == old(names)@
            && final(defs).map() == old(defs).map(),
        !is_opaque && done ==> ({
            let t = symbol_text(symbol_texts(final(names)@), alias);
            &&& final(defs).map() == old(defs).map().insert(t, final(defs).map()[t])
            &&& effect_read_as(
                final(store).kinds(),
                symbol_texts(final(names)@),
                table_nodes(table@),
                old(store).kinds().len() as int,
                final(defs).map()[t],
                *surface,
            )
        }),
        !done ==> import_full(final(store).kinds(), final(names).len() as int) && final(defs).map() == old(defs).map(),
{
    proof {
        assert(store_prefix(store.kinds(), store.kinds()));
        assert(names_prefix(symbol_texts(names@), symbol_texts(names@)));
    }
    if is_opaque {
        return true;
    }
    proof {
        use_type_invariant(&*store);
    }
    let ghost base = store.kinds().len() as int;
    let ghost nodes = table_nodes(table@);
    let ghost h0 = store.kinds();
    let ghost n0 = symbol_texts(names@);
    let ghost vs = surface.ops@;
    let mut ops: TextMap<SemaEffectOpDef> = TextMap::new();
    let mut j: usize = 0;
    while j < surface.ops.len()
        invariant
            j <= vs.len(),
            vs == surface.ops@,
            nodes == table_nodes(table@),
            surface_wf(nodes),
            effect_surface_in(*surface, table.len() as int),
            h0 == old(store).kinds(),
            n0 == symbol_texts(old(names)@),
            base == h0.len(),
            growth(h0, store.kinds(), n0, symbol_texts(names@), base),
            reading(store.kinds(), names.len() as int, base),
            ops_read_as(store.kinds(), symbol_texts(names@), nodes, base, ops.map(), vs, j as int),
            defs.map() == old(defs).map(),
            !is_opaque,
        decreases vs.len() - j,
    {
        let ghost h1 = store.kinds();
        let ghost n1 = symbol_texts(names@);
        let ghost m0 = ops.map();
        let op = &surface.ops[j];
        let d = match read_op(store, names, table, op, Ghost(base)) {
            Some(d) => d,
            None => {
                proof {
                    lemma_growth_trans(h0, h1, store.kinds(), n0, n1, symbol_texts(names@), base);
                }
                return false;
            },
        };
        proof {
            lemma_growth_trans(h0, h1, store.kinds(), n0, n1, symbol_texts(names@), base);
            lemma_ops_grow(h1, store.kinds(), n1, symbol_texts(names@), nodes, base, m0, vs, j as int);
        }
        ops.insert(op.name.clone(), d);
        proof {
            let hir = store.kinds();
            let nm = symbol_texts(names@);
            let m = ops.map();
            let n = j + 1;
            assert(m == m0.insert(vs[j as int].name@, d));
            assert forall|t: Seq<char>| #[trigger] m.contains_key(t) implies exists|i: int|
                0 <= i < n && (#[trigger] vs[i]).name@ == t by {
                if t == vs[j as int].name@ {
                    assert(vs[j as int].name@ == t);
                } else {
                    assert(m0.contains_key(t));
                    let i = choose|i: int| 0 <= i < j && (#[trigger] vs[i]).name@ == t;
                    assert(vs[i].name@ == t);
                }
            }
            assert forall|i: int|
                0 <= i < n && (forall|q: int| i < q < n ==> (#[trigger] vs[q]).name@ != vs[i].name@) implies m.contains_key(
                (#[trigger] vs[i]).name@,
            ) && op_read_as(hir, nm, nodes, base, m[vs[i].name@], vs[i]) by {
                if i < j {
                    assert(vs[j as int].name@ != vs[i].name@);
                    assert forall|q: int| i < q < j implies (#[trigger] vs[q]).name@ != vs[i].name@ by {}
                }
            }
        }
        j = j + 1;
    }
    let mut laws: Vec<LawFacts> = Vec::new();
    let mut j: usize = 0;
    while j < surface.laws.len()
        invariant
            j <= surface.laws@.len(),
            laws@.len() == j,
            vs == surface.ops@,
            nodes == table_nodes(table@),
            surface_wf(nodes),
            effect_surface_in(*surface, table.len() as int),
            h0 == old(store).kinds(),
            n0 == symbol_texts(old(names)@),
            base == h0.len(),
            growth(h0, store.kinds(), n0, symbol_texts(names@), base),
            reading(store.kinds(), names.len() as int, base),
            ops_read_as(store.kinds(), symbol_texts(names@), nodes, base, ops.map(), vs, vs.len() as int),
            forall|q: int| 0 <= q < j ==> law_read_as(store.kinds(), symbol_texts(names@), nodes, base, #[trigger] laws@[q], surface.laws@[q]),
            defs.map() == old(defs).map(),
            !is_opaque,
        decreases surface.laws@.len() - j,
    {
        let ghost h1 = store.kinds();
        let ghost n1 = symbol_texts(names@);
        let ghost prev = laws@;
        proof {
            assert forall|k: int| 0 <= k < surface.laws@[j as int].params@.len() implies (
            #[trigger] surface.laws@[j as int].params@[k]).ty.index() < table.len() by {}
        }
        let l = match read_law(store, names, table, &surface.laws[j], Ghost(base)) {
            Some(l) => l,
            None => {
                proof {
                    lemma_growth_trans(h0, h1, store.kinds(), n0, n1, symbol_texts(names@), base);
                }
                return false;
            },
        };
        proof {
            lemma_growth_trans(h0, h1, store.kinds(), n0, n1, symbol_texts(names@), base);
            lemma_ops_grow(h1, store.kinds(), n1, symbol_texts(names@), nodes, base, ops.map(), vs, vs.len() as int);
            lemma_laws_grow(h1, store.kinds(), n1, symbol_texts(names@), nodes, base, prev, surface.laws@);
        }
        laws.push(l);
        j = j + 1;
        proof {
            assert forall|q: int| 0 <= q < j implies law_read_as(
                store.kinds(),
                symbol_texts(names@),
                nodes,
                base,
                #[trigger] laws@[q],
                surface.laws@[q],
            ) by {
                if q < j - 1 {
                    assert(laws@[q] == prev[q]);
                }
            }
        }
    }
    let def = SemaEffectDef { key: copy_key(&surface.key), ops, laws };
    let alias_text = symbol_string(names, alias);
    defs.insert(alias_text, def);
    true
}

} // verus!
