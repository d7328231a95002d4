//! A shape as a module's surface exports it, and reading one back into
//! this module's shape facts.
use vstd::prelude::*;

use crate::attrs::Attr;
use crate::const_eval::symbol_text;
use crate::data_surface::{
    lemma_list_grow, lemma_read_as_grow, list_read_as, read_as, read_list, read_ty, reading, surface_ids_in,
};
use crate::facts::{
    copy_key, ConstraintFacts, ConstraintKind, DefinitionKey, LawFacts, LawParamFacts, ShapeFacts, ShapeMemberFacts,
};
use crate::surface::{surface_wf, table_nodes, SurfaceNode, SurfaceTy, SurfaceTyId};
use crate::surface_import::{import_full, intern_name, lemma_fresh_more_pub, names_prefix};
use crate::surface_lower::symbol_texts;
use crate::ty::{store_wf, Symbol, TyNode, TyStore};
use crate::ty_tree::{lemma_prefix_trans, store_prefix};

verus! {

/// A member of an exported shape: its name, parameter types and result type.
#[derive(Debug, PartialEq, Eq)]
pub struct ShapeMemberSurface {
    pub name: String,
    pub params: Vec<SurfaceTyId>,
    pub result: SurfaceTyId,
}

/// A parameter of an exported law: its name and type.
#[derive(Debug, PartialEq, Eq)]
pub struct LawParamSurface {
    pub name: String,
    pub ty: SurfaceTyId,
}

/// An exported law: its name and parameters.
#[derive(Debug, PartialEq, Eq)]
pub struct LawSurface {
    pub name: String,
    pub params: Vec<LawParamSurface>,
}

/// An exported constraint on a type parameter.
#[derive(Debug, PartialEq, Eq)]
pub struct ConstraintSurface {
    pub name: String,
    pub kind: ConstraintKind,
    pub value: SurfaceTyId,
    pub shape_key: Option<DefinitionKey>,
}

/// An exported shape: its key, type parameters by name and their kinds,
/// constraints, members and laws.
#[derive(Debug, PartialEq, Eq)]
pub struct ShapeSurface {
    pub key: DefinitionKey,
    pub type_params: Vec<String>,
    pub type_param_kinds: Vec<SurfaceTyId>,
    pub constraints: Vec<ConstraintSurface>,
    pub members: Vec<ShapeMemberSurface>,
    pub laws: Vec<LawSurface>,
    /// The inert attributes it carries.
    pub inert_attrs: Vec<Attr>,
    /// Its attributes of the `musi` namespace.
    pub musi_attrs: Vec<Attr>,
}

/// Every type a shape surface names is in a table of `len` types.
pub open spec fn shape_surface_in(s: ShapeSurface, len: int) -> bool {
    &&& surface_ids_in(s.type_param_kinds@, len)
    &&& forall|j: int| 0 <= j < s.constraints@.len() ==> (#[trigger] s.constraints@[j]).value.index() < len
    &&& forall|j: int|
        0 <= j < s.members@.len() ==> surface_ids_in((#[trigger] s.members@[j]).params@, len) && s.members@[j].result.index()
            < len
    &&& forall|j: int|
        0 <= j < s.laws@.len() ==> forall|k: int|
            0 <= k < (#[trigger] s.laws@[j]).params@.len() ==> (#[trigger] s.laws@[j].params@[k]).ty.index() < len
}

/// The symbol `s` is interned with the text `t`.
pub open spec fn text_is(names: Seq<Seq<char>>, s: Symbol, t: Seq<char>) -> bool {
    s.0 < names.len() && symbol_text(names, s) == t
}

/// The member `m` was read from the surface member `s`.
pub open spec fn member_read_as(
    hir: Seq<TyNode>,
    names: Seq<Seq<char>>,
    nodes: Seq<SurfaceNode>,
    base: int,
    m: ShapeMemberFacts,
    s: ShapeMemberSurface,
) -> bool {
    &&& text_is(names, m.name, s.name@)
    &&& list_read_as(hir, names, nodes, base, m.params@, s.params@)
    &&& read_as(hir, names, nodes, base, m.result, s.result)
}

/// The law `l` was read from the surface law `s`.
pub open spec fn law_read_as(hir: Seq<TyNode>, names: Seq<Seq<char>>, nodes: Seq<SurfaceNode>, base: int, l: LawFacts, s: LawSurface) -> bool {
    &&& text_is(names, l.name, s.name@)
    &&& l.params@.len() == s.params@.len()
    &&& forall|k: int|
        0 <= k < l.params@.len() ==> text_is(names, (#[trigger] l.params@[k]).name, s.params@[k].name@) && read_as(
            hir,
            names,
            nodes,
            base,
            l.params@[k].ty,
            s.params@[k].ty,
        )
}

/// The constraint `c` was read from the surface constraint `s`.
pub open spec fn constraint_read_as(
    hir: Seq<TyNode>,
    names: Seq<Seq<char>>,
    nodes: Seq<SurfaceNode>,
    base: int,
    c: ConstraintFacts,
    s: ConstraintSurface,
) -> bool {
    &&& text_is(names, c.name, s.name@)
    &&& c.kind == s.kind
    &&& read_as(hir, names, nodes, base, c.value, s.value)
    &&& c.shape_key == s.shape_key
}

/// The shape facts `f`, named `alias`, were read from the shape surface
/// `s`: the same key, and members, laws, constraints, type parameters and
/// their kinds read from the surface's, in order.
pub open spec fn shape_read_as(
    hir: Seq<TyNode>,
    names: Seq<Seq<char>>,
    nodes: Seq<SurfaceNode>,
    base: int,
    f: ShapeFacts,
    alias: Symbol,
    s: ShapeSurface,
) -> bool {
    &&& f.key == s.key
    &&& f.name == alias
    &&& f.members@.len() == s.members@.len()
    &&& forall|j: int| 0 <= j < f.members@.len() ==> member_read_as(hir, names, nodes, base, #[trigger] f.members@[j], s.members@[j])
    &&& f.laws@.len() == s.laws@.len()
    &&& forall|j: int| 0 <= j < f.laws@.len() ==> law_read_as(hir, names, nodes, base, #[trigger] f.laws@[j], s.laws@[j])
    &&& f.constraints@.len() == s.constraints@.len()
    &&& forall|j: int|
        0 <= j < f.constraints@.len() ==> constraint_read_as(hir, names, nodes, base, #[trigger] f.constraints@[j], s.constraints@[j])
    &&& f.type_params@.len() == s.type_params@.len()
    &&& forall|j: int| 0 <= j < f.type_params@.len() ==> text_is(names, #[trigger] f.type_params@[j], s.type_params@[j]@)
    &&& list_read_as(hir, names, nodes, base, f.type_param_kinds@, s.type_param_kinds@)
}

/// How the store and the table may grow while a shape is read.
pub open spec fn growth(h0: Seq<TyNode>, h1: Seq<TyNode>, n0: Seq<Seq<char>>, n1: Seq<Seq<char>>, base: int) -> bool {
    &&& reading(h0, n0.len() as int, base)
    &&& store_wf(h1)
    &&& store_prefix(h0, h1)
    &&& names_prefix(n0, n1)
}

pub(crate) proof fn lemma_text_grow(names: Seq<Seq<char>>, more: Seq<Seq<char>>, s: Symbol, t: Seq<char>)
    requires
        names_prefix(names, more),
        text_is(names, s, t),
    ensures
        text_is(more, s, t),
{
    assert(more[s.0 as int] == names[s.0 as int]);
}

proof fn lemma_member_grow(
    h0: Seq<TyNode>,
    h1: Seq<TyNode>,
    n0: Seq<Seq<char>>,
    n1: Seq<Seq<char>>,
    nodes: Seq<SurfaceNode>,
    base: int,
    m: ShapeMemberFacts,
    s: ShapeMemberSurface,
)
    requires
        growth(h0, h1, n0, n1, base),
        member_read_as(h0, n0, nodes, base, m, s),
    ensures
        member_read_as(h1, n1, nodes, base, m, s),
{
    lemma_text_grow(n0, n1, m.name, s.name@);
    lemma_list_grow(h0, h1, n0, n1, nodes, base, m.params@, s.params@);
    lemma_read_as_grow(h0, h1, n0, n1, nodes, base, m.result, s.result);
}

pub(crate) proof fn lemma_law_grow(
    h0: Seq<TyNode>,
    h1: Seq<TyNode>,
    n0: Seq<Seq<char>>,
    n1: Seq<Seq<char>>,
    nodes: Seq<SurfaceNode>,
    base: int,
    l: LawFacts,
    s: LawSurface,
)
    requires
        growth(h0, h1, n0, n1, base),
        law_read_as(h0, n0, nodes, base, l, s),
    ensures
        law_read_as(h1, n1, nodes, base, l, s),
{
    lemma_text_grow(n0, n1, l.name, s.name@);
    assert forall|k: int| 0 <= k < l.params@.len() implies text_is(n1, (#[trigger] l.params@[k]).name, s.params@[k].name@)
        && read_as(h1, n1, nodes, base, l.params@[k].ty, s.params@[k].ty) by {
        lemma_text_grow(n0, n1, l.params@[k].name, s.params@[k].name@);
        lemma_read_as_grow(h0, h1, n0, n1, nodes, base, l.params@[k].ty, s.params@[k].ty);
    }
}

proof fn lemma_constraint_grow(
    h0: Seq<TyNode>,
    h1: Seq<TyNode>,
    n0: Seq<Seq<char>>,
    n1: Seq<Seq<char>>,
    nodes: Seq<SurfaceNode>,
    base: int,
    c: ConstraintFacts,
    s: ConstraintSurface,
)
    requires
        growth(h0, h1, n0, n1, base),
        constraint_read_as(h0, n0, nodes, base, c, s),
    ensures
        constraint_read_as(h1, n1, nodes, base, c, s),
{
    lemma_text_grow(n0, n1, c.name, s.name@);
    lemma_read_as_grow(h0, h1, n0, n1, nodes, base, c.value, s.value);
}

proof fn lemma_members_grow(
    h0: Seq<TyNode>,
    h1: Seq<TyNode>,
    n0: Seq<Seq<char>>,
    n1: Seq<Seq<char>>,
    nodes: Seq<SurfaceNode>,
    base: int,
    ms: Seq<ShapeMemberFacts>,
    ss: Seq<ShapeMemberSurface>,
)
    requires
        growth(h0, h1, n0, n1, base),
        ms.len() <= ss.len(),
        forall|j: int| 0 <= j < ms.len() ==> member_read_as(h0, n0, nodes, base, #[trigger] ms[j], ss[j]),
    ensures
        forall|j: int| 0 <= j < ms.len() ==> member_read_as(h1, n1, nodes, base, #[trigger] ms[j], ss[j]),
{
    assert forall|j: int| 0 <= j < ms.len() implies member_read_as(h1, n1, nodes, base, #[trigger] ms[j], ss[j]) by {
        lemma_member_grow(h0, h1, n0, n1, nodes, base, ms[j], ss[j]);
    }
}

pub(crate) proof fn lemma_laws_grow(
    h0: Seq<TyNode>,
    h1: Seq<TyNode>,
    n0: Seq<Seq<char>>,
    n1: Seq<Seq<char>>,
    nodes: Seq<SurfaceNode>,
    base: int,
    ls: Seq<LawFacts>,
    ss: Seq<LawSurface>,
)
    requires
        growth(h0, h1, n0, n1, base),
        ls.len() <= ss.len(),
        forall|j: int| 0 <= j < ls.len() ==> law_read_as(h0, n0, nodes, base, #[trigger] ls[j], ss[j]),
    ensures
        forall|j: int| 0 <= j < ls.len() ==> law_read_as(h1, n1, nodes, base, #[trigger] ls[j], ss[j]),
{
    assert forall|j: int| 0 <= j < ls.len() implies law_read_as(h1, n1, nodes, base, #[trigger] ls[j], ss[j]) by {
        lemma_law_grow(h0, h1, n0, n1, nodes, base, ls[j], ss[j]);
    }
}

proof fn lemma_constraints_grow(
    h0: Seq<TyNode>,
    h1: Seq<TyNode>,
    n0: Seq<Seq<char>>,
    n1: Seq<Seq<char>>,
    nodes: Seq<SurfaceNode>,
    base: int,
    cs: Seq<ConstraintFacts>,
    ss: Seq<ConstraintSurface>,
)
    requires
        growth(h0, h1, n0, n1, base),
        cs.len() <= ss.len(),
        forall|j: int| 0 <= j < cs.len() ==> constraint_read_as(h0, n0, nodes, base, #[trigger] cs[j], ss[j]),
    ensures
        forall|j: int| 0 <= j < cs.len() ==> constraint_read_as(h1, n1, nodes, base, #[trigger] cs[j], ss[j]),
{
    assert forall|j: int| 0 <= j < cs.len() implies constraint_read_as(h1, n1, nodes, base, #[trigger] cs[j], ss[j]) by {
        lemma_constraint_grow(h0, h1, n0, n1, nodes, base, cs[j], ss[j]);
    }
}

pub(crate) proof fn lemma_texts_grow(n0: Seq<Seq<char>>, n1: Seq<Seq<char>>, syms: Seq<Symbol>, texts: Seq<String>)
    requires
        names_prefix(n0, n1),
        syms.len() <= texts.len(),
        forall|j: int| 0 <= j < syms.len() ==> text_is(n0, #[trigger] syms[j], texts[j]@),
    ensures
        forall|j: int| 0 <= j < syms.len() ==> text_is(n1, #[trigger] syms[j], texts[j]@),
{
    assert forall|j: int| 0 <= j < syms.len() implies text_is(n1, #[trigger] syms[j], texts[j]@) by {
        lemma_text_grow(n0, n1, syms[j], texts[j]@);
    }
}

pub(crate) proof fn lemma_growth_trans(
    h0: Seq<TyNode>,
    h1: Seq<TyNode>,
    h2: Seq<TyNode>,
    n0: Seq<Seq<char>>,
    n1: Seq<Seq<char>>,
    n2: Seq<Seq<char>>,
    base: int,
)
    requires
        growth(h0, h1, n0, n1, base),
        growth(h1, h2, n1, n2, base),
    ensures
        growth(h0, h2, n0, n2, base),
{
    lemma_prefix_trans(h0, h1, h2);
    assert forall|i: int| 0 <= i < n0.len() implies #[trigger] n2[i] == n0[i] by {
        assert(n2[i] == n1[i]);
    }
}

/// The members, laws and constraints read so far, each from the surface's
/// at its place.
pub open spec fn parts_read(
    hir: Seq<TyNode>,
    names: Seq<Seq<char>>,
    nodes: Seq<SurfaceNode>,
    base: int,
    ms: Seq<ShapeMemberFacts>,
    ls: Seq<LawFacts>,
    cs: Seq<ConstraintFacts>,
    s: ShapeSurface,
) -> bool {
    &&& ms.len() <= s.members@.len()
    &&& forall|j: int| 0 <= j < ms.len() ==> member_read_as(hir, names, nodes, base, #[trigger] ms[j], s.members@[j])
    &&& ls.len() <= s.laws@.len()
    &&& forall|j: int| 0 <= j < ls.len() ==> law_read_as(hir, names, nodes, base, #[trigger] ls[j], s.laws@[j])
    &&& cs.len() <= s.constraints@.len()
    &&& forall|j: int| 0 <= j < cs.len() ==> constraint_read_as(hir, names, nodes, base, #[trigger] cs[j], s.constraints@[j])
}

proof fn lemma_parts_grow(
    h0: Seq<TyNode>,
    h1: Seq<TyNode>,
    n0: Seq<Seq<char>>,
    n1: Seq<Seq<char>>,
    nodes: Seq<SurfaceNode>,
    base: int,
    ms: Seq<ShapeMemberFacts>,
    ls: Seq<LawFacts>,
    cs: Seq<ConstraintFacts>,
    s: ShapeSurface,
)
    requires
        growth(h0, h1, n0, n1, base),
        parts_read(h0, n0, nodes, base, ms, ls, cs, s),
    ensures
        parts_read(h1, n1, nodes, base, ms, ls, cs, s),
{
    lemma_members_grow(h0, h1, n0, n1, nodes, base, ms, s.members@);
    lemma_laws_grow(h0, h1, n0, n1, nodes, base, ls, s.laws@);
    lemma_constraints_grow(h0, h1, n0, n1, nodes, base, cs, s.constraints@);
}

/// Interns one name while reading, the store unchanged.
pub(crate) fn intern_step(names: &mut Vec<String>, text: &str, Ghost(hir): Ghost<Seq<TyNode>>, Ghost(base): Ghost<int>) -> (r: Option<Symbol>)
    requires
        reading(hir, old(names).len() as int, base),
    ensures
        growth(hir, hir, symbol_texts(old(names)@), symbol_texts(final(names)@), base),
        reading(hir, final(names).len() as int, base),
        match r {
            Some(s) => text_is(symbol_texts(final(names)@), s, text@),
            None => final(names).len() >= u32::MAX,
        },
{
    let r = intern_name(names, text);
    proof {
        assert(store_prefix(hir, hir));
        lemma_fresh_more_pub(hir, old(names).len() as int, names.len() as int, base);
        if let Some(s) = r {
            assert(symbol_texts(names@)[s.0 as int] == text@);
        }
    }
    r
}

/// Reads one member: its name, its parameter types, then its result type.
fn read_member(
    store: &mut TyStore,
    names: &mut Vec<String>,
    table: &Vec<SurfaceTy>,
    m: &ShapeMemberSurface,
    Ghost(base): Ghost<int>,
) -> (r: Option<ShapeMemberFacts>)
    requires
        surface_wf(table_nodes(table@)),
        surface_ids_in(m.params@, table.len() as int),
        m.result.index() < table.len(),
        reading(old(store).kinds(), old(names).len() as int, base),
    ensures
        growth(old(store).kinds(), final(store).kinds(), symbol_texts(old(names)@), symbol_texts(final(names)@), base),
        reading(final(store).kinds(), final(names).len() as int, base),
        match r {
            Some(f) => member_read_as(final(store).kinds(), symbol_texts(final(names)@), table_nodes(table@), base, f, *m),
            None => import_full(final(store).kinds(), final(names).len() as int),
        },
{
    let ghost nodes = table_nodes(table@);
    let ghost h0 = store.kinds();
    let ghost n0 = symbol_texts(names@);
    let name = match intern_step(names, m.name.as_str(), Ghost(h0), Ghost(base)) {
        Some(s) => s,
        None => {
            return None;
        },
    };
    let ghost n1 = symbol_texts(names@);
    let params = match read_list(store, names, table, &m.params, Ghost(base)) {
        Some(p) => p,
        None => {
            proof {
                lemma_growth_trans(h0, h0, store.kinds(), n0, n1, symbol_texts(names@), base);
            }
            return None;
        },
    };
    let ghost h2 = store.kinds();
    let ghost n2 = symbol_texts(names@);
    proof {
        lemma_growth_trans(h0, h0, h2, n0, n1, n2, base);
    }
    let result = match read_ty(store, names, table, m.result, Ghost(base)) {
        Some(t) => t,
        None => {
            proof {
                lemma_growth_trans(h0, h2, store.kinds(), n0, n2, symbol_texts(names@), base);
            }
            return None;
        },
    };
    proof {
        let h3 = store.kinds();
        let n3 = symbol_texts(names@);
        lemma_growth_trans(h0, h2, h3, n0, n2, n3, base);
        lemma_growth_trans(h0, h0, h3, n1, n1, n3, base);
        lemma_text_grow(n1, n3, name, m.name@);
        lemma_list_grow(h2, h3, n2, n3, nodes, base, params@, m.params@);
    }
    Some(ShapeMemberFacts::new(name, params, result))
}

/// Reads one law: its name, then each parameter's name and type.
pub(crate) fn read_law(
    store: &mut TyStore,
    names: &mut Vec<String>,
    table: &Vec<SurfaceTy>,
    l: &LawSurface,
    Ghost(base): Ghost<int>,
) -> (r: Option<LawFacts>)
    requires
        surface_wf(table_nodes(table@)),
        forall|k: int| 0 <= k < l.params@.len() ==> (#[trigger] l.params@[k]).ty.index() < table.len(),
        reading(old(store).kinds(), old(names).len() as int, base),
    ensures
        growth(old(store).kinds(), final(store).kinds(), symbol_texts(old(names)@), symbol_texts(final(names)@), base),
        reading(final(store).kinds(), final(names).len() as int, base),
        match r {
            Some(f) => law_read_as(final(store).kinds(), symbol_texts(final(names)@), table_nodes(table@), base, f, *l),
            None => import_full(final(store).kinds(), final(names).len() as int),
        },
{
    let ghost nodes = table_nodes(table@);
    let ghost h0 = store.kinds();
    let ghost n0 = symbol_texts(names@);
    let name = match intern_step(names, l.name.as_str(), Ghost(h0), Ghost(base)) {
        Some(s) => s,
        None => {
            return None;
        },
    };
    let mut params: Vec<LawParamFacts> = Vec::new();
    let mut k: usize = 0;
    while k < l.params.len()
        invariant
            k <= l.params@.len(),
            params@.len() == k,
            nodes == table_nodes(table@),
            surface_wf(nodes),
            forall|q: int| 0 <= q < l.params@.len() ==> (#[trigger] l.params@[q]).ty.index() < table.len(),
            h0 == old(store).kinds(),
            n0 == symbol_texts(old(names)@),
            growth(h0, store.kinds(), n0, symbol_texts(names@), base),
            reading(store.kinds(), names.len() as int, base),
            text_is(symbol_texts(names@), name, l.name@),
            forall|q: int|
                0 <= q < k ==> text_is(symbol_texts(names@), (#[trigger] params@[q]).name, l.params@[q].name@) && read_as(
                    store.kinds(),
                    symbol_texts(names@),
                    nodes,
                    base,
                    params@[q].ty,
                    l.params@[q].ty,
                ),
        decreases l.params@.len() - k,
    {
        let ghost h1 = store.kinds();
        let ghost n1 = symbol_texts(names@);
        let ghost prev = params@;
        let pname = match intern_step(names, l.params[k].name.as_str(), Ghost(h1), Ghost(base)) {
            Some(s) => s,
            None => {
                proof {
                    lemma_growth_trans(h0, h1, h1, n0, n1, symbol_texts(names@), base);
                }
                return None;
            },
        };
        let ghost n2 = symbol_texts(names@);
        proof {
            lemma_growth_trans(h0, h1, h1, n0, n1, n2, base);
        }
        let ty = match read_ty(store, names, table, l.params[k].ty, Ghost(base)) {
            Some(t) => t,
            None => {
                proof {
                    lemma_growth_trans(h0, h1, store.kinds(), n0, n2, symbol_texts(names@), base);
                }
                return None;
            },
        };
        proof {
            let h3 = store.kinds();
            let n3 = symbol_texts(names@);
            lemma_growth_trans(h0, h1, h3, n0, n2, n3, base);
            lemma_growth_trans(h1, h1, h3, n1, n2, n3, base);
            lemma_text_grow(n1, n3, name, l.name@);
            lemma_text_grow(n2, n3, pname, l.params@[k as int].name@);
            assert forall|q: int| 0 <= q < k implies text_is(n3, (#[trigger] prev[q]).name, l.params@[q].name@) && read_as(
                h3,
                n3,
                nodes,
                base,
                prev[q].ty,
                l.params@[q].ty,
            ) by {
                lemma_text_grow(n1, n3, prev[q].name, l.params@[q].name@);
                lemma_read_as_grow(h1, h3, n1, n3, nodes, base, prev[q].ty, l.params@[q].ty);
            }
        }
        params.push(LawParamFacts::new(pname, ty));
        k = k + 1;
        proof {
            let n3 = symbol_texts(names@);
            assert forall|q: int| 0 <= q < k implies text_is(n3, (#[trigger] params@[q]).name, l.params@[q].name@) && read_as(
                store.kinds(),
                n3,
                nodes,
                base,
                params@[q].ty,
                l.params@[q].ty,
            ) by {
                if q < k - 1 {
                    assert(params@[q] == prev[q]);
                }
            }
        }
    }
    Some(LawFacts::new(name, params))
}

/// Reads one constraint: its name, then its type.
fn read_constraint(
    store: &mut TyStore,
    names: &mut Vec<String>,
    table: &Vec<SurfaceTy>,
    c: &ConstraintSurface,
    Ghost(base): Ghost<int>,
) -> (r: Option<ConstraintFacts>)
    requires
        surface_wf(table_nodes(table@)),
        c.value.index() < table.len(),
        reading(old(store).kinds(), old(names).len() as int, base),
    ensures
        growth(old(store).kinds(), final(store).kinds(), symbol_texts(old(names)@), symbol_texts(final(names)@), base),
        reading(final(store).kinds(), final(names).len() as int, base),
        match r {
            Some(f) => constraint_read_as(final(store).kinds(), symbol_texts(final(names)@), table_nodes(table@), base, f, *c),
            None => import_full(final(store).kinds(), final(names).len() as int),
        },
{
    let ghost h0 = store.kinds();
    let ghost n0 = symbol_texts(names@);
    let name = match intern_step(names, c.name.as_str(), Ghost(h0), Ghost(base)) {
        Some(s) => s,
        None => {
            return None;
        },
    };
    let ghost n1 = symbol_texts(names@);
    let value = match read_ty(store, names, table, c.value, Ghost(base)) {
        Some(t) => t,
        None => {
            proof {
                lemma_growth_trans(h0, h0, store.kinds(), n0, n1, symbol_texts(names@), base);
            }
            return None;
        },
    };
    proof {
        lemma_growth_trans(h0, h0, store.kinds(), n0, n1, symbol_texts(names@), base);
        lemma_text_grow(n1, symbol_texts(names@), name, c.name@);
    }
    let lowered = ConstraintFacts::new(name, c.kind, value);
    match &c.shape_key {
        Some(key) => Some(lowered.with_shape_key(copy_key(key))),
        None => Some(lowered),
    }
}

/// A shape read from a surface, and the key to seal when it was imported
/// opaque.
#[derive(Debug, PartialEq, Eq)]
pub struct ShapeImport {
    pub facts: ShapeFacts,
    pub sealed: Option<DefinitionKey>,
}

/// Reads the exported shape `surface` as the shape named `alias`: its
/// members, laws and constraints, then its type parameters by name and
/// their kinds. The caller records the facts under `alias`, and seals the
/// shape's key when it was imported opaque. `None` when the store or the
/// name table ran out of room.
pub fn import_shape_alias_as(
    store: &mut TyStore,
    names: &mut Vec<String>,
    table: &Vec<SurfaceTy>,
    alias: Symbol,
    surface: &ShapeSurface,
    is_opaque: bool,
) -> (r: Option<ShapeImport>)
    requires
        surface_wf(table_nodes(table@)),
        shape_surface_in(*surface, table.len() as int),
    ensures
        store_prefix(old(store).kinds(), final(store).kinds()),
        names_prefix(symbol_texts(old(names)@), symbol_texts(final(names)@)),
        match r {
            Some(i) => shape_read_as(
                final(store).kinds(),
                symbol_texts(final(names)@),
                table_nodes(table@),
                old(store).kinds().len() as int,
                i.facts,
                alias,
                *surface,
            ) && i.sealed == (if is_opaque {
                Some(surface.key)
            } else {
                None
            }),
            None => import_full(final(store).kinds(), final(names).len() as int),
        },
{
    proof {
        use_type_invariant(&*store);
    }
    let ghost nodes = table_nodes(table@);
    let ghost h0 = store.kinds();
    let ghost n0 = symbol_texts(names@);
    let ghost base = h0.len() as int;
    let sealed = if is_opaque {
        Some(copy_key(&surface.key))
    } else {
        None
    };
    let mut members: Vec<ShapeMemberFacts> = Vec::new();
    let mut laws: Vec<LawFacts> = Vec::new();
    let mut constraints: Vec<ConstraintFacts> = Vec::new();
    proof {
        assert(store_prefix(h0, h0));
        assert(names_prefix(n0, n0));
    }
    let mut j: usize = 0;
    while j < surface.members.len()
        invariant
            j <= surface.members@.len(),
            members@.len() == j,
            laws@.len() == 0,
            constraints@.len() == 0,
            nodes == table_nodes(table@),
            surface_wf(nodes),
            shape_surface_in(*surface, table.len() as int),
            h0 == old(store).kinds(),
            n0 == symbol_texts(old(names)@),
            base == h0.len(),
            growth(h0, store.kinds(), n0, symbol_texts(names@), base),
            reading(store.kinds(), names.len() as int, base),
            parts_read(store.kinds(), symbol_texts(names@), nodes, base, members@, laws@, constraints@, *surface),
        decreases surface.members@.len() - j,
    {
        let ghost h1 = store.kinds();
        let ghost n1 = symbol_texts(names@);
        let ghost prev = members@;
        let m = match read_member(store, names, table, &surface.members[j], Ghost(base)) {
            Some(m) => m,
            None => {
                proof {
                    lemma_growth_trans(h0, h1, store.kinds(), n0, n1, symbol_texts(names@), base);
                }
                return None;
            },
        };
        proof {
            lemma_growth_trans(h0, h1, store.kinds(), n0, n1, symbol_texts(names@), base);
            lemma_parts_grow(h1, store.kinds(), n1, symbol_texts(names@), nodes, base, prev, laws@, constraints@, *surface);
        }
        members.push(m);
        j = j + 1;
        proof {
            assert forall|q: int| 0 <= q < j implies member_read_as(
                store.kinds(),
                symbol_texts(names@),
                nodes,
                base,
                #[trigger] members@[q],
                surface.members@[q],
            ) by {
                if q < j - 1 {
                    assert(members@[q] == prev[q]);
                }
            }
        }
    }
    let mut j: usize = 0;
    while j < surface.laws.len()
        invariant
            j <= surface.laws@.len(),
            members@.len() == surface.members@.len(),
            laws@.len() == j,
            constraints@.len() == 0,
            nodes == table_nodes(table@),
            surface_wf(nodes),
            shape_surface_in(*surface, table.len() as int),
            h0 == old(store).kinds(),
            n0 == symbol_texts(old(names)@),
            base == h0.len(),
            growth(h0, store.kinds(), n0, symbol_texts(names@), base),
            reading(store.kinds(), names.len() as int, base),
            parts_read(store.kinds(), symbol_texts(names@), nodes, base, members@, laws@, constraints@, *surface),
        decreases surface.laws@.len() - j,
    {
        let ghost h1 = store.kinds();
        let ghost n1 = symbol_texts(names@);
        let ghost prev = laws@;
        proof {
            assert forall|k: int| 0 <= k < surface.laws@[j as int].params@.len() implies (
            #[trigger] surface.laws@[j as int].params@[k]).ty.index() < table.len() by {}
        }
        let l = match read_law(store, names, table, &surface.laws[j], Ghost(base)) {
            Some(l) => l,
            None => {
                proof {
                    lemma_growth_trans(h0, h1, store.kinds(), n0, n1, symbol_texts(names@), base);
                }
                return None;
            },
        };
        proof {
            lemma_growth_trans(h0, h1, store.kinds(), n0, n1, symbol_texts(names@), base);
            lemma_parts_grow(h1, store.kinds(), n1, symbol_texts(names@), nodes, base, members@, prev, constraints@, *surface);
        }
        laws.push(l);
        j = j + 1;
        proof {
            assert forall|q: int| 0 <= q < j implies law_read_as(
                store.kinds(),
                symbol_texts(names@),
                nodes,
                base,
                #[trigger] laws@[q],
                surface.laws@[q],
            ) by {
                if q < j - 1 {
                    assert(laws@[q] == prev[q]);
                }
            }
        }
    }
    let mut j: usize = 0;
    while j < surface.constraints.len()
        invariant
            j <= surface.constraints@.len(),
            members@.len() == surface.members@.len(),
            laws@.len() == surface.laws@.len(),
            constraints@.len() == j,
            nodes == table_nodes(table@),
            surface_wf(nodes),
            shape_surface_in(*surface, table.len() as int),
            h0 == old(store).kinds(),
            n0 == symbol_texts(old(names)@),
            base == h0.len(),
            growth(h0, store.kinds(), n0, symbol_texts(names@), base),
            reading(store.kinds(), names.len() as int, base),
            parts_read(store.kinds(), symbol_texts(names@), nodes, base, members@, laws@, constraints@, *surface),
        decreases surface.constraints@.len() - j,
    {
        let ghost h1 = store.kinds();
        let ghost n1 = symbol_texts(names@);
        let ghost prev = constraints@;
        let c = match read_constraint(store, names, table, &surface.constraints[j], Ghost(base)) {
            Some(c) => c,
            None => {
                proof {
                    lemma_growth_trans(h0, h1, store.kinds(), n0, n1, symbol_texts(names@), base);
                }
                return None;
            },
        };
        proof {
            lemma_growth_trans(h0, h1, store.kinds(), n0, n1, symbol_texts(names@), base);
            lemma_parts_grow(h1, store.kinds(), n1, symbol_texts(names@), nodes, base, members@, laws@, prev, *surface);
        }
        constraints.push(c);
        j = j + 1;
        proof {
            assert forall|q: int| 0 <= q < j implies constraint_read_as(
                store.kinds(),
                symbol_texts(names@),
                nodes,
                base,
                #[trigger] constraints@[q],
                surface.constraints@[q],
            ) by {
                if q < j - 1 {
                    assert(constraints@[q] == prev[q]);
                }
            }
        }
    }
    let mut type_params: Vec<Symbol> = Vec::new();
    let mut j: usize = 0;
    while j < surface.type_params.len()
        invariant
            j <= surface.type_params@.len(),
            type_params@.len() == j,
            members@.len() == surface.members@.len(),
            laws@.len() == surface.laws@.len(),
            constraints@.len() == surface.constraints@.len(),
            nodes == table_nodes(table@),
            surface_wf(nodes),
            shape_surface_in(*surface, table.len() as int),
            h0 == old(store).kinds(),
            n0 == symbol_texts(old(names)@),
            base == h0.len(),
            growth(h0, store.kinds(), n0, symbol_texts(names@), base),
            reading(store.kinds(), names.len() as int, base),
            parts_read(store.kinds(), symbol_texts(names@), nodes, base, members@, laws@, constraints@, *surface),
            forall|q: int| 0 <= q < j ==> text_is(symbol_texts(names@), #[trigger] type_params@[q], surface.type_params@[q]@),
        decreases surface.type_params@.len() - j,
    {
        let ghost h1 = store.kinds();
        let ghost n1 = symbol_texts(names@);
        let ghost prev = type_params@;
        let t = match intern_step(names, surface.type_params[j].as_str(), Ghost(h1), Ghost(base)) {
            Some(t) => t,
            None => {
                proof {
                    lemma_growth_trans(h0, h1, h1, n0, n1, symbol_texts(names@), base);
                }
                return None;
            },
        };
        proof {
            lemma_growth_trans(h0, h1, h1, n0, n1, symbol_texts(names@), base);
            lemma_parts_grow(h1, h1, n1, symbol_texts(names@), nodes, base, members@, laws@, constraints@, *surface);
            lemma_texts_grow(n1, symbol_texts(names@), prev, surface.type_params@);
        }
        type_params.push(t);
        j = j + 1;
        proof {
            assert forall|q: int| 0 <= q < j implies text_is(symbol_texts(names@), #[trigger] type_params@[q], surface.type_params@[q]@) by {
                if q < j - 1 {
                    assert(type_params@[q] == prev[q]);
                }
            }
        }
    }
    let ghost h1 = store.kinds();
    let ghost n1 = symbol_texts(names@);
    let kinds = match read_list(store, names, table, &surface.type_param_kinds, Ghost(base)) {
        Some(k) => k,
        None => {
            proof {
                lemma_growth_trans(h0, h1, store.kinds(), n0, n1, symbol_texts(names@), base);
            }
            return None;
        },
    };
    proof {
        let h2 = store.kinds();
        let n2 = symbol_texts(names@);
        lemma_growth_trans(h0, h1, h2, n0, n1, n2, base);
        lemma_parts_grow(h1, h2, n1, n2, nodes, base, members@, laws@, constraints@, *surface);
        lemma_texts_grow(n1, n2, type_params@, surface.type_params@);
    }
    let facts = ShapeFacts::new(copy_key(&surface.key), alias, members, laws).with_type_params(type_params).with_type_param_kinds(
        kinds,
    ).with_constraints(constraints);
    Some(ShapeImport { facts, sealed })
}

} // verus!
