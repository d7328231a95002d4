//! A data definition as a module's surface exports it, and reading one back
//! into this module's definitions.
use vstd::prelude::*;

use crate::attrs::Attr;
use crate::const_eval::{symbol_string, symbol_text};
use crate::facts::{copy_key, DataVariants, DefinitionKey, SemaDataDef, SemaDataVariantDef};
use crate::surface::{surface_wf, table_nodes, SurfaceNode, SurfaceTy, SurfaceTyId};
use crate::surface_import::{
    fresh_ok, import_full, import_surface_ty, intern_name, lemma_corresponds_grow, lemma_fresh_chain, names_prefix,
};
use crate::surface_lower::{corresponds, symbol_texts};
use crate::text::{copy_names, copy_opt_string};
use crate::text_map::TextMap;
use crate::ty::{store_wf, Symbol, TyId, TyNode, TyStore};
use crate::ty_tree::store_prefix;

verus! {

/// A variant of an exported data definition: its name, discriminant,
/// payload and result types, and field types and names.
#[derive(Debug, PartialEq, Eq)]
pub struct DataVariantSurface {
    pub name: String,
    pub tag: i64,
    pub payload: Option<SurfaceTyId>,
    pub result: Option<SurfaceTyId>,
    pub field_tys: Vec<SurfaceTyId>,
    pub field_names: Vec<Option<String>>,
}

/// An exported data definition: its key, variants, type parameters by name
/// and their kinds, layout, and attributes.
#[derive(Debug, PartialEq, Eq)]
pub struct DataSurface {
    pub key: DefinitionKey,
    pub variants: Vec<DataVariantSurface>,
    pub type_params: Vec<String>,
    pub type_param_kinds: Vec<SurfaceTyId>,
    pub repr_kind: Option<String>,
    pub layout_align: Option<u32>,
    pub layout_pack: Option<u32>,
    pub frozen: bool,
    pub is_record_shape: bool,
    /// The inert attributes it carries.
    pub inert_attrs: Vec<Attr>,
    /// Its attributes of the `musi` namespace.
    pub musi_attrs: Vec<Attr>,
}

/// Every id in `ids` is in a table of `len` types.
pub open spec fn surface_ids_in(ids: Seq<SurfaceTyId>, len: int) -> bool {
    forall|k: int| 0 <= k < ids.len() ==> (#[trigger] ids[k]).index() < len
}

/// An optional id is in a table of `len` types.
pub open spec fn surface_opt_in(id: Option<SurfaceTyId>, len: int) -> bool {
    id matches Some(s) ==> s.index() < len
}

/// Every type a data surface names is in a table of `len` types.
pub open spec fn data_surface_in(s: DataSurface, len: int) -> bool {
    &&& surface_ids_in(s.type_param_kinds@, len)
    &&& forall|j: int|
        0 <= j < s.variants@.len() ==> surface_opt_in((#[trigger] s.variants@[j]).payload, len) && surface_opt_in(
            s.variants@[j].result,
            len,
        ) && surface_ids_in(s.variants@[j].field_tys@, len)
}

/// The store type `h`, added from `base` on, reads as the surface type `s`.
pub open spec fn read_as(hir: Seq<TyNode>, names: Seq<Seq<char>>, nodes: Seq<SurfaceNode>, base: int, h: TyId, s: SurfaceTyId) -> bool {
    base <= h.0 < hir.len() && corresponds(hir, names, nodes, h, s)
}

/// Both absent, or both there with `h` reading as `s`.
pub open spec fn opt_read_as(
    hir: Seq<TyNode>,
    names: Seq<Seq<char>>,
    nodes: Seq<SurfaceNode>,
    base: int,
    h: Option<TyId>,
    s: Option<SurfaceTyId>,
) -> bool {
    match (h, s) {
        (Some(a), Some(b)) => read_as(hir, names, nodes, base, a, b),
        (None, None) => true,
        _ => false,
    }
}

/// Each store type of `hs` reads as the surface type at its place in `ss`.
pub open spec fn list_read_as(
    hir: Seq<TyNode>,
    names: Seq<Seq<char>>,
    nodes: Seq<SurfaceNode>,
    base: int,
    hs: Seq<TyId>,
    ss: Seq<SurfaceTyId>,
) -> bool {
    hs.len() == ss.len() && forall|k: int| 0 <= k < hs.len() ==> read_as(hir, names, nodes, base, #[trigger] hs[k], ss[k])
}

/// The variant `d` was read from the surface variant `v`.
pub open spec fn variant_read_as(
    hir: Seq<TyNode>,
    names: Seq<Seq<char>>,
    nodes: Seq<SurfaceNode>,
    base: int,
    d: SemaDataVariantDef,
    v: DataVariantSurface,
) -> bool {
    &&& d.tag_spec() == v.tag
    &&& opt_read_as(hir, names, nodes, base, d.payload_spec(), v.payload)
    &&& opt_read_as(hir, names, nodes, base, d.result_spec(), v.result)
    &&& list_read_as(hir, names, nodes, base, d.field_tys_spec(), v.field_tys@)
    &&& d.field_names_spec() == v.field_names@
}

/// The variants `m` were read from the first `n` surface variants `vs`:
/// one for each name, read from the last variant of that name.
pub open spec fn variants_read_as(
    hir: Seq<TyNode>,
    names: Seq<Seq<char>>,
    nodes: Seq<SurfaceNode>,
    base: int,
    m: Map<Seq<char>, SemaDataVariantDef>,
    vs: Seq<DataVariantSurface>,
    n: int,
) -> bool {
    &&& forall|t: Seq<char>| #[trigger] m.contains_key(t) ==> exists|j: int| 0 <= j < n && (#[trigger] vs[j]).name@ == t
    &&& forall|j: int|
        0 <= j < n && (forall|i: int| j < i < n ==> (#[trigger] vs[i]).name@ != vs[j].name@) ==> m.contains_key(
            (#[trigger] vs[j]).name@,
        ) && variant_read_as(hir, names, nodes, base, m[vs[j].name@], vs[j])
}

/// The data definition `d` was read from the data surface `s`: the same
/// key and layout, type parameters by their names, their kinds and every
/// variant's types read from the surface's.
pub open spec fn data_read_as(
    hir: Seq<TyNode>,
    names: Seq<Seq<char>>,
    nodes: Seq<SurfaceNode>,
    base: int,
    d: SemaDataDef,
    s: DataSurface,
) -> bool {
    &&& d.key == s.key
    &&& d.repr_kind == s.repr_kind
    &&& d.layout_align == s.layout_align
    &&& d.layout_pack == s.layout_pack
    &&& d.frozen == s.frozen
    &&& d.is_record_shape == s.is_record_shape
    &&& d.type_params@.len() == s.type_params@.len()
    &&& forall|k: int|
        0 <= k < d.type_params@.len() ==> (#[trigger] d.type_params@[k]).0 < names.len() && symbol_text(
            names,
            d.type_params@[k],
        ) == s.type_params@[k]@
    &&& list_read_as(hir, names, nodes, base, d.type_param_kinds@, s.type_param_kinds@)
    &&& variants_read_as(hir, names, nodes, base, d.variants.map(), s.variants@, s.variants@.len() as int)
}

/// How the store and the name table stand while a data surface is read:
/// what was added since `base` names only interned names.
pub open spec fn reading(hir: Seq<TyNode>, names_len: int, base: int) -> bool {
    store_wf(hir) && 0 <= base <= hir.len() && fresh_ok(hir, names_len, base)
}

/// What was read keeps reading the same as the store and the table grow.
pub proof fn lemma_read_as_grow(
    hir: Seq<TyNode>,
    big: Seq<TyNode>,
    names: Seq<Seq<char>>,
    more: Seq<Seq<char>>,
    nodes: Seq<SurfaceNode>,
    base: int,
    h: TyId,
    s: SurfaceTyId,
)
    requires
        reading(hir, names.len() as int, base),
        store_wf(big),
        store_prefix(hir, big),
        names_prefix(names, more),
        read_as(hir, names, nodes, base, h, s),
    ensures
        read_as(big, more, nodes, base, h, s),
{
    lemma_corresponds_grow(hir, big, names, more, nodes, base, h, s);
}

pub(crate) proof fn lemma_list_grow(
    hir: Seq<TyNode>,
    big: Seq<TyNode>,
    names: Seq<Seq<char>>,
    more: Seq<Seq<char>>,
    nodes: Seq<SurfaceNode>,
    base: int,
    hs: Seq<TyId>,
    ss: Seq<SurfaceTyId>,
)
    requires
        reading(hir, names.len() as int, base),
        store_wf(big),
        store_prefix(hir, big),
        names_prefix(names, more),
        list_read_as(hir, names, nodes, base, hs, ss),
    ensures
        list_read_as(big, more, nodes, base, hs, ss),
{
    assert forall|k: int| 0 <= k < hs.len() implies read_as(big, more, nodes, base, #[trigger] hs[k], ss[k]) by {
        lemma_read_as_grow(hir, big, names, more, nodes, base, hs[k], ss[k]);
    }
}

proof fn lemma_opt_grow(
    hir: Seq<TyNode>,
    big: Seq<TyNode>,
    names: Seq<Seq<char>>,
    more: Seq<Seq<char>>,
    nodes: Seq<SurfaceNode>,
    base: int,
    h: Option<TyId>,
    s: Option<SurfaceTyId>,
)
    requires
        reading(hir, names.len() as int, base),
        store_wf(big),
        store_prefix(hir, big),
        names_prefix(names, more),
        opt_read_as(hir, names, nodes, base, h, s),
    ensures
        opt_read_as(big, more, nodes, base, h, s),
{
    if let (Some(a), Some(b)) = (h, s) {
        lemma_read_as_grow(hir, big, names, more, nodes, base, a, b);
    }
}

proof fn lemma_variant_grow(
    hir: Seq<TyNode>,
    big: Seq<TyNode>,
    names: Seq<Seq<char>>,
    more: Seq<Seq<char>>,
    nodes: Seq<SurfaceNode>,
    base: int,
    d: SemaDataVariantDef,
    v: DataVariantSurface,
)
    requires
        reading(hir, names.len() as int, base),
        store_wf(big),
        store_prefix(hir, big),
        names_prefix(names, more),
        variant_read_as(hir, names, nodes, base, d, v),
    ensures
        variant_read_as(big, more, nodes, base, d, v),
{
    lemma_opt_grow(hir, big, names, more, nodes, base, d.payload_spec(), v.payload);
    lemma_opt_grow(hir, big, names, more, nodes, base, d.result_spec(), v.result);
    lemma_list_grow(hir, big, names, more, nodes, base, d.field_tys_spec(), v.field_tys@);
}

proof fn lemma_variants_grow(
    hir: Seq<TyNode>,
    big: Seq<TyNode>,
    names: Seq<Seq<char>>,
    more: Seq<Seq<char>>,
    nodes: Seq<SurfaceNode>,
    base: int,
    m: Map<Seq<char>, SemaDataVariantDef>,
    vs: Seq<DataVariantSurface>,
    n: int,
)
    requires
        reading(hir, names.len() as int, base),
        store_wf(big),
        store_prefix(hir, big),
        names_prefix(names, more),
        variants_read_as(hir, names, nodes, base, m, vs, n),
    ensures
        variants_read_as(big, more, nodes, base, m, vs, n),
{
    assert forall|j: int|
        0 <= j < n && (forall|i: int| j < i < n ==> (#[trigger] vs[i]).name@ != vs[j].name@) implies m.contains_key(
        (#[trigger] vs[j]).name@,
    ) && variant_read_as(big, more, nodes, base, m[vs[j].name@], vs[j]) by {
        lemma_variant_grow(hir, big, names, more, nodes, base, m[vs[j].name@], vs[j]);
    }
}


proof fn lemma_grown(
    h0: Seq<TyNode>,
    h1: Seq<TyNode>,
    h2: Seq<TyNode>,
    n0: Seq<Seq<char>>,
    n1: Seq<Seq<char>>,
    n2: Seq<Seq<char>>,
)
    requires
        store_prefix(h0, h1),
        store_prefix(h1, h2),
        names_prefix(n0, n1),
        names_prefix(n1, n2),
    ensures
        store_prefix(h0, h2),
        names_prefix(n0, n2),
{
    assert forall|i: int| 0 <= i < h0.len() implies #[trigger] h2[i] == h0[i] by {
        assert(h2[i] == h1[i]);
    }
    assert forall|i: int| 0 <= i < n0.len() implies #[trigger] n2[i] == n0[i] by {
        assert(n2[i] == n1[i]);
    }
}

/// Reads one surface type, as a new store type.
pub(crate) fn read_ty(store: &mut TyStore, names: &mut Vec<String>, table: &Vec<SurfaceTy>, ty: SurfaceTyId, Ghost(base): Ghost<int>) -> (r:
    Option<TyId>)
    requires
        surface_wf(table_nodes(table@)),
        ty.index() < table.len(),
        reading(old(store).kinds(), old(names).len() as int, base),
    ensures
        store_prefix(old(store).kinds(), final(store).kinds()),
        names_prefix(symbol_texts(old(names)@), symbol_texts(final(names)@)),
        reading(final(store).kinds(), final(names).len() as int, base),
        match r {
            Some(h) => read_as(final(store).kinds(), symbol_texts(final(names)@), table_nodes(table@), base, h, ty),
            None => import_full(final(store).kinds(), final(names).len() as int),
        },
{
    let r = import_surface_ty(store, names, table, ty);
    proof {
        use_type_invariant(&*store);
        lemma_fresh_chain(old(store).kinds(), store.kinds(), old(names).len() as int, names.len() as int, base);
    }
    r
}

/// Reads an optional surface type; `None` when the store or the name table
/// ran out of room.
pub(crate) fn read_opt(
    store: &mut TyStore,
    names: &mut Vec<String>,
    table: &Vec<SurfaceTy>,
    ty: Option<SurfaceTyId>,
    Ghost(base): Ghost<int>,
) -> (r: Option<Option<TyId>>)
    requires
        surface_wf(table_nodes(table@)),
        surface_opt_in(ty, table.len() as int),
        reading(old(store).kinds(), old(names).len() as int, base),
    ensures
        store_prefix(old(store).kinds(), final(store).kinds()),
        names_prefix(symbol_texts(old(names)@), symbol_texts(final(names)@)),
        reading(final(store).kinds(), final(names).len() as int, base),
        match r {
            Some(o) => opt_read_as(final(store).kinds(), symbol_texts(final(names)@), table_nodes(table@), base, o, ty),
            None => import_full(final(store).kinds(), final(names).len() as int),
        },
{
    match ty {
        Some(t) => match read_ty(store, names, table, t, Ghost(base)) {
            Some(h) => Some(Some(h)),
            None => None,
        },
        None => {
            proof {
                assert(store_prefix(store.kinds(), store.kinds()));
                assert(names_prefix(symbol_texts(names@), symbol_texts(names@)));
            }
            Some(None)
        },
    }
}

/// Reads a list of surface types, in order.
pub(crate) fn read_list(
    store: &mut TyStore,
    names: &mut Vec<String>,
    table: &Vec<SurfaceTy>,
    tys: &Vec<SurfaceTyId>,
    Ghost(base): Ghost<int>,
) -> (r: Option<Vec<TyId>>)
    requires
        surface_wf(table_nodes(table@)),
        surface_ids_in(tys@, table.len() as int),
        reading(old(store).kinds(), old(names).len() as int, base),
    ensures
        store_prefix(old(store).kinds(), final(store).kinds()),
        names_prefix(symbol_texts(old(names)@), symbol_texts(final(names)@)),
        reading(final(store).kinds(), final(names).len() as int, base),
        match r {
            Some(v) => list_read_as(final(store).kinds(), symbol_texts(final(names)@), table_nodes(table@), base, v@, tys@),
            None => import_full(final(store).kinds(), final(names).len() as int),
        },
{
    let ghost nodes = table_nodes(table@);
    let mut out: Vec<TyId> = Vec::new();
    let mut k: usize = 0;
    proof {
        assert(store_prefix(store.kinds(), store.kinds()));
        assert(names_prefix(symbol_texts(names@), symbol_texts(names@)));
    }
    while k < tys.len()
        invariant
            k <= tys.len(),
            nodes == table_nodes(table@),
            surface_wf(nodes),
            surface_ids_in(tys@, table.len() as int),
            store_prefix(old(store).kinds(), store.kinds()),
            names_prefix(symbol_texts(old(names)@), symbol_texts(names@)),
            reading(store.kinds(), names.len() as int, base),
            list_read_as(store.kinds(), symbol_texts(names@), nodes, base, out@, tys@.subrange(0, k as int)),
        decreases tys.len() - k,
    {
        let ghost h0 = store.kinds();
        let ghost n0 = symbol_texts(names@);
        let ghost prev = out@;
        let h = match read_ty(store, names, table, tys[k], Ghost(base)) {
            Some(h) => h,
            None => {
                proof {
                    lemma_grown(old(store).kinds(), h0, store.kinds(), symbol_texts(old(names)@), n0, symbol_texts(names@));
                }
                return None;
            },
        };
        proof {
            lemma_grown(old(store).kinds(), h0, store.kinds(), symbol_texts(old(names)@), n0, symbol_texts(names@));
            lemma_list_grow(h0, store.kinds(), n0, symbol_texts(names@), nodes, base, prev, tys@.subrange(0, k as int));
        }
        out.push(h);
        k = k + 1;
        proof {
            let sub = tys@.subrange(0, k as int);
            assert forall|j: int| 0 <= j < out@.len() implies read_as(
                store.kinds(),
                symbol_texts(names@),
                nodes,
                base,
                #[trigger] out@[j],
                sub[j],
            ) by {
                if j < k - 1 {
                    assert(out@[j] == prev[j]);
                    assert(sub[j] == tys@.subrange(0, k - 1)[j]);
                }
            }
        }
    }
    proof {
        assert(tys@.subrange(0, k as int) =~= tys@);
    }
    Some(out)
}

/// Reads one variant: its payload, its result and its field types, in order.
fn read_variant(
    store: &mut TyStore,
    names: &mut Vec<String>,
    table: &Vec<SurfaceTy>,
    v: &DataVariantSurface,
    Ghost(base): Ghost<int>,
) -> (r: Option<SemaDataVariantDef>)
    requires
        surface_wf(table_nodes(table@)),
        surface_opt_in(v.payload, table.len() as int),
        surface_opt_in(v.result, table.len() as int),
        surface_ids_in(v.field_tys@, table.len() as int),
        reading(old(store).kinds(), old(names).len() as int, base),
    ensures
        store_prefix(old(store).kinds(), final(store).kinds()),
        names_prefix(symbol_texts(old(names)@), symbol_texts(final(names)@)),
        reading(final(store).kinds(), final(names).len() as int, base),
        match r {
            Some(d) => variant_read_as(final(store).kinds(), symbol_texts(final(names)@), table_nodes(table@), base, d, *v),
            None => import_full(final(store).kinds(), final(names).len() as int),
        },
{
    let ghost nodes = table_nodes(table@);
    let ghost h0 = store.kinds();
    let ghost n0 = symbol_texts(names@);
    let payload = match read_opt(store, names, table, v.payload, Ghost(base)) {
        Some(p) => p,
        None => {
            return None;
        },
    };
    let ghost h1 = store.kinds();
    let ghost n1 = symbol_texts(names@);
    let result = match read_opt(store, names, table, v.result, Ghost(base)) {
        Some(p) => p,
        None => {
            proof {
                lemma_grown(h0, h1, store.kinds(), n0, n1, symbol_texts(names@));
            }
            return None;
        },
    };
    let ghost h2 = store.kinds();
    let ghost n2 = symbol_texts(names@);
    proof {
        lemma_grown(h0, h1, h2, n0, n1, n2);
    }
    let field_tys = match read_list(store, names, table, &v.field_tys, Ghost(base)) {
        Some(f) => f,
        None => {
            proof {
                lemma_grown(h0, h2, store.kinds(), n0, n2, symbol_texts(names@));
            }
            return None;
        },
    };
    proof {
        let h3 = store.kinds();
        let n3 = symbol_texts(names@);
        lemma_grown(h0, h2, h3, n0, n2, n3);
        lemma_grown(h1, h2, h3, n1, n2, n3);
        lemma_opt_grow(h1, h3, n1, n3, nodes, base, payload, v.payload);
        lemma_opt_grow(h2, h3, n2, n3, nodes, base, result, v.result);
    }
    Some(SemaDataVariantDef::new(v.tag, payload, result, field_tys, copy_names(&v.field_names)))
}

/// Reads the exported data definition `surface` under the name of `alias`:
/// unless the definition is opaque, its variants, then its type parameters
/// by name and their kinds are read, and the definition is recorded under
/// the text of `alias`. `false`, with the definitions unchanged, when the
/// store or the name table ran out of room.
pub fn import_data_alias_as(
    store: &mut TyStore,
    names: &mut Vec<String>,
    defs: &mut TextMap<SemaDataDef>,
    table: &Vec<SurfaceTy>,
    alias: Symbol,
    surface: &DataSurface,
    is_opaque: bool,
) -> (done: bool)
    requires
        surface_wf(table_nodes(table@)),
        data_surface_in(*surface, table.len() as int),
    ensures
        store_prefix(old(store).kinds(), final(store).kinds()),
        names_prefix(symbol_texts(old(names)@), symbol_texts(final(names)@)),
        is_opaque ==> done && final(store).kinds() == old(store).kinds() && final(names)@ == old(names)@
            && final(defs).map() == old(defs).map(),
        !is_opaque && done ==> ({
            let t = symbol_text(symbol_texts(final(names)@), alias);
            &&& final(defs).map() == old(defs).map().insert(t, final(defs).map()[t])
            &&& data_read_as(
                final(store).kinds(),
                symbol_texts(final(names)@),
                table_nodes(table@),
                old(store).kinds().len() as int,
                final(defs).map()[t],
                *surface,
            )
        }),
        !done ==> import_full(final(store).kinds(), final(names).len() as int) && final(defs).map() == old(defs).map(),
{
    proof {
        assert(store_prefix(store.kinds(), store.kinds()));
        assert(names_prefix(symbol_texts(names@), symbol_texts(names@)));
    }
    if is_opaque {
        return true;
    }
    proof {
        use_type_invariant(&*store);
    }
    let ghost base = store.kinds().len() as int;
    let ghost nodes = table_nodes(table@);
    let ghost vs = surface.variants@;
    let mut variants: DataVariants = TextMap::new();
    let mut j: usize = 0;
    while j < surface.variants.len()
        invariant
            j <= vs.len(),
            vs == surface.variants@,
            nodes == table_nodes(table@),
            surface_wf(nodes),
            data_surface_in(*surface, table.len() as int),
            base == old(store).kinds().len(),
            store_prefix(old(store).kinds(), store.kinds()),
            names_prefix(symbol_texts(old(names)@), symbol_texts(names@)),
            reading(store.kinds(), names.len() as int, base),
            variants_read_as(store.kinds(), symbol_texts(names@), nodes, base, variants.map(), vs, j as int),
            defs.map() == old(defs).map(),
            !is_opaque,
        decreases vs.len() - j,
    {
        let ghost h0 = store.kinds();
        let ghost n0 = symbol_texts(names@);
        let ghost m0 = variants.map();
        let v = &surface.variants[j];
        let d = match read_variant(store, names, table, v, Ghost(base)) {
            Some(d) => d,
            None => {
                proof {
                    lemma_grown(old(store).kinds(), h0, store.kinds(), symbol_texts(old(names)@), n0, symbol_texts(names@));
                }
                return false;
            },
        };
        proof {
            lemma_grown(old(store).kinds(), h0, store.kinds(), symbol_texts(old(names)@), n0, symbol_texts(names@));
            lemma_variants_grow(h0, store.kinds(), n0, symbol_texts(names@), nodes, base, m0, vs, j as int);
        }
        variants.insert(v.name.clone(), d);
        proof {
            let hir = store.kinds();
            let nm = symbol_texts(names@);
            let m = variants.map();
            let n = j + 1;
            assert(m == m0.insert(vs[j as int].name@, d));
            assert forall|t: Seq<char>| #[trigger] m.contains_key(t) implies exists|i: int|
                0 <= i < n && (#[trigger] vs[i]).name@ == t by {
                if t == vs[j as int].name@ {
                    assert(vs[j as int].name@ == t);
                } else {
                    assert(m0.contains_key(t));
                    let i = choose|i: int| 0 <= i < j && (#[trigger] vs[i]).name@ == t;
                    assert(vs[i].name@ == t);
                }
            }
            assert forall|i: int|
                0 <= i < n && (forall|q: int| i < q < n ==> (#[trigger] vs[q]).name@ != vs[i].name@) implies m.contains_key(
                (#[trigger] vs[i]).name@,
            ) && variant_read_as(hir, nm, nodes, base, m[vs[i].name@], vs[i]) by {
                if i < j {
                    assert(vs[j as int].name@ != vs[i].name@);
                    assert forall|q: int| i < q < j implies (#[trigger] vs[q]).name@ != vs[i].name@ by {}
                }
            }
        }
        j = j + 1;
    }
    let ghost h1 = store.kinds();
    let ghost n1 = symbol_texts(names@);
    let mut type_params: Vec<Symbol> = Vec::new();
    let mut k: usize = 0;
    while k < surface.type_params.len()
        invariant
            k <= surface.type_params@.len(),
            type_params@.len() == k,
            store.kinds() == h1,
            !is_opaque,
            defs.map() == old(defs).map(),
            store_prefix(old(store).kinds(), h1),
            names_prefix(symbol_texts(old(names)@), n1),
            reading(h1, n1.len() as int, base),
            names_prefix(n1, symbol_texts(names@)),
            forall|q: int|
                0 <= q < k ==> (#[trigger] type_params@[q]).0 < names.len() && symbol_text(symbol_texts(names@), type_params@[q])
                    == surface.type_params@[q]@,
        decreases surface.type_params@.len() - k,
    {
        let ghost nk = symbol_texts(names@);
        let s = match intern_name(names, surface.type_params[k].as_str()) {
            Some(s) => s,
            None => {
                proof {
                    lemma_grown(old(store).kinds(), h1, h1, symbol_texts(old(names)@), n1, symbol_texts(names@));
                }
                return false;
            },
        };
        proof {
            let nm = symbol_texts(names@);
            assert(names_prefix(nk, nm));
            assert(nm[s.0 as int] == surface.type_params@[k as int]@);
            assert forall|q: int| 0 <= q < k implies symbol_text(nm, #[trigger] type_params@[q]) == symbol_text(nk, type_params@[q]) by {}
            assert forall|i: int| 0 <= i < n1.len() implies #[trigger] nm[i] == n1[i] by {
                assert(nm[i] == nk[i]);
            }
        }
        type_params.push(s);
        k = k + 1;
        proof {
            let nm = symbol_texts(names@);
            assert forall|q: int| 0 <= q < k implies (#[trigger] type_params@[q]).0 < names.len() && symbol_text(nm, type_params@[q])
                == surface.type_params@[q]@ by {
                if q < k - 1 {
                    assert(type_params@[q] == type_params@.drop_last()[q]);
                }
            }
        }
    }
    let ghost n2 = symbol_texts(names@);
    proof {
        lemma_grown(old(store).kinds(), h1, h1, symbol_texts(old(names)@), n1, n2);
        assert(store_prefix(h1, h1));
        lemma_variants_grow(h1, h1, n1, n2, nodes, base, variants.map(), vs, vs.len() as int);
        crate::surface_import::lemma_fresh_more_pub(h1, n1.len() as int, n2.len() as int, base);
    }
    let kinds = match read_list(store, names, table, &surface.type_param_kinds, Ghost(base)) {
        Some(kinds) => kinds,
        None => {
            proof {
                lemma_grown(old(store).kinds(), h1, store.kinds(), symbol_texts(old(names)@), n2, symbol_texts(names@));
            }
            return false;
        },
    };
    proof {
        let hir = store.kinds();
        let nm = symbol_texts(names@);
        lemma_grown(old(store).kinds(), h1, hir, symbol_texts(old(names)@), n2, nm);
        lemma_variants_grow(h1, hir, n2, nm, nodes, base, variants.map(), vs, vs.len() as int);
        assert forall|q: int| 0 <= q < type_params@.len() implies (#[trigger] type_params@[q]).0 < names.len() && symbol_text(
            nm,
            type_params@[q],
        ) == surface.type_params@[q]@ by {
            assert(symbol_text(nm, type_params@[q]) == symbol_text(n2, type_params@[q]));
        }
    }
    let def = SemaDataDef::new(
        copy_key(&surface.key),
        variants,
        copy_opt_string(&surface.repr_kind),
        surface.layout_align,
        surface.layout_pack,
        surface.frozen,
    ).with_type_params(type_params, kinds).with_record_shape(surface.is_record_shape);
    let alias_text = symbol_string(names, alias);
    defs.insert(alias_text, def);
    true
}

} // verus!
