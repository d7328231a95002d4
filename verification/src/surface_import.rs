//! Reading another module's surface types into this module's type store: the
//! inverse of writing them. Names are interned into the module's name table,
//! each surface type is read once per import, children before parents.
use vstd::prelude::*;

use crate::const_eval::symbol_text;
use crate::simple::{hir_of_simple, simple_hir_ty_kind, simple_of_surface, range_to_hir_kind};
use crate::substitute::add_ty;
use crate::surface::{
    dim_nodes, field_nodes, lemma_surface_id_index, surface_children_below, surface_id, surface_range_form, surface_wf,
    table_nodes, SurfaceDim, SurfaceNode, SurfaceTy, SurfaceTyField, SurfaceTyId, SurfaceTyKind,
};
use crate::surface_lower::{
    cache_ok, corresponds, lemma_lower_corresponds, lower_spec, node_corresponds, simple_surface_node, surface_dim,
    symbol_texts, LowerState,
};
use crate::text::text_eq;
use crate::ty::{children_below, store_wf, Dim, Symbol, TyField, TyId, TyKind, TyNode, TyStore};
use crate::ty_tree::{lemma_prefix_trans, store_prefix};

verus! {

/// `small` is the start of `big`.
pub open spec fn names_prefix(small: Seq<Seq<char>>, big: Seq<Seq<char>>) -> bool {
    small.len() <= big.len() && forall|i: int| 0 <= i < small.len() ==> #[trigger] big[i] == small[i]
}

/// A dimension names a symbol below `bound`, if any.
pub open spec fn dim_sym_below(d: Dim, bound: int) -> bool {
    match d {
        Dim::Name(s) => s.0 < bound,
        _ => true,
    }
}

/// Every symbol the store type `k` names is below `bound`.
pub open spec fn node_syms_below(k: TyNode, bound: int) -> bool {
    match k {
        TyNode::Named { name, .. } => name.0 < bound,
        TyNode::Pi { binder, .. } => binder.0 < bound,
        TyNode::Array { dims, .. } => forall|j: int| 0 <= j < dims.len() ==> dim_sym_below(#[trigger] dims[j], bound),
        TyNode::Record { fields } => forall|j: int| 0 <= j < fields.len() ==> (#[trigger] fields[j]).name.0 < bound,
        _ => true,
    }
}

/// Every child of the store type `k` is at least `base`.
pub open spec fn children_from(k: TyNode, base: int) -> bool {
    match k {
        TyNode::Named { args, .. } => forall|j: int| 0 <= j < args.len() ==> (#[trigger] args[j]).0 >= base,
        TyNode::Pi { binder_ty, body, .. } => binder_ty.0 >= base && body.0 >= base,
        TyNode::Arrow { params, ret, .. } => (forall|j: int| 0 <= j < params.len() ==> (#[trigger] params[j]).0 >= base)
            && ret.0 >= base,
        TyNode::Sum { left, right } => left.0 >= base && right.0 >= base,
        TyNode::Tuple { items } => forall|j: int| 0 <= j < items.len() ==> (#[trigger] items[j]).0 >= base,
        TyNode::Sequence { item } => item.0 >= base,
        TyNode::Array { item, .. } => item.0 >= base,
        TyNode::Range { bound } => bound.0 >= base,
        TyNode::Mut { inner } => inner.0 >= base,
        TyNode::AnyShape { capability } => capability.0 >= base,
        TyNode::SomeShape { capability } => capability.0 >= base,
        TyNode::Record { fields } => forall|j: int| 0 <= j < fields.len() ==> (#[trigger] fields[j]).ty.0 >= base,
        _ => true,
    }
}

/// The types an import added, from `base` on, name only interned symbols
/// and have only added types as children.
pub open spec fn fresh_ok(hir: Seq<TyNode>, names_len: int, base: int) -> bool {
    forall|i: int| base <= i < hir.len() ==> node_syms_below(#[trigger] hir[i], names_len) && children_from(hir[i], base)
}

/// An added type keeps its meaning as the store and the name table grow.
pub proof fn lemma_corresponds_grow(
    hir: Seq<TyNode>,
    big: Seq<TyNode>,
    names: Seq<Seq<char>>,
    more: Seq<Seq<char>>,
    nodes: Seq<SurfaceNode>,
    base: int,
    h: TyId,
    s: SurfaceTyId,
)
    requires
        store_wf(hir),
        store_wf(big),
        store_prefix(hir, big),
        names_prefix(names, more),
        fresh_ok(hir, names.len() as int, base),
        base <= h.0 < hir.len(),
        corresponds(hir, names, nodes, h, s),
    ensures
        corresponds(big, more, nodes, h, s),
    decreases h.0, 1nat,
{
    lemma_node_corresponds_grow(hir, big, names, more, nodes, base, h, nodes[s.index() as int]);
}

proof fn lemma_node_corresponds_grow(
    hir: Seq<TyNode>,
    big: Seq<TyNode>,
    names: Seq<Seq<char>>,
    more: Seq<Seq<char>>,
    nodes: Seq<SurfaceNode>,
    base: int,
    h: TyId,
    n: SurfaceNode,
)
    requires
        store_wf(hir),
        store_wf(big),
        store_prefix(hir, big),
        names_prefix(names, more),
        fresh_ok(hir, names.len() as int, base),
        base <= h.0 < hir.len(),
        node_corresponds(hir, names, nodes, h, n),
    ensures
        node_corresponds(big, more, nodes, h, n),
    decreases h.0, 0nat,
{
    let k = hir[h.0 as int];
    assert(big[h.0 as int] == k);
    assert(children_below(k, h.0 as int));
    assert(node_syms_below(k, names.len() as int) && children_from(k, base));
    match k {
        TyNode::Named { name, args } => {
            if let SurfaceNode::Named { args: sa, .. } = n {
                assert(symbol_text(more, name) == symbol_text(names, name));
                assert forall|j: int| 0 <= j < args.len() implies corresponds(big, more, nodes, #[trigger] args[j], sa[j]) by {
                    lemma_corresponds_grow(hir, big, names, more, nodes, base, args[j], sa[j]);
                }
            }
        },
        TyNode::Pi { binder, binder_ty, body, .. } => {
            if let SurfaceNode::Pi { binder_ty: sb, body: sc, .. } = n {
                assert(symbol_text(more, binder) == symbol_text(names, binder));
                lemma_corresponds_grow(hir, big, names, more, nodes, base, binder_ty, sb);
                lemma_corresponds_grow(hir, big, names, more, nodes, base, body, sc);
            }
        },
        TyNode::Arrow { params, ret, .. } => {
            if let SurfaceNode::Arrow { params: sp, ret: sr, .. } = n {
                assert forall|j: int| 0 <= j < params.len() implies corresponds(big, more, nodes, #[trigger] params[j], sp[j]) by {
                    lemma_corresponds_grow(hir, big, names, more, nodes, base, params[j], sp[j]);
                }
                lemma_corresponds_grow(hir, big, names, more, nodes, base, ret, sr);
            }
        },
        TyNode::Sum { left, right } => {
            if let SurfaceNode::Sum { left: sl, right: sr } = n {
                lemma_corresponds_grow(hir, big, names, more, nodes, base, left, sl);
                lemma_corresponds_grow(hir, big, names, more, nodes, base, right, sr);
            }
        },
        TyNode::Tuple { items } => {
            if let SurfaceNode::Tuple { items: si } = n {
                assert forall|j: int| 0 <= j < items.len() implies corresponds(big, more, nodes, #[trigger] items[j], si[j]) by {
                    lemma_corresponds_grow(hir, big, names, more, nodes, base, items[j], si[j]);
                }
            }
        },
        TyNode::Sequence { item } => {
            if let SurfaceNode::Sequence { item: si } = n {
                lemma_corresponds_grow(hir, big, names, more, nodes, base, item, si);
            }
        },
        TyNode::Array { dims, item } => {
            if let SurfaceNode::Array { item: si, .. } = n {
                lemma_dims_grow(names, more, dims);
                lemma_corresponds_grow(hir, big, names, more, nodes, base, item, si);
            }
        },
        TyNode::Range { bound } => {
            if let SurfaceNode::Range { bound: sb } = n {
                lemma_corresponds_grow(hir, big, names, more, nodes, base, bound, sb);
            }
        },
        TyNode::Mut { inner } => {
            if let SurfaceNode::Mut { inner: si } = n {
                lemma_corresponds_grow(hir, big, names, more, nodes, base, inner, si);
            }
        },
        TyNode::AnyShape { capability } => {
            if let SurfaceNode::AnyShape { capability: sc } = n {
                lemma_corresponds_grow(hir, big, names, more, nodes, base, capability, sc);
            }
        },
        TyNode::SomeShape { capability } => {
            if let SurfaceNode::SomeShape { capability: sc } = n {
                lemma_corresponds_grow(hir, big, names, more, nodes, base, capability, sc);
            }
        },
        TyNode::Record { fields } => {
            if let SurfaceNode::Record { fields: sf } = n {
                assert forall|j: int| 0 <= j < fields.len() implies sf[j].0 == symbol_text(more, (#[trigger] fields[j]).name)
                    && corresponds(big, more, nodes, fields[j].ty, sf[j].1) by {
                    assert(symbol_text(more, fields[j].name) == symbol_text(names, fields[j].name));
                    lemma_corresponds_grow(hir, big, names, more, nodes, base, fields[j].ty, sf[j].1);
                }
            }
        },
        _ => {},
    }
}

/// Dimensions naming interned symbols read the same as the table grows.
pub proof fn lemma_dims_grow(names: Seq<Seq<char>>, more: Seq<Seq<char>>, dims: Seq<Dim>)
    requires
        names_prefix(names, more),
        forall|j: int| 0 <= j < dims.len() ==> dim_sym_below(#[trigger] dims[j], names.len() as int),
    ensures
        dims.map_values(|d: Dim| surface_dim(more, d)) == dims.map_values(|d: Dim| surface_dim(names, d)),
{
    assert forall|j: int| 0 <= j < dims.len() implies surface_dim(more, #[trigger] dims[j]) == surface_dim(names, dims[j]) by {
        assert(dim_sym_below(dims[j], names.len() as int));
    }
    assert(dims.map_values(|d: Dim| surface_dim(more, d)) =~= dims.map_values(|d: Dim| surface_dim(names, d)));
}

/// The symbol for `text` in the name table: the first entry with that text,
/// or else a new entry at the end; `None`, with the table unchanged, when
/// the text is not there and the table has no room for a symbol.
pub fn intern_name(names: &mut Vec<String>, text: &str) -> (r: Option<Symbol>)
    ensures
        names_prefix(symbol_texts(old(names)@), symbol_texts(final(names)@)),
        match r {
            Some(s) => s.0 < final(names).len() && final(names)@[s.0 as int]@ == text@ && (forall|j: int|
                0 <= j < s.0 ==> #[trigger] final(names)@[j]@ != text@) && (symbol_texts(final(names)@) == symbol_texts(
                old(names)@,
            ) || (s.0 == old(names).len() && symbol_texts(final(names)@) == symbol_texts(old(names)@).push(text@))),
            None => final(names)@ == old(names)@ && old(names).len() >= u32::MAX && forall|j: int|
                0 <= j < old(names).len() && j <= u32::MAX ==> #[trigger] old(names)@[j]@ != text@,
        },
{
    let mut i: usize = 0;
    while i < names.len() && i <= u32::MAX as usize
        invariant
            i <= names.len(),
            i <= u32::MAX + 1,
            names@ == old(names)@,
            forall|j: int| 0 <= j < i ==> #[trigger] names@[j]@ != text@,
        decreases names.len() - i,
    {
        if text_eq(names[i].as_str(), text) {
            proof {
                assert(symbol_texts(names@) =~= symbol_texts(old(names)@));
            }
            return Some(Symbol(i as u32));
        }
        i = i + 1;
    }
    if names.len() >= u32::MAX as usize {
        proof {
            assert(symbol_texts(names@) =~= symbol_texts(old(names)@));
        }
        return None;
    }
    let s = Symbol(names.len() as u32);
    names.push(text.to_owned());
    proof {
        assert(symbol_texts(names@) =~= symbol_texts(old(names)@).push(text@));
        assert forall|j: int| 0 <= j < s.0 implies #[trigger] names@[j]@ != text@ by {
            assert(names@[j] == old(names)@[j]);
        }
    }
    Some(s)
}


proof fn lemma_fresh_more(hir: Seq<TyNode>, n: int, m: int, base: int)
    requires
        fresh_ok(hir, n, base),
        n <= m,
    ensures
        fresh_ok(hir, m, base),
{
    assert forall|i: int| base <= i < hir.len() implies node_syms_below(#[trigger] hir[i], m) && children_from(hir[i], base) by {
        assert(node_syms_below(hir[i], n));
        match hir[i] {
            TyNode::Array { dims, .. } => {
                assert forall|j: int| 0 <= j < dims.len() implies dim_sym_below(#[trigger] dims[j], m) by {
                    assert(dim_sym_below(dims[j], n));
                }
            },
            _ => {},
        }
    }
}

proof fn lemma_wf_push(hir: Seq<TyNode>, k: TyNode)
    requires
        store_wf(hir),
        children_below(k, hir.len() as int),
    ensures
        store_wf(hir.push(k)),
        store_prefix(hir, hir.push(k)),
{
    let big = hir.push(k);
    assert forall|i: int| 0 <= i < big.len() implies children_below(#[trigger] big[i], i) by {
        if i < hir.len() {
            assert(big[i] == hir[i]);
        }
    }
}

proof fn lemma_fresh_push(hir: Seq<TyNode>, k: TyNode, n: int, base: int)
    requires
        0 <= base,
        fresh_ok(hir, n, base),
        node_syms_below(k, n),
        children_from(k, base),
    ensures
        fresh_ok(hir.push(k), n, base),
{
    let big = hir.push(k);
    assert forall|i: int| base <= i < big.len() implies node_syms_below(#[trigger] big[i], n) && children_from(big[i], base) by {
        if i < hir.len() {
            assert(big[i] == hir[i]);
        }
    }
}

proof fn lemma_names_trans(a: Seq<Seq<char>>, b: Seq<Seq<char>>, c: Seq<Seq<char>>)
    requires
        names_prefix(a, b),
        names_prefix(b, c),
    ensures
        names_prefix(a, c),
{
    assert forall|i: int| 0 <= i < a.len() implies #[trigger] c[i] == a[i] by {
        assert(c[i] == b[i]);
    }
}

/// What one import keeps: a well-formed store, the types it added from
/// `base` on, and a cache whose entries each say what their surface type says.
spec fn import_ok(
    hir: Seq<TyNode>,
    names: Seq<Seq<char>>,
    nodes: Seq<SurfaceNode>,
    cache: Seq<Option<TyId>>,
    base: int,
) -> bool {
    &&& store_wf(hir)
    &&& 0 <= base <= hir.len()
    &&& fresh_ok(hir, names.len() as int, base)
    &&& cache.len() == nodes.len()
    &&& forall|s: int|
        0 <= s < cache.len() && s <= u32::MAX && #[trigger] cache[s] is Some ==> base <= (cache[s]->0).0 < hir.len()
            && corresponds(hir, names, nodes, cache[s]->0, surface_id(s as u32))
}

/// The store type `h`, added by this import, says what surface type `s` says.
spec fn res_ok(hir: Seq<TyNode>, names: Seq<Seq<char>>, nodes: Seq<SurfaceNode>, base: int, h: TyId, s: SurfaceTyId) -> bool {
    base <= h.0 < hir.len() && corresponds(hir, names, nodes, h, s)
}

/// The store and the name table only grew.
spec fn grown(h0: Seq<TyNode>, h1: Seq<TyNode>, n0: Seq<Seq<char>>, n1: Seq<Seq<char>>) -> bool {
    store_prefix(h0, h1) && names_prefix(n0, n1)
}

/// The store or the name table has no room left.
pub open spec fn import_full(hir: Seq<TyNode>, names_len: int) -> bool {
    hir.len() == u32::MAX || names_len >= u32::MAX
}

proof fn lemma_import_ok_grow(
    hir: Seq<TyNode>,
    big: Seq<TyNode>,
    names: Seq<Seq<char>>,
    more: Seq<Seq<char>>,
    nodes: Seq<SurfaceNode>,
    cache: Seq<Option<TyId>>,
    base: int,
)
    requires
        import_ok(hir, names, nodes, cache, base),
        store_wf(big),
        store_prefix(hir, big),
        names_prefix(names, more),
        fresh_ok(big, more.len() as int, base),
    ensures
        import_ok(big, more, nodes, cache, base),
{
    assert forall|s: int|
        0 <= s < cache.len() && s <= u32::MAX && #[trigger] cache[s] is Some implies base <= (cache[s]->0).0 < big.len()
            && corresponds(big, more, nodes, cache[s]->0, surface_id(s as u32)) by {
        lemma_corresponds_grow(hir, big, names, more, nodes, base, cache[s]->0, surface_id(s as u32));
    }
}

proof fn lemma_res_grow(
    hir: Seq<TyNode>,
    big: Seq<TyNode>,
    names: Seq<Seq<char>>,
    more: Seq<Seq<char>>,
    nodes: Seq<SurfaceNode>,
    cache: Seq<Option<TyId>>,
    base: int,
    h: TyId,
    s: SurfaceTyId,
)
    requires
        import_ok(hir, names, nodes, cache, base),
        store_wf(big),
        grown(hir, big, names, more),
        res_ok(hir, names, nodes, base, h, s),
    ensures
        res_ok(big, more, nodes, base, h, s),
{
    lemma_corresponds_grow(hir, big, names, more, nodes, base, h, s);
}

/// Interning keeps what the import keeps.
proof fn lemma_after_intern(
    hir: Seq<TyNode>,
    names: Seq<Seq<char>>,
    more: Seq<Seq<char>>,
    nodes: Seq<SurfaceNode>,
    cache: Seq<Option<TyId>>,
    base: int,
)
    requires
        import_ok(hir, names, nodes, cache, base),
        names_prefix(names, more),
    ensures
        import_ok(hir, more, nodes, cache, base),
        grown(hir, hir, names, more),
{
    lemma_fresh_more(hir, names.len() as int, more.len() as int, base);
    assert(store_prefix(hir, hir));
    lemma_import_ok_grow(hir, hir, names, more, nodes, cache, base);
}

/// A simple surface type reads as its simple checker type.
proof fn lemma_simple_node(u: SurfaceTyKind)
    ensures
        simple_of_surface(u) matches Some(s) ==> simple_surface_node(hir_of_simple(s)@) == Some(u@) && children_below(
            hir_of_simple(s)@,
            0,
        ) && children_from(hir_of_simple(s)@, 0) && node_syms_below(hir_of_simple(s)@, 0) && forall|n: int, b: int|
            children_below(hir_of_simple(s)@, n) && children_from(hir_of_simple(s)@, b) && node_syms_below(
                hir_of_simple(s)@,
                n,
            ),
{
}


proof fn lemma_grown_trans(
    h0: Seq<TyNode>,
    h1: Seq<TyNode>,
    h2: Seq<TyNode>,
    n0: Seq<Seq<char>>,
    n1: Seq<Seq<char>>,
    n2: Seq<Seq<char>>,
)
    requires
        grown(h0, h1, n0, n1),
        grown(h1, h2, n1, n2),
    ensures
        grown(h0, h2, n0, n2),
{
    lemma_prefix_trans(h0, h1, h2);
    lemma_names_trans(n0, n1, n2);
}

/// A type added by this import keeps its meaning once the next one is added.
proof fn lemma_res_push(
    hir: Seq<TyNode>,
    k: TyNode,
    names: Seq<Seq<char>>,
    nodes: Seq<SurfaceNode>,
    cache: Seq<Option<TyId>>,
    base: int,
    h: TyId,
    s: SurfaceTyId,
)
    requires
        import_ok(hir, names, nodes, cache, base),
        children_below(k, hir.len() as int),
        res_ok(hir, names, nodes, base, h, s),
    ensures
        corresponds(hir.push(k), names, nodes, h, s),
{
    lemma_wf_push(hir, k);
    assert(names_prefix(names, names));
    lemma_corresponds_grow(hir, hir.push(k), names, names, nodes, base, h, s);
}

/// The checker form of surface dimensions, names interned.
fn import_dims(names: &mut Vec<String>, dims: &Vec<SurfaceDim>) -> (r: Option<Vec<Dim>>)
    ensures
        names_prefix(symbol_texts(old(names)@), symbol_texts(final(names)@)),
        match r {
            Some(v) => (forall|j: int| 0 <= j < v@.len() ==> dim_sym_below(#[trigger] v@[j], final(names).len() as int))
                && v@.map_values(|d: Dim| surface_dim(symbol_texts(final(names)@), d)) == dim_nodes(dims@),
            None => final(names).len() >= u32::MAX,
        },
{
    let mut out: Vec<Dim> = Vec::new();
    let mut i: usize = 0;
    proof {
        assert(names_prefix(symbol_texts(names@), symbol_texts(names@)));
        assert(out@.map_values(|d: Dim| surface_dim(symbol_texts(names@), d)) =~= dim_nodes(dims@.subrange(0, 0)));
    }
    while i < dims.len()
        invariant
            i <= dims.len(),
            out.len() == i,
            names_prefix(symbol_texts(old(names)@), symbol_texts(names@)),
            forall|j: int| 0 <= j < i ==> dim_sym_below(#[trigger] out@[j], names.len() as int),
            out@.map_values(|d: Dim| surface_dim(symbol_texts(names@), d)) == dim_nodes(dims@.subrange(0, i as int)),
        decreases dims.len() - i,
    {
        let ghost n0 = symbol_texts(names@);
        let ghost len0 = names.len() as int;
        let d = match &dims[i] {
            SurfaceDim::Unknown => Dim::Unknown,
            SurfaceDim::Name(n) => match intern_name(names, n.as_str()) {
                Some(s) => {
                    proof {
                        assert(symbol_texts(names@)[s.0 as int] == n@);
                    }
                    Dim::Name(s)
                },
                None => {
                    return None;
                },
            },
            SurfaceDim::Int(v) => Dim::Int(*v),
        };
        proof {
            let n1 = symbol_texts(names@);
            lemma_names_trans(symbol_texts(old(names)@), n0, n1);
            lemma_dims_grow(n0, n1, out@);
            assert forall|j: int| 0 <= j < i implies dim_sym_below(#[trigger] out@[j], names.len() as int) by {
                assert(dim_sym_below(out@[j], len0));
            }
        }
        let ghost prev = out@;
        proof {
            assert(surface_dim(symbol_texts(names@), d) == dims@[i as int]@);
        }
        out.push(d);
        i = i + 1;
        proof {
            let n1 = symbol_texts(names@);
            assert(out@.map_values(|d: Dim| surface_dim(n1, d)) =~= prev.map_values(|d: Dim| surface_dim(n1, d)).push(
                surface_dim(n1, d),
            ));
            assert(dim_nodes(dims@.subrange(0, i as int)) =~= dim_nodes(dims@.subrange(0, i - 1)).push(dims@[i - 1]@));
        }
    }
    proof {
        assert(dims@.subrange(0, i as int) =~= dims@);
    }
    Some(out)
}

/// Reads the surface types `ids`, children of the surface type `parent`.
fn import_list(
    store: &mut TyStore,
    names: &mut Vec<String>,
    table: &Vec<SurfaceTy>,
    cache: &mut Vec<Option<TyId>>,
    Ghost(base): Ghost<int>,
    Ghost(parent): Ghost<int>,
    ids: &Vec<SurfaceTyId>,
) -> (r: Option<Vec<TyId>>)
    requires
        surface_wf(table_nodes(table@)),
        parent < table.len(),
        forall|k: int| 0 <= k < ids.len() ==> (#[trigger] ids@[k]).index() < parent,
        import_ok(old(store).kinds(), symbol_texts(old(names)@), table_nodes(table@), old(cache)@, base),
    ensures
        grown(old(store).kinds(), final(store).kinds(), symbol_texts(old(names)@), symbol_texts(final(names)@)),
        import_ok(final(store).kinds(), symbol_texts(final(names)@), table_nodes(table@), final(cache)@, base),
        match r {
            Some(v) => v.len() == ids.len() && forall|k: int|
                0 <= k < ids.len() ==> res_ok(
                    final(store).kinds(),
                    symbol_texts(final(names)@),
                    table_nodes(table@),
                    base,
                    #[trigger] v@[k],
                    ids@[k],
                ),
            None => import_full(final(store).kinds(), final(names).len() as int),
        },
    decreases parent, 0int,
{
    let ghost nodes = table_nodes(table@);
    let mut out: Vec<TyId> = Vec::new();
    let mut k: usize = 0;
    proof {
        assert(store_prefix(store.kinds(), store.kinds()));
        assert(names_prefix(symbol_texts(names@), symbol_texts(names@)));
    }
    while k < ids.len()
        invariant
            k <= ids.len(),
            out.len() == k,
            nodes == table_nodes(table@),
            surface_wf(nodes),
            parent < table.len(),
            forall|j: int| 0 <= j < ids.len() ==> (#[trigger] ids@[j]).index() < parent,
            grown(old(store).kinds(), store.kinds(), symbol_texts(old(names)@), symbol_texts(names@)),
            import_ok(store.kinds(), symbol_texts(names@), nodes, cache@, base),
            forall|j: int| 0 <= j < k ==> res_ok(store.kinds(), symbol_texts(names@), nodes, base, #[trigger] out@[j], ids@[j]),
        decreases ids.len() - k,
    {
        let ghost h0 = store.kinds();
        let ghost n0 = symbol_texts(names@);
        let ghost c0 = cache@;
        let c = match import_in(store, names, table, cache, Ghost(base), ids[k]) {
            Some(c) => c,
            None => {
                proof {
                    lemma_grown_trans(old(store).kinds(), h0, store.kinds(), symbol_texts(old(names)@), n0, symbol_texts(names@));
                }
                return None;
            },
        };
        proof {
            assert forall|j: int| 0 <= j < k implies res_ok(store.kinds(), symbol_texts(names@), nodes, base, #[trigger] out@[j], ids@[j]) by {
                lemma_res_grow(h0, store.kinds(), n0, symbol_texts(names@), nodes, c0, base, out@[j], ids@[j]);
            }
            lemma_grown_trans(old(store).kinds(), h0, store.kinds(), symbol_texts(old(names)@), n0, symbol_texts(names@));
        }
        out.push(c);
        k = k + 1;
        proof {
            assert forall|j: int| 0 <= j < k implies res_ok(store.kinds(), symbol_texts(names@), nodes, base, #[trigger] out@[j], ids@[j]) by {
                if j < k - 1 {
                    assert(out@[j] == out@.drop_last()[j]);
                }
            }
        }
    }
    Some(out)
}

/// Reads the fields of a surface record type, children of the surface type
/// `parent`: each name interned, then its type read.
fn import_fields(
    store: &mut TyStore,
    names: &mut Vec<String>,
    table: &Vec<SurfaceTy>,
    cache: &mut Vec<Option<TyId>>,
    Ghost(base): Ghost<int>,
    Ghost(parent): Ghost<int>,
    fields: &Vec<SurfaceTyField>,
) -> (r: Option<Vec<TyField>>)
    requires
        surface_wf(table_nodes(table@)),
        parent < table.len(),
        forall|k: int| 0 <= k < fields.len() ==> (#[trigger] fields@[k]).ty.index() < parent,
        import_ok(old(store).kinds(), symbol_texts(old(names)@), table_nodes(table@), old(cache)@, base),
    ensures
        grown(old(store).kinds(), final(store).kinds(), symbol_texts(old(names)@), symbol_texts(final(names)@)),
        import_ok(final(store).kinds(), symbol_texts(final(names)@), table_nodes(table@), final(cache)@, base),
        match r {
            Some(v) => v.len() == fields.len() && forall|k: int|
                0 <= k < fields.len() ==> (#[trigger] v@[k]).name.0 < final(names).len() && symbol_text(
                    symbol_texts(final(names)@),
                    v@[k].name,
                ) == fields@[k].name@ && res_ok(
                    final(store).kinds(),
                    symbol_texts(final(names)@),
                    table_nodes(table@),
                    base,
                    v@[k].ty,
                    fields@[k].ty,
                ),
            None => import_full(final(store).kinds(), final(names).len() as int),
        },
    decreases parent, 0int,
{
    let ghost nodes = table_nodes(table@);
    let mut out: Vec<TyField> = Vec::new();
    let mut k: usize = 0;
    proof {
        assert(store_prefix(store.kinds(), store.kinds()));
        assert(names_prefix(symbol_texts(names@), symbol_texts(names@)));
    }
    while k < fields.len()
        invariant
            k <= fields.len(),
            out.len() == k,
            nodes == table_nodes(table@),
            surface_wf(nodes),
            parent < table.len(),
            forall|j: int| 0 <= j < fields.len() ==> (#[trigger] fields@[j]).ty.index() < parent,
            grown(old(store).kinds(), store.kinds(), symbol_texts(old(names)@), symbol_texts(names@)),
            import_ok(store.kinds(), symbol_texts(names@), nodes, cache@, base),
            forall|j: int|
                0 <= j < k ==> (#[trigger] out@[j]).name.0 < names.len() && symbol_text(symbol_texts(names@), out@[j].name)
                    == fields@[j].name@ && res_ok(store.kinds(), symbol_texts(names@), nodes, base, out@[j].ty, fields@[j].ty),
        decreases fields.len() - k,
    {
        let ghost h0 = store.kinds();
        let ghost n0 = symbol_texts(names@);
        let ghost c0 = cache@;
        let name = match intern_name(names, fields[k].name.as_str()) {
            Some(s) => s,
            None => {
                proof {
                    assert(symbol_texts(names@) == n0);
                }
                return None;
            },
        };
        proof {
            lemma_after_intern(h0, n0, symbol_texts(names@), nodes, c0, base);
            lemma_grown_trans(old(store).kinds(), h0, h0, symbol_texts(old(names)@), n0, symbol_texts(names@));
        }
        let ghost n1 = symbol_texts(names@);
        let ty = match import_in(store, names, table, cache, Ghost(base), fields[k].ty) {
            Some(c) => c,
            None => {
                proof {
                    lemma_grown_trans(old(store).kinds(), h0, store.kinds(), symbol_texts(old(names)@), n1, symbol_texts(names@));
                }
                return None;
            },
        };
        proof {
            let n2 = symbol_texts(names@);
            assert forall|j: int| 0 <= j < k implies (#[trigger] out@[j]).name.0 < names.len() && symbol_text(n2, out@[j].name)
                == fields@[j].name@ && res_ok(store.kinds(), n2, nodes, base, out@[j].ty, fields@[j].ty) by {
                assert(symbol_text(n1, out@[j].name) == symbol_text(n0, out@[j].name));
                lemma_res_grow(h0, h0, n0, n1, nodes, c0, base, out@[j].ty, fields@[j].ty);
                lemma_res_grow(h0, store.kinds(), n1, n2, nodes, c0, base, out@[j].ty, fields@[j].ty);
            }
            assert(symbol_text(n2, name) == symbol_text(n1, name));
            lemma_grown_trans(old(store).kinds(), h0, store.kinds(), symbol_texts(old(names)@), n1, n2);
        }
        out.push(TyField { name, ty });
        k = k + 1;
        proof {
            let n2 = symbol_texts(names@);
            assert forall|j: int| 0 <= j < k implies (#[trigger] out@[j]).name.0 < names.len() && symbol_text(n2, out@[j].name)
                == fields@[j].name@ && res_ok(store.kinds(), n2, nodes, base, out@[j].ty, fields@[j].ty) by {
                if j < k - 1 {
                    assert(out@[j] == out@.drop_last()[j]);
                }
            }
        }
    }
    Some(out)
}

fn import_in(
    store: &mut TyStore,
    names: &mut Vec<String>,
    table: &Vec<SurfaceTy>,
    cache: &mut Vec<Option<TyId>>,
    Ghost(base): Ghost<int>,
    id: SurfaceTyId,
) -> (r: Option<TyId>)
    requires
        surface_wf(table_nodes(table@)),
        id.index() < table.len(),
        import_ok(old(store).kinds(), symbol_texts(old(names)@), table_nodes(table@), old(cache)@, base),
    ensures
        grown(old(store).kinds(), final(store).kinds(), symbol_texts(old(names)@), symbol_texts(final(names)@)),
        import_ok(final(store).kinds(), symbol_texts(final(names)@), table_nodes(table@), final(cache)@, base),
        match r {
            Some(h) => res_ok(final(store).kinds(), symbol_texts(final(names)@), table_nodes(table@), base, h, id),
            None => import_full(final(store).kinds(), final(names).len() as int),
        },
    decreases id.index() as int, 2int,
{
    let ghost nodes = table_nodes(table@);
    let idx = id.raw() as usize;
    proof {
        lemma_surface_id_index(id, id.index());
        assert(store_prefix(store.kinds(), store.kinds()));
        assert(names_prefix(symbol_texts(names@), symbol_texts(names@)));
    }
    if let Some(h) = cache[idx] {
        return Some(h);
    }
    let ghost h0 = store.kinds();
    let ghost n0 = symbol_texts(names@);
    let kind = match import_kind(store, names, table, cache, Ghost(base), id) {
        Some(k) => k,
        None => {
            return None;
        },
    };
    let ghost h1 = store.kinds();
    let ghost nm = symbol_texts(names@);
    let ghost c1 = cache@;
    let h = match add_ty(store, kind) {
        Some(h) => h,
        None => {
            return None;
        },
    };
    proof {
        use_type_invariant(&*store);
        let big = store.kinds();
        assert(big == h1.push(kind@));
        lemma_wf_push(h1, kind@);
        lemma_fresh_push(h1, kind@, nm.len() as int, base);
        assert(names_prefix(nm, nm));
        lemma_import_ok_grow(h1, big, nm, nm, nodes, c1, base);
        lemma_grown_trans(h0, h1, big, n0, nm, nm);
        assert(corresponds(big, nm, nodes, h, id));
    }
    cache.set(idx, Some(h));
    proof {
        let big = store.kinds();
        assert forall|s: int|
            0 <= s < cache@.len() && s <= u32::MAX && #[trigger] cache@[s] is Some implies base <= (cache@[s]->0).0 < big.len()
                && corresponds(big, nm, nodes, cache@[s]->0, surface_id(s as u32)) by {
            if s == idx {
                lemma_surface_id_index(id, s as u32);
            } else {
                assert(cache@[s] == c1[s]);
            }
        }
    }
    Some(h)
}


/// The store type a surface node reads as, about to be added to `hir`:
/// children in the store, added by this import, and reading as the node's.
spec fn kind_ok(hir: Seq<TyNode>, names: Seq<Seq<char>>, nodes: Seq<SurfaceNode>, base: int, k: TyNode, n: SurfaceNode) -> bool {
    &&& children_below(k, hir.len() as int)
    &&& children_from(k, base)
    &&& node_syms_below(k, names.len() as int)
    &&& hir.len() < u32::MAX ==> node_corresponds(hir.push(k), names, nodes, TyId(hir.len() as u32), n)
}

/// The store type that surface type `id` reads as, its children read first.
fn import_kind(
    store: &mut TyStore,
    names: &mut Vec<String>,
    table: &Vec<SurfaceTy>,
    cache: &mut Vec<Option<TyId>>,
    Ghost(base): Ghost<int>,
    id: SurfaceTyId,
) -> (r: Option<TyKind>)
    requires
        surface_wf(table_nodes(table@)),
        id.index() < table.len(),
        import_ok(old(store).kinds(), symbol_texts(old(names)@), table_nodes(table@), old(cache)@, base),
    ensures
        grown(old(store).kinds(), final(store).kinds(), symbol_texts(old(names)@), symbol_texts(final(names)@)),
        import_ok(final(store).kinds(), symbol_texts(final(names)@), table_nodes(table@), final(cache)@, base),
        match r {
            Some(k) => kind_ok(
                final(store).kinds(),
                symbol_texts(final(names)@),
                table_nodes(table@),
                base,
                k@,
                table_nodes(table@)[id.index() as int],
            ),
            None => import_full(final(store).kinds(), final(names).len() as int),
        },
    decreases id.index() as int, 1int,
{
    let ghost nodes = table_nodes(table@);
    let idx = id.raw() as usize;
    proof {
        assert(nodes[id.index() as int] == table@[idx as int].kind@);
        assert(surface_children_below(nodes[id.index() as int], id.index() as int));
        assert(store_prefix(store.kinds(), store.kinds()));
        assert(names_prefix(symbol_texts(names@), symbol_texts(names@)));
    }
    let ghost h0 = store.kinds();
    let ghost n0 = symbol_texts(names@);
    let ghost c0 = cache@;
    let kind = &table[idx].kind;
    proof {
        assert(nodes[id.index() as int] == kind@);
    }
    if let Some(simple) = simple_hir_ty_kind(kind) {
        proof {
            lemma_simple_node(*kind);
            if h0.len() < u32::MAX {
                lemma_wf_push(h0, simple@);
                assert(h0.push(simple@)[h0.len() as int] == simple@);
            }
        }
        return Some(simple);
    }
    match kind {
        SurfaceTyKind::Named { name, args } => {
            proof {
                let n = nodes[id.index() as int];
                assert(n == (SurfaceNode::Named { name: name@, args: args@ }));
                assert(surface_children_below(n, id.index() as int));
                assert forall|j: int| 0 <= j < args@.len() implies (#[trigger] args@[j]).index() < id.index() as int by {
                    assert(surface_children_below(n, id.index() as int));
                    let sa = n->Named_args;
                    assert(sa == args@);
                    assert(sa[j].index() < id.index() as int);
                }
            }
            let sym = match intern_name(names, name.as_str()) {
                Some(s) => s,
                None => {
                    proof {
                        assert(symbol_texts(names@) == n0);
                    }
                    return None;
                },
            };
            proof {
                lemma_after_intern(h0, n0, symbol_texts(names@), nodes, c0, base);
            }
            let ghost n1 = symbol_texts(names@);
            let a = match import_list(store, names, table, cache, Ghost(base), Ghost(id.index() as int), args) {
                Some(a) => a,
                None => {
                    proof {
                        lemma_grown_trans(h0, h0, store.kinds(), n0, n1, symbol_texts(names@));
                    }
                    return None;
                },
            };
            let k = TyKind::Named { name: sym, args: a };
            proof {
                let hir = store.kinds();
                let nm = symbol_texts(names@);
                lemma_grown_trans(h0, h0, hir, n0, n1, nm);
                assert(n1[sym.0 as int] == name@);
                assert(symbol_text(nm, sym) == name@);
                if hir.len() < u32::MAX {
                    lemma_wf_push(hir, k@);
                    let big = hir.push(k@);
                    assert(big[hir.len() as int] == k@);
                    assert forall|j: int| 0 <= j < a@.len() implies corresponds(big, nm, nodes, #[trigger] a@[j], args@[j]) by {
                        lemma_res_push(hir, k@, nm, nodes, cache@, base, a@[j], args@[j]);
                    }
                }
            }
            Some(k)
        },
        SurfaceTyKind::Pi { binder, binder_ty, body, is_effectful } => {
            let sym = match intern_name(names, binder.as_str()) {
                Some(s) => s,
                None => {
                    proof {
                        assert(symbol_texts(names@) == n0);
                    }
                    return None;
                },
            };
            proof {
                lemma_after_intern(h0, n0, symbol_texts(names@), nodes, c0, base);
            }
            let ghost n1 = symbol_texts(names@);
            let b = match import_in(store, names, table, cache, Ghost(base), *binder_ty) {
                Some(b) => b,
                None => {
                    proof {
                        lemma_grown_trans(h0, h0, store.kinds(), n0, n1, symbol_texts(names@));
                    }
                    return None;
                },
            };
            let ghost h2 = store.kinds();
            let ghost n2 = symbol_texts(names@);
            let ghost c2 = cache@;
            proof {
                lemma_grown_trans(h0, h0, h2, n0, n1, n2);
            }
            let c = match import_in(store, names, table, cache, Ghost(base), *body) {
                Some(c) => c,
                None => {
                    proof {
                        lemma_grown_trans(h0, h2, store.kinds(), n0, n2, symbol_texts(names@));
                    }
                    return None;
                },
            };
            let k = TyKind::Pi { binder: sym, binder_ty: b, body: c, is_effectful: *is_effectful };
            proof {
                let hir = store.kinds();
                let nm = symbol_texts(names@);
                lemma_grown_trans(h0, h2, hir, n0, n2, nm);
                lemma_res_grow(h2, hir, n2, nm, nodes, c2, base, b, *binder_ty);
                assert(n1[sym.0 as int] == binder@);
                assert(symbol_text(nm, sym) == binder@);
                if hir.len() < u32::MAX {
                    lemma_wf_push(hir, k@);
                    lemma_res_push(hir, k@, nm, nodes, cache@, base, b, *binder_ty);
                    lemma_res_push(hir, k@, nm, nodes, cache@, base, c, *body);
                    assert(hir.push(k@)[hir.len() as int] == k@);
                }
            }
            Some(k)
        },
        SurfaceTyKind::Arrow { params, ret, is_effectful } => {
            proof {
                let n = nodes[id.index() as int];
                assert(n == (SurfaceNode::Arrow { params: params@, ret: *ret, is_effectful: *is_effectful }));
                assert forall|j: int| 0 <= j < params@.len() implies (#[trigger] params@[j]).index() < id.index() as int by {
                    assert(surface_children_below(n, id.index() as int));
                    let sa = n->Arrow_params;
                    assert(sa == params@);
                    assert(sa[j].index() < id.index() as int);
                }
            }
            let p = match import_list(store, names, table, cache, Ghost(base), Ghost(id.index() as int), params) {
                Some(p) => p,
                None => {
                    return None;
                },
            };
            let ghost h2 = store.kinds();
            let ghost n2 = symbol_texts(names@);
            let ghost c2 = cache@;
            let r = match import_in(store, names, table, cache, Ghost(base), *ret) {
                Some(r) => r,
                None => {
                    proof {
                        lemma_grown_trans(h0, h2, store.kinds(), n0, n2, symbol_texts(names@));
                    }
                    return None;
                },
            };
            let k = TyKind::Arrow { params: p, ret: r, is_effectful: *is_effectful };
            proof {
                let hir = store.kinds();
                let nm = symbol_texts(names@);
                lemma_grown_trans(h0, h2, hir, n0, n2, nm);
                assert forall|j: int| 0 <= j < p@.len() implies res_ok(hir, nm, nodes, base, #[trigger] p@[j], params@[j]) by {
                    lemma_res_grow(h2, hir, n2, nm, nodes, c2, base, p@[j], params@[j]);
                }
                if hir.len() < u32::MAX {
                    lemma_wf_push(hir, k@);
                    let big = hir.push(k@);
                    assert(big[hir.len() as int] == k@);
                    assert forall|j: int| 0 <= j < p@.len() implies corresponds(big, nm, nodes, #[trigger] p@[j], params@[j]) by {
                        lemma_res_push(hir, k@, nm, nodes, cache@, base, p@[j], params@[j]);
                    }
                    lemma_res_push(hir, k@, nm, nodes, cache@, base, r, *ret);
                }
            }
            Some(k)
        },
        SurfaceTyKind::Sum { left, right } => {
            let l = match import_in(store, names, table, cache, Ghost(base), *left) {
                Some(l) => l,
                None => {
                    return None;
                },
            };
            let ghost h2 = store.kinds();
            let ghost n2 = symbol_texts(names@);
            let ghost c2 = cache@;
            let r = match import_in(store, names, table, cache, Ghost(base), *right) {
                Some(r) => r,
                None => {
                    proof {
                        lemma_grown_trans(h0, h2, store.kinds(), n0, n2, symbol_texts(names@));
                    }
                    return None;
                },
            };
            let k = TyKind::Sum { left: l, right: r };
            proof {
                let hir = store.kinds();
                let nm = symbol_texts(names@);
                lemma_grown_trans(h0, h2, hir, n0, n2, nm);
                lemma_res_grow(h2, hir, n2, nm, nodes, c2, base, l, *left);
                if hir.len() < u32::MAX {
                    lemma_wf_push(hir, k@);
                    lemma_res_push(hir, k@, nm, nodes, cache@, base, l, *left);
                    lemma_res_push(hir, k@, nm, nodes, cache@, base, r, *right);
                    assert(hir.push(k@)[hir.len() as int] == k@);
                }
            }
            Some(k)
        },
        SurfaceTyKind::Tuple { items } => {
            proof {
                let n = nodes[id.index() as int];
                assert(n == (SurfaceNode::Tuple { items: items@ }));
                assert forall|j: int| 0 <= j < items@.len() implies (#[trigger] items@[j]).index() < id.index() as int by {
                    assert(surface_children_below(n, id.index() as int));
                    let sa = n->Tuple_items;
                    assert(sa == items@);
                    assert(sa[j].index() < id.index() as int);
                }
            }
            let a = match import_list(store, names, table, cache, Ghost(base), Ghost(id.index() as int), items) {
                Some(a) => a,
                None => {
                    return None;
                },
            };
            let k = TyKind::Tuple { items: a };
            proof {
                let hir = store.kinds();
                let nm = symbol_texts(names@);
                if hir.len() < u32::MAX {
                    lemma_wf_push(hir, k@);
                    let big = hir.push(k@);
                    assert(big[hir.len() as int] == k@);
                    assert forall|j: int| 0 <= j < a@.len() implies corresponds(big, nm, nodes, #[trigger] a@[j], items@[j]) by {
                        lemma_res_push(hir, k@, nm, nodes, cache@, base, a@[j], items@[j]);
                    }
                }
            }
            Some(k)
        },
        SurfaceTyKind::Sequence { item } => {
            let c = match import_in(store, names, table, cache, Ghost(base), *item) {
                Some(c) => c,
                None => {
                    return None;
                },
            };
            let k = TyKind::Sequence { item: c };
            proof {
                let hir = store.kinds();
                let nm = symbol_texts(names@);
                if hir.len() < u32::MAX {
                    lemma_wf_push(hir, k@);
                    lemma_res_push(hir, k@, nm, nodes, cache@, base, c, *item);
                    assert(hir.push(k@)[hir.len() as int] == k@);
                }
            }
            Some(k)
        },
        SurfaceTyKind::Mut { inner } => {
            let c = match import_in(store, names, table, cache, Ghost(base), *inner) {
                Some(c) => c,
                None => {
                    return None;
                },
            };
            let k = TyKind::Mut { inner: c };
            proof {
                let hir = store.kinds();
                let nm = symbol_texts(names@);
                if hir.len() < u32::MAX {
                    lemma_wf_push(hir, k@);
                    lemma_res_push(hir, k@, nm, nodes, cache@, base, c, *inner);
                    assert(hir.push(k@)[hir.len() as int] == k@);
                }
            }
            Some(k)
        },
        SurfaceTyKind::AnyShape { capability } => {
            let c = match import_in(store, names, table, cache, Ghost(base), *capability) {
                Some(c) => c,
                None => {
                    return None;
                },
            };
            let k = TyKind::AnyShape { capability: c };
            proof {
                let hir = store.kinds();
                let nm = symbol_texts(names@);
                if hir.len() < u32::MAX {
                    lemma_wf_push(hir, k@);
                    lemma_res_push(hir, k@, nm, nodes, cache@, base, c, *capability);
                    assert(hir.push(k@)[hir.len() as int] == k@);
                }
            }
            Some(k)
        },
        SurfaceTyKind::SomeShape { capability } => {
            let c = match import_in(store, names, table, cache, Ghost(base), *capability) {
                Some(c) => c,
                None => {
                    return None;
                },
            };
            let k = TyKind::SomeShape { capability: c };
            proof {
                let hir = store.kinds();
                let nm = symbol_texts(names@);
                if hir.len() < u32::MAX {
                    lemma_wf_push(hir, k@);
                    lemma_res_push(hir, k@, nm, nodes, cache@, base, c, *capability);
                    assert(hir.push(k@)[hir.len() as int] == k@);
                }
            }
            Some(k)
        },
        SurfaceTyKind::Array { dims, item } => {
            let d = match import_dims(names, dims) {
                Some(d) => d,
                None => {
                    proof {
                        lemma_after_intern(h0, n0, symbol_texts(names@), nodes, c0, base);
                    }
                    return None;
                },
            };
            proof {
                lemma_after_intern(h0, n0, symbol_texts(names@), nodes, c0, base);
            }
            let ghost n1 = symbol_texts(names@);
            let ghost len1 = names.len() as int;
            let c = match import_in(store, names, table, cache, Ghost(base), *item) {
                Some(c) => c,
                None => {
                    proof {
                        lemma_grown_trans(h0, h0, store.kinds(), n0, n1, symbol_texts(names@));
                    }
                    return None;
                },
            };
            let k = TyKind::Array { dims: d, item: c };
            proof {
                let hir = store.kinds();
                let nm = symbol_texts(names@);
                lemma_grown_trans(h0, h0, hir, n0, n1, nm);
                lemma_dims_grow(n1, nm, d@);
                assert forall|j: int| 0 <= j < d@.len() implies dim_sym_below(#[trigger] d@[j], names.len() as int) by {
                    assert(dim_sym_below(d@[j], len1));
                }
                if hir.len() < u32::MAX {
                    lemma_wf_push(hir, k@);
                    lemma_res_push(hir, k@, nm, nodes, cache@, base, c, *item);
                    assert(hir.push(k@)[hir.len() as int] == k@);
                }
            }
            Some(k)
        },
        SurfaceTyKind::Bits { width } => {
            let k = TyKind::Bits { width: *width };
            proof {
                if h0.len() < u32::MAX {
                    lemma_wf_push(h0, k@);
                    assert(h0.push(k@)[h0.len() as int] == k@);
                }
            }
            Some(k)
        },
        SurfaceTyKind::Range { .. } => {
            let form = match surface_range_form(kind) {
                Some(f) => f,
                None => {
                    return None;
                },
            };
            let c = match import_in(store, names, table, cache, Ghost(base), form.bound) {
                Some(c) => c,
                None => {
                    return None;
                },
            };
            let k = range_to_hir_kind(c);
            proof {
                let hir = store.kinds();
                let nm = symbol_texts(names@);
                if hir.len() < u32::MAX {
                    lemma_wf_push(hir, k@);
                    lemma_res_push(hir, k@, nm, nodes, cache@, base, c, form.bound);
                    assert(hir.push(k@)[hir.len() as int] == k@);
                }
            }
            Some(k)
        },
        SurfaceTyKind::Record { fields } => {
            proof {
                let n = nodes[id.index() as int];
                assert(n == (SurfaceNode::Record { fields: field_nodes(fields@) }));
                assert forall|j: int| 0 <= j < fields@.len() implies (#[trigger] fields@[j]).ty.index() < id.index() as int by {
                    assert(surface_children_below(n, id.index() as int));
                    let sf = n->Record_fields;
                    assert(sf == field_nodes(fields@));
                    assert(sf[j].1 == fields@[j].ty);
                    assert(sf[j].1.index() < id.index() as int);
                }
            }
            let f = match import_fields(store, names, table, cache, Ghost(base), Ghost(id.index() as int), fields) {
                Some(f) => f,
                None => {
                    return None;
                },
            };
            let k = TyKind::Record { fields: f };
            proof {
                let hir = store.kinds();
                let nm = symbol_texts(names@);
                let sf = field_nodes(fields@);
                if hir.len() < u32::MAX {
                    lemma_wf_push(hir, k@);
                    let big = hir.push(k@);
                    assert(big[hir.len() as int] == k@);
                    assert forall|j: int| 0 <= j < f@.len() implies sf[j].0 == symbol_text(nm, (#[trigger] f@[j]).name)
                        && corresponds(big, nm, nodes, f@[j].ty, sf[j].1) by {
                        lemma_res_push(hir, k@, nm, nodes, cache@, base, f@[j].ty, fields@[j].ty);
                    }
                }
            }
            Some(k)
        },
        _ => {
            proof {
                assert(false);
            }
            None
        },
    }
}


/// Reads the surface type `ty` of `table` into the store, names interned
/// into `names`, and returns the store type it reads as: the same shape,
/// each name by its text, children read the same way. Each surface type is
/// read once per call, into new store types that name only interned names.
/// `None` when the store or the name table ran out of room.
pub fn import_surface_ty(store: &mut TyStore, names: &mut Vec<String>, table: &Vec<SurfaceTy>, ty: SurfaceTyId) -> (r:
    Option<TyId>)
    requires
        surface_wf(table_nodes(table@)),
        ty.index() < table.len(),
    ensures
        store_prefix(old(store).kinds(), final(store).kinds()),
        names_prefix(symbol_texts(old(names)@), symbol_texts(final(names)@)),
        fresh_ok(final(store).kinds(), final(names).len() as int, old(store).kinds().len() as int),
        match r {
            Some(h) => old(store).kinds().len() <= h.0 < final(store).kinds().len() && corresponds(
                final(store).kinds(),
                symbol_texts(final(names)@),
                table_nodes(table@),
                h,
                ty,
            ),
            None => import_full(final(store).kinds(), final(names).len() as int),
        },
{
    proof {
        use_type_invariant(&*store);
    }
    let mut cache: Vec<Option<TyId>> = Vec::new();
    let mut i: usize = 0;
    while i < table.len()
        invariant
            i <= table.len(),
            cache@ == Seq::new(i as nat, |_j: int| None::<TyId>),
        decreases table.len() - i,
    {
        cache.push(None);
        i = i + 1;
        assert(cache@ =~= Seq::new(i as nat, |_j: int| None::<TyId>));
    }
    let ghost base = store.kinds().len() as int;
    proof {
        assert(import_ok(store.kinds(), symbol_texts(names@), table_nodes(table@), cache@, base));
    }
    import_in(store, names, table, &mut cache, Ghost(base), ty)
}


/// The store type `a` of `hir` and the store type `b` of `other` are the
/// same type: the same shape, names with the same texts, and children that
/// are the same types.
pub open spec fn same_ty(
    hir: Seq<TyNode>,
    names: Seq<Seq<char>>,
    a: TyId,
    other: Seq<TyNode>,
    more: Seq<Seq<char>>,
    b: TyId,
) -> bool
    decreases a.0,
    when store_wf(hir) && a.0 < hir.len()
{
    b.0 < other.len() && match hir[a.0 as int] {
        TyNode::Named { name, args } => match other[b.0 as int] {
            TyNode::Named { name: n2, args: a2 } => symbol_text(names, name) == symbol_text(more, n2) && a2.len()
                == args.len() && forall|k: int| 0 <= k < args.len() ==> same_ty(hir, names, #[trigger] args[k], other, more, a2[k]),
            _ => false,
        },
        TyNode::Pi { binder, binder_ty, body, is_effectful } => match other[b.0 as int] {
            TyNode::Pi { binder: b2, binder_ty: t2, body: c2, is_effectful: e2 } => symbol_text(names, binder)
                == symbol_text(more, b2) && e2 == is_effectful && same_ty(hir, names, binder_ty, other, more, t2) && same_ty(
                hir,
                names,
                body,
                other,
                more,
                c2,
            ),
            _ => false,
        },
        TyNode::Arrow { params, ret, is_effectful } => match other[b.0 as int] {
            TyNode::Arrow { params: p2, ret: r2, is_effectful: e2 } => e2 == is_effectful && p2.len() == params.len()
                && (forall|k: int| 0 <= k < params.len() ==> same_ty(hir, names, #[trigger] params[k], other, more, p2[k]))
                && same_ty(hir, names, ret, other, more, r2),
            _ => false,
        },
        TyNode::Sum { left, right } => match other[b.0 as int] {
            TyNode::Sum { left: l2, right: r2 } => same_ty(hir, names, left, other, more, l2) && same_ty(
                hir,
                names,
                right,
                other,
                more,
                r2,
            ),
            _ => false,
        },
        TyNode::Tuple { items } => match other[b.0 as int] {
            TyNode::Tuple { items: i2 } => i2.len() == items.len() && forall|k: int|
                0 <= k < items.len() ==> same_ty(hir, names, #[trigger] items[k], other, more, i2[k]),
            _ => false,
        },
        TyNode::Sequence { item } => match other[b.0 as int] {
            TyNode::Sequence { item: i2 } => same_ty(hir, names, item, other, more, i2),
            _ => false,
        },
        TyNode::Array { dims, item } => match other[b.0 as int] {
            TyNode::Array { dims: d2, item: i2 } => dims.map_values(|d: Dim| surface_dim(names, d)) == d2.map_values(
                |d: Dim| surface_dim(more, d),
            ) && same_ty(hir, names, item, other, more, i2),
            _ => false,
        },
        TyNode::Range { bound } => match other[b.0 as int] {
            TyNode::Range { bound: b2 } => same_ty(hir, names, bound, other, more, b2),
            _ => false,
        },
        TyNode::Mut { inner } => match other[b.0 as int] {
            TyNode::Mut { inner: i2 } => same_ty(hir, names, inner, other, more, i2),
            _ => false,
        },
        TyNode::AnyShape { capability } => match other[b.0 as int] {
            TyNode::AnyShape { capability: c2 } => same_ty(hir, names, capability, other, more, c2),
            _ => false,
        },
        TyNode::SomeShape { capability } => match other[b.0 as int] {
            TyNode::SomeShape { capability: c2 } => same_ty(hir, names, capability, other, more, c2),
            _ => false,
        },
        TyNode::Record { fields } => match other[b.0 as int] {
            TyNode::Record { fields: f2 } => f2.len() == fields.len() && forall|k: int|
                0 <= k < fields.len() ==> symbol_text(names, (#[trigger] fields[k]).name) == symbol_text(more, f2[k].name)
                    && same_ty(hir, names, fields[k].ty, other, more, f2[k].ty),
            _ => false,
        },
        k => k == other[b.0 as int],
    }
}

/// Two store types that both read as one surface type are the same type.
pub proof fn lemma_corresponds_same(
    hir: Seq<TyNode>,
    names: Seq<Seq<char>>,
    a: TyId,
    other: Seq<TyNode>,
    more: Seq<Seq<char>>,
    b: TyId,
    nodes: Seq<SurfaceNode>,
    s: SurfaceTyId,
)
    requires
        store_wf(hir),
        store_wf(other),
        a.0 < hir.len(),
        b.0 < other.len(),
        corresponds(hir, names, nodes, a, s),
        corresponds(other, more, nodes, b, s),
    ensures
        same_ty(hir, names, a, other, more, b),
    decreases a.0,
{
    let n = nodes[s.index() as int];
    let x = hir[a.0 as int];
    let y = other[b.0 as int];
    assert(node_corresponds(hir, names, nodes, a, n));
    assert(node_corresponds(other, more, nodes, b, n));
    assert(children_below(x, a.0 as int));
    assert(children_below(y, b.0 as int));
    match x {
        TyNode::Named { args, .. } => {
            assert(y is Named);
            let a2 = y->Named_args;
            let sa = n->Named_args;
            assert forall|k: int| 0 <= k < args.len() implies same_ty(hir, names, #[trigger] args[k], other, more, a2[k]) by {
                assert(corresponds(hir, names, nodes, args[k], sa[k]));
                assert(corresponds(other, more, nodes, a2[k], sa[k]));
                lemma_corresponds_same(hir, names, args[k], other, more, a2[k], nodes, sa[k]);
            }
        },
        TyNode::Pi { binder_ty, body, .. } => {
            assert(y is Pi);
            lemma_corresponds_same(hir, names, binder_ty, other, more, y->Pi_binder_ty, nodes, n->Pi_binder_ty);
            lemma_corresponds_same(hir, names, body, other, more, y->Pi_body, nodes, n->Pi_body);
        },
        TyNode::Arrow { params, ret, .. } => {
            assert(y is Arrow);
            let p2 = y->Arrow_params;
            let sp = n->Arrow_params;
            assert forall|k: int| 0 <= k < params.len() implies same_ty(hir, names, #[trigger] params[k], other, more, p2[k]) by {
                assert(corresponds(hir, names, nodes, params[k], sp[k]));
                assert(corresponds(other, more, nodes, p2[k], sp[k]));
                lemma_corresponds_same(hir, names, params[k], other, more, p2[k], nodes, sp[k]);
            }
            lemma_corresponds_same(hir, names, ret, other, more, y->Arrow_ret, nodes, n->Arrow_ret);
        },
        TyNode::Sum { left, right } => {
            assert(y is Sum);
            lemma_corresponds_same(hir, names, left, other, more, y->Sum_left, nodes, n->Sum_left);
            lemma_corresponds_same(hir, names, right, other, more, y->Sum_right, nodes, n->Sum_right);
        },
        TyNode::Tuple { items } => {
            assert(y is Tuple);
            let i2 = y->Tuple_items;
            let si = n->Tuple_items;
            assert forall|k: int| 0 <= k < items.len() implies same_ty(hir, names, #[trigger] items[k], other, more, i2[k]) by {
                assert(corresponds(hir, names, nodes, items[k], si[k]));
                assert(corresponds(other, more, nodes, i2[k], si[k]));
                lemma_corresponds_same(hir, names, items[k], other, more, i2[k], nodes, si[k]);
            }
        },
        TyNode::Sequence { item } => {
            assert(y is Sequence);
            lemma_corresponds_same(hir, names, item, other, more, y->Sequence_item, nodes, n->Sequence_item);
        },
        TyNode::Array { item, .. } => {
            assert(y is Array);
            lemma_corresponds_same(hir, names, item, other, more, y->Array_item, nodes, n->Array_item);
        },
        TyNode::Range { bound } => {
            assert(y is Range);
            lemma_corresponds_same(hir, names, bound, other, more, y->Range_bound, nodes, n->Range_bound);
        },
        TyNode::Mut { inner } => {
            assert(y is Mut);
            lemma_corresponds_same(hir, names, inner, other, more, y->Mut_inner, nodes, n->Mut_inner);
        },
        TyNode::AnyShape { capability } => {
            assert(y is AnyShape);
            lemma_corresponds_same(hir, names, capability, other, more, y->AnyShape_capability, nodes, n->AnyShape_capability);
        },
        TyNode::SomeShape { capability } => {
            assert(y is SomeShape);
            lemma_corresponds_same(
                hir,
                names,
                capability,
                other,
                more,
                y->SomeShape_capability,
                nodes,
                n->SomeShape_capability,
            );
        },
        TyNode::Record { fields } => {
            assert(y is Record);
            let f2 = y->Record_fields;
            let sf = n->Record_fields;
            assert forall|k: int| 0 <= k < fields.len() implies symbol_text(names, (#[trigger] fields[k]).name) == symbol_text(
                more,
                f2[k].name,
            ) && same_ty(hir, names, fields[k].ty, other, more, f2[k].ty) by {
                assert(corresponds(hir, names, nodes, fields[k].ty, sf[k].1));
                assert(corresponds(other, more, nodes, f2[k].ty, sf[k].1));
                lemma_corresponds_same(hir, names, fields[k].ty, other, more, f2[k].ty, nodes, sf[k].1);
            }
        },
        _ => {},
    }
}

/// Reading back a type written into a surface gives the same type: once
/// `SurfaceTyBuilder::lower` has written store type `id` as a surface type,
/// any store type that reads as that surface type, as the one
/// `import_surface_ty` returns for it does, is the same type as `id`, in
/// whatever store and name table it was read into.
pub proof fn lemma_import_undoes_lower(
    hir: Seq<TyNode>,
    names: Seq<Seq<char>>,
    st: LowerState,
    id: TyId,
    other: Seq<TyNode>,
    more: Seq<Seq<char>>,
    b: TyId,
)
    requires
        store_wf(hir),
        id.0 < hir.len(),
        cache_ok(hir, names, st),
        lower_spec(hir, names, st, id).1.nodes.len() <= u32::MAX + 1,
        store_wf(other),
        b.0 < other.len(),
        corresponds(other, more, lower_spec(hir, names, st, id).1.nodes, b, lower_spec(hir, names, st, id).0),
    ensures
        same_ty(hir, names, id, other, more, b),
{
    let (sid, st2) = lower_spec(hir, names, st, id);
    lemma_lower_corresponds(hir, names, st, id);
    lemma_corresponds_same(hir, names, id, other, more, b, st2.nodes, sid);
}


/// What two reads in a row add keeps what each read added: new types name
/// only interned names and have only new types as children.
pub proof fn lemma_fresh_chain(hir: Seq<TyNode>, big: Seq<TyNode>, n: int, m: int, b0: int)
    requires
        fresh_ok(hir, n, b0),
        store_prefix(hir, big),
        fresh_ok(big, m, hir.len() as int),
        0 <= b0 <= hir.len(),
        n <= m,
    ensures
        fresh_ok(big, m, b0),
{
    lemma_fresh_more(hir, n, m, b0);
    assert forall|i: int| b0 <= i < big.len() implies node_syms_below(#[trigger] big[i], m) && children_from(big[i], b0) by {
        if i < hir.len() {
            assert(big[i] == hir[i]);
        } else {
            assert(children_from(big[i], hir.len() as int));
        }
    }
}


/// What a read added keeps naming only interned names as the table grows.
pub proof fn lemma_fresh_more_pub(hir: Seq<TyNode>, n: int, m: int, base: int)
    requires
        fresh_ok(hir, n, base),
        n <= m,
    ensures
        fresh_ok(hir, m, base),
{
    lemma_fresh_more(hir, n, m, base);
}

} // verus!
