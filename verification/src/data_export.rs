//! Writing a data definition into a module's surface, and what reading it
//! back gives.
use vstd::prelude::*;

use crate::attrs::{is_inert_export, is_musi_export, split_export_attrs, Attr};
use crate::const_eval::{symbol_string, symbol_text};
use crate::data_surface::{
    data_read_as, list_read_as, opt_read_as, read_as, variant_read_as, DataSurface, DataVariantSurface,
};
use crate::facts::{copy_key, SemaDataDef, SemaDataVariantDef};
use crate::name_set::{lemma_text_lt_irreflexive, sorted_names};
use crate::surface::{surface_wf, SurfaceNode, SurfaceTyId};
use crate::surface_import::{lemma_corresponds_same, same_ty};
use crate::surface_lower::{
    cache_ok, corresponds, lemma_corresponds_extend, lemma_lower_corresponds, lemma_lower_grows, lemma_lower_wf,
    lower_spec, nodes_prefix, symbol_texts, LowerState, SurfaceTyBuilder,
};
use crate::text::{copy_names, copy_opt_string};
use crate::text_map::lemma_sorted_index_of;
use crate::ty::{store_wf, TyId, TyNode, TyStore};

verus! {

/// Both absent, or both there with `s` written from `h`.
pub open spec fn opt_lowered(hir: Seq<TyNode>, names: Seq<Seq<char>>, nodes: Seq<SurfaceNode>, h: Option<TyId>, s: Option<SurfaceTyId>) -> bool {
    match (h, s) {
        (Some(a), Some(b)) => corresponds(hir, names, nodes, a, b),
        (None, None) => true,
        _ => false,
    }
}

/// Each surface type of `ss` was written from the store type at its place
/// in `hs`.
pub open spec fn list_lowered(hir: Seq<TyNode>, names: Seq<Seq<char>>, nodes: Seq<SurfaceNode>, hs: Seq<TyId>, ss: Seq<SurfaceTyId>) -> bool {
    hs.len() == ss.len() && forall|k: int| 0 <= k < hs.len() ==> corresponds(hir, names, nodes, #[trigger] hs[k], ss[k])
}

/// The surface variant `v` was written from the variant `d`.
pub open spec fn variant_lowered_as(
    hir: Seq<TyNode>,
    names: Seq<Seq<char>>,
    nodes: Seq<SurfaceNode>,
    d: SemaDataVariantDef,
    v: DataVariantSurface,
) -> bool {
    &&& v.tag == d.tag_spec()
    &&& opt_lowered(hir, names, nodes, d.payload_spec(), v.payload)
    &&& opt_lowered(hir, names, nodes, d.result_spec(), v.result)
    &&& list_lowered(hir, names, nodes, d.field_tys_spec(), v.field_tys@)
    &&& v.field_names@ == d.field_names_spec()
}

/// The data surface `s` was written from the data definition `d`: the same
/// key and layout, type parameters by their texts and their kinds written,
/// and, unless the definition is exported opaque, one variant for each of
/// its variants, in name order.
pub open spec fn data_lowered_as(
    hir: Seq<TyNode>,
    names: Seq<Seq<char>>,
    nodes: Seq<SurfaceNode>,
    d: SemaDataDef,
    s: DataSurface,
    opaque: bool,
) -> bool {
    &&& s.key == d.key
    &&& s.repr_kind == d.repr_kind
    &&& s.layout_align == d.layout_align
    &&& s.layout_pack == d.layout_pack
    &&& s.frozen == d.frozen
    &&& s.is_record_shape == d.is_record_shape
    &&& s.type_params@.len() == d.type_params@.len()
    &&& forall|k: int| 0 <= k < s.type_params@.len() ==> (#[trigger] s.type_params@[k])@ == symbol_text(names, d.type_params@[k])
    &&& list_lowered(hir, names, nodes, d.type_param_kinds@, s.type_param_kinds@)
    &&& if opaque {
        s.variants@.len() == 0
    } else {
        &&& s.variants@.len() == d.variants.names().len()
        &&& forall|j: int| 0 <= j < s.variants@.len() ==> (#[trigger] s.variants@[j]).name@ == d.variants.names()[j]
        &&& forall|i: int, j: int| 0 <= i < j < s.variants@.len() ==> (#[trigger] s.variants@[i]).name@ != (
        #[trigger] s.variants@[j]).name@
        &&& forall|j: int|
            0 <= j < s.variants@.len() ==> d.variants.map().contains_key((#[trigger] s.variants@[j]).name@)
                && variant_lowered_as(hir, names, nodes, d.variants.map()[s.variants@[j].name@], s.variants@[j])
        &&& forall|t: Seq<char>| #[trigger] d.variants.map().contains_key(t) ==> exists|j: int|
            0 <= j < s.variants@.len() && (#[trigger] s.variants@[j]).name@ == t
    }
}

/// Writing keeps every surface type written before saying the same.
pub(crate) proof fn lemma_list_lowered_extend(
    hir: Seq<TyNode>,
    names: Seq<Seq<char>>,
    small: Seq<SurfaceNode>,
    big: Seq<SurfaceNode>,
    hs: Seq<TyId>,
    ss: Seq<SurfaceTyId>,
)
    requires
        store_wf(hir),
        nodes_prefix(small, big),
        list_lowered(hir, names, small, hs, ss),
        forall|k: int| 0 <= k < hs.len() ==> (#[trigger] hs[k]).0 < hir.len(),
    ensures
        list_lowered(hir, names, big, hs, ss),
{
    assert forall|k: int| 0 <= k < hs.len() implies corresponds(hir, names, big, #[trigger] hs[k], ss[k]) by {
        lemma_corresponds_extend(hir, names, small, big, hs[k], ss[k]);
    }
}

proof fn lemma_opt_lowered_extend(
    hir: Seq<TyNode>,
    names: Seq<Seq<char>>,
    small: Seq<SurfaceNode>,
    big: Seq<SurfaceNode>,
    h: Option<TyId>,
    s: Option<SurfaceTyId>,
)
    requires
        store_wf(hir),
        nodes_prefix(small, big),
        opt_lowered(hir, names, small, h, s),
        h matches Some(t) ==> t.0 < hir.len(),
    ensures
        opt_lowered(hir, names, big, h, s),
{
    if let (Some(a), Some(b)) = (h, s) {
        lemma_corresponds_extend(hir, names, small, big, a, b);
    }
}

proof fn lemma_variant_lowered_extend(
    hir: Seq<TyNode>,
    names: Seq<Seq<char>>,
    small: Seq<SurfaceNode>,
    big: Seq<SurfaceNode>,
    d: SemaDataVariantDef,
    v: DataVariantSurface,
)
    requires
        store_wf(hir),
        nodes_prefix(small, big),
        variant_tys_in(hir.len() as int, d),
        variant_lowered_as(hir, names, small, d, v),
    ensures
        variant_lowered_as(hir, names, big, d, v),
{
    lemma_opt_lowered_extend(hir, names, small, big, d.payload_spec(), v.payload);
    lemma_opt_lowered_extend(hir, names, small, big, d.result_spec(), v.result);
    lemma_list_lowered_extend(hir, names, small, big, d.field_tys_spec(), v.field_tys@);
}

/// Every type a variant names is in a store of `len` types.
pub open spec fn variant_tys_in(len: int, d: SemaDataVariantDef) -> bool {
    &&& (d.payload_spec() matches Some(t) ==> t.0 < len)
    &&& (d.result_spec() matches Some(t) ==> t.0 < len)
    &&& forall|k: int| 0 <= k < d.field_tys_spec().len() ==> (#[trigger] d.field_tys_spec()[k]).0 < len
}

/// Every type a data definition names is in a store of `len` types.
pub open spec fn data_tys_in(len: int, d: SemaDataDef) -> bool {
    &&& forall|k: int| 0 <= k < d.type_param_kinds@.len() ==> (#[trigger] d.type_param_kinds@[k]).0 < len
    &&& forall|t: Seq<char>| #[trigger] d.variants.map().contains_key(t) ==> variant_tys_in(len, d.variants.map()[t])
}

/// What writing from state `st0` to state `st` keeps, as long as the
/// table's ids have not run out: the cache says what it should, and, if
/// the table had children before parents, it still has.
pub open spec fn lowering_ok(hir: Seq<TyNode>, names: Seq<Seq<char>>, st0: LowerState, st: LowerState) -> bool {
    cache_ok(hir, names, st0) && st.nodes.len() <= u32::MAX + 1 ==> cache_ok(hir, names, st) && (surface_wf(st0.nodes)
        ==> surface_wf(st.nodes))
}

/// Writes one store type.
pub(crate) fn lower_one(builder: &mut SurfaceTyBuilder, hir: &TyStore, names: &Vec<String>, h: TyId) -> (r: SurfaceTyId)
    requires
        old(builder).state().cache.len() == hir.kinds().len(),
        h.0 < hir.kinds().len(),
    ensures
        final(builder).state().cache.len() == old(builder).state().cache.len(),
        nodes_prefix(old(builder).state().nodes, final(builder).state().nodes),
        lowering_ok(hir.kinds(), symbol_texts(names@), old(builder).state(), final(builder).state()),
        cache_ok(hir.kinds(), symbol_texts(names@), old(builder).state()) && final(builder).state().nodes.len() <= u32::MAX
            + 1 ==> corresponds(hir.kinds(), symbol_texts(names@), final(builder).state().nodes, h, r),
{
    proof {
        use_type_invariant(hir);
        lemma_lower_grows(hir.kinds(), symbol_texts(names@), builder.state(), h);
        if cache_ok(hir.kinds(), symbol_texts(names@), builder.state())
            && lower_spec(hir.kinds(), symbol_texts(names@), builder.state(), h).1.nodes.len() <= u32::MAX + 1 {
            lemma_lower_corresponds(hir.kinds(), symbol_texts(names@), builder.state(), h);
            if surface_wf(builder.state().nodes) {
                lemma_lower_wf(hir.kinds(), symbol_texts(names@), builder.state(), h);
            }
        }
    }
    builder.lower(hir, names, h)
}

pub(crate) proof fn lemma_lowering_trans(hir: Seq<TyNode>, names: Seq<Seq<char>>, a: LowerState, b: LowerState, c: LowerState)
    requires
        nodes_prefix(b.nodes, c.nodes),
        lowering_ok(hir, names, a, b),
        lowering_ok(hir, names, b, c),
    ensures
        lowering_ok(hir, names, a, c),
{
}

pub(crate) proof fn lemma_nodes_trans(a: Seq<SurfaceNode>, b: Seq<SurfaceNode>, c: Seq<SurfaceNode>)
    requires
        nodes_prefix(a, b),
        nodes_prefix(b, c),
    ensures
        nodes_prefix(a, c),
{
    assert forall|i: int| 0 <= i < a.len() implies #[trigger] c[i] == a[i] by {
        assert(c[i] == b[i]);
    }
}

/// Writes store types in order.
pub(crate) fn lower_list(builder: &mut SurfaceTyBuilder, hir: &TyStore, names: &Vec<String>, hs: &Vec<TyId>) -> (r: Vec<SurfaceTyId>)
    requires
        old(builder).state().cache.len() == hir.kinds().len(),
        forall|k: int| 0 <= k < hs@.len() ==> (#[trigger] hs@[k]).0 < hir.kinds().len(),
    ensures
        final(builder).state().cache.len() == old(builder).state().cache.len(),
        nodes_prefix(old(builder).state().nodes, final(builder).state().nodes),
        lowering_ok(hir.kinds(), symbol_texts(names@), old(builder).state(), final(builder).state()),
        cache_ok(hir.kinds(), symbol_texts(names@), old(builder).state()) && final(builder).state().nodes.len() <= u32::MAX
            + 1 ==> list_lowered(hir.kinds(), symbol_texts(names@), final(builder).state().nodes, hs@, r@),
{
    proof {
        use_type_invariant(hir);
    }
    let ghost tys = hir.kinds();
    let ghost nm = symbol_texts(names@);
    let ghost st0 = builder.state();
    let mut out: Vec<SurfaceTyId> = Vec::new();
    let mut k: usize = 0;
    proof {
        assert(nodes_prefix(st0.nodes, st0.nodes));
    }
    while k < hs.len()
        invariant
            k <= hs@.len(),
            out@.len() == k,
            tys == hir.kinds(),
            store_wf(tys),
            nm == symbol_texts(names@),
            forall|j: int| 0 <= j < hs@.len() ==> (#[trigger] hs@[j]).0 < tys.len(),
            builder.state().cache.len() == st0.cache.len(),
            st0.cache.len() == tys.len(),
            nodes_prefix(st0.nodes, builder.state().nodes),
            lowering_ok(tys, nm, st0, builder.state()),
            cache_ok(tys, nm, st0) && builder.state().nodes.len() <= u32::MAX + 1 ==> list_lowered(
                tys,
                nm,
                builder.state().nodes,
                hs@.subrange(0, k as int),
                out@,
            ),
        decreases hs@.len() - k,
    {
        let ghost st1 = builder.state();
        let ghost prev = out@;
        let s = lower_one(builder, hir, names, hs[k]);
        proof {
            let st2 = builder.state();
            lemma_nodes_trans(st0.nodes, st1.nodes, st2.nodes);
            lemma_lowering_trans(tys, nm, st0, st1, st2);
            if cache_ok(tys, nm, st0) && st2.nodes.len() <= u32::MAX + 1 {
                lemma_list_lowered_extend(tys, nm, st1.nodes, st2.nodes, hs@.subrange(0, k as int), prev);
            }
        }
        out.push(s);
        k = k + 1;
        proof {
            let st2 = builder.state();
            if cache_ok(tys, nm, st0) && st2.nodes.len() <= u32::MAX + 1 {
                let sub = hs@.subrange(0, k as int);
                assert forall|j: int| 0 <= j < sub.len() implies corresponds(tys, nm, st2.nodes, #[trigger] sub[j], out@[j]) by {
                    if j < k - 1 {
                        assert(sub[j] == hs@.subrange(0, k - 1)[j]);
                        assert(out@[j] == prev[j]);
                    }
                }
            }
        }
    }
    proof {
        assert(hs@.subrange(0, k as int) =~= hs@);
    }
    out
}

/// Writes an optional store type.
fn lower_opt(builder: &mut SurfaceTyBuilder, hir: &TyStore, names: &Vec<String>, h: Option<TyId>) -> (r: Option<SurfaceTyId>)
    requires
        old(builder).state().cache.len() == hir.kinds().len(),
        h matches Some(t) ==> t.0 < hir.kinds().len(),
    ensures
        final(builder).state().cache.len() == old(builder).state().cache.len(),
        nodes_prefix(old(builder).state().nodes, final(builder).state().nodes),
        lowering_ok(hir.kinds(), symbol_texts(names@), old(builder).state(), final(builder).state()),
        cache_ok(hir.kinds(), symbol_texts(names@), old(builder).state()) && final(builder).state().nodes.len() <= u32::MAX
            + 1 ==> opt_lowered(hir.kinds(), symbol_texts(names@), final(builder).state().nodes, h, r),
{
    match h {
        Some(t) => Some(lower_one(builder, hir, names, t)),
        None => {
            proof {
                assert(nodes_prefix(builder.state().nodes, builder.state().nodes));
            }
            None
        },
    }
}

/// Writes one variant: its field types, then its payload and its result.
fn lower_variant(
    builder: &mut SurfaceTyBuilder,
    hir: &TyStore,
    names: &Vec<String>,
    name: &String,
    d: &SemaDataVariantDef,
) -> (r: DataVariantSurface)
    requires
        old(builder).state().cache.len() == hir.kinds().len(),
        variant_tys_in(hir.kinds().len() as int, *d),
    ensures
        r.name@ == name@,
        final(builder).state().cache.len() == old(builder).state().cache.len(),
        nodes_prefix(old(builder).state().nodes, final(builder).state().nodes),
        lowering_ok(hir.kinds(), symbol_texts(names@), old(builder).state(), final(builder).state()),
        cache_ok(hir.kinds(), symbol_texts(names@), old(builder).state()) && final(builder).state().nodes.len() <= u32::MAX
            + 1 ==> variant_lowered_as(hir.kinds(), symbol_texts(names@), final(builder).state().nodes, *d, r),
{
    proof {
        use_type_invariant(hir);
    }
    let ghost tys = hir.kinds();
    let ghost nm = symbol_texts(names@);
    let ghost st0 = builder.state();
    let field_tys = lower_list(builder, hir, names, d.field_tys());
    let ghost st1 = builder.state();
    let payload = lower_opt(builder, hir, names, d.payload());
    let ghost st2 = builder.state();
    let result = lower_opt(builder, hir, names, d.result());
    proof {
        let st3 = builder.state();
        lemma_nodes_trans(st0.nodes, st1.nodes, st2.nodes);
        lemma_nodes_trans(st0.nodes, st2.nodes, st3.nodes);
        lemma_nodes_trans(st1.nodes, st2.nodes, st3.nodes);
        lemma_lowering_trans(tys, nm, st0, st1, st2);
        lemma_lowering_trans(tys, nm, st0, st2, st3);
        if cache_ok(tys, nm, st0) && st3.nodes.len() <= u32::MAX + 1 {
            lemma_list_lowered_extend(tys, nm, st1.nodes, st3.nodes, d.field_tys_spec(), field_tys@);
            lemma_opt_lowered_extend(tys, nm, st2.nodes, st3.nodes, d.payload_spec(), payload);
        }
    }
    DataVariantSurface {
        name: name.clone(),
        tag: d.tag(),
        payload,
        result,
        field_tys,
        field_names: copy_names(d.field_names()),
    }
}


proof fn lemma_variants_lowered_extend(
    hir: Seq<TyNode>,
    names: Seq<Seq<char>>,
    small: Seq<SurfaceNode>,
    big: Seq<SurfaceNode>,
    d: SemaDataDef,
    vs: Seq<DataVariantSurface>,
    n: int,
)
    requires
        store_wf(hir),
        nodes_prefix(small, big),
        data_tys_in(hir.len() as int, d),
        forall|i: int|
            0 <= i < n ==> d.variants.map().contains_key((#[trigger] vs[i]).name@) && variant_lowered_as(
                hir,
                names,
                small,
                d.variants.map()[vs[i].name@],
                vs[i],
            ),
    ensures
        forall|i: int|
            0 <= i < n ==> d.variants.map().contains_key((#[trigger] vs[i]).name@) && variant_lowered_as(
                hir,
                names,
                big,
                d.variants.map()[vs[i].name@],
                vs[i],
            ),
{
    assert forall|i: int| 0 <= i < n implies d.variants.map().contains_key((#[trigger] vs[i]).name@) && variant_lowered_as(
        hir,
        names,
        big,
        d.variants.map()[vs[i].name@],
        vs[i],
    ) by {
        lemma_variant_lowered_extend(hir, names, small, big, d.variants.map()[vs[i].name@], vs[i]);
    }
}

/// Writes the data definition `def` into the surface: unless it is
/// exported opaque, each variant in name order, its field types, payload
/// and result written; its type parameters by their texts; and the kinds
/// of its type parameters.
pub fn export_data_surface(
    builder: &mut SurfaceTyBuilder,
    hir: &TyStore,
    names: &Vec<String>,
    def: &SemaDataDef,
    opaque: bool,
    attrs: Vec<Attr>,
) -> (r: DataSurface)
    requires
        old(builder).state().cache.len() == hir.kinds().len(),
        data_tys_in(hir.kinds().len() as int, *def),
    ensures
        final(builder).state().cache.len() == old(builder).state().cache.len(),
        nodes_prefix(old(builder).state().nodes, final(builder).state().nodes),
        lowering_ok(hir.kinds(), symbol_texts(names@), old(builder).state(), final(builder).state()),
        cache_ok(hir.kinds(), symbol_texts(names@), old(builder).state()) && final(builder).state().nodes.len() <= u32::MAX
            + 1 ==> data_lowered_as(hir.kinds(), symbol_texts(names@), final(builder).state().nodes, *def, r, opaque),
        r.inert_attrs@ == attrs@.filter(|a: Attr| is_inert_export(a)),
        r.musi_attrs@ == attrs@.filter(|a: Attr| is_musi_export(a)),
{
    proof {
        use_type_invariant(hir);
        use_type_invariant(&def.variants);
    }
    let ghost tys = hir.kinds();
    let ghost nm = symbol_texts(names@);
    let ghost st0 = builder.state();
    let ghost vnames = def.variants.names();
    let mut variants: Vec<DataVariantSurface> = Vec::new();
    proof {
        assert(nodes_prefix(st0.nodes, st0.nodes));
    }
    if !opaque {
        let n = def.variants.len();
        let mut j: usize = 0;
        while j < n
            invariant
                j <= n,
                n == vnames.len(),
                vnames == def.variants.names(),
                sorted_names(vnames),
                vnames.len() == def.variants.values().len(),
                variants@.len() == j,
                tys == hir.kinds(),
                store_wf(tys),
                nm == symbol_texts(names@),
                data_tys_in(tys.len() as int, *def),
                builder.state().cache.len() == st0.cache.len(),
                st0.cache.len() == tys.len(),
                nodes_prefix(st0.nodes, builder.state().nodes),
                lowering_ok(tys, nm, st0, builder.state()),
                forall|i: int| 0 <= i < j ==> (#[trigger] variants@[i]).name@ == vnames[i],
                cache_ok(tys, nm, st0) && builder.state().nodes.len() <= u32::MAX + 1 ==> forall|i: int|
                    0 <= i < j ==> def.variants.map().contains_key((#[trigger] variants@[i]).name@) && variant_lowered_as(
                        tys,
                        nm,
                        builder.state().nodes,
                        def.variants.map()[variants@[i].name@],
                        variants@[i],
                    ),
            decreases n - j,
        {
            let (name, v) = def.variants.at(j);
            proof {
                lemma_sorted_index_of(vnames, j as int);
                assert(vnames.contains(vnames[j as int]));
                assert(def.variants.map().contains_key(vnames[j as int]));
                assert(def.variants.map()[vnames[j as int]] == *v);
            }
            let ghost st1 = builder.state();
            let ghost prev = variants@;
            let lv = lower_variant(builder, hir, names, name, v);
            proof {
                let st2 = builder.state();
                lemma_nodes_trans(st0.nodes, st1.nodes, st2.nodes);
                lemma_lowering_trans(tys, nm, st0, st1, st2);
                if cache_ok(tys, nm, st0) && st2.nodes.len() <= u32::MAX + 1 {
                    lemma_variants_lowered_extend(tys, nm, st1.nodes, st2.nodes, *def, prev, j as int);
                }
            }
            variants.push(lv);
            j = j + 1;
            proof {
                assert forall|i: int| 0 <= i < j implies (#[trigger] variants@[i]).name@ == vnames[i] by {
                    if i < j - 1 {
                        assert(variants@[i] == prev[i]);
                    }
                }
                let st2 = builder.state();
                if cache_ok(tys, nm, st0) && st2.nodes.len() <= u32::MAX + 1 {
                    assert forall|i: int| 0 <= i < j implies def.variants.map().contains_key((#[trigger] variants@[i]).name@)
                        && variant_lowered_as(tys, nm, st2.nodes, def.variants.map()[variants@[i].name@], variants@[i]) by {
                        if i < j - 1 {
                            assert(variants@[i] == prev[i]);
                        }
                    }
                }
            }
        }
    }
    let ghost st1 = builder.state();
    let ghost vs = variants@;
    proof {
        assert forall|k: int| 0 <= k < def.type_param_kinds@.len() implies (#[trigger] def.type_param_kinds@[k]).0 < tys.len() by {}
    }
    let mut type_params: Vec<String> = Vec::new();
    let mut k: usize = 0;
    while k < def.type_params.len()
        invariant
            k <= def.type_params@.len(),
            type_params@.len() == k,
            nm == symbol_texts(names@),
            forall|q: int| 0 <= q < k ==> (#[trigger] type_params@[q])@ == symbol_text(nm, def.type_params@[q]),
        decreases def.type_params@.len() - k,
    {
        type_params.push(symbol_string(names, def.type_params[k]));
        k = k + 1;
        proof {
            assert forall|q: int| 0 <= q < k implies (#[trigger] type_params@[q])@ == symbol_text(nm, def.type_params@[q]) by {
                if q < k - 1 {
                    assert(type_params@[q] == type_params@.drop_last()[q]);
                }
            }
        }
    }
    let kinds = lower_list(builder, hir, names, &def.type_param_kinds);
    let (inert_attrs, musi_attrs) = split_export_attrs(attrs);
    proof {
        let st2 = builder.state();
        lemma_nodes_trans(st0.nodes, st1.nodes, st2.nodes);
        lemma_lowering_trans(tys, nm, st0, st1, st2);
        if cache_ok(tys, nm, st0) && st2.nodes.len() <= u32::MAX + 1 {
            if !opaque {
                lemma_variants_lowered_extend(tys, nm, st1.nodes, st2.nodes, *def, vs, vs.len() as int);
                assert forall|i: int, q: int| 0 <= i < q < vs.len() implies (#[trigger] vs[i]).name@ != (#[trigger] vs[q]).name@ by {
                    if vs[i].name@ == vs[q].name@ {
                        lemma_text_lt_irreflexive(vnames[i]);
                    }
                }
                assert forall|t: Seq<char>| #[trigger] def.variants.map().contains_key(t) implies exists|q: int|
                    0 <= q < vs.len() && (#[trigger] vs[q]).name@ == t by {
                    let q = vnames.index_of(t);
                    assert(vs[q].name@ == t);
                }
            }
        }
    }
    DataSurface {
        key: copy_key(&def.key),
        variants,
        type_params,
        type_param_kinds: kinds,
        repr_kind: copy_opt_string(&def.repr_kind),
        layout_align: def.layout_align,
        layout_pack: def.layout_pack,
        frozen: def.frozen,
        is_record_shape: def.is_record_shape,
        inert_attrs,
        musi_attrs,
    }
}


/// Both absent, or both there and the same type.
pub open spec fn opt_same(hir: Seq<TyNode>, names: Seq<Seq<char>>, a: Option<TyId>, other: Seq<TyNode>, more: Seq<Seq<char>>, b: Option<TyId>) -> bool {
    match (a, b) {
        (Some(x), Some(y)) => same_ty(hir, names, x, other, more, y),
        (None, None) => true,
        _ => false,
    }
}

/// The same types, place by place.
pub open spec fn list_same(hir: Seq<TyNode>, names: Seq<Seq<char>>, a: Seq<TyId>, other: Seq<TyNode>, more: Seq<Seq<char>>, b: Seq<TyId>) -> bool {
    a.len() == b.len() && forall|k: int| 0 <= k < a.len() ==> same_ty(hir, names, #[trigger] a[k], other, more, b[k])
}

/// The same variant: the same discriminant and field names, and the same
/// payload, result and field types.
pub open spec fn variant_same(
    hir: Seq<TyNode>,
    names: Seq<Seq<char>>,
    a: SemaDataVariantDef,
    other: Seq<TyNode>,
    more: Seq<Seq<char>>,
    b: SemaDataVariantDef,
) -> bool {
    &&& a.tag_spec() == b.tag_spec()
    &&& opt_same(hir, names, a.payload_spec(), other, more, b.payload_spec())
    &&& opt_same(hir, names, a.result_spec(), other, more, b.result_spec())
    &&& list_same(hir, names, a.field_tys_spec(), other, more, b.field_tys_spec())
    &&& a.field_names_spec() == b.field_names_spec()
}

/// The same data definition, read in two stores: the same key and layout,
/// type parameters with the same texts and the same kinds, and variants of
/// the same names that are the same.
pub open spec fn data_same(hir: Seq<TyNode>, names: Seq<Seq<char>>, a: SemaDataDef, other: Seq<TyNode>, more: Seq<Seq<char>>, b: SemaDataDef) -> bool {
    &&& a.key == b.key
    &&& a.repr_kind == b.repr_kind
    &&& a.layout_align == b.layout_align
    &&& a.layout_pack == b.layout_pack
    &&& a.frozen == b.frozen
    &&& a.is_record_shape == b.is_record_shape
    &&& a.type_params@.len() == b.type_params@.len()
    &&& forall|k: int| 0 <= k < a.type_params@.len() ==> symbol_text(names, #[trigger] a.type_params@[k]) == symbol_text(
        more,
        b.type_params@[k],
    )
    &&& list_same(hir, names, a.type_param_kinds@, other, more, b.type_param_kinds@)
    &&& a.variants.map().dom() == b.variants.map().dom()
    &&& forall|t: Seq<char>| #[trigger] a.variants.map().contains_key(t) ==> variant_same(
        hir,
        names,
        a.variants.map()[t],
        other,
        more,
        b.variants.map()[t],
    )
}

pub(crate) proof fn lemma_list_same(
    hir: Seq<TyNode>,
    names: Seq<Seq<char>>,
    other: Seq<TyNode>,
    more: Seq<Seq<char>>,
    nodes: Seq<SurfaceNode>,
    base: int,
    a: Seq<TyId>,
    b: Seq<TyId>,
    ss: Seq<SurfaceTyId>,
)
    requires
        store_wf(hir),
        store_wf(other),
        forall|k: int| 0 <= k < a.len() ==> (#[trigger] a[k]).0 < hir.len(),
        list_lowered(hir, names, nodes, a, ss),
        list_read_as(other, more, nodes, base, b, ss),
    ensures
        list_same(hir, names, a, other, more, b),
{
    assert forall|k: int| 0 <= k < a.len() implies same_ty(hir, names, #[trigger] a[k], other, more, b[k]) by {
        assert(read_as(other, more, nodes, base, b[k], ss[k]));
        lemma_corresponds_same(hir, names, a[k], other, more, b[k], nodes, ss[k]);
    }
}

proof fn lemma_opt_same(
    hir: Seq<TyNode>,
    names: Seq<Seq<char>>,
    other: Seq<TyNode>,
    more: Seq<Seq<char>>,
    nodes: Seq<SurfaceNode>,
    base: int,
    a: Option<TyId>,
    b: Option<TyId>,
    s: Option<SurfaceTyId>,
)
    requires
        store_wf(hir),
        store_wf(other),
        a matches Some(t) ==> t.0 < hir.len(),
        opt_lowered(hir, names, nodes, a, s),
        opt_read_as(other, more, nodes, base, b, s),
    ensures
        opt_same(hir, names, a, other, more, b),
{
    if let (Some(x), Some(y), Some(z)) = (a, b, s) {
        lemma_corresponds_same(hir, names, x, other, more, y, nodes, z);
    }
}

/// Reading back a data definition written into a surface gives the same
/// definition: when `export_data_surface` wrote `def` as `s`, not opaque,
/// into a table, and `import_data_alias_as` read `s` from that table as
/// `read`, in whatever store and name table, `read` is the same definition
/// as `def`.
pub proof fn lemma_import_undoes_export(
    hir: Seq<TyNode>,
    names: Seq<Seq<char>>,
    nodes: Seq<SurfaceNode>,
    def: SemaDataDef,
    s: DataSurface,
    other: Seq<TyNode>,
    more: Seq<Seq<char>>,
    base: int,
    read: SemaDataDef,
)
    requires
        store_wf(hir),
        store_wf(other),
        data_tys_in(hir.len() as int, def),
        data_lowered_as(hir, names, nodes, def, s, false),
        data_read_as(other, more, nodes, base, read, s),
    ensures
        data_same(hir, names, def, other, more, read),
{
    let vs = s.variants@;
    let n = vs.len() as int;
    lemma_list_same(hir, names, other, more, nodes, base, def.type_param_kinds@, read.type_param_kinds@, s.type_param_kinds@);
    assert forall|k: int| 0 <= k < def.type_params@.len() implies symbol_text(names, #[trigger] def.type_params@[k])
        == symbol_text(more, read.type_params@[k]) by {
        assert(s.type_params@[k]@ == symbol_text(names, def.type_params@[k]));
    }
    let ma = def.variants.map();
    let mb = read.variants.map();
    assert forall|t: Seq<char>| ma.contains_key(t) <==> mb.contains_key(t) by {
        if ma.contains_key(t) {
            let j = choose|j: int| 0 <= j < n && (#[trigger] vs[j]).name@ == t;
            assert forall|i: int| j < i < n implies (#[trigger] vs[i]).name@ != vs[j].name@ by {
                assert(vs[j].name@ != vs[i].name@);
            }
        }
        if mb.contains_key(t) {
            let j = choose|j: int| 0 <= j < n && (#[trigger] vs[j]).name@ == t;
            assert(ma.contains_key(vs[j].name@));
        }
    }
    assert(ma.dom() =~= mb.dom());
    assert forall|t: Seq<char>| #[trigger] ma.contains_key(t) implies variant_same(hir, names, ma[t], other, more, mb[t]) by {
        let j = choose|j: int| 0 <= j < n && (#[trigger] vs[j]).name@ == t;
        assert forall|i: int| j < i < n implies (#[trigger] vs[i]).name@ != vs[j].name@ by {
            assert(vs[j].name@ != vs[i].name@);
        }
        let v = vs[j];
        assert(variant_lowered_as(hir, names, nodes, ma[t], v));
        assert(variant_read_as(other, more, nodes, base, mb[t], v));
        assert(variant_tys_in(hir.len() as int, ma[t]));
        lemma_opt_same(hir, names, other, more, nodes, base, ma[t].payload_spec(), mb[t].payload_spec(), v.payload);
        lemma_opt_same(hir, names, other, more, nodes, base, ma[t].result_spec(), mb[t].result_spec(), v.result);
        lemma_list_same(hir, names, other, more, nodes, base, ma[t].field_tys_spec(), mb[t].field_tys_spec(), v.field_tys@);
    }
}

} // verus!
