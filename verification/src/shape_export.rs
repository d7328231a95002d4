//! Writing a shape into a module's surface, and what reading it back gives.
use vstd::prelude::*;

use crate::attrs::{is_inert_export, is_musi_export, split_export_attrs, Attr};
use crate::const_eval::{symbol_string, symbol_text};
use crate::data_export::{
    lemma_list_lowered_extend, lemma_list_same, lemma_lowering_trans, lemma_nodes_trans, list_lowered, list_same,
    lower_list, lower_one, lowering_ok,
};
use crate::data_surface::read_as;
use crate::facts::{copy_key, ConstraintFacts, LawFacts, ShapeFacts, ShapeMemberFacts};
use crate::shape_surface::{
    constraint_read_as, law_read_as, member_read_as, shape_read_as, ConstraintSurface, LawParamSurface, LawSurface,
    ShapeMemberSurface, ShapeSurface,
};
use crate::surface::SurfaceNode;
use crate::surface_import::{lemma_corresponds_same, same_ty};
use crate::surface_lower::{
    cache_ok, corresponds, lemma_corresponds_extend, nodes_prefix, symbol_texts, SurfaceTyBuilder,
};
use crate::ty::{store_wf, Symbol, TyNode, TyStore};

verus! {

/// Every type a shape names is in a store of `len` types.
pub open spec fn shape_tys_in(len: int, f: ShapeFacts) -> bool {
    &&& forall|k: int| 0 <= k < f.type_param_kinds@.len() ==> (#[trigger] f.type_param_kinds@[k]).0 < len
    &&& forall|j: int| 0 <= j < f.constraints@.len() ==> (#[trigger] f.constraints@[j]).value.0 < len
    &&& forall|j: int|
        0 <= j < f.members@.len() ==> (forall|k: int|
            0 <= k < (#[trigger] f.members@[j]).params@.len() ==> (#[trigger] f.members@[j].params@[k]).0 < len)
            && f.members@[j].result.0 < len
    &&& forall|j: int|
        0 <= j < f.laws@.len() ==> forall|k: int|
            0 <= k < (#[trigger] f.laws@[j]).params@.len() ==> (#[trigger] f.laws@[j].params@[k]).ty.0 < len
}

/// The surface member `s` was written from the member `m`.
pub open spec fn member_lowered_as(
    hir: Seq<TyNode>,
    names: Seq<Seq<char>>,
    nodes: Seq<SurfaceNode>,
    m: ShapeMemberFacts,
    s: ShapeMemberSurface,
) -> bool {
    &&& s.name@ == symbol_text(names, m.name)
    &&& list_lowered(hir, names, nodes, m.params@, s.params@)
    &&& corresponds(hir, names, nodes, m.result, s.result)
}

/// The surface law `s` was written from the law `l`.
pub open spec fn law_lowered_as(hir: Seq<TyNode>, names: Seq<Seq<char>>, nodes: Seq<SurfaceNode>, l: LawFacts, s: LawSurface) -> bool {
    &&& s.name@ == symbol_text(names, l.name)
    &&& s.params@.len() == l.params@.len()
    &&& forall|k: int|
        0 <= k < l.params@.len() ==> (#[trigger] s.params@[k]).name@ == symbol_text(names, l.params@[k].name) && corresponds(
            hir,
            names,
            nodes,
            l.params@[k].ty,
            s.params@[k].ty,
        )
}

/// The surface constraint `s` was written from the constraint `c`.
pub open spec fn constraint_lowered_as(
    hir: Seq<TyNode>,
    names: Seq<Seq<char>>,
    nodes: Seq<SurfaceNode>,
    c: ConstraintFacts,
    s: ConstraintSurface,
) -> bool {
    &&& s.name@ == symbol_text(names, c.name)
    &&& s.kind == c.kind
    &&& corresponds(hir, names, nodes, c.value, s.value)
    &&& s.shape_key == c.shape_key
}

/// The shape surface `s` was written from the shape facts `f`: the same
/// key, and members, laws, constraints, type parameters by their texts and
/// their kinds written, in order.
pub open spec fn shape_lowered_as(hir: Seq<TyNode>, names: Seq<Seq<char>>, nodes: Seq<SurfaceNode>, f: ShapeFacts, s: ShapeSurface) -> bool {
    &&& s.key == f.key
    &&& s.members@.len() == f.members@.len()
    &&& forall|j: int| 0 <= j < f.members@.len() ==> member_lowered_as(hir, names, nodes, #[trigger] f.members@[j], s.members@[j])
    &&& s.laws@.len() == f.laws@.len()
    &&& forall|j: int| 0 <= j < f.laws@.len() ==> law_lowered_as(hir, names, nodes, #[trigger] f.laws@[j], s.laws@[j])
    &&& s.constraints@.len() == f.constraints@.len()
    &&& forall|j: int|
        0 <= j < f.constraints@.len() ==> constraint_lowered_as(hir, names, nodes, #[trigger] f.constraints@[j], s.constraints@[j])
    &&& s.type_params@.len() == f.type_params@.len()
    &&& forall|j: int| 0 <= j < f.type_params@.len() ==> (#[trigger] s.type_params@[j])@ == symbol_text(names, f.type_params@[j])
    &&& list_lowered(hir, names, nodes, f.type_param_kinds@, s.type_param_kinds@)
}

proof fn lemma_member_extend(
    hir: Seq<TyNode>,
    names: Seq<Seq<char>>,
    small: Seq<SurfaceNode>,
    big: Seq<SurfaceNode>,
    m: ShapeMemberFacts,
    s: ShapeMemberSurface,
)
    requires
        store_wf(hir),
        nodes_prefix(small, big),
        forall|k: int| 0 <= k < m.params@.len() ==> (#[trigger] m.params@[k]).0 < hir.len(),
        m.result.0 < hir.len(),
        member_lowered_as(hir, names, small, m, s),
    ensures
        member_lowered_as(hir, names, big, m, s),
{
    lemma_list_lowered_extend(hir, names, small, big, m.params@, s.params@);
    lemma_corresponds_extend(hir, names, small, big, m.result, s.result);
}

proof fn lemma_law_extend(
    hir: Seq<TyNode>,
    names: Seq<Seq<char>>,
    small: Seq<SurfaceNode>,
    big: Seq<SurfaceNode>,
    l: LawFacts,
    s: LawSurface,
)
    requires
        store_wf(hir),
        nodes_prefix(small, big),
        forall|k: int| 0 <= k < l.params@.len() ==> (#[trigger] l.params@[k]).ty.0 < hir.len(),
        law_lowered_as(hir, names, small, l, s),
    ensures
        law_lowered_as(hir, names, big, l, s),
{
    assert forall|k: int| 0 <= k < l.params@.len() implies (#[trigger] s.params@[k]).name@ == symbol_text(names, l.params@[k].name)
        && corresponds(hir, names, big, l.params@[k].ty, s.params@[k].ty) by {
        lemma_corresponds_extend(hir, names, small, big, l.params@[k].ty, s.params@[k].ty);
    }
}

/// The members, laws and constraints written so far, each from the
/// shape's at its place.
pub open spec fn parts_lowered(
    hir: Seq<TyNode>,
    names: Seq<Seq<char>>,
    nodes: Seq<SurfaceNode>,
    f: ShapeFacts,
    ms: Seq<ShapeMemberSurface>,
    ls: Seq<LawSurface>,
    cs: Seq<ConstraintSurface>,
) -> bool {
    &&& ms.len() <= f.members@.len()
    &&& forall|j: int| 0 <= j < ms.len() ==> member_lowered_as(hir, names, nodes, f.members@[j], #[trigger] ms[j])
    &&& ls.len() <= f.laws@.len()
    &&& forall|j: int| 0 <= j < ls.len() ==> law_lowered_as(hir, names, nodes, f.laws@[j], #[trigger] ls[j])
    &&& cs.len() <= f.constraints@.len()
    &&& forall|j: int| 0 <= j < cs.len() ==> constraint_lowered_as(hir, names, nodes, f.constraints@[j], #[trigger] cs[j])
}

proof fn lemma_parts_extend(
    hir: Seq<TyNode>,
    names: Seq<Seq<char>>,
    small: Seq<SurfaceNode>,
    big: Seq<SurfaceNode>,
    f: ShapeFacts,
    ms: Seq<ShapeMemberSurface>,
    ls: Seq<LawSurface>,
    cs: Seq<ConstraintSurface>,
)
    requires
        store_wf(hir),
        nodes_prefix(small, big),
        shape_tys_in(hir.len() as int, f),
        parts_lowered(hir, names, small, f, ms, ls, cs),
    ensures
        parts_lowered(hir, names, big, f, ms, ls, cs),
{
    assert forall|j: int| 0 <= j < ms.len() implies member_lowered_as(hir, names, big, f.members@[j], #[trigger] ms[j]) by {
        assert(f.members@[j].result.0 < hir.len());
        assert forall|k: int| 0 <= k < f.members@[j].params@.len() implies (#[trigger] f.members@[j].params@[k]).0 < hir.len() by {}
        lemma_member_extend(hir, names, small, big, f.members@[j], ms[j]);
    }
    assert forall|j: int| 0 <= j < ls.len() implies law_lowered_as(hir, names, big, f.laws@[j], #[trigger] ls[j]) by {
        assert forall|k: int| 0 <= k < f.laws@[j].params@.len() implies (#[trigger] f.laws@[j].params@[k]).ty.0 < hir.len() by {}
        lemma_law_extend(hir, names, small, big, f.laws@[j], ls[j]);
    }
    assert forall|j: int| 0 <= j < cs.len() implies constraint_lowered_as(hir, names, big, f.constraints@[j], #[trigger] cs[j]) by {
        assert(f.constraints@[j].value.0 < hir.len());
        lemma_corresponds_extend(hir, names, small, big, f.constraints@[j].value, cs[j].value);
    }
}

/// Writes one member: its parameter types, then its result type.
fn lower_member(builder: &mut SurfaceTyBuilder, hir: &TyStore, names: &Vec<String>, m: &ShapeMemberFacts) -> (r: ShapeMemberSurface)
    requires
        old(builder).state().cache.len() == hir.kinds().len(),
        forall|k: int| 0 <= k < m.params@.len() ==> (#[trigger] m.params@[k]).0 < hir.kinds().len(),
        m.result.0 < hir.kinds().len(),
    ensures
        final(builder).state().cache.len() == old(builder).state().cache.len(),
        nodes_prefix(old(builder).state().nodes, final(builder).state().nodes),
        lowering_ok(hir.kinds(), symbol_texts(names@), old(builder).state(), final(builder).state()),
        cache_ok(hir.kinds(), symbol_texts(names@), old(builder).state()) && final(builder).state().nodes.len() <= u32::MAX
            + 1 ==> member_lowered_as(hir.kinds(), symbol_texts(names@), final(builder).state().nodes, *m, r),
{
    proof {
        use_type_invariant(hir);
    }
    let ghost tys = hir.kinds();
    let ghost nm = symbol_texts(names@);
    let ghost st0 = builder.state();
    let name = symbol_string(names, m.name);
    let params = lower_list(builder, hir, names, &m.params);
    let ghost st1 = builder.state();
    let result = lower_one(builder, hir, names, m.result);
    proof {
        let st2 = builder.state();
        lemma_nodes_trans(st0.nodes, st1.nodes, st2.nodes);
        lemma_lowering_trans(tys, nm, st0, st1, st2);
        if cache_ok(tys, nm, st0) && st2.nodes.len() <= u32::MAX + 1 {
            lemma_list_lowered_extend(tys, nm, st1.nodes, st2.nodes, m.params@, params@);
        }
    }
    ShapeMemberSurface { name, params, result }
}

/// Writes one law: each parameter's name and type.
fn lower_law(builder: &mut SurfaceTyBuilder, hir: &TyStore, names: &Vec<String>, l: &LawFacts) -> (r: LawSurface)
    requires
        old(builder).state().cache.len() == hir.kinds().len(),
        forall|k: int| 0 <= k < l.params@.len() ==> (#[trigger] l.params@[k]).ty.0 < hir.kinds().len(),
    ensures
        final(builder).state().cache.len() == old(builder).state().cache.len(),
        nodes_prefix(old(builder).state().nodes, final(builder).state().nodes),
        lowering_ok(hir.kinds(), symbol_texts(names@), old(builder).state(), final(builder).state()),
        cache_ok(hir.kinds(), symbol_texts(names@), old(builder).state()) && final(builder).state().nodes.len() <= u32::MAX
            + 1 ==> law_lowered_as(hir.kinds(), symbol_texts(names@), final(builder).state().nodes, *l, r),
{
    proof {
        use_type_invariant(hir);
    }
    let ghost tys = hir.kinds();
    let ghost nm = symbol_texts(names@);
    let ghost st0 = builder.state();
    let name = symbol_string(names, l.name);
    let mut params: Vec<LawParamSurface> = Vec::new();
    let mut k: usize = 0;
    proof {
        assert(nodes_prefix(st0.nodes, st0.nodes));
    }
    while k < l.params.len()
        invariant
            k <= l.params@.len(),
            params@.len() == k,
            tys == hir.kinds(),
            store_wf(tys),
            nm == symbol_texts(names@),
            forall|q: int| 0 <= q < l.params@.len() ==> (#[trigger] l.params@[q]).ty.0 < tys.len(),
            builder.state().cache.len() == st0.cache.len(),
            st0.cache.len() == tys.len(),
            nodes_prefix(st0.nodes, builder.state().nodes),
            lowering_ok(tys, nm, st0, builder.state()),
            forall|q: int| 0 <= q < k ==> (#[trigger] params@[q]).name@ == symbol_text(nm, l.params@[q].name),
            cache_ok(tys, nm, st0) && builder.state().nodes.len() <= u32::MAX + 1 ==> forall|q: int|
                0 <= q < k ==> corresponds(tys, nm, builder.state().nodes, l.params@[q].ty, (#[trigger] params@[q]).ty),
        decreases l.params@.len() - k,
    {
        let ghost st1 = builder.state();
        let ghost prev = params@;
        let pname = symbol_string(names, l.params[k].name);
        let ty = lower_one(builder, hir, names, l.params[k].ty);
        proof {
            let st2 = builder.state();
            lemma_nodes_trans(st0.nodes, st1.nodes, st2.nodes);
            lemma_lowering_trans(tys, nm, st0, st1, st2);
            if cache_ok(tys, nm, st0) && st2.nodes.len() <= u32::MAX + 1 {
                assert forall|q: int| 0 <= q < k implies corresponds(tys, nm, st2.nodes, l.params@[q].ty, (#[trigger] prev[q]).ty) by {
                    lemma_corresponds_extend(tys, nm, st1.nodes, st2.nodes, l.params@[q].ty, prev[q].ty);
                }
            }
        }
        params.push(LawParamSurface { name: pname, ty });
        k = k + 1;
        proof {
            assert forall|q: int| 0 <= q < k implies (#[trigger] params@[q]).name@ == symbol_text(nm, l.params@[q].name) by {
                if q < k - 1 {
                    assert(params@[q] == prev[q]);
                }
            }
            let st2 = builder.state();
            if cache_ok(tys, nm, st0) && st2.nodes.len() <= u32::MAX + 1 {
                assert forall|q: int| 0 <= q < k implies corresponds(tys, nm, st2.nodes, l.params@[q].ty, (#[trigger] params@[q]).ty) by {
                    if q < k - 1 {
                        assert(params@[q] == prev[q]);
                    }
                }
            }
        }
    }
    LawSurface { name, params }
}

/// Writes one constraint.
pub(crate) fn lower_constraint(builder: &mut SurfaceTyBuilder, hir: &TyStore, names: &Vec<String>, c: &ConstraintFacts) -> (r: ConstraintSurface)
    requires
        old(builder).state().cache.len() == hir.kinds().len(),
        c.value.0 < hir.kinds().len(),
    ensures
        final(builder).state().cache.len() == old(builder).state().cache.len(),
        nodes_prefix(old(builder).state().nodes, final(builder).state().nodes),
        lowering_ok(hir.kinds(), symbol_texts(names@), old(builder).state(), final(builder).state()),
        cache_ok(hir.kinds(), symbol_texts(names@), old(builder).state()) && final(builder).state().nodes.len() <= u32::MAX
            + 1 ==> constraint_lowered_as(hir.kinds(), symbol_texts(names@), final(builder).state().nodes, *c, r),
{
    let name = symbol_string(names, c.name);
    let value = lower_one(builder, hir, names, c.value);
    let shape_key = match &c.shape_key {
        Some(k) => Some(copy_key(k)),
        None => None,
    };
    ConstraintSurface { name, kind: c.kind, value, shape_key }
}

/// Writes the shape `facts` into the surface: its members, then its laws,
/// its type parameters by their texts, the kinds of its type parameters,
/// and its constraints.
pub fn export_shape_surface(
    builder: &mut SurfaceTyBuilder,
    hir: &TyStore,
    names: &Vec<String>,
    facts: &ShapeFacts,
    attrs: Vec<Attr>,
) -> (r: ShapeSurface)
    requires
        old(builder).state().cache.len() == hir.kinds().len(),
        shape_tys_in(hir.kinds().len() as int, *facts),
    ensures
        final(builder).state().cache.len() == old(builder).state().cache.len(),
        nodes_prefix(old(builder).state().nodes, final(builder).state().nodes),
        lowering_ok(hir.kinds(), symbol_texts(names@), old(builder).state(), final(builder).state()),
        cache_ok(hir.kinds(), symbol_texts(names@), old(builder).state()) && final(builder).state().nodes.len() <= u32::MAX
            + 1 ==> shape_lowered_as(hir.kinds(), symbol_texts(names@), final(builder).state().nodes, *facts, r),
        r.inert_attrs@ == attrs@.filter(|a: Attr| is_inert_export(a)),
        r.musi_attrs@ == attrs@.filter(|a: Attr| is_musi_export(a)),
{
    proof {
        use_type_invariant(hir);
    }
    let ghost tys = hir.kinds();
    let ghost nm = symbol_texts(names@);
    let ghost st0 = builder.state();
    let mut members: Vec<ShapeMemberSurface> = Vec::new();
    let mut laws: Vec<LawSurface> = Vec::new();
    let mut constraints: Vec<ConstraintSurface> = Vec::new();
    proof {
        assert(nodes_prefix(st0.nodes, st0.nodes));
    }
    let mut j: usize = 0;
    while j < facts.members.len()
        invariant
            j <= facts.members@.len(),
            members@.len() == j,
            laws@.len() == 0,
            constraints@.len() == 0,
            tys == hir.kinds(),
            store_wf(tys),
            nm == symbol_texts(names@),
            shape_tys_in(tys.len() as int, *facts),
            builder.state().cache.len() == st0.cache.len(),
            st0.cache.len() == tys.len(),
            nodes_prefix(st0.nodes, builder.state().nodes),
            lowering_ok(tys, nm, st0, builder.state()),
            cache_ok(tys, nm, st0) && builder.state().nodes.len() <= u32::MAX + 1 ==> parts_lowered(
                tys,
                nm,
                builder.state().nodes,
                *facts,
                members@,
                laws@,
                constraints@,
            ),
        decreases facts.members@.len() - j,
    {
        let ghost st1 = builder.state();
        let ghost prev = members@;
        proof {
            assert forall|k: int| 0 <= k < facts.members@[j as int].params@.len() implies (
            #[trigger] facts.members@[j as int].params@[k]).0 < tys.len() by {}
        }
        let m = lower_member(builder, hir, names, &facts.members[j]);
        proof {
            let st2 = builder.state();
            lemma_nodes_trans(st0.nodes, st1.nodes, st2.nodes);
            lemma_lowering_trans(tys, nm, st0, st1, st2);
            if cache_ok(tys, nm, st0) && st2.nodes.len() <= u32::MAX + 1 {
                lemma_parts_extend(tys, nm, st1.nodes, st2.nodes, *facts, prev, laws@, constraints@);
            }
        }
        members.push(m);
        j = j + 1;
        proof {
            let st2 = builder.state();
            if cache_ok(tys, nm, st0) && st2.nodes.len() <= u32::MAX + 1 {
                assert forall|q: int| 0 <= q < j implies member_lowered_as(tys, nm, st2.nodes, facts.members@[q], #[trigger] members@[q]) by {
                    if q < j - 1 {
                        assert(members@[q] == prev[q]);
                    }
                }
            }
        }
    }
    let mut j: usize = 0;
    while j < facts.laws.len()
        invariant
            j <= facts.laws@.len(),
            members@.len() == facts.members@.len(),
            laws@.len() == j,
            constraints@.len() == 0,
            tys == hir.kinds(),
            store_wf(tys),
            nm == symbol_texts(names@),
            shape_tys_in(tys.len() as int, *facts),
            builder.state().cache.len() == st0.cache.len(),
            st0.cache.len() == tys.len(),
            nodes_prefix(st0.nodes, builder.state().nodes),
            lowering_ok(tys, nm, st0, builder.state()),
            cache_ok(tys, nm, st0) && builder.state().nodes.len() <= u32::MAX + 1 ==> parts_lowered(
                tys,
                nm,
                builder.state().nodes,
                *facts,
                members@,
                laws@,
                constraints@,
            ),
        decreases facts.laws@.len() - j,
    {
        let ghost st1 = builder.state();
        let ghost prev = laws@;
        proof {
            assert forall|k: int| 0 <= k < facts.laws@[j as int].params@.len() implies (
            #[trigger] facts.laws@[j as int].params@[k]).ty.0 < tys.len() by {}
        }
        let l = lower_law(builder, hir, names, &facts.laws[j]);
        proof {
            let st2 = builder.state();
            lemma_nodes_trans(st0.nodes, st1.nodes, st2.nodes);
            lemma_lowering_trans(tys, nm, st0, st1, st2);
            if cache_ok(tys, nm, st0) && st2.nodes.len() <= u32::MAX + 1 {
                lemma_parts_extend(tys, nm, st1.nodes, st2.nodes, *facts, members@, prev, constraints@);
            }
        }
        laws.push(l);
        j = j + 1;
        proof {
            let st2 = builder.state();
            if cache_ok(tys, nm, st0) && st2.nodes.len() <= u32::MAX + 1 {
                assert forall|q: int| 0 <= q < j implies law_lowered_as(tys, nm, st2.nodes, facts.laws@[q], #[trigger] laws@[q]) by {
                    if q < j - 1 {
                        assert(laws@[q] == prev[q]);
                    }
                }
            }
        }
    }
    let mut type_params: Vec<String> = Vec::new();
    let mut k: usize = 0;
    while k < facts.type_params.len()
        invariant
            k <= facts.type_params@.len(),
            type_params@.len() == k,
            nm == symbol_texts(names@),
            forall|q: int| 0 <= q < k ==> (#[trigger] type_params@[q])@ == symbol_text(nm, facts.type_params@[q]),
        decreases facts.type_params@.len() - k,
    {
        type_params.push(symbol_string(names, facts.type_params[k]));
        k = k + 1;
        proof {
            assert forall|q: int| 0 <= q < k implies (#[trigger] type_params@[q])@ == symbol_text(nm, facts.type_params@[q]) by {
                if q < k - 1 {
                    assert(type_params@[q] == type_params@.drop_last()[q]);
                }
            }
        }
    }
    let ghost st1 = builder.state();
    proof {
        assert forall|q: int| 0 <= q < facts.type_param_kinds@.len() implies (#[trigger] facts.type_param_kinds@[q]).0 < tys.len() by {}
    }
    let kinds = lower_list(builder, hir, names, &facts.type_param_kinds);
    proof {
        let st2 = builder.state();
        lemma_nodes_trans(st0.nodes, st1.nodes, st2.nodes);
        lemma_lowering_trans(tys, nm, st0, st1, st2);
        if cache_ok(tys, nm, st0) && st2.nodes.len() <= u32::MAX + 1 {
            lemma_parts_extend(tys, nm, st1.nodes, st2.nodes, *facts, members@, laws@, constraints@);
        }
    }
    let ghost st_k = builder.state();
    let mut j: usize = 0;
    while j < facts.constraints.len()
        invariant
            j <= facts.constraints@.len(),
            members@.len() == facts.members@.len(),
            laws@.len() == facts.laws@.len(),
            constraints@.len() == j,
            nodes_prefix(st_k.nodes, builder.state().nodes),
            cache_ok(tys, nm, st0) && builder.state().nodes.len() <= u32::MAX + 1 ==> list_lowered(
                tys,
                nm,
                builder.state().nodes,
                facts.type_param_kinds@,
                kinds@,
            ),
            tys == hir.kinds(),
            store_wf(tys),
            nm == symbol_texts(names@),
            shape_tys_in(tys.len() as int, *facts),
            builder.state().cache.len() == st0.cache.len(),
            st0.cache.len() == tys.len(),
            nodes_prefix(st0.nodes, builder.state().nodes),
            lowering_ok(tys, nm, st0, builder.state()),
            cache_ok(tys, nm, st0) && builder.state().nodes.len() <= u32::MAX + 1 ==> parts_lowered(
                tys,
                nm,
                builder.state().nodes,
                *facts,
                members@,
                laws@,
                constraints@,
            ),
        decreases facts.constraints@.len() - j,
    {
        let ghost st1 = builder.state();
        let ghost prev = constraints@;
        let c = lower_constraint(builder, hir, names, &facts.constraints[j]);
        proof {
            let st2 = builder.state();
            lemma_nodes_trans(st0.nodes, st1.nodes, st2.nodes);
            lemma_nodes_trans(st_k.nodes, st1.nodes, st2.nodes);
            lemma_lowering_trans(tys, nm, st0, st1, st2);
            if cache_ok(tys, nm, st0) && st2.nodes.len() <= u32::MAX + 1 {
                lemma_parts_extend(tys, nm, st1.nodes, st2.nodes, *facts, members@, laws@, prev);
                assert forall|q: int| 0 <= q < facts.type_param_kinds@.len() implies (#[trigger] facts.type_param_kinds@[q]).0 < tys.len() by {}
                lemma_list_lowered_extend(tys, nm, st1.nodes, st2.nodes, facts.type_param_kinds@, kinds@);
            }
        }
        constraints.push(c);
        j = j + 1;
        proof {
            let st2 = builder.state();
            if cache_ok(tys, nm, st0) && st2.nodes.len() <= u32::MAX + 1 {
                assert forall|q: int| 0 <= q < j implies constraint_lowered_as(tys, nm, st2.nodes, facts.constraints@[q], #[trigger] constraints@[q]) by {
                    if q < j - 1 {
                        assert(constraints@[q] == prev[q]);
                    }
                }
            }
        }
    }
    let (inert_attrs, musi_attrs) = split_export_attrs(attrs);
    ShapeSurface {
        key: copy_key(&facts.key),
        type_params,
        type_param_kinds: kinds,
        constraints,
        members,
        laws,
        inert_attrs,
        musi_attrs,
    }
}

/// The same member: names with the same text, and the same parameter and
/// result types.
pub open spec fn member_same(hir: Seq<TyNode>, names: Seq<Seq<char>>, a: ShapeMemberFacts, other: Seq<TyNode>, more: Seq<Seq<char>>, b: ShapeMemberFacts) -> bool {
    &&& symbol_text(names, a.name) == symbol_text(more, b.name)
    &&& list_same(hir, names, a.params@, other, more, b.params@)
    &&& same_ty(hir, names, a.result, other, more, b.result)
}

/// The same law: names with the same texts, and the same parameter types.
pub open spec fn law_same(hir: Seq<TyNode>, names: Seq<Seq<char>>, a: LawFacts, other: Seq<TyNode>, more: Seq<Seq<char>>, b: LawFacts) -> bool {
    &&& symbol_text(names, a.name) == symbol_text(more, b.name)
    &&& a.params@.len() == b.params@.len()
    &&& forall|k: int|
        0 <= k < a.params@.len() ==> symbol_text(names, (#[trigger] a.params@[k]).name) == symbol_text(more, b.params@[k].name)
            && same_ty(hir, names, a.params@[k].ty, other, more, b.params@[k].ty)
}

/// The same constraint: a name with the same text, the same kind and shape,
/// and the same type.
pub open spec fn constraint_same(hir: Seq<TyNode>, names: Seq<Seq<char>>, a: ConstraintFacts, other: Seq<TyNode>, more: Seq<Seq<char>>, b: ConstraintFacts) -> bool {
    &&& symbol_text(names, a.name) == symbol_text(more, b.name)
    &&& a.kind == b.kind
    &&& a.shape_key == b.shape_key
    &&& same_ty(hir, names, a.value, other, more, b.value)
}

/// The same shape, read in two stores: the same key, and the same members,
/// laws, constraints, type parameters by text and kinds, in order.
pub open spec fn shape_same(hir: Seq<TyNode>, names: Seq<Seq<char>>, a: ShapeFacts, other: Seq<TyNode>, more: Seq<Seq<char>>, b: ShapeFacts) -> bool {
    &&& a.key == b.key
    &&& a.members@.len() == b.members@.len()
    &&& forall|j: int| 0 <= j < a.members@.len() ==> member_same(hir, names, #[trigger] a.members@[j], other, more, b.members@[j])
    &&& a.laws@.len() == b.laws@.len()
    &&& forall|j: int| 0 <= j < a.laws@.len() ==> law_same(hir, names, #[trigger] a.laws@[j], other, more, b.laws@[j])
    &&& a.constraints@.len() == b.constraints@.len()
    &&& forall|j: int|
        0 <= j < a.constraints@.len() ==> constraint_same(hir, names, #[trigger] a.constraints@[j], other, more, b.constraints@[j])
    &&& a.type_params@.len() == b.type_params@.len()
    &&& forall|j: int| 0 <= j < a.type_params@.len() ==> symbol_text(names, #[trigger] a.type_params@[j]) == symbol_text(
        more,
        b.type_params@[j],
    )
    &&& list_same(hir, names, a.type_param_kinds@, other, more, b.type_param_kinds@)
}

/// Reading back a shape written into a surface gives the same shape: when
/// `export_shape_surface` wrote `facts` as `s` into a table, and
/// `import_shape_alias_as` read `s` from that table as `read`, in whatever
/// store and name table, `read` is the same shape as `facts`.
pub proof fn lemma_shape_import_undoes_export(
    hir: Seq<TyNode>,
    names: Seq<Seq<char>>,
    nodes: Seq<SurfaceNode>,
    facts: ShapeFacts,
    s: ShapeSurface,
    other: Seq<TyNode>,
    more: Seq<Seq<char>>,
    base: int,
    alias: Symbol,
    read: ShapeFacts,
)
    requires
        store_wf(hir),
        store_wf(other),
        shape_tys_in(hir.len() as int, facts),
        shape_lowered_as(hir, names, nodes, facts, s),
        shape_read_as(other, more, nodes, base, read, alias, s),
    ensures
        shape_same(hir, names, facts, other, more, read),
{
    lemma_list_same(hir, names, other, more, nodes, base, facts.type_param_kinds@, read.type_param_kinds@, s.type_param_kinds@);
    assert forall|j: int| 0 <= j < facts.members@.len() implies member_same(hir, names, #[trigger] facts.members@[j], other, more, read.members@[j]) by {
        let a = facts.members@[j];
        let b = read.members@[j];
        let v = s.members@[j];
        assert(member_lowered_as(hir, names, nodes, a, v));
        assert(member_read_as(other, more, nodes, base, b, v));
        assert(a.result.0 < hir.len());
        assert forall|k: int| 0 <= k < a.params@.len() implies (#[trigger] a.params@[k]).0 < hir.len() by {}
        lemma_list_same(hir, names, other, more, nodes, base, a.params@, b.params@, v.params@);
        lemma_corresponds_same(hir, names, a.result, other, more, b.result, nodes, v.result);
    }
    assert forall|j: int| 0 <= j < facts.laws@.len() implies law_same(hir, names, #[trigger] facts.laws@[j], other, more, read.laws@[j]) by {
        let a = facts.laws@[j];
        let b = read.laws@[j];
        let v = s.laws@[j];
        assert(law_lowered_as(hir, names, nodes, a, v));
        assert(law_read_as(other, more, nodes, base, b, v));
        assert forall|k: int| 0 <= k < a.params@.len() implies symbol_text(names, (#[trigger] a.params@[k]).name) == symbol_text(
            more,
            b.params@[k].name,
        ) && same_ty(hir, names, a.params@[k].ty, other, more, b.params@[k].ty) by {
            assert(v.params@[k].name@ == symbol_text(names, a.params@[k].name));
            assert(read_as(other, more, nodes, base, b.params@[k].ty, v.params@[k].ty));
            assert(a.params@[k].ty.0 < hir.len());
            lemma_corresponds_same(hir, names, a.params@[k].ty, other, more, b.params@[k].ty, nodes, v.params@[k].ty);
        }
    }
    assert forall|j: int| 0 <= j < facts.constraints@.len() implies constraint_same(
        hir,
        names,
        #[trigger] facts.constraints@[j],
        other,
        more,
        read.constraints@[j],
    ) by {
        let a = facts.constraints@[j];
        let b = read.constraints@[j];
        let v = s.constraints@[j];
        assert(constraint_lowered_as(hir, names, nodes, a, v));
        assert(constraint_read_as(other, more, nodes, base, b, v));
        assert(a.value.0 < hir.len());
        lemma_corresponds_same(hir, names, a.value, other, more, b.value, nodes, v.value);
    }
    assert forall|j: int| 0 <= j < facts.type_params@.len() implies symbol_text(names, #[trigger] facts.type_params@[j])
        == symbol_text(more, read.type_params@[j]) by {
        assert(s.type_params@[j]@ == symbol_text(names, facts.type_params@[j]));
    }
}

} // verus!
