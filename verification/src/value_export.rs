//! A value as a module's surface exports it: the type and scheme its
//! binding got while checking, written into the surface's type table, and
//! what else is known of it.
use vstd::prelude::*;

use crate::attrs::{is_inert_export, is_musi_export, split_export_attrs, Attr};
use crate::checking::{get_copy, get_string, CheckState};
use crate::const_eval::{copy_value, symbol_string, symbol_text, ComptimeValue};
use crate::data_export::{
    lemma_list_lowered_extend, lemma_lowering_trans, lemma_nodes_trans, list_lowered, lower_list, lower_one, lowering_ok,
};
use crate::facts::{copy_key, ConstraintFacts, DefinitionKey, SemaDataDef};
use crate::shape_export::{constraint_lowered_as, lower_constraint};
use crate::shape_surface::ConstraintSurface;
use crate::surface::{SurfaceNode, SurfaceTyId};
use crate::surface_lower::{cache_ok, corresponds, lemma_corresponds_extend, nodes_prefix, symbol_texts, SurfaceTyBuilder};
use crate::text_map::TextMap;
use crate::ty::{store_wf, Symbol, TyId, TyNode, TyStore};

verus! {

broadcast use vstd::std_specs::hash::group_hash_axioms;

/// An exported value: its name and type, the type parameters, parameters
/// and constraints of its scheme, whether it is exported opaque, where it
/// comes from, the shape or data type it names, whether it is an attached
/// method, its compile-time value, and its attributes.
#[derive(Debug, PartialEq, Eq)]
pub struct ExportedValue {
    pub name: String,
    pub ty: SurfaceTyId,
    pub type_params: Vec<String>,
    pub type_param_kinds: Vec<SurfaceTyId>,
    pub param_names: Vec<String>,
    pub comptime_params: Vec<bool>,
    pub constraints: Vec<ConstraintSurface>,
    pub opaque: bool,
    pub import_record_target: Option<String>,
    pub shape_key: Option<DefinitionKey>,
    pub data_key: Option<DefinitionKey>,
    pub is_attached_method: bool,
    pub const_int: Option<i64>,
    pub comptime_value: Option<ComptimeValue>,
    pub inert_attrs: Vec<Attr>,
    pub musi_attrs: Vec<Attr>,
}

/// The type binding `b` is exported at: its scheme's type, else its type.
pub open spec fn export_ty(st: CheckState, b: u32) -> Option<TyId> {
    match st.schemes@.get(b) {
        Some(s) => Some(s.ty),
        None => st.binding_tys@.get(b),
    }
}

/// Every type the export of binding `b` writes is a type of a store of
/// `len` types.
pub open spec fn export_tys_in(st: CheckState, b: u32, len: int) -> bool {
    match st.schemes@.get(b) {
        Some(s) => {
            &&& s.ty.0 < len
            &&& forall|k: int| 0 <= k < s.type_param_kinds@.len() ==> (#[trigger] s.type_param_kinds@[k]).0 < len
            &&& forall|k: int| 0 <= k < s.constraints@.len() ==> (#[trigger] s.constraints@[k]).value.0 < len
        },
        None => st.binding_tys@.get(b) matches Some(t) ==> t.0 < len,
    }
}

/// The texts `out` are those of the symbols `syms`, in order.
pub open spec fn texts_of(names: Seq<Seq<char>>, syms: Seq<Symbol>, out: Seq<String>) -> bool {
    out.len() == syms.len() && forall|k: int| 0 <= k < out.len() ==> (#[trigger] out[k])@ == symbol_text(names, syms[k])
}

/// The constraints `cs` were written as `ss`, in order.
pub open spec fn constraints_lowered(
    hir: Seq<TyNode>,
    names: Seq<Seq<char>>,
    nodes: Seq<SurfaceNode>,
    cs: Seq<ConstraintFacts>,
    ss: Seq<ConstraintSurface>,
) -> bool {
    cs.len() == ss.len() && forall|k: int| 0 <= k < cs.len() ==> constraint_lowered_as(hir, names, nodes, #[trigger] cs[k], ss[k])
}

/// The types of the exported value `v` were written from binding `b`: its
/// type, and, when it has a scheme, the scheme's type parameters by their
/// texts and their kinds, its parameter names and compile-time flags, and
/// its constraints; without a scheme those are empty.
pub open spec fn value_lowered_as(
    hir: Seq<TyNode>,
    names: Seq<Seq<char>>,
    nodes: Seq<SurfaceNode>,
    st: CheckState,
    b: u32,
    v: ExportedValue,
) -> bool {
    &&& export_ty(st, b) matches Some(t) && corresponds(hir, names, nodes, t, v.ty)
    &&& match st.schemes@.get(b) {
        Some(s) => {
            &&& texts_of(names, s.type_params@, v.type_params@)
            &&& list_lowered(hir, names, nodes, s.type_param_kinds@, v.type_param_kinds@)
            &&& texts_of(names, s.param_names@, v.param_names@)
            &&& v.comptime_params@ == s.comptime_params@
            &&& constraints_lowered(hir, names, nodes, s.constraints@, v.constraints@)
        },
        None => {
            &&& v.type_params@.len() == 0
            &&& v.type_param_kinds@.len() == 0
            &&& v.param_names@.len() == 0
            &&& v.comptime_params@.len() == 0
            &&& v.constraints@.len() == 0
        },
    }
}

/// What else the exported value `v` of binding `b`, exported as `name`,
/// says: whether it is opaque, the module it comes from, the shape it
/// names, the data type of its name, whether it is an attached method, its
/// compile-time value and the integer it is, and its inert and `musi`
/// attributes.
pub open spec fn value_facts_as(
    st: CheckState,
    defs: Map<Seq<char>, SemaDataDef>,
    b: u32,
    name: Seq<char>,
    opaque: bool,
    shape_key: Option<DefinitionKey>,
    is_attached_method: bool,
    attrs: Seq<Attr>,
    v: ExportedValue,
) -> bool {
    &&& v.name@ == name
    &&& v.opaque == opaque
    &&& v.import_record_target == st.import_targets@.get(b)
    &&& v.shape_key == shape_key
    &&& v.data_key == if defs.contains_key(name) {
        Some(defs[name].key)
    } else {
        None
    }
    &&& v.is_attached_method == is_attached_method
    &&& v.comptime_value == st.comptime_values@.get(b)
    &&& v.const_int == match st.comptime_values@.get(b) {
        Some(ComptimeValue::Int(n)) => Some(n),
        _ => st.const_ints@.get(b),
    }
    &&& v.inert_attrs@ == attrs.filter(|a: Attr| is_inert_export(a))
    &&& v.musi_attrs@ == attrs.filter(|a: Attr| is_musi_export(a))
}

/// The texts of symbols, in order.
fn symbol_strings(names: &Vec<String>, syms: &Vec<Symbol>) -> (r: Vec<String>)
    ensures
        texts_of(symbol_texts(names@), syms@, r@),
{
    let mut out: Vec<String> = Vec::new();
    let mut k: usize = 0;
    while k < syms.len()
        invariant
            k <= syms@.len(),
            out@.len() == k,
            forall|q: int| 0 <= q < k ==> (#[trigger] out@[q])@ == symbol_text(symbol_texts(names@), syms@[q]),
        decreases syms@.len() - k,
    {
        out.push(symbol_string(names, syms[k]));
        k = k + 1;
        proof {
            assert forall|q: int| 0 <= q < k implies (#[trigger] out@[q])@ == symbol_text(symbol_texts(names@), syms@[q]) by {
                if q < k - 1 {
                    assert(out@[q] == out@.drop_last()[q]);
                }
            }
        }
    }
    out
}

proof fn lemma_constraints_extend(
    hir: Seq<TyNode>,
    names: Seq<Seq<char>>,
    small: Seq<SurfaceNode>,
    big: Seq<SurfaceNode>,
    cs: Seq<ConstraintFacts>,
    ss: Seq<ConstraintSurface>,
)
    requires
        store_wf(hir),
        nodes_prefix(small, big),
        forall|k: int| 0 <= k < cs.len() ==> (#[trigger] cs[k]).value.0 < hir.len(),
        constraints_lowered(hir, names, small, cs, ss),
    ensures
        constraints_lowered(hir, names, big, cs, ss),
{
    assert forall|k: int| 0 <= k < cs.len() implies constraint_lowered_as(hir, names, big, #[trigger] cs[k], ss[k]) by {
        lemma_corresponds_extend(hir, names, small, big, cs[k].value, ss[k].value);
    }
}

/// Writes constraints in order.
fn lower_constraints(builder: &mut SurfaceTyBuilder, hir: &TyStore, names: &Vec<String>, cs: &Vec<ConstraintFacts>) -> (r: Vec<
    ConstraintSurface,
>)
    requires
        old(builder).state().cache.len() == hir.kinds().len(),
        forall|k: int| 0 <= k < cs@.len() ==> (#[trigger] cs@[k]).value.0 < hir.kinds().len(),
    ensures
        final(builder).state().cache.len() == old(builder).state().cache.len(),
        nodes_prefix(old(builder).state().nodes, final(builder).state().nodes),
        lowering_ok(hir.kinds(), symbol_texts(names@), old(builder).state(), final(builder).state()),
        cache_ok(hir.kinds(), symbol_texts(names@), old(builder).state()) && final(builder).state().nodes.len() <= u32::MAX
            + 1 ==> constraints_lowered(hir.kinds(), symbol_texts(names@), final(builder).state().nodes, cs@, r@),
{
    proof {
        use_type_invariant(hir);
    }
    let ghost tys = hir.kinds();
    let ghost nm = symbol_texts(names@);
    let ghost st0 = builder.state();
    let mut out: Vec<ConstraintSurface> = Vec::new();
    let mut j: usize = 0;
    proof {
        assert(nodes_prefix(st0.nodes, st0.nodes));
    }
    while j < cs.len()
        invariant
            j <= cs@.len(),
            out@.len() == j,
            tys == hir.kinds(),
            store_wf(tys),
            nm == symbol_texts(names@),
            forall|k: int| 0 <= k < cs@.len() ==> (#[trigger] cs@[k]).value.0 < tys.len(),
            builder.state().cache.len() == st0.cache.len(),
            st0.cache.len() == tys.len(),
            nodes_prefix(st0.nodes, builder.state().nodes),
            lowering_ok(tys, nm, st0, builder.state()),
            cache_ok(tys, nm, st0) && builder.state().nodes.len() <= u32::MAX + 1 ==> constraints_lowered(
                tys,
                nm,
                builder.state().nodes,
                cs@.subrange(0, j as int),
                out@,
            ),
        decreases cs@.len() - j,
    {
        let ghost st1 = builder.state();
        let ghost prev = out@;
        let c = lower_constraint(builder, hir, names, &cs[j]);
        proof {
            let st2 = builder.state();
            lemma_nodes_trans(st0.nodes, st1.nodes, st2.nodes);
            lemma_lowering_trans(tys, nm, st0, st1, st2);
            if cache_ok(tys, nm, st0) && st2.nodes.len() <= u32::MAX + 1 {
                assert forall|k: int| 0 <= k < cs@.subrange(0, j as int).len() implies (#[trigger] cs@.subrange(0, j as int)[k]).value.0 < tys.len() by {
                    assert(cs@.subrange(0, j as int)[k] == cs@[k]);
                }
                lemma_constraints_extend(tys, nm, st1.nodes, st2.nodes, cs@.subrange(0, j as int), prev);
            }
        }
        out.push(c);
        j = j + 1;
        proof {
            let st2 = builder.state();
            if cache_ok(tys, nm, st0) && st2.nodes.len() <= u32::MAX + 1 {
                assert forall|q: int| 0 <= q < j implies constraint_lowered_as(tys, nm, st2.nodes, #[trigger] cs@.subrange(0, j as int)[q], out@[q]) by {
                    if q < j - 1 {
                        assert(out@[q] == prev[q]);
                        assert(cs@.subrange(0, j as int)[q] == cs@.subrange(0, j - 1)[q]);
                    }
                }
            }
        }
    }
    proof {
        assert(cs@.subrange(0, j as int) =~= cs@);
    }
    out
}

/// Exports binding `b` as `name`: `None`, writing nothing, when the binding
/// is gated out or has neither a scheme nor a type. Otherwise its type, and
/// its scheme's type parameter kinds and constraints, are written into the
/// surface's type table in that order, and the rest is read from the
/// checker's state: the module it comes from, its compile-time value, and
/// the data definition of its name in `defs`. `shape_key` is the shape its
/// name declares, if any; `attrs` are its lowered attributes, split into
/// inert and `musi` ones.
pub fn export_value(
    builder: &mut SurfaceTyBuilder,
    hir: &TyStore,
    names: &Vec<String>,
    st: &CheckState,
    defs: &TextMap<SemaDataDef>,
    b: u32,
    name: String,
    opaque: bool,
    shape_key: Option<DefinitionKey>,
    is_attached_method: bool,
    attrs: Vec<Attr>,
) -> (r: Option<ExportedValue>)
    requires
        old(builder).state().cache.len() == hir.kinds().len(),
        export_tys_in(*st, b, hir.kinds().len() as int),
    ensures
        final(builder).state().cache.len() == old(builder).state().cache.len(),
        nodes_prefix(old(builder).state().nodes, final(builder).state().nodes),
        lowering_ok(hir.kinds(), symbol_texts(names@), old(builder).state(), final(builder).state()),
        r is None <==> st.gated@.contains(b) || export_ty(*st, b) is None,
        r is None ==> final(builder).state() == old(builder).state(),
        r matches Some(v) ==> value_facts_as(*st, defs.map(), b, name@, opaque, shape_key, is_attached_method, attrs@, v),
        r matches Some(v) ==> (cache_ok(hir.kinds(), symbol_texts(names@), old(builder).state())
            && final(builder).state().nodes.len() <= u32::MAX + 1 ==> value_lowered_as(
            hir.kinds(),
            symbol_texts(names@),
            final(builder).state().nodes,
            *st,
            b,
            v,
        )),
{
    proof {
        use_type_invariant(hir);
        assert(nodes_prefix(builder.state().nodes, builder.state().nodes));
    }
    let ghost tys = hir.kinds();
    let ghost nm = symbol_texts(names@);
    let ghost st0 = builder.state();
    if st.is_gated_binding(b) {
        return None;
    }
    let scheme = st.schemes.get(&b);
    let ty = match scheme {
        Some(s) => s.ty,
        None => match st.binding_type(b) {
            Some(t) => t,
            None => {
                return None;
            },
        },
    };
    let ty_s = lower_one(builder, hir, names, ty);
    let ghost st1 = builder.state();
    let (type_params, type_param_kinds, param_names, comptime_params, constraints) = match scheme {
        Some(s) => {
            let tp = symbol_strings(names, &s.type_params);
            let kinds = lower_list(builder, hir, names, &s.type_param_kinds);
            let ghost st2 = builder.state();
            proof {
                lemma_nodes_trans(st0.nodes, st1.nodes, st2.nodes);
                lemma_lowering_trans(tys, nm, st0, st1, st2);
            }
            let pn = symbol_strings(names, &s.param_names);
            let cp = s.comptime_params.clone();
            let cs = lower_constraints(builder, hir, names, &s.constraints);
            proof {
                let st3 = builder.state();
                lemma_nodes_trans(st0.nodes, st2.nodes, st3.nodes);
                lemma_nodes_trans(st1.nodes, st2.nodes, st3.nodes);
                lemma_lowering_trans(tys, nm, st0, st2, st3);
                if cache_ok(tys, nm, st0) && st3.nodes.len() <= u32::MAX + 1 {
                    lemma_corresponds_extend(tys, nm, st1.nodes, st3.nodes, ty, ty_s);
                    lemma_list_lowered_extend(tys, nm, st2.nodes, st3.nodes, s.type_param_kinds@, kinds@);
                }
            }
            (tp, kinds, pn, cp, cs)
        },
        None => (Vec::new(), Vec::new(), Vec::new(), Vec::new(), Vec::new()),
    };
    let mut const_int = get_copy(&st.const_ints, b);
    let comptime_value = match st.comptime_values.get(&b) {
        Some(v0) => {
            let v = copy_value(v0);
            if let ComptimeValue::Int(n) = v {
                const_int = Some(n);
            }
            Some(v)
        },
        None => None,
    };
    let import_record_target = get_string(&st.import_targets, b);
    let data_key = match defs.get(name.as_str()) {
        Some(d) => Some(copy_key(&d.key)),
        None => None,
    };
    let (inert_attrs, musi_attrs) = split_export_attrs(attrs);
    Some(ExportedValue {
        name,
        ty: ty_s,
        type_params,
        type_param_kinds,
        param_names,
        comptime_params,
        constraints,
        opaque,
        import_record_target,
        shape_key,
        data_key,
        is_attached_method,
        const_int,
        comptime_value,
        inert_attrs,
        musi_attrs,
    })
}

} // verus!
