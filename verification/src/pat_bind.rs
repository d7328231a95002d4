//! Binding a pattern against a type: the steps of one pattern node, and the
//! walk that binds a whole pattern, sub-patterns in place of their visits.
use vstd::prelude::*;

use crate::const_eval::{symbol_is, symbol_string, symbol_text};
use crate::diag::SemaDiagKind;
use crate::facts::SemaDataDef;
use crate::pats::{
    any_arg_named, arg_name, arg_names_text, binders, data_variant_fields, field_named, field_position, has_field,
    missing_steps, named_arg_steps, named_args_steps, node_steps, or_pattern_binders_match, pat_kind_wf, pats_wf,
    positional_args_steps, record_pat_steps, seen_names, tuple_types, variant_expected, variant_steps, visit_items,
    PatId, PatKind, PatStep, PatStore, VariantPatArg, defs_tys_in, lemma_node_binders, lemma_node_visits,
    map_values_in, step_binders, visits_ok,
};
use crate::records::{
    data_def_in, data_defs_in, field_map, field_tys_view, record_like_fields, record_like_ok, FieldTys,
};
use crate::surface_lower::symbol_texts;
use crate::text::copy_names;
use crate::text_map::TextMap;
use crate::ty::{children_below, fields_below, store_wf, Symbol, TyField, TyId, TyKind, TyNode, TyStore};
use crate::ty_tree::{lemma_prefix_trans, store_prefix};

verus! {

fn data_variant_fields_exec(defs: &TextMap<SemaDataDef>, data: &str, tag: &str) -> (r: (Vec<TyId>, Vec<Option<String>>))
    ensures
        (r.0@, r.1@, None::<(TyId, TyId)>) == data_variant_fields(defs.map(), data@, tag@),
{
    match defs.get(data) {
        Some(def) => match def.variant(tag) {
            Some(v) => (v.field_tys().clone(), copy_names(v.field_names())),
            None => (Vec::new(), Vec::new()),
        },
        None => (Vec::new(), Vec::new()),
    }
}

/// What the matched type says of the variant `tag`.
fn variant_expected_exec(
    store: &TyStore,
    names: &Vec<String>,
    defs: &TextMap<SemaDataDef>,
    ty: TyId,
    tag: Symbol,
) -> (r: (Vec<TyId>, Vec<Option<String>>, Option<(TyId, TyId)>))
    requires
        ty.0 < store.kinds().len(),
    ensures
        (r.0@, r.1@, r.2) == variant_expected(store.kinds(), symbol_texts(names@), defs.map(), ty, tag),
{
    proof {
        use_type_invariant(store);
        assert(children_below(store.kinds()[ty.0 as int], ty.0 as int));
    }
    match store.kind(ty) {
        TyKind::Sum { left, right } => {
            let chosen = if symbol_is(names, tag, "Left") {
                Some(*left)
            } else if symbol_is(names, tag, "Right") {
                Some(*right)
            } else {
                None
            };
            match chosen {
                Some(p) => {
                    let args = match store.kind(p) {
                        TyKind::Tuple { items } => items.clone(),
                        _ => vec![p],
                    };
                    proof {
                        if !(store.kinds()[p.0 as int] is Tuple) {
                            assert(args@ =~= seq![p]);
                        }
                    }
                    (args, Vec::new(), Some((*left, *right)))
                },
                None => (Vec::new(), Vec::new(), None),
            }
        },
        TyKind::Named { name, .. } => {
            let data = symbol_string(names, *name);
            let t = symbol_string(names, tag);
            let (a, b) = data_variant_fields_exec(defs, data.as_str(), t.as_str());
            (a, b, None)
        },
        TyKind::Bool => {
            let t = symbol_string(names, tag);
            let (a, b) = data_variant_fields_exec(defs, "Bit", t.as_str());
            (a, b, None)
        },
        _ => (Vec::new(), Vec::new(), None),
    }
}

/// Whether field `j` is named like symbol `n`.
fn field_named_exec(names: &Vec<String>, field_names: &Vec<Option<String>>, j: usize, n: Symbol) -> (r: bool)
    requires
        j < field_names@.len(),
    ensures
        r == field_named(field_names@, j as int, symbol_text(symbol_texts(names@), n)),
{
    match &field_names[j] {
        Some(s) => symbol_is(names, n, s.as_str()),
        None => false,
    }
}

/// The first field named like symbol `n`.
fn field_position_exec(names: &Vec<String>, field_names: &Vec<Option<String>>, n: Symbol) -> (r: Option<usize>)
    ensures
        match r {
            Some(j) => field_position(field_names@, symbol_text(symbol_texts(names@), n)) == Some(j as int),
            None => field_position(field_names@, symbol_text(symbol_texts(names@), n)) is None,
        },
{
    let ghost text = symbol_text(symbol_texts(names@), n);
    let mut j: usize = 0;
    while j < field_names.len()
        invariant
            j <= field_names@.len(),
            text == symbol_text(symbol_texts(names@), n),
            field_position(field_names@.subrange(0, j as int), text) is None,
        decreases field_names@.len() - j,
    {
        proof {
            assert(field_names@.subrange(0, j + 1).drop_last() =~= field_names@.subrange(0, j as int));
        }
        if field_named_exec(names, field_names, j, n) {
            proof {
                assert(field_named(field_names@.subrange(0, j + 1), j as int, text));
                lemma_field_position_prefix(field_names@, text, j + 1);
            }
            return Some(j);
        }
        proof {
            assert(!field_named(field_names@.subrange(0, j + 1), j as int, text));
        }
        j = j + 1;
    }
    proof {
        assert(field_names@.subrange(0, j as int) =~= field_names@);
    }
    None
}

proof fn lemma_field_position_prefix(field_names: Seq<Option<String>>, text: Seq<char>, k: int)
    requires
        0 <= k <= field_names.len(),
        field_position(field_names.subrange(0, k), text) is Some,
    ensures
        field_position(field_names, text) == field_position(field_names.subrange(0, k), text),
    decreases field_names.len() - k,
{
    if k < field_names.len() {
        assert(field_names.subrange(0, k + 1).drop_last() =~= field_names.subrange(0, k));
        lemma_field_position_prefix(field_names, text, k + 1);
    } else {
        assert(field_names.subrange(0, k) =~= field_names);
    }
}

/// Whether some field is named like symbol `n`.
fn has_field_exec(names: &Vec<String>, field_names: &Vec<Option<String>>, n: Symbol) -> (r: bool)
    ensures
        r == has_field(field_names@, symbol_text(symbol_texts(names@), n)),
{
    let ghost text = symbol_text(symbol_texts(names@), n);
    let mut j: usize = 0;
    while j < field_names.len()
        invariant
            j <= field_names@.len(),
            text == symbol_text(symbol_texts(names@), n),
            forall|q: int| 0 <= q < j ==> !#[trigger] field_named(field_names@, q, text),
        decreases field_names@.len() - j,
    {
        if field_named_exec(names, field_names, j, n) {
            return true;
        }
        j = j + 1;
    }
    false
}

/// The field name argument `arg` stands for.
fn arg_name_exec(pats: &PatStore, names: &Vec<String>, field_names: &Vec<Option<String>>, arg: VariantPatArg) -> (r: Option<Symbol>)
    requires
        arg.pat.0 < pats.kinds().len(),
    ensures
        r == arg_name(pats.kinds(), symbol_texts(names@), field_names@, arg),
{
    match arg.name {
        Some(n) => Some(n),
        None => match pats.kind(arg.pat) {
            PatKind::Bind { name, .. } => {
                if has_field_exec(names, field_names, *name) {
                    Some(*name)
                } else {
                    None
                }
            },
            _ => None,
        },
    }
}

/// Every argument's pattern is a pattern of the store.
pub open spec fn args_in(pats: Seq<PatKind>, args: Seq<VariantPatArg>) -> bool {
    forall|k: int| 0 <= k < args.len() ==> (#[trigger] args[k]).pat.0 < pats.len()
}

/// Whether some argument stands for a field name.
fn any_arg_named_exec(pats: &PatStore, names: &Vec<String>, field_names: &Vec<Option<String>>, args: &Vec<VariantPatArg>) -> (r: bool)
    requires
        args_in(pats.kinds(), args@),
    ensures
        r == any_arg_named(pats.kinds(), symbol_texts(names@), field_names@, args@),
{
    let mut k: usize = 0;
    while k < args.len()
        invariant
            k <= args@.len(),
            args_in(pats.kinds(), args@),
            forall|q: int| 0 <= q < k ==> #[trigger] arg_name(pats.kinds(), symbol_texts(names@), field_names@, args@[q]) is None,
        decreases args@.len() - k,
    {
        if arg_name_exec(pats, names, field_names, args[k]).is_some() {
            return true;
        }
        k = k + 1;
    }
    false
}

/// Whether some argument stands for a name with the text of field `s`.
fn arg_names_text_exec(pats: &PatStore, names: &Vec<String>, field_names: &Vec<Option<String>>, args: &Vec<VariantPatArg>, s: &str) -> (r: bool)
    requires
        args_in(pats.kinds(), args@),
    ensures
        r == arg_names_text(pats.kinds(), symbol_texts(names@), field_names@, args@, s@),
{
    let mut k: usize = 0;
    while k < args.len()
        invariant
            k <= args@.len(),
            args_in(pats.kinds(), args@),
            forall|q: int| 0 <= q < k ==> !((#[trigger] arg_name(pats.kinds(), symbol_texts(names@), field_names@, args@[q]))
                matches Some(n) && symbol_text(symbol_texts(names@), n) == s@),
        decreases args@.len() - k,
    {
        match arg_name_exec(pats, names, field_names, args[k]) {
            Some(n) => {
                if symbol_is(names, n, s) {
                    return true;
                }
            },
            None => {},
        }
        k = k + 1;
    }
    false
}

fn contains_symbol(v: &Vec<Symbol>, s: Symbol) -> (r: bool)
    ensures
        r == v@.contains(s),
{
    let mut k: usize = 0;
    while k < v.len()
        invariant
            k <= v.len(),
            forall|j: int| 0 <= j < k ==> v@[j] != s,
        decreases v.len() - k,
    {
        if v[k] == s {
            assert(v@[k as int] == s);
            return true;
        }
        k = k + 1;
    }
    false
}

/// The steps of a variant pattern `tag(args)` against type `ty`, added to
/// `out`.
fn variant_steps_exec(
    pats: &PatStore,
    store: &TyStore,
    names: &Vec<String>,
    defs: &TextMap<SemaDataDef>,
    unknown: TyId,
    ty: TyId,
    tag: Symbol,
    args: &Vec<VariantPatArg>,
    out: &mut Vec<PatStep>,
)
    requires
        ty.0 < store.kinds().len(),
        args_in(pats.kinds(), args@),
    ensures
        final(out)@ == old(out)@ + variant_steps(store.kinds(), symbol_texts(names@), defs.map(), pats.kinds(), unknown, ty, tag, args@),
{
    let ghost pk = pats.kinds();
    let ghost nm = symbol_texts(names@);
    let ghost out0 = out@;
    let (expected, field_names, sum) = variant_expected_exec(store, names, defs, ty, tag);
    if let Some((l, r)) = sum {
        out.push(PatStep::EnsureSum { left: l, right: r });
    }
    let ghost after_ensure = out@;
    let mut named_variant = false;
    let mut j: usize = 0;
    while j < field_names.len()
        invariant
            j <= field_names@.len(),
            named_variant == exists|q: int| 0 <= q < j && (#[trigger] field_names@[q]) is Some,
        decreases field_names@.len() - j,
    {
        if field_names[j].is_some() {
            named_variant = true;
        }
        j = j + 1;
    }
    let named_args = any_arg_named_exec(pats, names, &field_names, args);
    if named_variant {
        if !named_args {
            out.push(PatStep::Diag { kind: SemaDiagKind::VariantNamedFieldsRequired });
        }
        let ghost base = out@;
        let mut seen: Vec<Symbol> = Vec::new();
        let mut k: usize = 0;
        while k < args.len()
            invariant
                k <= args@.len(),
                args_in(pk, args@),
                pk == pats.kinds(),
                nm == symbol_texts(names@),
                seen@.to_set() == seen_names(pk, nm, field_names@, args@, k as int),
                out@ == base + named_args_steps(pk, nm, expected@, field_names@, args@, unknown, k as int),
            decreases args@.len() - k,
        {
            let arg = args[k];
            let ghost before = out@;
            match arg_name_exec(pats, names, &field_names, arg) {
                None => {
                    out.push(PatStep::Visit { pat: arg.pat, ty: unknown });
                },
                Some(n) => {
                    if contains_symbol(&seen, n) {
                        out.push(PatStep::FieldDiag { kind: SemaDiagKind::DuplicateVariantField, name: n });
                    }
                    match field_position_exec(names, &field_names, n) {
                        Some(p) => {
                            if p < expected.len() {
                                out.push(PatStep::Visit { pat: arg.pat, ty: expected[p] });
                            } else {
                                out.push(PatStep::FieldDiag { kind: SemaDiagKind::UnknownVariantField, name: n });
                                out.push(PatStep::Visit { pat: arg.pat, ty: unknown });
                            }
                        },
                        None => {
                            out.push(PatStep::FieldDiag { kind: SemaDiagKind::UnknownVariantField, name: n });
                            out.push(PatStep::Visit { pat: arg.pat, ty: unknown });
                        },
                    }
                    let ghost seen_before = seen@;
                    seen.push(n);
                    proof {
                        assert(seen@ == seen_before.push(n));
                        assert forall|y: Symbol| seen@.contains(y) <==> (seen_before.contains(y) || y == n) by {
                            if seen_before.contains(y) {
                                let q = seen_before.index_of(y);
                                assert(seen@[q] == y);
                            }
                            if y == n {
                                assert(seen@[seen_before.len() as int] == y);
                            }
                            if seen@.contains(y) {
                                let q = seen@.index_of(y);
                                if q < seen_before.len() {
                                    assert(seen_before[q] == y);
                                }
                            }
                        }
                        assert(seen@.to_set() =~= seen_before.to_set().insert(n));
                    }
                },
            }
            proof {
                assert(out@ =~= before + named_arg_steps(pk, nm, expected@, field_names@, args@, unknown, k as int));
                if arg_name(pk, nm, field_names@, arg) is None {
                    assert(seen@.to_set() =~= seen_names(pk, nm, field_names@, args@, k + 1));
                }
            }
            k = k + 1;
        }
        let ghost mid = out@;
        let mut q: usize = 0;
        while q < field_names.len()
            invariant
                q <= field_names@.len(),
                args_in(pk, args@),
                pk == pats.kinds(),
                nm == symbol_texts(names@),
                out@ == mid + missing_steps(pk, nm, field_names@, args@, q as int),
            decreases field_names@.len() - q,
        {
            match &field_names[q] {
                Some(fname) => {
                    if !arg_names_text_exec(pats, names, &field_names, args, fname.as_str()) {
                        out.push(PatStep::MissingField { index: q });
                    }
                },
                None => {},
            }
            proof {
                assert(out@ =~= mid + missing_steps(pk, nm, field_names@, args@, q + 1));
            }
            q = q + 1;
        }
        proof {
            assert(out@ =~= old(out)@ + variant_steps(store.kinds(), nm, defs.map(), pk, unknown, ty, tag, args@));
        }
    } else {
        if named_args {
            out.push(PatStep::Diag { kind: SemaDiagKind::VariantNamedFieldsUnexpected });
        }
        if expected.len() != args.len() {
            out.push(PatStep::Diag { kind: SemaDiagKind::VariantPatternArityMismatch });
        }
        let ghost base = out@;
        let mut k: usize = 0;
        while k < args.len()
            invariant
                k <= args@.len(),
                out@ == base + positional_args_steps(expected@, args@, unknown, k as int),
            decreases args@.len() - k,
        {
            let t = if k < expected.len() {
                expected[k]
            } else {
                unknown
            };
            out.push(PatStep::Visit { pat: args[k].pat, ty: t });
            k = k + 1;
            proof {
                assert(out@ =~= base + positional_args_steps(expected@, args@, unknown, k as int));
            }
        }
        proof {
            assert(out@ =~= old(out)@ + variant_steps(store.kinds(), nm, defs.map(), pk, unknown, ty, tag, args@));
        }
    }
}

fn visit_items_exec(items: &Vec<PatId>, types: Option<&Vec<TyId>>, fallback: TyId, out: &mut Vec<PatStep>)
    requires
        types matches Some(ts) ==> ts@.len() == items@.len(),
    ensures
        final(out)@ == old(out)@ + visit_items(
            items@,
            match types {
                Some(ts) => Some(ts@),
                None => None,
            },
            fallback,
            items@.len() as int,
        ),
{
    let ghost tv = match types {
        Some(ts) => Some(ts@),
        None => None::<Seq<TyId>>,
    };
    let ghost base = out@;
    let mut k: usize = 0;
    while k < items.len()
        invariant
            k <= items@.len(),
            types matches Some(ts) ==> ts@.len() == items@.len(),
            tv == (match types {
                Some(ts) => Some(ts@),
                None => None::<Seq<TyId>>,
            }),
            out@ == base + visit_items(items@, tv, fallback, k as int),
        decreases items@.len() - k,
    {
        let t = match types {
            Some(ts) => ts[k],
            None => fallback,
        };
        out.push(PatStep::Visit { pat: items[k], ty: t });
        k = k + 1;
        proof {
            assert(out@ =~= base + visit_items(items@, tv, fallback, k as int));
        }
    }
}

/// What binding pattern `id` against type `ty` asks for, in order, where
/// `record` holds the fields `ty` offers as a record (read for record
/// patterns only).
pub fn bind_node(
    pats: &PatStore,
    store: &TyStore,
    names: &Vec<String>,
    defs: &TextMap<SemaDataDef>,
    unknown: TyId,
    record: &FieldTys,
    id: PatId,
    ty: TyId,
) -> (out: Vec<PatStep>)
    requires
        id.0 < pats.kinds().len(),
        ty.0 < store.kinds().len(),
    ensures
        out@ == node_steps(store.kinds(), symbol_texts(names@), defs.map(), pats.kinds(), unknown, record.map(), id, ty),
{
    proof {
        use_type_invariant(pats);
        assert(pat_kind_wf(pats.kinds()[id.0 as int], id.0 as int));
    }
    let ghost nm = symbol_texts(names@);
    let mut out: Vec<PatStep> = Vec::new();
    out.push(PatStep::Fact { pat: id, ty });
    let ghost fact = out@;
    match pats.kind(id) {
        PatKind::Bind { binding, .. } => {
            if let Some(b) = binding {
                out.push(PatStep::BindType { binding: *b, ty });
            }
        },
        PatKind::Lit { expr } => {
            out.push(PatStep::CheckLit { expr: *expr, expected: ty });
        },
        PatKind::Tuple { items } => {
            let types = match store.kind(ty) {
                TyKind::Tuple { items: ti } => {
                    if ti.len() == items.len() {
                        Some(ti)
                    } else {
                        None
                    }
                },
                _ => None,
            };
            proof {
                assert((match types {
                    Some(ts) => Some(ts@),
                    None => None::<Seq<TyId>>,
                }) == tuple_types(store.kinds(), ty, items@.len()));
            }
            visit_items_exec(items, types, unknown, &mut out);
        },
        PatKind::Array { items } => {
            let item = match store.kind(ty) {
                TyKind::Array { item, .. } => *item,
                _ => unknown,
            };
            visit_items_exec(items, None, item, &mut out);
        },
        PatKind::Record { fields } => {
            let ghost base = out@;
            let mut k: usize = 0;
            while k < fields.len()
                invariant
                    k <= fields@.len(),
                    nm == symbol_texts(names@),
                    out@ == base + record_pat_steps(nm, record.map(), fields@, unknown, k as int),
                decreases fields@.len() - k,
            {
                let f = fields[k];
                let text = symbol_string(names, f.name);
                let fty = match record.get(text.as_str()) {
                    Some(t) => *t,
                    None => unknown,
                };
                match f.value {
                    Some(v) => {
                        out.push(PatStep::Visit { pat: v, ty: fty });
                    },
                    None => match f.binding {
                        Some(b) => {
                            out.push(PatStep::BindType { binding: b, ty: fty });
                        },
                        None => {},
                    },
                }
                k = k + 1;
                proof {
                    assert(out@ =~= base + record_pat_steps(nm, record.map(), fields@, unknown, k as int));
                }
            }
        },
        PatKind::Variant { tag, args } => {
            proof {
                assert forall|k: int| 0 <= k < args@.len() implies (#[trigger] args@[k]).pat.0 < pats.kinds().len() by {}
            }
            variant_steps_exec(pats, store, names, defs, unknown, ty, *tag, args, &mut out);
        },
        PatKind::Or { left, right } => {
            if !or_pattern_binders_match(pats, *left, *right) {
                out.push(PatStep::Diag { kind: SemaDiagKind::OrPatternBindersMismatch });
            }
            out.push(PatStep::Visit { pat: *left, ty });
            out.push(PatStep::Visit { pat: *right, ty });
        },
        PatKind::As { pat, binding, .. } => {
            out.push(PatStep::Visit { pat: *pat, ty });
            if let Some(b) = binding {
                out.push(PatStep::BindType { binding: *b, ty });
            }
        },
        _ => {},
    }
    proof {
        assert(out@ =~= node_steps(store.kinds(), nm, defs.map(), pats.kinds(), unknown, record.map(), id, ty));
    }
    out
}

/// The bindings that a list of steps types.
pub open spec fn bound_set(steps: Seq<PatStep>) -> Set<u32>
    decreases steps.len(),
{
    if steps.len() == 0 {
        Set::empty()
    } else {
        bound_set(steps.drop_last()) + match steps.last() {
            PatStep::BindType { binding, .. } => set![binding],
            _ => Set::empty(),
        }
    }
}

/// No step is a visit left to expand.
pub open spec fn no_visits(steps: Seq<PatStep>) -> bool {
    forall|i: int| 0 <= i < steps.len() ==> !((#[trigger] steps[i]) is Visit)
}

proof fn lemma_bound_set_concat(a: Seq<PatStep>, b: Seq<PatStep>)
    ensures
        bound_set(a + b) == bound_set(a) + bound_set(b),
    decreases b.len(),
{
    if b.len() == 0 {
        assert(a + b =~= a);
        assert(bound_set(a) + Set::<u32>::empty() =~= bound_set(a));
    } else {
        assert((a + b).drop_last() =~= a + b.drop_last());
        lemma_bound_set_concat(a, b.drop_last());
        assert((a + b).last() == b.last());
        assert(bound_set(a + b) =~= bound_set(a) + bound_set(b));
    }
}

proof fn lemma_field_map_values(names: Seq<Seq<char>>, fields: Seq<TyField>, n: int)
    requires
        forall|j: int| 0 <= j < fields.len() ==> (#[trigger] fields[j]).ty.0 < n,
    ensures
        map_values_in(n, field_map(names, fields)),
    decreases fields.len(),
{
    if fields.len() > 0 {
        assert forall|j: int| 0 <= j < fields.drop_last().len() implies (#[trigger] fields.drop_last()[j]).ty.0 < n by {
            assert(fields.drop_last()[j] == fields[j]);
        }
        lemma_field_map_values(names, fields.drop_last(), n);
        assert(fields.last() == fields[fields.len() - 1]);
    }
}

/// The fields a type offers as a record are types of the store.
proof fn lemma_record_like_values(
    old_tys: Seq<TyNode>,
    new_tys: Seq<TyNode>,
    names: Seq<Seq<char>>,
    defs: Map<Seq<char>, SemaDataDef>,
    bool_: TyId,
    bits: Symbol,
    ty: TyId,
    f: Option<Map<Seq<char>, TyId>>,
)
    requires
        store_wf(old_tys),
        ty.0 < old_tys.len(),
        bool_.0 < old_tys.len(),
        old_tys.len() <= new_tys.len(),
        record_like_ok(old_tys, new_tys, names, defs, bool_, bits, ty, f),
    ensures
        f matches Some(m) ==> map_values_in(new_tys.len() as int, m),
{
    assert(children_below(old_tys[ty.0 as int], ty.0 as int));
    match old_tys[ty.0 as int] {
        TyNode::Record { fields } => {
            assert(fields_below(fields, ty.0 as int));
            assert forall|j: int| 0 <= j < fields.len() implies (#[trigger] fields[j]).ty.0 < new_tys.len() by {}
            lemma_field_map_values(names, fields, new_tys.len() as int);
        },
        _ => {},
    }
}

proof fn lemma_defs_grow(old_tys: Seq<TyNode>, new_tys: Seq<TyNode>, defs: Map<Seq<char>, SemaDataDef>)
    requires
        old_tys.len() <= new_tys.len(),
        data_defs_in(old_tys, defs),
    ensures
        data_defs_in(new_tys, defs),
{
    assert forall|k: Seq<char>| #[trigger] defs.contains_key(k) implies data_def_in(new_tys, defs[k]) by {
        assert(data_def_in(old_tys, defs[k]));
    }
}

/// The steps of a list of parts, one after another.
pub open spec fn concat_all(parts: Seq<Seq<PatStep>>) -> Seq<PatStep>
    decreases parts.len(),
{
    if parts.len() == 0 {
        Seq::empty()
    } else {
        concat_all(parts.drop_last()) + parts.last()
    }
}

/// The fields read for a record pattern: those offered, or none.
pub open spec fn offered(m: Option<Map<Seq<char>, TyId>>) -> Map<Seq<char>, TyId> {
    match m {
        Some(x) => x,
        None => Map::empty(),
    }
}

/// How the steps of binding a pattern came about: the store `a` the
/// pattern's type stands in, the store `b` that reading the fields `m` the
/// type offers as a record grew it to, the parts the node's steps became,
/// and how each visited sub-pattern was bound.
pub enum PatDerivation {
    Node {
        a: Seq<TyNode>,
        b: Seq<TyNode>,
        m: Option<Map<Seq<char>, TyId>>,
        parts: Seq<Seq<PatStep>>,
        subs: Seq<PatDerivation>,
    },
}

/// Whether `d` shows that `steps` are the steps of binding pattern `id`
/// against `ty`, read in the store `tys`: `ty` stands in a store `a` before
/// it, grown to `b` by reading the fields `m` that `ty` offers as a record
/// (for a record pattern; else `a` is `b` and no fields are read); the
/// steps are those of the node read in `b`, one part per node step, each
/// visit of a sub-pattern replaced by the steps of binding that sub-pattern
/// against its own type, and any other step kept.
pub open spec fn derivation_ok(
    d: PatDerivation,
    tys: Seq<TyNode>,
    names: Seq<Seq<char>>,
    defs: Map<Seq<char>, SemaDataDef>,
    bool_: TyId,
    bits: Symbol,
    unknown: TyId,
    pats: Seq<PatKind>,
    id: PatId,
    ty: TyId,
    steps: Seq<PatStep>,
) -> bool
    decreases d,
{
    match d {
        PatDerivation::Node { a, b, m, parts, subs } => {
            let node = node_steps(b, names, defs, pats, unknown, offered(m), id, ty);
            &&& store_prefix(a, b)
            &&& store_prefix(b, tys)
            &&& ty.0 < a.len()
            &&& if pats[id.0 as int] is Record {
                record_like_ok(a, b, names, defs, bool_, bits, ty, m)
            } else {
                a == b && m is None
            }
            &&& parts.len() == node.len()
            &&& subs.len() == node.len()
            &&& steps == concat_all(parts)
            &&& forall|i: int| 0 <= i < node.len() ==> match #[trigger] node[i] {
                PatStep::Visit { pat, ty: t } => derivation_ok(subs[i], tys, names, defs, bool_, bits, unknown, pats, pat, t, parts[i]),
                _ => parts[i] == seq![node[i]],
            }
        },
    }
}

/// Whether `steps` are the steps of binding pattern `id` against `ty`, read
/// in the store `tys`, as some derivation shows.
pub open spec fn pat_steps_ok(
    tys: Seq<TyNode>,
    names: Seq<Seq<char>>,
    defs: Map<Seq<char>, SemaDataDef>,
    bool_: TyId,
    bits: Symbol,
    unknown: TyId,
    pats: Seq<PatKind>,
    id: PatId,
    ty: TyId,
    steps: Seq<PatStep>,
) -> bool {
    exists|d: PatDerivation| #[trigger] derivation_ok(d, tys, names, defs, bool_, bits, unknown, pats, id, ty, steps)
}

/// A derivation read in a store holds in a store it grows into.
proof fn lemma_derivation_grows(
    d: PatDerivation,
    t1: Seq<TyNode>,
    t2: Seq<TyNode>,
    names: Seq<Seq<char>>,
    defs: Map<Seq<char>, SemaDataDef>,
    bool_: TyId,
    bits: Symbol,
    unknown: TyId,
    pats: Seq<PatKind>,
    id: PatId,
    ty: TyId,
    steps: Seq<PatStep>,
)
    requires
        derivation_ok(d, t1, names, defs, bool_, bits, unknown, pats, id, ty, steps),
        store_prefix(t1, t2),
    ensures
        derivation_ok(d, t2, names, defs, bool_, bits, unknown, pats, id, ty, steps),
    decreases d,
{
    match d {
        PatDerivation::Node { a, b, m, parts, subs } => {
            let node = node_steps(b, names, defs, pats, unknown, offered(m), id, ty);
            lemma_prefix_trans(b, t1, t2);
            assert forall|i: int| 0 <= i < node.len() implies match #[trigger] node[i] {
                PatStep::Visit { pat, ty: t } => derivation_ok(subs[i], t2, names, defs, bool_, bits, unknown, pats, pat, t, parts[i]),
                _ => parts[i] == seq![node[i]],
            } by {
                match node[i] {
                    PatStep::Visit { pat, ty: t } => {
                        lemma_derivation_grows(subs[i], t1, t2, names, defs, bool_, bits, unknown, pats, pat, t, parts[i]);
                    },
                    _ => {},
                }
            }
        },
    }
}

/// Binds pattern `id` against type `ty`: the steps of each pattern node,
/// each visit of a sub-pattern replaced by the steps of binding it, where
/// record patterns read the fields their type offers as a record; `None`
/// when the store had no room for a substituted type. It types exactly the
/// bindings the pattern declares.
pub fn bind_pat(
    pats: &PatStore,
    store: &mut TyStore,
    names: &Vec<String>,
    defs: &TextMap<SemaDataDef>,
    bool_: TyId,
    bits: Symbol,
    unknown: TyId,
    id: PatId,
    ty: TyId,
) -> (r: Option<Vec<PatStep>>)
    requires
        id.0 < pats.kinds().len(),
        ty.0 < old(store).kinds().len(),
        unknown.0 < old(store).kinds().len(),
        bool_.0 < old(store).kinds().len(),
        defs_tys_in(old(store).kinds().len() as int, defs.map()),
        data_defs_in(old(store).kinds(), defs.map()),
    ensures
        store_prefix(old(store).kinds(), final(store).kinds()),
        r matches Some(steps) ==> bound_set(steps@) == binders(pats.kinds(), id) && no_visits(steps@),
        r is None ==> final(store).kinds().len() == u32::MAX,
        r matches Some(steps) ==> pat_steps_ok(
            final(store).kinds(),
            symbol_texts(names@),
            defs.map(),
            bool_,
            bits,
            unknown,
            pats.kinds(),
            id,
            ty,
            steps@,
        ),
    decreases id.0,
{
    proof {
        use_type_invariant(pats);
        use_type_invariant(&*store);
    }
    let ghost tys0 = store.kinds();
    let ghost mut m: Option<Map<Seq<char>, TyId>> = None;
    let is_record = if let PatKind::Record { .. } = pats.kind(id) {
        true
    } else {
        false
    };
    let record: FieldTys = if is_record {
        let looked = record_like_fields(store, names, defs, bool_, bits, ty);
        let found = match looked {
            Some(f) => f,
            None => {
                proof {
                    assert(store_prefix(tys0, store.kinds()));
                }
                return None;
            },
        };
        proof {
            lemma_record_like_values(tys0, store.kinds(), symbol_texts(names@), defs.map(), bool_, bits, ty, field_tys_view(found));
            m = field_tys_view(found);
        }
        match found {
            Some(f) => f,
            None => TextMap::new(),
        }
    } else {
        TextMap::new()
    };
    proof {
        use_type_invariant(&*store);
        lemma_defs_grow(tys0, store.kinds(), defs.map());
    }
    let ghost tys1 = store.kinds();
    proof {
        assert(record.map() == offered(m));
        assert(store_prefix(tys1, tys1));
    }
    let node = bind_node(pats, store, names, defs, unknown, &record, id, ty);
    let ghost mut parts: Seq<Seq<PatStep>> = Seq::empty();
    let ghost mut subs: Seq<PatDerivation> = Seq::empty();
    let ghost nm = symbol_texts(names@);
    proof {
        lemma_node_binders(tys1, symbol_texts(names@), defs.map(), pats.kinds(), unknown, record.map(), id, ty);
        lemma_node_visits(tys1, symbol_texts(names@), defs.map(), pats.kinds(), unknown, record.map(), id, ty);
    }
    let mut out: Vec<PatStep> = Vec::new();
    let mut i: usize = 0;
    while i < node.len()
        invariant
            i <= node@.len(),
            id.0 < pats.kinds().len(),
            pats_wf(pats.kinds()),
            tys0 == old(store).kinds(),
            store_prefix(tys0, store.kinds()),
            tys1.len() <= store.kinds().len(),
            unknown.0 < tys0.len(),
            bool_.0 < tys0.len(),
            tys0.len() <= tys1.len(),
            defs_tys_in(tys0.len() as int, defs.map()),
            data_defs_in(tys0, defs.map()),
            visits_ok(node@, id.0 as int, tys1.len() as int),
            bound_set(out@) == step_binders(pats.kinds(), node@.subrange(0, i as int)),
            no_visits(out@),
            nm == symbol_texts(names@),
            node@ == node_steps(tys1, nm, defs.map(), pats.kinds(), unknown, offered(m), id, ty),
            store_prefix(tys0, tys1),
            store_prefix(tys1, store.kinds()),
            ty.0 < tys0.len(),
            if pats.kinds()[id.0 as int] is Record {
                record_like_ok(tys0, tys1, nm, defs.map(), bool_, bits, ty, m)
            } else {
                tys0 == tys1 && m is None
            },
            parts.len() == i,
            subs.len() == i,
            out@ == concat_all(parts),
            forall|j: int| 0 <= j < i ==> match #[trigger] node@[j] {
                PatStep::Visit { pat, ty: t } => derivation_ok(subs[j], store.kinds(), nm, defs.map(), bool_, bits, unknown, pats.kinds(), pat, t, parts[j]),
                _ => parts[j] == seq![node@[j]],
            },
        decreases node@.len() - i,
    {
        let step = node[i];
        let ghost before = out@;
        proof {
            assert(node@.subrange(0, i + 1) =~= node@.subrange(0, i as int).push(step));
            assert(node@.subrange(0, i + 1).drop_last() =~= node@.subrange(0, i as int));
        }
        match step {
            PatStep::Visit { pat, ty: t } => {
                proof {
                    assert(node@[i as int] == step);
                    use_type_invariant(&*store);
                    lemma_defs_grow(tys0, store.kinds(), defs.map());
                    assert(defs_tys_in(store.kinds().len() as int, defs.map())) by {
                        assert forall|d: Seq<char>, v: Seq<char>| #[trigger] defs.map().contains_key(d) && #[trigger] defs.map()[d].variants.map().contains_key(v)
                            implies forall|j: int| 0 <= j < defs.map()[d].variants.map()[v].field_tys_spec().len() ==> (
                            #[trigger] defs.map()[d].variants.map()[v].field_tys_spec()[j]).0 < store.kinds().len() by {
                            assert forall|j: int| 0 <= j < defs.map()[d].variants.map()[v].field_tys_spec().len() implies (
                                #[trigger] defs.map()[d].variants.map()[v].field_tys_spec()[j]).0 < store.kinds().len() by {
                                assert(defs.map()[d].variants.map()[v].field_tys_spec()[j].0 < tys0.len());
                            }
                        }
                    }
                }
                let ghost tys_before = store.kinds();
                let sub = match bind_pat(pats, store, names, defs, bool_, bits, unknown, pat, t) {
                    Some(sub) => sub,
                    None => {
                        proof {
                            lemma_prefix_trans(tys0, tys_before, store.kinds());
                        }
                        return None;
                    },
                };
                proof {
                    lemma_prefix_trans(tys0, tys_before, store.kinds());
                    lemma_prefix_trans(tys1, tys_before, store.kinds());
                    let d_sub = choose|d: PatDerivation| #[trigger] derivation_ok(d, store.kinds(), nm, defs.map(), bool_, bits, unknown, pats.kinds(), pat, t, sub@);
                    assert forall|j: int| 0 <= j < i implies match #[trigger] node@[j] {
                        PatStep::Visit { pat, ty: t } => derivation_ok(subs[j], store.kinds(), nm, defs.map(), bool_, bits, unknown, pats.kinds(), pat, t, parts[j]),
                        _ => parts[j] == seq![node@[j]],
                    } by {
                        match node@[j] {
                            PatStep::Visit { pat: p2, ty: t2 } => {
                                lemma_derivation_grows(subs[j], tys_before, store.kinds(), nm, defs.map(), bool_, bits, unknown, pats.kinds(), p2, t2, parts[j]);
                            },
                            _ => {},
                        }
                    }
                    assert(parts.push(sub@).drop_last() =~= parts);
                    parts = parts.push(sub@);
                    subs = subs.push(d_sub);
                }
                let mut k: usize = 0;
                while k < sub.len()
                    invariant
                        k <= sub@.len(),
                        out@ == before + sub@.subrange(0, k as int),
                        no_visits(before),
                        no_visits(sub@),
                    decreases sub@.len() - k,
                {
                    out.push(sub[k]);
                    k = k + 1;
                    proof {
                        assert(out@ =~= before + sub@.subrange(0, k as int));
                    }
                }
                proof {
                    assert(sub@.subrange(0, k as int) =~= sub@);
                    lemma_bound_set_concat(before, sub@);
                    assert(no_visits(out@)) by {
                        assert forall|q: int| 0 <= q < out@.len() implies !((#[trigger] out@[q]) is Visit) by {
                            if q < before.len() {
                                assert(out@[q] == before[q]);
                            } else {
                                assert(out@[q] == sub@[q - before.len()]);
                            }
                        }
                    }
                    assert(bound_set(out@) =~= step_binders(pats.kinds(), node@.subrange(0, i + 1)));
                }
            },
            _ => {
                out.push(step);
                proof {
                    assert(out@.drop_last() =~= before);
                    assert(no_visits(out@)) by {
                        assert forall|q: int| 0 <= q < out@.len() implies !((#[trigger] out@[q]) is Visit) by {
                            if q < before.len() {
                                assert(out@[q] == before[q]);
                            }
                        }
                    }
                    assert(bound_set(out@) =~= step_binders(pats.kinds(), node@.subrange(0, i + 1)));
                    assert(parts.push(seq![step]).drop_last() =~= parts);
                    assert(out@ =~= concat_all(parts) + seq![step]);
                    parts = parts.push(seq![step]);
                    subs = subs.push(PatDerivation::Node { a: tys0, b: tys0, m: None, parts: Seq::empty(), subs: Seq::empty() });
                }
            },
        }
        i = i + 1;
    }
    proof {
        assert(node@.subrange(0, i as int) =~= node@);
        let d = PatDerivation::Node { a: tys0, b: tys1, m, parts, subs };
        assert(derivation_ok(d, store.kinds(), nm, defs.map(), bool_, bits, unknown, pats.kinds(), id, ty, out@));
    }
    Some(out)
}

} // verus!
