//! Layout hints of a data declaration, read from its `@layout` and
//! `@frozen` attributes: the representation (`c` or `transparent`), the
//! alignment, packing (`packed` packs to one byte), and whether the layout is
//! frozen, with a diagnostic for each argument that cannot be read or that
//! repeats a hint already given.
use vstd::prelude::*;

use crate::attrs::{AttrArgExpr, AttrIssue};
use crate::const_eval::{symbol_is, symbol_string, symbol_text};
use crate::diag::SemaDiagKind;
use crate::expr::{ExprId, ExprKind, ExprStore, LitKind};
use crate::ty::Symbol;

verus! {

/// An attribute as written on a declaration: its path and its arguments.
#[derive(Debug, Clone, PartialEq, Eq)]
pub struct AttrExpr {
    pub path: Vec<Symbol>,
    pub args: Vec<AttrArgExpr>,
}

/// The layout hints of a data declaration.
#[derive(Debug, Clone, PartialEq, Eq)]
pub struct DataLayoutHints {
    pub repr_kind: Option<String>,
    pub align: Option<u32>,
    pub pack: Option<u32>,
    pub frozen: bool,
}

/// Layout hints, with the representation by its text.
pub struct LayoutHints {
    pub repr_kind: Option<Seq<char>>,
    pub align: Option<u32>,
    pub pack: Option<u32>,
    pub frozen: bool,
}

impl View for DataLayoutHints {
    type V = LayoutHints;

    open spec fn view(&self) -> LayoutHints {
        LayoutHints {
            repr_kind: match self.repr_kind {
                Some(s) => Some(s@),
                None => None,
            },
            align: self.align,
            pack: self.pack,
            frozen: self.frozen,
        }
    }
}

/// No hints.
pub open spec fn no_hints() -> LayoutHints {
    LayoutHints { repr_kind: None, align: None, pack: None, frozen: false }
}

/// A diagnostic that names no argument.
pub open spec fn plain_issue(kind: SemaDiagKind) -> AttrIssue {
    AttrIssue { kind, argument: None }
}

/// The form named by expression `e`: the tag of a variant or a bare name.
pub open spec fn form_text(exprs: Seq<ExprKind>, names: Seq<Seq<char>>, e: ExprId) -> Option<Seq<char>> {
    if e.0 < exprs.len() {
        match exprs[e.0 as int] {
            ExprKind::Variant { tag, .. } => Some(symbol_text(names, tag)),
            ExprKind::Name { name, .. } => Some(symbol_text(names, name)),
            _ => None,
        }
    } else {
        None
    }
}

/// The value of expression `e` as a `u32`: an integer literal whose value
/// fits.
pub open spec fn u32_value(exprs: Seq<ExprKind>, e: ExprId) -> Option<u32> {
    if e.0 < exprs.len() {
        match exprs[e.0 as int] {
            ExprKind::Lit { lit: LitKind::Int { parsed: Some(v), .. } } => if 0 <= v <= u32::MAX {
                Some(v as u32)
            } else {
                None
            },
            _ => None,
        }
    } else {
        None
    }
}

/// Reads a layout form: `packed` packs to one byte, `c` and `transparent`
/// set the representation; a repeated hint, or any other form, is reported.
pub open spec fn form_step(h: LayoutHints, form: Option<Seq<char>>) -> (LayoutHints, Seq<AttrIssue>) {
    match form {
        Some(f) => if f == "packed"@ {
            if h.pack is Some {
                (h, seq![plain_issue(SemaDiagKind::AttrDuplicateLayoutPack)])
            } else {
                (LayoutHints { pack: Some(1u32), ..h }, Seq::empty())
            }
        } else if f == "c"@ || f == "transparent"@ {
            if h.repr_kind is Some {
                (h, seq![plain_issue(SemaDiagKind::AttrDuplicateRepr)])
            } else {
                (LayoutHints { repr_kind: Some(f), ..h }, Seq::empty())
            }
        } else {
            (h, seq![plain_issue(SemaDiagKind::AttrReprRequiresKindString)])
        },
        None => (h, seq![plain_issue(SemaDiagKind::AttrReprRequiresKindString)]),
    }
}

/// Reads an alignment: a second one is reported, and so is one that is not
/// a `u32`.
pub open spec fn align_step(h: LayoutHints, value: Option<u32>) -> (LayoutHints, Seq<AttrIssue>) {
    if h.align is Some {
        (h, seq![plain_issue(SemaDiagKind::AttrDuplicateLayoutAlign)])
    } else {
        match value {
            Some(v) => (LayoutHints { align: Some(v), ..h }, Seq::empty()),
            None => (h, seq![plain_issue(SemaDiagKind::AttrLayoutAlignRequiresU32)]),
        }
    }
}

/// Reads one argument of `@layout`, `positional` unnamed arguments having
/// come before it: `form` and `align` by name or as the first and second
/// unnamed arguments; any other name, or a third unnamed argument, is
/// reported.
pub open spec fn layout_arg_step(
    exprs: Seq<ExprKind>,
    names: Seq<Seq<char>>,
    h: LayoutHints,
    positional: nat,
    arg: AttrArgExpr,
) -> (LayoutHints, Seq<AttrIssue>, nat) {
    match arg.name {
        Some(n) => if symbol_text(names, n) == "form"@ {
            let (h1, is) = form_step(h, form_text(exprs, names, arg.value));
            (h1, is, positional)
        } else if symbol_text(names, n) == "align"@ {
            let (h1, is) = align_step(h, u32_value(exprs, arg.value));
            (h1, is, positional)
        } else {
            (h, seq![AttrIssue { kind: SemaDiagKind::AttrUnknownArg, argument: Some(n) }], positional)
        },
        None => if positional == 0 {
            let (h1, is) = form_step(h, form_text(exprs, names, arg.value));
            (h1, is, 1)
        } else if positional == 1 {
            let (h1, is) = align_step(h, u32_value(exprs, arg.value));
            (h1, is, 2)
        } else {
            (h, seq![plain_issue(SemaDiagKind::AttrLayoutArgRequiresName)], positional + 1)
        },
    }
}

/// Reads the arguments of `@layout` in order: the hints, the diagnostics,
/// and the number of unnamed arguments.
pub open spec fn layout_args(exprs: Seq<ExprKind>, names: Seq<Seq<char>>, h: LayoutHints, args: Seq<AttrArgExpr>) -> (
    LayoutHints,
    Seq<AttrIssue>,
    nat,
)
    decreases args.len(),
{
    if args.len() == 0 {
        (h, Seq::empty(), 0)
    } else {
        let (h1, is1, p1) = layout_args(exprs, names, h, args.drop_last());
        let (h2, is2, p2) = layout_arg_step(exprs, names, h1, p1, args.last());
        (h2, is1 + is2, p2)
    }
}

/// Whether `path` is the one segment `text`.
pub open spec fn path_is(names: Seq<Seq<char>>, path: Seq<Symbol>, text: Seq<char>) -> bool {
    path.len() == 1 && symbol_text(names, path[0]) == text
}

/// Reads one attribute: `@layout` by its arguments, `@frozen` freezes the
/// layout, and any other attribute is no layout hint.
pub open spec fn layout_attr_step(exprs: Seq<ExprKind>, names: Seq<Seq<char>>, h: LayoutHints, attr: AttrExpr) -> (
    LayoutHints,
    Seq<AttrIssue>,
) {
    if path_is(names, attr.path@, "layout"@) {
        let (h1, is, _p) = layout_args(exprs, names, h, attr.args@);
        (h1, is)
    } else if path_is(names, attr.path@, "frozen"@) {
        (LayoutHints { frozen: true, ..h }, Seq::empty())
    } else {
        (h, Seq::empty())
    }
}

/// Reads the attributes in order, from no hints.
pub open spec fn layout_attrs(exprs: Seq<ExprKind>, names: Seq<Seq<char>>, attrs: Seq<AttrExpr>) -> (
    LayoutHints,
    Seq<AttrIssue>,
)
    decreases attrs.len(),
{
    if attrs.len() == 0 {
        (no_hints(), Seq::empty())
    } else {
        let (h1, is1) = layout_attrs(exprs, names, attrs.drop_last());
        let (h2, is2) = layout_attr_step(exprs, names, h1, attrs.last());
        (h2, is1 + is2)
    }
}

/// What every reading of the attributes keeps: packing is to one byte, and
/// the representation is `c` or `transparent`.
pub open spec fn hints_sound(h: LayoutHints) -> bool {
    &&& (h.pack is Some ==> h.pack == Some(1u32))
    &&& (h.repr_kind is Some ==> h.repr_kind == Some("c"@) || h.repr_kind == Some("transparent"@))
}

/// Reading arguments and attributes only ever sets packing to one byte and
/// the representation to `c` or `transparent`.
pub proof fn lemma_layout_args_sound(exprs: Seq<ExprKind>, names: Seq<Seq<char>>, h: LayoutHints, args: Seq<AttrArgExpr>)
    requires
        hints_sound(h),
    ensures
        hints_sound(layout_args(exprs, names, h, args).0),
    decreases args.len(),
{
    if args.len() > 0 {
        lemma_layout_args_sound(exprs, names, h, args.drop_last());
    }
}

/// The hints read from a declaration's attributes keep packing to one byte
/// and the representation to `c` or `transparent`; the layout is frozen
/// exactly when some attribute is `@frozen`.
pub proof fn lemma_layout_attrs_sound(exprs: Seq<ExprKind>, names: Seq<Seq<char>>, attrs: Seq<AttrExpr>)
    ensures
        hints_sound(layout_attrs(exprs, names, attrs).0),
        layout_attrs(exprs, names, attrs).0.frozen <==> exists|i: int|
            0 <= i < attrs.len() && path_is(names, (#[trigger] attrs[i]).path@, "frozen"@),
    decreases attrs.len(),
{
    if attrs.len() > 0 {
        reveal_strlit("layout");
        reveal_strlit("frozen");
        let init = attrs.drop_last();
        lemma_layout_attrs_sound(exprs, names, init);
        let h1 = layout_attrs(exprs, names, init).0;
        lemma_layout_args_sound(exprs, names, h1, attrs.last().args@);
        lemma_layout_args_frozen(exprs, names, h1, attrs.last().args@);
        if layout_attrs(exprs, names, attrs).0.frozen {
            if !path_is(names, attrs.last().path@, "frozen"@) {
                let i = choose|i: int| 0 <= i < init.len() && path_is(names, (#[trigger] init[i]).path@, "frozen"@);
                assert(attrs[i] == init[i]);
            }
        } else {
            assert forall|i: int| 0 <= i < attrs.len() implies !path_is(names, (#[trigger] attrs[i]).path@, "frozen"@) by {
                if i < init.len() {
                    assert(attrs[i] == init[i]);
                } else {
                    assert(attrs[i] == attrs.last());
                    assert("layout"@[0] == 'l');
                    assert("frozen"@[0] == 'f');
                    assert("layout"@ != "frozen"@);
                }
            }
        }
    }
}

/// Reading `@layout` arguments leaves the frozen flag alone.
proof fn lemma_layout_args_frozen(exprs: Seq<ExprKind>, names: Seq<Seq<char>>, h: LayoutHints, args: Seq<AttrArgExpr>)
    ensures
        layout_args(exprs, names, h, args).0.frozen == h.frozen,
    decreases args.len(),
{
    if args.len() > 0 {
        lemma_layout_args_frozen(exprs, names, h, args.drop_last());
    }
}

fn form_hint(store: &ExprStore, names: &Vec<String>, e: ExprId, h: &mut DataLayoutHints, out: &mut Vec<AttrIssue>)
    ensures
        final(h)@ == form_step(old(h)@, form_text(store.kinds(), names@.map_values(|t: String| t@), e)).0,
        final(out)@ == old(out)@ + form_step(old(h)@, form_text(store.kinds(), names@.map_values(|t: String| t@), e)).1,
{
    let ghost nm = names@.map_values(|t: String| t@);
    let form: Option<Symbol> = if (e.0 as usize) < store.len() {
        match store.kind(e) {
            ExprKind::Variant { tag, .. } => Some(*tag),
            ExprKind::Name { name, .. } => Some(*name),
            _ => None,
        }
    } else {
        None
    };
    let ghost before = out@;
    match form {
        Some(f) => {
            if symbol_is(names, f, "packed") {
                if h.pack.is_some() {
                    out.push(AttrIssue { kind: SemaDiagKind::AttrDuplicateLayoutPack, argument: None });
                } else {
                    h.pack = Some(1);
                }
            } else if symbol_is(names, f, "c") || symbol_is(names, f, "transparent") {
                if h.repr_kind.is_some() {
                    out.push(AttrIssue { kind: SemaDiagKind::AttrDuplicateRepr, argument: None });
                } else {
                    h.repr_kind = Some(symbol_string(names, f));
                }
            } else {
                out.push(AttrIssue { kind: SemaDiagKind::AttrReprRequiresKindString, argument: None });
            }
        },
        None => {
            out.push(AttrIssue { kind: SemaDiagKind::AttrReprRequiresKindString, argument: None });
        },
    }
    proof {
        assert(out@ =~= before + form_step(old(h)@, form_text(store.kinds(), nm, e)).1);
    }
}

fn u32_value_exec(store: &ExprStore, e: ExprId) -> (r: Option<u32>)
    ensures
        r == u32_value(store.kinds(), e),
{
    if (e.0 as usize) >= store.len() {
        return None;
    }
    match store.kind(e) {
        ExprKind::Lit { lit: LitKind::Int { parsed: Some(v), .. } } => {
            if 0 <= *v && *v <= u32::MAX as i64 {
                Some(*v as u32)
            } else {
                None
            }
        },
        _ => None,
    }
}

fn align_hint(store: &ExprStore, e: ExprId, h: &mut DataLayoutHints, out: &mut Vec<AttrIssue>)
    ensures
        final(h)@ == align_step(old(h)@, u32_value(store.kinds(), e)).0,
        final(out)@ == old(out)@ + align_step(old(h)@, u32_value(store.kinds(), e)).1,
{
    let ghost before = out@;
    if h.align.is_some() {
        out.push(AttrIssue { kind: SemaDiagKind::AttrDuplicateLayoutAlign, argument: None });
    } else {
        h.align = u32_value_exec(store, e);
        if h.align.is_none() {
            out.push(AttrIssue { kind: SemaDiagKind::AttrLayoutAlignRequiresU32, argument: None });
        }
    }
    proof {
        assert(out@ =~= before + align_step(old(h)@, u32_value(store.kinds(), e)).1);
    }
}

fn layout_hints(store: &ExprStore, names: &Vec<String>, args: &Vec<AttrArgExpr>, h: &mut DataLayoutHints, out: &mut Vec<AttrIssue>)
    ensures
        final(h)@ == layout_args(store.kinds(), names@.map_values(|t: String| t@), old(h)@, args@).0,
        final(out)@ == old(out)@ + layout_args(store.kinds(), names@.map_values(|t: String| t@), old(h)@, args@).1,
{
    let ghost nm = names@.map_values(|t: String| t@);
    let ghost h0 = h@;
    let ghost out0 = out@;
    let mut positional: usize = 0;
    let mut i: usize = 0;
    while i < args.len()
        invariant
            i <= args.len(),
            positional <= i,
            nm == names@.map_values(|t: String| t@),
            h@ == layout_args(store.kinds(), nm, h0, args@.subrange(0, i as int)).0,
            out@ == out0 + layout_args(store.kinds(), nm, h0, args@.subrange(0, i as int)).1,
            positional == layout_args(store.kinds(), nm, h0, args@.subrange(0, i as int)).2,
        decreases args.len() - i,
    {
        let arg = args[i];
        let ghost hb = h@;
        let ghost ob = out@;
        let ghost pb = positional as nat;
        match arg.name {
            Some(n) => {
                if symbol_is(names, n, "form") {
                    form_hint(store, names, arg.value, h, out);
                } else if symbol_is(names, n, "align") {
                    align_hint(store, arg.value, h, out);
                } else {
                    out.push(AttrIssue { kind: SemaDiagKind::AttrUnknownArg, argument: Some(n) });
                }
            },
            None => {
                if positional == 0 {
                    form_hint(store, names, arg.value, h, out);
                } else if positional == 1 {
                    align_hint(store, arg.value, h, out);
                } else {
                    out.push(AttrIssue { kind: SemaDiagKind::AttrLayoutArgRequiresName, argument: None });
                }
                positional = positional + 1;
            },
        }
        proof {
            let step = layout_arg_step(store.kinds(), nm, hb, pb, arg);
            assert(args@.subrange(0, i + 1).drop_last() =~= args@.subrange(0, i as int));
            assert(out@ =~= ob + step.1);
        }
        i = i + 1;
    }
    proof {
        assert(args@.subrange(0, i as int) =~= args@);
    }
}

/// Reads the layout hints of a data declaration from its attributes, in
/// order, with the diagnostics for the arguments of `@layout`.
pub fn extract_data_layout_hints(store: &ExprStore, names: &Vec<String>, attrs: &Vec<AttrExpr>) -> (r: (
    DataLayoutHints,
    Vec<AttrIssue>,
))
    ensures
        r.0@ == layout_attrs(store.kinds(), names@.map_values(|t: String| t@), attrs@).0,
        r.1@ == layout_attrs(store.kinds(), names@.map_values(|t: String| t@), attrs@).1,
        hints_sound(r.0@),
        r.0.frozen <==> exists|i: int|
            0 <= i < attrs@.len() && path_is(names@.map_values(|t: String| t@), (#[trigger] attrs@[i]).path@, "frozen"@),
{
    let ghost nm = names@.map_values(|t: String| t@);
    let mut h = DataLayoutHints { repr_kind: None, align: None, pack: None, frozen: false };
    let mut out: Vec<AttrIssue> = Vec::new();
    let mut i: usize = 0;
    while i < attrs.len()
        invariant
            i <= attrs.len(),
            nm == names@.map_values(|t: String| t@),
            h@ == layout_attrs(store.kinds(), nm, attrs@.subrange(0, i as int)).0,
            out@ == layout_attrs(store.kinds(), nm, attrs@.subrange(0, i as int)).1,
        decreases attrs.len() - i,
    {
        let attr = &attrs[i];
        let ghost ob = out@;
        let ghost hb = h@;
        if attr.path.len() == 1 && symbol_is(names, attr.path[0], "layout") {
            layout_hints(store, names, &attr.args, &mut h, &mut out);
        } else if attr.path.len() == 1 && symbol_is(names, attr.path[0], "frozen") {
            h.frozen = true;
        }
        proof {
            assert(attrs@.subrange(0, i + 1).drop_last() =~= attrs@.subrange(0, i as int));
            assert(out@ =~= ob + layout_attr_step(store.kinds(), nm, hb, attrs@[i as int]).1);
        }
        i = i + 1;
    }
    proof {
        assert(attrs@.subrange(0, i as int) =~= attrs@);
        lemma_layout_attrs_sound(store.kinds(), nm, attrs@);
    }
    (h, out)
}

} // verus!
