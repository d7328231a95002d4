//! Attributes: which paths the compiler reserves, how exported attributes
//! are split, and the checks on the arguments of `@target`.
use vstd::prelude::*;

use crate::const_eval::{symbol_is, symbol_text};
use crate::diag::SemaDiagKind;
use crate::expr::{ExprForm, ExprId, ExprKind, ExprStore, LitKind};
use crate::text::text_eq;
use crate::ty::Symbol;

verus! {

/// The value of an attribute argument.
#[derive(Debug, PartialEq, Eq)]
pub enum AttrValue {
    String(String),
    /// An integer, as written.
    Int(String),
    Rune(u32),
    Variant { tag: String, args: Vec<AttrValue> },
    Array { items: Vec<AttrValue> },
    Record { fields: Vec<AttrRecordField> },
}

/// A named field of a record attribute value.
#[derive(Debug, PartialEq, Eq)]
pub struct AttrRecordField {
    pub name: String,
    pub value: AttrValue,
}

/// An argument of an attribute, named or positional.
#[derive(Debug, PartialEq, Eq)]
pub struct AttrArg {
    pub name: Option<String>,
    pub value: AttrValue,
}

/// An attribute: its path and its arguments.
#[derive(Debug, PartialEq, Eq)]
pub struct Attr {
    pub path: Vec<String>,
    pub args: Vec<AttrArg>,
}

/// The texts of a path's segments.
pub open spec fn path_texts(path: Seq<String>) -> Seq<Seq<char>> {
    path.map_values(|s: String| s@)
}

/// A path of the compiler's own `musi` namespace: one whose first segment is
/// `musi` (`musi.builtin` and `musi.intrinsic` among them).
pub open spec fn is_musi_path(path: Seq<Seq<char>>) -> bool {
    ||| (path.len() == 2 && path[0] == "musi"@ && (path[1] == "builtin"@ || path[1] == "intrinsic"@))
    ||| (path.len() >= 1 && path[0] == "musi"@)
}

/// A path the compiler reserves for itself: `musi.builtin`,
/// `musi.intrinsic`, one of `native`, `foreign`, `link`, `target`, `profile`,
/// `lifecycle`, `layout`, `repr` and `frozen` alone, or any path under `diag`
/// or `musi`.
pub open spec fn is_reserved_path(path: Seq<Seq<char>>) -> bool {
    ||| (path.len() == 2 && path[0] == "musi"@ && (path[1] == "builtin"@ || path[1] == "intrinsic"@))
    ||| (path.len() == 1 && (path[0] == "native"@ || path[0] == "foreign"@ || path[0] == "link"@
        || path[0] == "target"@ || path[0] == "profile"@ || path[0] == "lifecycle"@ || path[0]
        == "layout"@ || path[0] == "repr"@ || path[0] == "frozen"@))
    ||| (path.len() >= 1 && (path[0] == "diag"@ || path[0] == "musi"@))
}

/// Whether an attribute path belongs to the `musi` namespace.
pub fn attr_is_musi(path: &Vec<String>) -> (r: bool)
    ensures
        r == is_musi_path(path_texts(path@)),
{
    proof {
        assert(path@.len() >= 1 ==> path_texts(path@)[0] == path@[0]@);
        assert(path@.len() >= 2 ==> path_texts(path@)[1] == path@[1]@);
    }
    if path.len() == 2 && text_eq(path[0].as_str(), "musi") && (text_eq(path[1].as_str(), "builtin")
        || text_eq(path[1].as_str(), "intrinsic")) {
        return true;
    }
    path.len() >= 1 && text_eq(path[0].as_str(), "musi")
}

/// Whether an attribute path is reserved for the compiler.
pub fn attr_is_reserved(path: &Vec<String>) -> (r: bool)
    ensures
        r == is_reserved_path(path_texts(path@)),
{
    proof {
        assert(path@.len() >= 1 ==> path_texts(path@)[0] == path@[0]@);
        assert(path@.len() >= 2 ==> path_texts(path@)[1] == path@[1]@);
    }
    if path.len() == 2 && text_eq(path[0].as_str(), "musi") && (text_eq(path[1].as_str(), "builtin")
        || text_eq(path[1].as_str(), "intrinsic")) {
        return true;
    }
    if path.len() == 1 {
        let head = path[0].as_str();
        if text_eq(head, "native") || text_eq(head, "foreign") || text_eq(head, "link") || text_eq(
            head,
            "target",
        ) || text_eq(head, "profile") || text_eq(head, "lifecycle") || text_eq(head, "layout")
            || text_eq(head, "repr") || text_eq(head, "frozen") {
            return true;
        }
    }
    path.len() >= 1 && (text_eq(path[0].as_str(), "diag") || text_eq(path[0].as_str(), "musi"))
}

/// Every path of the `musi` namespace is reserved.
pub proof fn lemma_musi_paths_reserved(path: Seq<Seq<char>>)
    ensures
        is_musi_path(path) ==> is_reserved_path(path),
{
}

/// The paths of `attrs`, as texts.
pub open spec fn attr_paths(attrs: Seq<Attr>) -> Seq<Seq<Seq<char>>> {
    attrs.map_values(|a: Attr| path_texts(a.path@))
}

/// An exported attribute kept as inert: its path is neither reserved nor of
/// the `musi` namespace.
pub open spec fn is_inert_export(a: Attr) -> bool {
    !is_reserved_path(path_texts(a.path@)) && !is_musi_path(path_texts(a.path@))
}

/// An exported attribute kept as one of the `musi` namespace: its path is of
/// that namespace and not reserved.
pub open spec fn is_musi_export(a: Attr) -> bool {
    !is_reserved_path(path_texts(a.path@)) && is_musi_path(path_texts(a.path@))
}

/// Splits the lowered attributes of an export into the inert ones and those
/// of the `musi` namespace, in order, dropping the reserved ones.
pub fn split_export_attrs(attrs: Vec<Attr>) -> (r: (Vec<Attr>, Vec<Attr>))
    ensures
        r.0@ == attrs@.filter(|a: Attr| is_inert_export(a)),
        r.1@ == attrs@.filter(|a: Attr| is_musi_export(a)),
        attr_paths(r.0@) == attr_paths(attrs@).filter(|p: Seq<Seq<char>>| !is_reserved_path(p) && !is_musi_path(p)),
        attr_paths(r.1@) == attr_paths(attrs@).filter(|p: Seq<Seq<char>>| !is_reserved_path(p) && is_musi_path(p)),
{
    let mut inert: Vec<Attr> = Vec::new();
    let mut musi: Vec<Attr> = Vec::new();
    let ghost orig = attrs@;
    assert(orig.len() == attrs.len());
    let mut rest = attrs;
    let mut i: usize = 0;
    while rest.len() > 0
        invariant
            orig.len() <= usize::MAX,
            i + rest@.len() == orig.len(),
            rest@ == orig.subrange(i as int, orig.len() as int),
            attr_paths(inert@) == attr_paths(orig.subrange(0, i as int)).filter(
                |p: Seq<Seq<char>>| !is_reserved_path(p) && !is_musi_path(p),
            ),
            attr_paths(musi@) == attr_paths(orig.subrange(0, i as int)).filter(
                |p: Seq<Seq<char>>| !is_reserved_path(p) && is_musi_path(p),
            ),
            inert@ == orig.subrange(0, i as int).filter(|a: Attr| is_inert_export(a)),
            musi@ == orig.subrange(0, i as int).filter(|a: Attr| is_musi_export(a)),
        decreases rest.len(),
    {
        let a = rest.remove(0);
        assert(a == orig[i as int]);
        let ghost p = path_texts(a.path@);
        assert(attr_paths(orig.subrange(0, i + 1)) =~= attr_paths(orig.subrange(0, i as int)).push(p));
        proof {
            attr_paths(orig.subrange(0, i as int)).lemma_filter_push(
                p,
                |p: Seq<Seq<char>>| !is_reserved_path(p) && !is_musi_path(p),
            );
            attr_paths(orig.subrange(0, i as int)).lemma_filter_push(
                p,
                |p: Seq<Seq<char>>| !is_reserved_path(p) && is_musi_path(p),
            );
            assert(orig.subrange(0, i + 1) =~= orig.subrange(0, i as int).push(a));
            orig.subrange(0, i as int).lemma_filter_push(a, |a: Attr| is_inert_export(a));
            orig.subrange(0, i as int).lemma_filter_push(a, |a: Attr| is_musi_export(a));
        }
        let reserved = attr_is_reserved(&a.path);
        let in_musi = attr_is_musi(&a.path);
        if !reserved {
            if in_musi {
                let ghost before = musi@;
                musi.push(a);
                assert(attr_paths(musi@) =~= attr_paths(before).push(p));
            } else {
                let ghost before = inert@;
                inert.push(a);
                assert(attr_paths(inert@) =~= attr_paths(before).push(p));
            }
        }
        i = i + 1;
        assert(rest@ =~= orig.subrange(i as int, orig.len() as int));
    }
    assert(orig.subrange(0, i as int) =~= orig);
    (inert, musi)
}

/// No attribute of the `musi` namespace survives the split: all of its paths
/// are reserved.
pub proof fn lemma_split_keeps_no_musi(paths: Seq<Seq<Seq<char>>>)
    ensures
        paths.filter(|p: Seq<Seq<char>>| !is_reserved_path(p) && is_musi_path(p)).len() == 0,
    decreases paths.len(),
{
    let pred = |p: Seq<Seq<char>>| !is_reserved_path(p) && is_musi_path(p);
    if paths.len() == 0 {
        reveal(Seq::filter);
    } else {
        lemma_split_keeps_no_musi(paths.drop_last());
        paths.drop_last().lemma_filter_push(paths.last(), pred);
        assert(paths.drop_last().push(paths.last()) =~= paths);
        lemma_musi_paths_reserved(paths.last());
    }
}

/// An argument of an attribute as written: its name, if any, and the
/// expression of its value.
#[derive(Debug, Clone, Copy, PartialEq, Eq, Structural)]
pub struct AttrArgExpr {
    pub name: Option<Symbol>,
    pub value: ExprId,
}

/// A diagnostic about an attribute argument: its kind, and the argument's
/// name when the diagnostic names it.
#[derive(Debug, Clone, Copy, PartialEq, Eq, Structural)]
pub struct AttrIssue {
    pub kind: SemaDiagKind,
    pub argument: Option<Symbol>,
}

/// Whether expression `e` is a string literal.
pub open spec fn is_string_lit(exprs: Seq<ExprKind>, e: ExprId) -> bool {
    e.0 < exprs.len() && exprs[e.0 as int] matches ExprKind::Lit { lit: LitKind::String { .. } }
}

/// Whether expression `e` is an integer literal.
pub open spec fn is_int_lit(exprs: Seq<ExprKind>, e: ExprId) -> bool {
    e.0 < exprs.len() && exprs[e.0 as int] matches ExprKind::Lit { lit: LitKind::Int { .. } }
}

/// Whether expression `e` is an array whose items are all string literals.
pub open spec fn is_string_array(exprs: Seq<ExprKind>, e: ExprId) -> bool {
    &&& e.0 < exprs.len()
    &&& exprs[e.0 as int] matches ExprKind::Other { form: ExprForm::Array, children }
    &&& forall|k: int| 0 <= k < exprs[e.0 as int]->children@.len() ==> is_string_lit(exprs, #[trigger] exprs[e.0 as int]->children@[k])
}

/// Whether expression `e` is an array whose items are all integer literals.
pub open spec fn is_int_array(exprs: Seq<ExprKind>, e: ExprId) -> bool {
    &&& e.0 < exprs.len()
    &&& exprs[e.0 as int] matches ExprKind::Other { form: ExprForm::Array, children }
    &&& forall|k: int| 0 <= k < exprs[e.0 as int]->children@.len() ==> is_int_lit(exprs, #[trigger] exprs[e.0 as int]->children@[k])
}

/// Whether an attribute argument's value is a string literal.
pub fn attr_value_is_string(store: &ExprStore, arg: AttrArgExpr) -> (r: bool)
    ensures
        r == is_string_lit(store.kinds(), arg.value),
{
    if arg.value.0 as usize >= store.len() {
        return false;
    }
    match store.kind(arg.value) {
        ExprKind::Lit { lit: LitKind::String { .. } } => true,
        _ => false,
    }
}

/// Whether an attribute argument's value is an integer literal.
pub fn attr_value_is_int(store: &ExprStore, arg: AttrArgExpr) -> (r: bool)
    ensures
        r == is_int_lit(store.kinds(), arg.value),
{
    if arg.value.0 as usize >= store.len() {
        return false;
    }
    match store.kind(arg.value) {
        ExprKind::Lit { lit: LitKind::Int { .. } } => true,
        _ => false,
    }
}

/// Whether an attribute argument's value is an array of string literals.
pub fn attr_value_is_string_array(store: &ExprStore, arg: AttrArgExpr) -> (r: bool)
    ensures
        r == is_string_array(store.kinds(), arg.value),
{
    if arg.value.0 as usize >= store.len() {
        return false;
    }
    let items = match store.kind(arg.value) {
        ExprKind::Other { form: ExprForm::Array, children } => children,
        _ => {
            return false;
        },
    };
    let mut k: usize = 0;
    while k < items.len()
        invariant
            arg.value.0 < store.kinds().len(),
            store.kinds()[arg.value.0 as int] matches ExprKind::Other { form: ExprForm::Array, children },
            store.kinds()[arg.value.0 as int]->children == *items,
            k <= items.len(),
            forall|j: int| 0 <= j < k ==> is_string_lit(store.kinds(), #[trigger] items@[j]),
        decreases items.len() - k,
    {
        if !attr_value_is_string(store, AttrArgExpr { name: None, value: items[k] }) {
            return false;
        }
        k = k + 1;
    }
    true
}

/// Whether an attribute argument's value is an array of integer literals.
pub fn attr_value_is_int_array(store: &ExprStore, arg: AttrArgExpr) -> (r: bool)
    ensures
        r == is_int_array(store.kinds(), arg.value),
{
    if arg.value.0 as usize >= store.len() {
        return false;
    }
    let items = match store.kind(arg.value) {
        ExprKind::Other { form: ExprForm::Array, children } => children,
        _ => {
            return false;
        },
    };
    let mut k: usize = 0;
    while k < items.len()
        invariant
            arg.value.0 < store.kinds().len(),
            store.kinds()[arg.value.0 as int] matches ExprKind::Other { form: ExprForm::Array, children },
            store.kinds()[arg.value.0 as int]->children == *items,
            k <= items.len(),
            forall|j: int| 0 <= j < k ==> is_int_lit(store.kinds(), #[trigger] items@[j]),
        decreases items.len() - k,
    {
        if !attr_value_is_int(store, AttrArgExpr { name: None, value: items[k] }) {
            return false;
        }
        k = k + 1;
    }
    true
}

/// The argument names `@target` accepts.
pub open spec fn is_target_arg_name(text: Seq<char>) -> bool {
    text == "os"@ || text == "arch"@ || text == "archFamily"@ || text == "env"@ || text == "abi"@ || text == "vendor"@ || text == "family"@ || text == "feature"@ || text == "pointerWidth"@ || text == "endian"@ || text == "jit"@ || text == "jitIsa"@ || text == "jitCallConv"@ || text == "jitFeature"@
}

/// The diagnostics for one argument of `@target`: an unknown name, then a
/// value that is not a string or a list of strings (`pointerWidth` also
/// takes an integer or a list of them); a list-valued argument (`feature`,
/// `family`, `jitFeature`) asks for a list of strings.
pub open spec fn target_arg_issues(exprs: Seq<ExprKind>, names: Seq<Seq<char>>, arg: AttrArgExpr) -> Seq<AttrIssue> {
    let unknown: Seq<AttrIssue> = match arg.name {
        Some(n) => if is_target_arg_name(symbol_text(names, n)) {
            Seq::empty()
        } else {
            seq![AttrIssue { kind: SemaDiagKind::AttrUnknownArg, argument: Some(n) }]
        },
        None => Seq::empty(),
    };
    let text: Option<Seq<char>> = match arg.name {
        Some(n) => Some(symbol_text(names, n)),
        None => None,
    };
    let strings = is_string_lit(exprs, arg.value) || is_string_array(exprs, arg.value);
    let valid = if text == Some("pointerWidth"@) {
        strings || is_int_lit(exprs, arg.value) || is_int_array(exprs, arg.value)
    } else {
        strings
    };
    if valid {
        unknown
    } else {
        let kind = if text == Some("feature"@) || text == Some("family"@) || text == Some("jitFeature"@) {
            SemaDiagKind::AttrWhenRequiresStringList
        } else {
            SemaDiagKind::AttrWhenRequiresStringValue
        };
        unknown.push(AttrIssue { kind, argument: None })
    }
}

/// The diagnostics for the arguments of `@target`, argument by argument.
pub open spec fn target_attr_issues(exprs: Seq<ExprKind>, names: Seq<Seq<char>>, args: Seq<AttrArgExpr>) -> Seq<AttrIssue>
    decreases args.len(),
{
    if args.len() == 0 {
        Seq::empty()
    } else {
        target_attr_issues(exprs, names, args.drop_last()) + target_arg_issues(exprs, names, args.last())
    }
}

fn target_arg_issues_exec(store: &ExprStore, names: &Vec<String>, arg: AttrArgExpr) -> (out: Vec<AttrIssue>)
    ensures
        out@ == target_arg_issues(store.kinds(), names@.map_values(|t: String| t@), arg),
{
    let mut out: Vec<AttrIssue> = Vec::new();
    if let Some(n) = arg.name {
        let known = symbol_is(names, n, "os") || symbol_is(names, n, "arch") || symbol_is(names, n, "archFamily") || symbol_is(names, n, "env") || symbol_is(names, n, "abi") || symbol_is(names, n, "vendor") || symbol_is(names, n, "family") || symbol_is(names, n, "feature") || symbol_is(names, n, "pointerWidth") || symbol_is(names, n, "endian") || symbol_is(names, n, "jit") || symbol_is(names, n, "jitIsa") || symbol_is(names, n, "jitCallConv") || symbol_is(names, n, "jitFeature");
        if !known {
            out.push(AttrIssue { kind: SemaDiagKind::AttrUnknownArg, argument: Some(n) });
        }
    }
    let ghost unknown = out@;
    let strings = attr_value_is_string(store, arg) || attr_value_is_string_array(store, arg);
    let pointer_width = match arg.name {
        Some(n) => symbol_is(names, n, "pointerWidth"),
        None => false,
    };
    let valid = if pointer_width {
        strings || attr_value_is_int(store, arg) || attr_value_is_int_array(store, arg)
    } else {
        strings
    };
    if !valid {
        let list = match arg.name {
            Some(n) => symbol_is(names, n, "feature") || symbol_is(names, n, "family") || symbol_is(
                names,
                n,
                "jitFeature",
            ),
            None => false,
        };
        let kind = if list {
            SemaDiagKind::AttrWhenRequiresStringList
        } else {
            SemaDiagKind::AttrWhenRequiresStringValue
        };
        out.push(AttrIssue { kind, argument: None });
    }
    proof {
        assert(out@ =~= target_arg_issues(store.kinds(), names@.map_values(|t: String| t@), arg));
    }
    out
}

/// The diagnostics for the arguments of a `@target` attribute, in order.
pub fn validate_when_attr(store: &ExprStore, names: &Vec<String>, args: &Vec<AttrArgExpr>) -> (out: Vec<AttrIssue>)
    ensures
        out@ == target_attr_issues(store.kinds(), names@.map_values(|t: String| t@), args@),
{
    let mut out: Vec<AttrIssue> = Vec::new();
    let mut i: usize = 0;
    while i < args.len()
        invariant
            i <= args.len(),
            out@ == target_attr_issues(
                store.kinds(),
                names@.map_values(|t: String| t@),
                args@.subrange(0, i as int),
            ),
        decreases args.len() - i,
    {
        let issues = target_arg_issues_exec(store, names, args[i]);
        let ghost before = out@;
        let mut j: usize = 0;
        while j < issues.len()
            invariant
                j <= issues.len(),
                out@ == before + issues@.subrange(0, j as int),
            decreases issues.len() - j,
        {
            out.push(issues[j]);
            j = j + 1;
            assert(out@ =~= before + issues@.subrange(0, j as int));
        }
        assert(args@.subrange(0, i + 1).drop_last() =~= args@.subrange(0, i as int));
        assert(issues@.subrange(0, j as int) =~= issues@);
        i = i + 1;
    }
    assert(args@.subrange(0, i as int) =~= args@);
    out
}

} // verus!
