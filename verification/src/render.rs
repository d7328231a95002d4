//! How types are written in diagnostics.
use vstd::prelude::*;

use crate::const_eval::symbol_text;
use crate::simple::SimpleTyKind;
use crate::text::chars_of;
use crate::ty::{children_below, fields_below, ids_below, store_wf, Dim, Symbol, TyField, TyId, TyKind, TyNode, TyStore};

verus! {

/// The decimal digit `d`, for `d < 10`.
pub open spec fn decimal_digit(d: u64) -> char {
    if d == 0 { '0' } else if d == 1 { '1' } else if d == 2 { '2' } else if d == 3 { '3' }
    else if d == 4 { '4' } else if d == 5 { '5' } else if d == 6 { '6' } else if d == 7 { '7' }
    else if d == 8 { '8' } else { '9' }
}

/// The decimal digits of `v`, most significant first, with no leading zero.
pub open spec fn decimal(v: u64) -> Seq<char>
    decreases v,
{
    if v < 10 {
        seq![decimal_digit(v)]
    } else {
        decimal(v / 10).push(decimal_digit(v % 10))
    }
}

/// `parts` joined with `, ` between them.
pub open spec fn join_commas(parts: Seq<Seq<char>>) -> Seq<char>
    decreases parts.len(),
{
    if parts.len() == 0 {
        Seq::empty()
    } else if parts.len() == 1 {
        parts[0]
    } else {
        join_commas(parts.drop_last()) + ", "@ + parts.last()
    }
}

/// The arrow of a callable type: `~>` for an effectful one.
pub open spec fn arrow_text(is_effectful: bool) -> Seq<char> {
    if is_effectful {
        " ~> "@
    } else {
        " -> "@
    }
}

/// How a dimension of an array type is written.
pub open spec fn dim_text(names: Seq<Seq<char>>, d: Dim) -> Seq<char> {
    seq!['['] + match d {
        Dim::Unknown => seq!['_'],
        Dim::Name(s) => symbol_text(names, s),
        Dim::Int(v) => decimal(v as u64),
    } + seq![']']
}

/// How the dimensions of an array type are written, in order.
pub open spec fn dims_text(names: Seq<Seq<char>>, dims: Seq<Dim>) -> Seq<char>
    decreases dims.len(),
{
    if dims.len() == 0 {
        Seq::empty()
    } else {
        dims_text(names, dims.drop_last()) + dim_text(names, dims.last())
    }
}

/// The index of a simple type among the display names, in declaration order;
/// natural literals have none.
pub open spec fn simple_index(s: SimpleTyKind) -> int {
    match s {
        SimpleTyKind::Error => 0,
        SimpleTyKind::Unknown => 1,
        SimpleTyKind::Type => 2,
        SimpleTyKind::Syntax => 3,
        SimpleTyKind::Any => 4,
        SimpleTyKind::Empty => 5,
        SimpleTyKind::Unit => 6,
        SimpleTyKind::Bool => 7,
        SimpleTyKind::Nat => 8,
        SimpleTyKind::Int => 9,
        SimpleTyKind::Int8 => 10,
        SimpleTyKind::Int16 => 11,
        SimpleTyKind::Int32 => 12,
        SimpleTyKind::Int64 => 13,
        SimpleTyKind::Nat8 => 14,
        SimpleTyKind::Nat16 => 15,
        SimpleTyKind::Nat32 => 16,
        SimpleTyKind::Nat64 => 17,
        SimpleTyKind::Float => 18,
        SimpleTyKind::Float32 => 19,
        SimpleTyKind::Float64 => 20,
        SimpleTyKind::String => 21,
        SimpleTyKind::Rune => 22,
        SimpleTyKind::CString => 23,
        SimpleTyKind::CPtr => 24,
        SimpleTyKind::NatLit(_) => -1,
    }
}

/// How a type with no children is written: a natural literal by its value,
/// another by its display name in `display` (indexed by `simple_index`), or
/// `<error>` when it has none.
pub open spec fn simple_text(display: Seq<Option<Seq<char>>>, k: TyNode) -> Seq<char> {
    match k {
        TyNode::NatLit(v) => decimal(v),
        _ => match simple_of_node(k) {
            Some(s) => if 0 <= simple_index(s) < display.len() && display[simple_index(s)] is Some {
                display[simple_index(s)]->0
            } else {
                "<error>"@
            },
            None => "<error>"@,
        },
    }
}

/// The simple type a node is, if it has no children.
pub open spec fn simple_of_node(k: TyNode) -> Option<SimpleTyKind> {
    match k {
        TyNode::Error => Some(SimpleTyKind::Error),
        TyNode::Unknown => Some(SimpleTyKind::Unknown),
        TyNode::Type => Some(SimpleTyKind::Type),
        TyNode::Syntax => Some(SimpleTyKind::Syntax),
        TyNode::Any => Some(SimpleTyKind::Any),
        TyNode::Empty => Some(SimpleTyKind::Empty),
        TyNode::Unit => Some(SimpleTyKind::Unit),
        TyNode::Bool => Some(SimpleTyKind::Bool),
        TyNode::Nat => Some(SimpleTyKind::Nat),
        TyNode::Int => Some(SimpleTyKind::Int),
        TyNode::Int8 => Some(SimpleTyKind::Int8),
        TyNode::Int16 => Some(SimpleTyKind::Int16),
        TyNode::Int32 => Some(SimpleTyKind::Int32),
        TyNode::Int64 => Some(SimpleTyKind::Int64),
        TyNode::Nat8 => Some(SimpleTyKind::Nat8),
        TyNode::Nat16 => Some(SimpleTyKind::Nat16),
        TyNode::Nat32 => Some(SimpleTyKind::Nat32),
        TyNode::Nat64 => Some(SimpleTyKind::Nat64),
        TyNode::Float => Some(SimpleTyKind::Float),
        TyNode::Float32 => Some(SimpleTyKind::Float32),
        TyNode::Float64 => Some(SimpleTyKind::Float64),
        TyNode::String => Some(SimpleTyKind::String),
        TyNode::Rune => Some(SimpleTyKind::Rune),
        TyNode::CString => Some(SimpleTyKind::CString),
        TyNode::CPtr => Some(SimpleTyKind::CPtr),
        TyNode::NatLit(v) => Some(SimpleTyKind::NatLit(v)),
        _ => None,
    }
}

/// How type `id` is written: `Name[A, B]`, `forall (x : A) -> B`,
/// `A -> B` (parameters in parentheses unless there is exactly one),
/// `A + B`, `(A, B)`, `[]A`, `[2][n]A`, `Bits[8]`, `Range[A]`, `mut A`,
/// `any A`, `some A`, `{x = A, y = B}`, and simple types by their display
/// names.
pub open spec fn render(tys: Seq<TyNode>, names: Seq<Seq<char>>, display: Seq<Option<Seq<char>>>, id: TyId) -> Seq<char>
    decreases id.0, 1nat, 0nat,
    when store_wf(tys) && id.0 < tys.len()
{
    match tys[id.0 as int] {
        TyNode::Named { name, args } => symbol_text(names, name) + if args.len() == 0 {
            Seq::empty()
        } else {
            seq!['['] + join_commas(render_list(tys, names, display, id, args)) + seq![']']
        },
        TyNode::Pi { binder, binder_ty, body, is_effectful } => "forall ("@ + symbol_text(names, binder)
            + " : "@ + render(tys, names, display, binder_ty) + seq![')'] + arrow_text(is_effectful)
            + render(tys, names, display, body),
        TyNode::Arrow { params, ret, is_effectful } => (if params.len() == 1 {
            render(tys, names, display, params[0])
        } else {
            seq!['('] + join_commas(render_list(tys, names, display, id, params)) + seq![')']
        }) + arrow_text(is_effectful) + render(tys, names, display, ret),
        TyNode::Sum { left, right } => render(tys, names, display, left) + " + "@ + render(tys, names, display, right),
        TyNode::Tuple { items } => seq!['('] + join_commas(render_list(tys, names, display, id, items)) + seq![')'],
        TyNode::Sequence { item } => "[]"@ + render(tys, names, display, item),
        TyNode::Array { dims, item } => dims_text(names, dims) + render(tys, names, display, item),
        TyNode::Bits { width } => "Bits["@ + decimal(width as u64) + seq![']'],
        TyNode::Range { bound } => "Range["@ + render(tys, names, display, bound) + seq![']'],
        TyNode::Mut { inner } => "mut "@ + render(tys, names, display, inner),
        TyNode::AnyShape { capability } => "any "@ + render(tys, names, display, capability),
        TyNode::SomeShape { capability } => "some "@ + render(tys, names, display, capability),
        TyNode::Record { fields } => seq!['{'] + join_commas(render_fields(tys, names, display, id, fields)) + seq!['}'],
        k => simple_text(display, k),
    }
}

/// How the types `ids`, children of `parent`, are written.
pub open spec fn render_list(
    tys: Seq<TyNode>,
    names: Seq<Seq<char>>,
    display: Seq<Option<Seq<char>>>,
    parent: TyId,
    ids: Seq<TyId>,
) -> Seq<Seq<char>>
    decreases parent.0, 0nat, ids.len(),
    when store_wf(tys) && parent.0 < tys.len() && ids_below(ids, parent.0 as int)
{
    if ids.len() == 0 {
        Seq::empty()
    } else {
        render_list(tys, names, display, parent, ids.drop_last()).push(render(tys, names, display, ids.last()))
    }
}

/// How the fields `fields` of a record type `parent` are written: `name = A`.
pub open spec fn render_fields(
    tys: Seq<TyNode>,
    names: Seq<Seq<char>>,
    display: Seq<Option<Seq<char>>>,
    parent: TyId,
    fields: Seq<TyField>,
) -> Seq<Seq<char>>
    decreases parent.0, 0nat, fields.len(),
    when store_wf(tys) && parent.0 < tys.len() && fields_below(fields, parent.0 as int)
{
    if fields.len() == 0 {
        Seq::empty()
    } else {
        render_fields(tys, names, display, parent, fields.drop_last()).push(
            symbol_text(names, fields.last().name) + " = "@ + render(tys, names, display, fields.last().ty),
        )
    }
}

/// The display names as texts.
pub open spec fn display_texts(display: Seq<Option<String>>) -> Seq<Option<Seq<char>>> {
    display.map_values(|o: Option<String>| match o {
        Some(t) => Some(t@),
        None => None,
    })
}

/// The symbol texts as texts.
pub open spec fn name_texts(names: Seq<String>) -> Seq<Seq<char>> {
    names.map_values(|t: String| t@)
}

fn push_text(out: &mut Vec<char>, s: &str)
    ensures
        final(out)@ == old(out)@ + s@,
{
    let chars = chars_of(s);
    let ghost start = out@;
    let mut i: usize = 0;
    while i < chars.len()
        invariant
            i <= chars.len(),
            chars@ == s@,
            out@ == start + chars@.subrange(0, i as int),
        decreases chars.len() - i,
    {
        out.push(chars[i]);
        i = i + 1;
        assert(out@ =~= start + chars@.subrange(0, i as int));
    }
    assert(chars@.subrange(0, i as int) =~= chars@);
}

fn push_symbol(out: &mut Vec<char>, names: &Vec<String>, s: Symbol)
    ensures
        final(out)@ == old(out)@ + symbol_text(name_texts(names@), s),
{
    if (s.0 as usize) < names.len() {
        push_text(out, names[s.0 as usize].as_str());
    } else {
        assert(old(out)@ + Seq::<char>::empty() =~= old(out)@);
    }
}

fn decimal_digit_exec(d: u64) -> (c: char)
    requires
        d < 10,
    ensures
        c == decimal_digit(d),
{
    if d == 0 { '0' } else if d == 1 { '1' } else if d == 2 { '2' } else if d == 3 { '3' }
    else if d == 4 { '4' } else if d == 5 { '5' } else if d == 6 { '6' } else if d == 7 { '7' }
    else if d == 8 { '8' } else { '9' }
}

fn push_decimal(out: &mut Vec<char>, v: u64)
    ensures
        final(out)@ == old(out)@ + decimal(v),
    decreases v,
{
    if v < 10 {
        out.push(decimal_digit_exec(v));
        assert(final(out)@ =~= old(out)@ + decimal(v));
    } else {
        push_decimal(out, v / 10);
        out.push(decimal_digit_exec(v % 10));
        assert(final(out)@ =~= old(out)@ + decimal(v));
    }
}

fn push_dims(out: &mut Vec<char>, names: &Vec<String>, dims: &Vec<Dim>)
    ensures
        final(out)@ == old(out)@ + dims_text(name_texts(names@), dims@),
{
    let ghost start = out@;
    let ghost nm = name_texts(names@);
    let mut i: usize = 0;
    while i < dims.len()
        invariant
            i <= dims.len(),
            nm == name_texts(names@),
            out@ == start + dims_text(nm, dims@.subrange(0, i as int)),
        decreases dims.len() - i,
    {
        let ghost before = out@;
        out.push('[');
        match dims[i] {
            Dim::Unknown => out.push('_'),
            Dim::Name(s) => push_symbol(out, names, s),
            Dim::Int(v) => push_decimal(out, v as u64),
        }
        out.push(']');
        proof {
            assert(out@ =~= before + dim_text(nm, dims@[i as int]));
            assert(dims@.subrange(0, i + 1).drop_last() =~= dims@.subrange(0, i as int));
        }
        i = i + 1;
    }
    assert(dims@.subrange(0, i as int) =~= dims@);
}

fn push_simple(out: &mut Vec<char>, display: &Vec<Option<String>>, k: &TyKind)
    ensures
        final(out)@ == old(out)@ + simple_text(display_texts(display@), k@),
{
    let idx: usize = match k {
        TyKind::NatLit(v) => {
            push_decimal(out, *v);
            return;
        },
        TyKind::Error => 0,
        TyKind::Unknown => 1,
        TyKind::Type => 2,
        TyKind::Syntax => 3,
        TyKind::Any => 4,
        TyKind::Empty => 5,
        TyKind::Unit => 6,
        TyKind::Bool => 7,
        TyKind::Nat => 8,
        TyKind::Int => 9,
        TyKind::Int8 => 10,
        TyKind::Int16 => 11,
        TyKind::Int32 => 12,
        TyKind::Int64 => 13,
        TyKind::Nat8 => 14,
        TyKind::Nat16 => 15,
        TyKind::Nat32 => 16,
        TyKind::Nat64 => 17,
        TyKind::Float => 18,
        TyKind::Float32 => 19,
        TyKind::Float64 => 20,
        TyKind::String => 21,
        TyKind::Rune => 22,
        TyKind::CString => 23,
        TyKind::CPtr => 24,
        _ => {
            push_text(out, "<error>");
            return;
        },
    };
    assert(simple_of_node(k@) is Some && simple_index(simple_of_node(k@)->0) == idx);
    if idx < display.len() {
        match &display[idx] {
            Some(name) => {
                push_text(out, name.as_str());
                return;
            },
            None => {},
        }
    }
    push_text(out, "<error>");
}

fn render_into(
    store: &TyStore,
    names: &Vec<String>,
    display: &Vec<Option<String>>,
    id: TyId,
    out: &mut Vec<char>,
)
    requires
        id.0 < store.kinds().len(),
    ensures
        final(out)@ == old(out)@ + render(store.kinds(), name_texts(names@), display_texts(display@), id),
    decreases id.0, 1nat,
{
    proof {
        use_type_invariant(store);
        assert(children_below(store.kinds()[id.0 as int], id.0 as int));
    }
    let ghost tys = store.kinds();
    let ghost nm = name_texts(names@);
    let ghost dt = display_texts(display@);
    let ghost start = out@;
    match store.kind(id) {
        TyKind::Named { name, args } => {
            push_symbol(out, names, *name);
            if args.len() != 0 {
                out.push('[');
                render_list_into(store, names, display, id, args, out);
                out.push(']');
            }
            assert(out@ =~= start + render(tys, nm, dt, id));
        },
        TyKind::Pi { binder, binder_ty, body, is_effectful } => {
            push_text(out, "forall (");
            push_symbol(out, names, *binder);
            push_text(out, " : ");
            render_into(store, names, display, *binder_ty, out);
            out.push(')');
            if *is_effectful {
                push_text(out, " ~> ");
            } else {
                push_text(out, " -> ");
            }
            render_into(store, names, display, *body, out);
            assert(out@ =~= start + render(tys, nm, dt, id));
        },
        TyKind::Arrow { params, ret, is_effectful } => {
            if params.len() == 1 {
                render_into(store, names, display, params[0], out);
            } else {
                out.push('(');
                render_list_into(store, names, display, id, params, out);
                out.push(')');
            }
            if *is_effectful {
                push_text(out, " ~> ");
            } else {
                push_text(out, " -> ");
            }
            render_into(store, names, display, *ret, out);
            assert(out@ =~= start + render(tys, nm, dt, id));
        },
        TyKind::Sum { left, right } => {
            render_into(store, names, display, *left, out);
            push_text(out, " + ");
            render_into(store, names, display, *right, out);
            assert(out@ =~= start + render(tys, nm, dt, id));
        },
        TyKind::Tuple { items } => {
            out.push('(');
            render_list_into(store, names, display, id, items, out);
            out.push(')');
            assert(out@ =~= start + render(tys, nm, dt, id));
        },
        TyKind::Sequence { item } => {
            push_text(out, "[]");
            render_into(store, names, display, *item, out);
            assert(out@ =~= start + render(tys, nm, dt, id));
        },
        TyKind::Array { dims, item } => {
            push_dims(out, names, dims);
            render_into(store, names, display, *item, out);
            assert(out@ =~= start + render(tys, nm, dt, id));
        },
        TyKind::Bits { width } => {
            push_text(out, "Bits[");
            push_decimal(out, *width as u64);
            out.push(']');
            assert(out@ =~= start + render(tys, nm, dt, id));
        },
        TyKind::Range { bound } => {
            push_text(out, "Range[");
            render_into(store, names, display, *bound, out);
            out.push(']');
            assert(out@ =~= start + render(tys, nm, dt, id));
        },
        TyKind::Mut { inner } => {
            push_text(out, "mut ");
            render_into(store, names, display, *inner, out);
            assert(out@ =~= start + render(tys, nm, dt, id));
        },
        TyKind::AnyShape { capability } => {
            push_text(out, "any ");
            render_into(store, names, display, *capability, out);
            assert(out@ =~= start + render(tys, nm, dt, id));
        },
        TyKind::SomeShape { capability } => {
            push_text(out, "some ");
            render_into(store, names, display, *capability, out);
            assert(out@ =~= start + render(tys, nm, dt, id));
        },
        TyKind::Record { fields } => {
            out.push('{');
            render_fields_into(store, names, display, id, fields, out);
            out.push('}');
            assert(out@ =~= start + render(tys, nm, dt, id));
        },
        k => {
            push_simple(out, display, k);
        },
    }
}

fn render_list_into(
    store: &TyStore,
    names: &Vec<String>,
    display: &Vec<Option<String>>,
    parent: TyId,
    ids: &Vec<TyId>,
    out: &mut Vec<char>,
)
    requires
        parent.0 < store.kinds().len(),
        ids_below(ids@, parent.0 as int),
    ensures
        final(out)@ == old(out)@ + join_commas(
            render_list(store.kinds(), name_texts(names@), display_texts(display@), parent, ids@),
        ),
    decreases parent.0, 0nat,
{
    proof {
        use_type_invariant(store);
    }
    let ghost tys = store.kinds();
    let ghost nm = name_texts(names@);
    let ghost dt = display_texts(display@);
    let ghost start = out@;
    let mut k: usize = 0;
    while k < ids.len()
        invariant
            store_wf(tys),
            tys == store.kinds(),
            nm == name_texts(names@),
            dt == display_texts(display@),
            parent.0 < tys.len(),
            ids_below(ids@, parent.0 as int),
            k <= ids.len(),
            out@ == start + join_commas(render_list(tys, nm, dt, parent, ids@.subrange(0, k as int))),
        decreases ids.len() - k,
    {
        let ghost before = out@;
        let ghost prev = render_list(tys, nm, dt, parent, ids@.subrange(0, k as int));
        proof {
            assert(ids_below(ids@.subrange(0, k + 1), parent.0 as int));
            assert(ids@.subrange(0, k + 1).drop_last() =~= ids@.subrange(0, k as int));
            assert(ids@.subrange(0, k + 1).last() == ids@[k as int]);
            lemma_render_list_len(tys, nm, dt, parent, ids@.subrange(0, k as int));
        }
        if k > 0 {
            push_text(out, ", ");
        }
        assert(ids@[k as int].0 < parent.0);
        render_into(store, names, display, ids[k], out);
        proof {
            let next = render_list(tys, nm, dt, parent, ids@.subrange(0, k + 1));
            assert(next == prev.push(render(tys, nm, dt, ids@[k as int])));
            assert(next.drop_last() =~= prev);
            if k == 0 {
                assert(out@ =~= start + join_commas(next));
            } else {
                assert(out@ =~= start + join_commas(next));
            }
        }
        k = k + 1;
    }
    assert(ids@.subrange(0, k as int) =~= ids@);
}

proof fn lemma_render_list_len(
    tys: Seq<TyNode>,
    names: Seq<Seq<char>>,
    display: Seq<Option<Seq<char>>>,
    parent: TyId,
    ids: Seq<TyId>,
)
    requires
        store_wf(tys),
        parent.0 < tys.len(),
        ids_below(ids, parent.0 as int),
    ensures
        render_list(tys, names, display, parent, ids).len() == ids.len(),
    decreases ids.len(),
{
    if ids.len() > 0 {
        assert(ids_below(ids.drop_last(), parent.0 as int));
        lemma_render_list_len(tys, names, display, parent, ids.drop_last());
    }
}

proof fn lemma_render_fields_len(
    tys: Seq<TyNode>,
    names: Seq<Seq<char>>,
    display: Seq<Option<Seq<char>>>,
    parent: TyId,
    fields: Seq<TyField>,
)
    requires
        store_wf(tys),
        parent.0 < tys.len(),
        fields_below(fields, parent.0 as int),
    ensures
        render_fields(tys, names, display, parent, fields).len() == fields.len(),
    decreases fields.len(),
{
    if fields.len() > 0 {
        assert(fields_below(fields.drop_last(), parent.0 as int));
        lemma_render_fields_len(tys, names, display, parent, fields.drop_last());
    }
}

fn render_fields_into(
    store: &TyStore,
    names: &Vec<String>,
    display: &Vec<Option<String>>,
    parent: TyId,
    fields: &Vec<TyField>,
    out: &mut Vec<char>,
)
    requires
        parent.0 < store.kinds().len(),
        fields_below(fields@, parent.0 as int),
    ensures
        final(out)@ == old(out)@ + join_commas(
            render_fields(store.kinds(), name_texts(names@), display_texts(display@), parent, fields@),
        ),
    decreases parent.0, 0nat,
{
    proof {
        use_type_invariant(store);
    }
    let ghost tys = store.kinds();
    let ghost nm = name_texts(names@);
    let ghost dt = display_texts(display@);
    let ghost start = out@;
    let mut k: usize = 0;
    while k < fields.len()
        invariant
            store_wf(tys),
            tys == store.kinds(),
            nm == name_texts(names@),
            dt == display_texts(display@),
            parent.0 < tys.len(),
            fields_below(fields@, parent.0 as int),
            k <= fields.len(),
            out@ == start + join_commas(render_fields(tys, nm, dt, parent, fields@.subrange(0, k as int))),
        decreases fields.len() - k,
    {
        let ghost prev = render_fields(tys, nm, dt, parent, fields@.subrange(0, k as int));
        proof {
            assert(fields_below(fields@.subrange(0, k + 1), parent.0 as int));
            assert(fields@.subrange(0, k + 1).drop_last() =~= fields@.subrange(0, k as int));
            assert(fields@.subrange(0, k + 1).last() == fields@[k as int]);
            lemma_render_fields_len(tys, nm, dt, parent, fields@.subrange(0, k as int));
        }
        if k > 0 {
            push_text(out, ", ");
        }
        let ghost part_start = out@;
        let field = fields[k];
        assert(field.ty.0 < parent.0);
        push_symbol(out, names, field.name);
        push_text(out, " = ");
        render_into(store, names, display, field.ty, out);
        proof {
            let part = symbol_text(nm, field.name) + " = "@ + render(tys, nm, dt, field.ty);
            assert(out@ =~= part_start + part);
            let next = render_fields(tys, nm, dt, parent, fields@.subrange(0, k + 1));
            assert(next == prev.push(part));
            assert(next.drop_last() =~= prev);
            assert(out@ =~= start + join_commas(next));
        }
        k = k + 1;
    }
    assert(fields@.subrange(0, k as int) =~= fields@);
}

/// How type `ty` is written in diagnostics; `names` holds the text of each
/// symbol, and `display` the display name of each simple type, indexed in
/// declaration order from `Error` to `CPtr`.
pub fn render_ty(store: &TyStore, names: &Vec<String>, display: &Vec<Option<String>>, ty: TyId) -> (s: String)
    requires
        ty.0 < store.kinds().len(),
    ensures
        s@ == render(store.kinds(), name_texts(names@), display_texts(display@), ty),
{
    let mut out: Vec<char> = Vec::new();
    render_into(store, names, display, ty, &mut out);
    assert(out@ =~= render(store.kinds(), name_texts(names@), display_texts(display@), ty));
    crate::text::string_of_chars(&out)
}

/// A type mismatch to report: what was checked, and the expected and found
/// types as written.
#[derive(Debug, Clone, PartialEq, Eq)]
pub struct TypeMismatch {
    pub subject: String,
    pub expected: String,
    pub found: String,
}

/// The report of checking `found` against `expected` for `subject` (`value`
/// for a plain value): none when `found` matches, else both types as
/// written.
pub fn type_mismatch_for(
    store: &TyStore,
    names: &Vec<String>,
    display: &Vec<Option<String>>,
    subject: &str,
    expected: TyId,
    found: TyId,
) -> (r: Option<TypeMismatch>)
    requires
        expected.0 < store.kinds().len(),
        found.0 < store.kinds().len(),
    ensures
        r is None <==> crate::matching::ty_matches_spec(store.kinds(), expected, found),
        r matches Some(m) ==> m.subject@ == subject@ && m.expected@ == render(
            store.kinds(),
            name_texts(names@),
            display_texts(display@),
            expected,
        ) && m.found@ == render(store.kinds(), name_texts(names@), display_texts(display@), found),
{
    if crate::matching::ty_matches(store, expected, found) {
        return None;
    }
    let expected = render_ty(store, names, display, expected);
    let found = render_ty(store, names, display, found);
    Some(TypeMismatch { subject: subject.to_owned(), expected, found })
}

} // verus!
