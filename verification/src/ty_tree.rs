//! What an id of the type store stands for: the type written out as a tree,
//! independent of where its parts sit in the store.
use vstd::prelude::*;

use crate::ty::{fields_below, ids_below, store_wf, Dim, Symbol, TyField, TyId, TyNode};

verus! {

/// A type written out in full.
pub enum TyTree {
    /// A type with no children.
    Leaf { kind: TyNode },
    Named { name: Symbol, args: Seq<TyTree> },
    Pi { binder: Symbol, binder_ty: Box<TyTree>, body: Box<TyTree>, is_effectful: bool },
    Arrow { params: Seq<TyTree>, ret: Box<TyTree>, is_effectful: bool },
    Sum { left: Box<TyTree>, right: Box<TyTree> },
    Tuple { items: Seq<TyTree> },
    Sequence { item: Box<TyTree> },
    Array { dims: Seq<Dim>, item: Box<TyTree> },
    Range { bound: Box<TyTree> },
    Mut { inner: Box<TyTree> },
    AnyShape { capability: Box<TyTree> },
    SomeShape { capability: Box<TyTree> },
    /// A record type: the field names, and the field types in the same order.
    Record { names: Seq<Symbol>, types: Seq<TyTree> },
}

/// The names of `fields`, in order.
pub open spec fn field_names(fields: Seq<TyField>) -> Seq<Symbol> {
    fields.map_values(|f: TyField| f.name)
}

/// The type that `id` stands for in the store `tys`.
pub open spec fn denote(tys: Seq<TyNode>, id: TyId) -> TyTree
    decreases id.0, 1nat, 0nat,
    when store_wf(tys) && id.0 < tys.len()
{
    match tys[id.0 as int] {
        TyNode::Named { name, args } => TyTree::Named { name, args: denote_list(tys, id, args) },
        TyNode::Pi { binder, binder_ty, body, is_effectful } => TyTree::Pi {
            binder,
            binder_ty: Box::new(denote(tys, binder_ty)),
            body: Box::new(denote(tys, body)),
            is_effectful,
        },
        TyNode::Arrow { params, ret, is_effectful } => TyTree::Arrow {
            params: denote_list(tys, id, params),
            ret: Box::new(denote(tys, ret)),
            is_effectful,
        },
        TyNode::Sum { left, right } => TyTree::Sum {
            left: Box::new(denote(tys, left)),
            right: Box::new(denote(tys, right)),
        },
        TyNode::Tuple { items } => TyTree::Tuple { items: denote_list(tys, id, items) },
        TyNode::Sequence { item } => TyTree::Sequence { item: Box::new(denote(tys, item)) },
        TyNode::Array { dims, item } => TyTree::Array {
            dims: dims,
            item: Box::new(denote(tys, item)),
        },
        TyNode::Range { bound } => TyTree::Range { bound: Box::new(denote(tys, bound)) },
        TyNode::Mut { inner } => TyTree::Mut { inner: Box::new(denote(tys, inner)) },
        TyNode::AnyShape { capability } => TyTree::AnyShape {
            capability: Box::new(denote(tys, capability)),
        },
        TyNode::SomeShape { capability } => TyTree::SomeShape {
            capability: Box::new(denote(tys, capability)),
        },
        TyNode::Record { fields } => TyTree::Record {
            names: field_names(fields),
            types: denote_fields(tys, id, fields),
        },
        k => TyTree::Leaf { kind: k },
    }
}

/// The types that the ids `ids`, children of `parent`, stand for.
pub open spec fn denote_list(tys: Seq<TyNode>, parent: TyId, ids: Seq<TyId>) -> Seq<TyTree>
    decreases parent.0, 0nat, ids.len(),
    when store_wf(tys) && parent.0 < tys.len() && ids_below(ids, parent.0 as int)
{
    if ids.len() == 0 {
        Seq::empty()
    } else {
        denote_list(tys, parent, ids.drop_last()).push(denote(tys, ids.last()))
    }
}

/// The types of the fields `fields`, children of `parent`.
pub open spec fn denote_fields(tys: Seq<TyNode>, parent: TyId, fields: Seq<TyField>) -> Seq<TyTree>
    decreases parent.0, 0nat, fields.len(),
    when store_wf(tys) && parent.0 < tys.len() && fields_below(fields, parent.0 as int)
{
    if fields.len() == 0 {
        Seq::empty()
    } else {
        denote_fields(tys, parent, fields.drop_last()).push(denote(tys, fields.last().ty))
    }
}

/// `denote_list` is `denote` taken item by item.
pub proof fn lemma_denote_list(tys: Seq<TyNode>, parent: TyId, ids: Seq<TyId>)
    requires
        store_wf(tys),
        parent.0 < tys.len(),
        ids_below(ids, parent.0 as int),
    ensures
        denote_list(tys, parent, ids).len() == ids.len(),
        forall|k: int|
            0 <= k < ids.len() ==> #[trigger] denote_list(tys, parent, ids)[k] == denote(tys, ids[k]),
    decreases ids.len(),
{
    if ids.len() > 0 {
        lemma_denote_list(tys, parent, ids.drop_last());
        assert(ids_below(ids.drop_last(), parent.0 as int));
        assert forall|k: int| 0 <= k < ids.len() implies #[trigger] denote_list(tys, parent, ids)[k]
            == denote(tys, ids[k]) by {
            if k < ids.len() - 1 {
                assert(ids.drop_last()[k] == ids[k]);
            }
        }
    }
}

/// `denote_fields` is `denote` taken field by field.
pub proof fn lemma_denote_fields(tys: Seq<TyNode>, parent: TyId, fields: Seq<TyField>)
    requires
        store_wf(tys),
        parent.0 < tys.len(),
        fields_below(fields, parent.0 as int),
    ensures
        denote_fields(tys, parent, fields).len() == fields.len(),
        forall|k: int|
            0 <= k < fields.len() ==> #[trigger] denote_fields(tys, parent, fields)[k] == denote(
                tys,
                fields[k].ty,
            ),
    decreases fields.len(),
{
    if fields.len() > 0 {
        lemma_denote_fields(tys, parent, fields.drop_last());
        assert(fields_below(fields.drop_last(), parent.0 as int));
        assert forall|k: int| 0 <= k < fields.len() implies #[trigger] denote_fields(
            tys,
            parent,
            fields,
        )[k] == denote(tys, fields[k].ty) by {
            if k < fields.len() - 1 {
                assert(fields.drop_last()[k] == fields[k]);
            }
        }
    }
}

/// `small` is `big` cut short: every id of `small` names the same type in
/// `big`.
pub open spec fn store_prefix(small: Seq<TyNode>, big: Seq<TyNode>) -> bool {
    small.len() <= big.len() && forall|i: int| 0 <= i < small.len() ==> #[trigger] big[i] == small[i]
}

/// Being the start of a store is transitive.
pub proof fn lemma_prefix_trans(a: Seq<TyNode>, b: Seq<TyNode>, c: Seq<TyNode>)
    requires
        store_prefix(a, b),
        store_prefix(b, c),
    ensures
        store_prefix(a, c),
{
    assert forall|i: int| 0 <= i < a.len() implies #[trigger] c[i] == a[i] by {
        assert(c[i] == b[i]);
    }
}

/// Adding types to a store changes no type its ids stand for.
pub proof fn lemma_denote_prefix(small: Seq<TyNode>, big: Seq<TyNode>, id: TyId)
    requires
        store_wf(small),
        store_wf(big),
        store_prefix(small, big),
        id.0 < small.len(),
    ensures
        denote(big, id) == denote(small, id),
    decreases id.0,
{
    let k = small[id.0 as int];
    assert(big[id.0 as int] == k);
    match k {
        TyNode::Named { args, .. } => {
            lemma_denote_list_prefix(small, big, id, args);
        },
        TyNode::Pi { binder_ty, body, .. } => {
            lemma_denote_prefix(small, big, binder_ty);
            lemma_denote_prefix(small, big, body);
        },
        TyNode::Arrow { params, ret, .. } => {
            lemma_denote_list_prefix(small, big, id, params);
            lemma_denote_prefix(small, big, ret);
        },
        TyNode::Sum { left, right } => {
            lemma_denote_prefix(small, big, left);
            lemma_denote_prefix(small, big, right);
        },
        TyNode::Tuple { items } => {
            lemma_denote_list_prefix(small, big, id, items);
        },
        TyNode::Sequence { item } => {
            lemma_denote_prefix(small, big, item);
        },
        TyNode::Array { item, .. } => {
            lemma_denote_prefix(small, big, item);
        },
        TyNode::Range { bound } => {
            lemma_denote_prefix(small, big, bound);
        },
        TyNode::Mut { inner } => {
            lemma_denote_prefix(small, big, inner);
        },
        TyNode::AnyShape { capability } => {
            lemma_denote_prefix(small, big, capability);
        },
        TyNode::SomeShape { capability } => {
            lemma_denote_prefix(small, big, capability);
        },
        TyNode::Record { fields } => {
            lemma_denote_fields(small, id, fields);
            lemma_denote_fields(big, id, fields);
            assert forall|j: int| 0 <= j < fields.len() implies denote(big, (#[trigger] fields[j]).ty)
                == denote(small, fields[j].ty) by {
                lemma_denote_prefix(small, big, fields[j].ty);
            }
            assert(denote_fields(big, id, fields) =~= denote_fields(small, id, fields));
        },
        _ => {},
    }
}

proof fn lemma_denote_list_prefix(small: Seq<TyNode>, big: Seq<TyNode>, parent: TyId, ids: Seq<TyId>)
    requires
        store_wf(small),
        store_wf(big),
        store_prefix(small, big),
        parent.0 < small.len(),
        ids_below(ids, parent.0 as int),
    ensures
        denote_list(big, parent, ids) == denote_list(small, parent, ids),
    decreases parent.0, 0nat,
{
    lemma_denote_list(small, parent, ids);
    lemma_denote_list(big, parent, ids);
    assert forall|j: int| 0 <= j < ids.len() implies denote(big, #[trigger] ids[j]) == denote(
        small,
        ids[j],
    ) by {
        lemma_denote_prefix(small, big, ids[j]);
    }
    assert(denote_list(big, parent, ids) =~= denote_list(small, parent, ids));
}

} // verus!
