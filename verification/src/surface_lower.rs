//! Writing checker types into a module's surface: each type of the store is
//! written once into a table of surface types, children before parents, and
//! found again in the cache when it is met a second time.
use vstd::prelude::*;

use crate::const_eval::{symbol_string, symbol_text};
use crate::simple::simple_surface_ty_kind;
use crate::surface::{
    lemma_surface_id_index, surface_children_below, surface_id, surface_wf, SurfaceDim, SurfaceDimNode, SurfaceNode,
    SurfaceTy, SurfaceTyField, SurfaceTyId, SurfaceTyKind,
};
use crate::ty::{children_below, fields_below, ids_below, store_wf, Dim, TyField, TyId, TyKind, TyNode, TyStore};

verus! {

/// What writing types into a surface keeps: the surface type each store type
/// was written as, and the surface table so far.
#[verifier::ext_equal]
pub struct LowerState {
    pub cache: Seq<Option<SurfaceTyId>>,
    pub nodes: Seq<SurfaceNode>,
}

/// The id the next surface type gets: the table's length, or the largest id
/// once the table has outgrown the ids.
pub open spec fn next_surface_id(len: nat) -> SurfaceTyId {
    if len <= u32::MAX {
        surface_id(len as u32)
    } else {
        surface_id(u32::MAX)
    }
}

/// The surface form of a store type with no children.
pub open spec fn simple_surface_node(k: TyNode) -> Option<SurfaceNode> {
    match k {
        TyNode::Error => Some(SurfaceNode::Error),
        TyNode::Unknown => Some(SurfaceNode::Unknown),
        TyNode::Type => Some(SurfaceNode::Type),
        TyNode::Syntax => Some(SurfaceNode::Syntax),
        TyNode::Any => Some(SurfaceNode::Any),
        TyNode::Empty => Some(SurfaceNode::Empty),
        TyNode::Unit => Some(SurfaceNode::Unit),
        TyNode::Bool => Some(SurfaceNode::Bool),
        TyNode::Nat => Some(SurfaceNode::Nat),
        TyNode::Int => Some(SurfaceNode::Int),
        TyNode::Int8 => Some(SurfaceNode::Int8),
        TyNode::Int16 => Some(SurfaceNode::Int16),
        TyNode::Int32 => Some(SurfaceNode::Int32),
        TyNode::Int64 => Some(SurfaceNode::Int64),
        TyNode::Nat8 => Some(SurfaceNode::Nat8),
        TyNode::Nat16 => Some(SurfaceNode::Nat16),
        TyNode::Nat32 => Some(SurfaceNode::Nat32),
        TyNode::Nat64 => Some(SurfaceNode::Nat64),
        TyNode::Float => Some(SurfaceNode::Float),
        TyNode::Float32 => Some(SurfaceNode::Float32),
        TyNode::Float64 => Some(SurfaceNode::Float64),
        TyNode::String => Some(SurfaceNode::String),
        TyNode::Rune => Some(SurfaceNode::Rune),
        TyNode::CString => Some(SurfaceNode::CString),
        TyNode::CPtr => Some(SurfaceNode::CPtr),
        TyNode::NatLit(v) => Some(SurfaceNode::NatLit(v)),
        _ => None,
    }
}

/// The surface form of an array dimension: a name by its text.
pub open spec fn surface_dim(names: Seq<Seq<char>>, d: Dim) -> SurfaceDimNode {
    match d {
        Dim::Unknown => SurfaceDimNode::Unknown,
        Dim::Name(s) => SurfaceDimNode::Name(symbol_text(names, s)),
        Dim::Int(v) => SurfaceDimNode::Int(v),
    }
}

/// Writes type `id` into the surface: the surface type it was written as
/// before, or else its children first and then itself, at the next id.
pub open spec fn lower_spec(hir: Seq<TyNode>, names: Seq<Seq<char>>, st: LowerState, id: TyId) -> (SurfaceTyId, LowerState)
    decreases id.0, 2nat, 0nat,
    when store_wf(hir) && id.0 < hir.len() && st.cache.len() == hir.len()
{
    match st.cache[id.0 as int] {
        Some(sid) => (sid, st),
        None => {
            let (node, st1) = lower_node_spec(hir, names, st, id);
            let sid = next_surface_id(st1.nodes.len());
            (sid, LowerState { cache: st1.cache.update(id.0 as int, Some(sid)), nodes: st1.nodes.push(node) })
        },
    }
}

/// The surface form of type `id`, after writing its children.
pub open spec fn lower_node_spec(hir: Seq<TyNode>, names: Seq<Seq<char>>, st: LowerState, id: TyId) -> (SurfaceNode, LowerState)
    decreases id.0, 1nat, 0nat,
    when store_wf(hir) && id.0 < hir.len() && st.cache.len() == hir.len()
{
    match hir[id.0 as int] {
        TyNode::Named { name, args } => {
            let (a, st1) = lower_list_spec(hir, names, st, id, args, 0);
            (SurfaceNode::Named { name: symbol_text(names, name), args: a }, st1)
        },
        TyNode::Pi { binder, binder_ty, body, is_effectful } => {
            let (b, st1) = lower_spec(hir, names, st, binder_ty);
            let (c, st2) = lower_spec(hir, names, st1, body);
            (SurfaceNode::Pi { binder: symbol_text(names, binder), binder_ty: b, body: c, is_effectful }, st2)
        },
        TyNode::Arrow { params, ret, is_effectful } => {
            let (p, st1) = lower_list_spec(hir, names, st, id, params, 0);
            let (r, st2) = lower_spec(hir, names, st1, ret);
            (SurfaceNode::Arrow { params: p, ret: r, is_effectful }, st2)
        },
        TyNode::Sum { left, right } => {
            let (l, st1) = lower_spec(hir, names, st, left);
            let (r, st2) = lower_spec(hir, names, st1, right);
            (SurfaceNode::Sum { left: l, right: r }, st2)
        },
        TyNode::Tuple { items } => {
            let (i, st1) = lower_list_spec(hir, names, st, id, items, 0);
            (SurfaceNode::Tuple { items: i }, st1)
        },
        TyNode::Sequence { item } => {
            let (i, st1) = lower_spec(hir, names, st, item);
            (SurfaceNode::Sequence { item: i }, st1)
        },
        TyNode::Array { dims, item } => {
            let (i, st1) = lower_spec(hir, names, st, item);
            (SurfaceNode::Array { dims: dims.map_values(|d: Dim| surface_dim(names, d)), item: i }, st1)
        },
        TyNode::Bits { width } => (SurfaceNode::Bits { width }, st),
        TyNode::Range { bound } => {
            let (b, st1) = lower_spec(hir, names, st, bound);
            (SurfaceNode::Range { bound: b }, st1)
        },
        TyNode::Mut { inner } => {
            let (i, st1) = lower_spec(hir, names, st, inner);
            (SurfaceNode::Mut { inner: i }, st1)
        },
        TyNode::AnyShape { capability } => {
            let (c, st1) = lower_spec(hir, names, st, capability);
            (SurfaceNode::AnyShape { capability: c }, st1)
        },
        TyNode::SomeShape { capability } => {
            let (c, st1) = lower_spec(hir, names, st, capability);
            (SurfaceNode::SomeShape { capability: c }, st1)
        },
        TyNode::Record { fields } => {
            let (f, st1) = lower_fields_spec(hir, names, st, id, fields, 0);
            (SurfaceNode::Record { fields: f }, st1)
        },
        k => (simple_surface_node(k)->0, st),
    }
}

/// Writes the types `ids[k..]`, children of `parent`, in order.
pub open spec fn lower_list_spec(
    hir: Seq<TyNode>,
    names: Seq<Seq<char>>,
    st: LowerState,
    parent: TyId,
    ids: Seq<TyId>,
    k: int,
) -> (Seq<SurfaceTyId>, LowerState)
    decreases parent.0, 0nat, ids.len() - k,
    when store_wf(hir) && parent.0 < hir.len() && ids_below(ids, parent.0 as int) && 0 <= k
{
    if k >= ids.len() {
        (Seq::empty(), st)
    } else {
        let (s, st1) = lower_spec(hir, names, st, ids[k]);
        let (rest, st2) = lower_list_spec(hir, names, st1, parent, ids, k + 1);
        (seq![s] + rest, st2)
    }
}

/// Writes the field types of `fields[k..]`, children of `parent`, in order,
/// naming each field by its text.
pub open spec fn lower_fields_spec(
    hir: Seq<TyNode>,
    names: Seq<Seq<char>>,
    st: LowerState,
    parent: TyId,
    fields: Seq<TyField>,
    k: int,
) -> (Seq<(Seq<char>, SurfaceTyId)>, LowerState)
    decreases parent.0, 0nat, fields.len() - k,
    when store_wf(hir) && parent.0 < hir.len() && fields_below(fields, parent.0 as int) && 0 <= k
{
    if k >= fields.len() {
        (Seq::empty(), st)
    } else {
        let (s, st1) = lower_spec(hir, names, st, fields[k].ty);
        let (rest, st2) = lower_fields_spec(hir, names, st1, parent, fields, k + 1);
        (seq![(symbol_text(names, fields[k].name), s)] + rest, st2)
    }
}

/// The symbol texts as texts.
pub open spec fn symbol_texts(names: Seq<String>) -> Seq<Seq<char>> {
    names.map_values(|t: String| t@)
}

/// Writes the types of one module's store into a surface type table.
pub struct SurfaceTyBuilder {
    cache: Vec<Option<SurfaceTyId>>,
    tys: Vec<SurfaceTy>,
}

impl SurfaceTyBuilder {
    /// The cache and the table written so far.
    pub closed spec fn state(self) -> LowerState {
        LowerState { cache: self.cache@, nodes: self.tys@.map_values(|t: SurfaceTy| t.kind@) }
    }

    /// A builder for the types of `hir`, with nothing written yet.
    pub fn new(hir: &TyStore) -> (b: Self)
        ensures
            b.state().cache == Seq::new(hir.kinds().len(), |_i: int| None::<SurfaceTyId>),
            b.state().nodes == Seq::<SurfaceNode>::empty(),
    {
        let n = hir.len();
        let mut cache: Vec<Option<SurfaceTyId>> = Vec::new();
        let mut i: usize = 0;
        while i < n
            invariant
                i <= n,
                cache@ == Seq::new(i as nat, |_j: int| None::<SurfaceTyId>),
            decreases n - i,
        {
            cache.push(None);
            i = i + 1;
            assert(cache@ =~= Seq::new(i as nat, |_j: int| None::<SurfaceTyId>));
        }
        let b = SurfaceTyBuilder { cache, tys: Vec::new() };
        assert(b.state().nodes =~= Seq::<SurfaceNode>::empty());
        b
    }

    /// Writes type `id` of `hir` into the surface, and returns its surface id.
    pub fn lower(&mut self, hir: &TyStore, names: &Vec<String>, id: TyId) -> (r: SurfaceTyId)
        requires
            old(self).state().cache.len() == hir.kinds().len(),
            id.0 < hir.kinds().len(),
        ensures
            (r, final(self).state()) == lower_spec(hir.kinds(), symbol_texts(names@), old(self).state(), id),
            final(self).state().cache.len() == old(self).state().cache.len(),
        decreases id.0, 2nat,
    {
        proof {
            use_type_invariant(hir);
        }
        if let Some(sid) = self.cache[id.0 as usize] {
            return sid;
        }
        let kind = self.lower_kind(hir, names, id);
        let len = self.tys.len();
        let next = if len <= u32::MAX as usize {
            SurfaceTyId::new(len as u32)
        } else {
            SurfaceTyId::new(u32::MAX)
        };
        let ghost before = self.state();
        self.tys.push(SurfaceTy::new(kind));
        self.cache.set(id.0 as usize, Some(next));
        proof {
            assert(self.state().nodes =~= before.nodes.push(kind@));
            assert(self.state().cache =~= before.cache.update(id.0 as int, Some(next)));
        }
        next
    }

    fn lower_kind(&mut self, hir: &TyStore, names: &Vec<String>, id: TyId) -> (r: SurfaceTyKind)
        requires
            old(self).state().cache.len() == hir.kinds().len(),
            id.0 < hir.kinds().len(),
        ensures
            (r@, final(self).state()) == lower_node_spec(hir.kinds(), symbol_texts(names@), old(self).state(), id),
            final(self).state().cache.len() == old(self).state().cache.len(),
        decreases id.0, 1nat,
    {
        proof {
            use_type_invariant(hir);
            assert(children_below(hir.kinds()[id.0 as int], id.0 as int));
        }
        let ghost nm = symbol_texts(names@);
        if let Some(simple) = simple_surface_ty_kind(hir.kind(id)) {
            return simple;
        }
        match hir.kind(id) {
            TyKind::Named { name, args } => {
                let args = self.lower_list(hir, names, args, Ghost(id));
                SurfaceTyKind::Named { name: symbol_string(names, *name), args }
            },
            TyKind::Pi { binder, binder_ty, body, is_effectful } => {
                let b = self.lower(hir, names, *binder_ty);
                let c = self.lower(hir, names, *body);
                SurfaceTyKind::Pi { binder: symbol_string(names, *binder), binder_ty: b, body: c, is_effectful: *is_effectful }
            },
            TyKind::Arrow { params, ret, is_effectful } => {
                let p = self.lower_list(hir, names, params, Ghost(id));
                let r = self.lower(hir, names, *ret);
                SurfaceTyKind::Arrow { params: p, ret: r, is_effectful: *is_effectful }
            },
            TyKind::Sum { left, right } => {
                let l = self.lower(hir, names, *left);
                let r = self.lower(hir, names, *right);
                SurfaceTyKind::Sum { left: l, right: r }
            },
            TyKind::Tuple { items } => {
                let i = self.lower_list(hir, names, items, Ghost(id));
                SurfaceTyKind::Tuple { items: i }
            },
            TyKind::Sequence { item } => {
                let i = self.lower(hir, names, *item);
                SurfaceTyKind::Sequence { item: i }
            },
            TyKind::Array { dims, item } => {
                let d = lower_dims(names, dims);
                let i = self.lower(hir, names, *item);
                SurfaceTyKind::Array { dims: d, item: i }
            },
            TyKind::Bits { width } => SurfaceTyKind::Bits { width: *width },
            TyKind::Range { bound } => {
                let b = self.lower(hir, names, *bound);
                SurfaceTyKind::Range { bound: b }
            },
            TyKind::Mut { inner } => {
                let i = self.lower(hir, names, *inner);
                SurfaceTyKind::Mut { inner: i }
            },
            TyKind::AnyShape { capability } => {
                let c = self.lower(hir, names, *capability);
                SurfaceTyKind::AnyShape { capability: c }
            },
            TyKind::SomeShape { capability } => {
                let c = self.lower(hir, names, *capability);
                SurfaceTyKind::SomeShape { capability: c }
            },
            TyKind::Record { fields } => {
                let f = self.lower_fields(hir, names, fields, Ghost(id));
                SurfaceTyKind::Record { fields: f }
            },
            _ => SurfaceTyKind::Error,
        }
    }

    fn lower_list(&mut self, hir: &TyStore, names: &Vec<String>, ids: &Vec<TyId>, Ghost(parent): Ghost<TyId>) -> (r: Vec<SurfaceTyId>)
        requires
            old(self).state().cache.len() == hir.kinds().len(),
            parent.0 < hir.kinds().len(),
            ids_below(ids@, parent.0 as int),
        ensures
            (r@, final(self).state()) == lower_list_spec(
                hir.kinds(),
                symbol_texts(names@),
                old(self).state(),
                parent,
                ids@,
                0,
            ),
            final(self).state().cache.len() == old(self).state().cache.len(),
        decreases parent.0, 0nat,
    {
        proof {
            use_type_invariant(hir);
        }
        let ghost nm = symbol_texts(names@);
        let ghost st0 = self.state();
        let mut out: Vec<SurfaceTyId> = Vec::new();
        let mut k: usize = 0;
        while k < ids.len()
            invariant
                store_wf(hir.kinds()),
                nm == symbol_texts(names@),
                st0 == old(self).state(),
                st0.cache.len() == hir.kinds().len(),
                self.state().cache.len() == hir.kinds().len(),
                parent.0 < hir.kinds().len(),
                ids_below(ids@, parent.0 as int),
                k <= ids.len(),
                lower_list_spec(hir.kinds(), nm, st0, parent, ids@, 0) == (
                    out@ + lower_list_spec(hir.kinds(), nm, self.state(), parent, ids@, k as int).0,
                    lower_list_spec(hir.kinds(), nm, self.state(), parent, ids@, k as int).1,
                ),
            decreases ids.len() - k,
        {
            let ghost cur = self.state();
            assert(ids@[k as int].0 < parent.0);
            let s = self.lower(hir, names, ids[k]);
            proof {
                let (rest, fin) = lower_list_spec(hir.kinds(), nm, self.state(), parent, ids@, k + 1);
                assert(lower_list_spec(hir.kinds(), nm, cur, parent, ids@, k as int) == (seq![s] + rest, fin));
                assert(out@.push(s) + rest =~= out@ + (seq![s] + rest));
            }
            out.push(s);
            k = k + 1;
        }
        proof {
            assert(out@ + Seq::<SurfaceTyId>::empty() =~= out@);
        }
        out
    }

    fn lower_fields(
        &mut self,
        hir: &TyStore,
        names: &Vec<String>,
        fields: &Vec<TyField>,
        Ghost(parent): Ghost<TyId>,
    ) -> (r: Vec<SurfaceTyField>)
        requires
            old(self).state().cache.len() == hir.kinds().len(),
            parent.0 < hir.kinds().len(),
            fields_below(fields@, parent.0 as int),
        ensures
            (crate::surface::field_nodes(r@), final(self).state()) == lower_fields_spec(
                hir.kinds(),
                symbol_texts(names@),
                old(self).state(),
                parent,
                fields@,
                0,
            ),
            final(self).state().cache.len() == old(self).state().cache.len(),
        decreases parent.0, 0nat,
    {
        proof {
            use_type_invariant(hir);
        }
        let ghost nm = symbol_texts(names@);
        let ghost st0 = self.state();
        let mut out: Vec<SurfaceTyField> = Vec::new();
        let mut k: usize = 0;
        while k < fields.len()
            invariant
                store_wf(hir.kinds()),
                nm == symbol_texts(names@),
                st0 == old(self).state(),
                st0.cache.len() == hir.kinds().len(),
                self.state().cache.len() == hir.kinds().len(),
                parent.0 < hir.kinds().len(),
                fields_below(fields@, parent.0 as int),
                k <= fields.len(),
                lower_fields_spec(hir.kinds(), nm, st0, parent, fields@, 0) == (
                    crate::surface::field_nodes(out@) + lower_fields_spec(
                        hir.kinds(),
                        nm,
                        self.state(),
                        parent,
                        fields@,
                        k as int,
                    ).0,
                    lower_fields_spec(hir.kinds(), nm, self.state(), parent, fields@, k as int).1,
                ),
            decreases fields.len() - k,
        {
            let ghost cur = self.state();
            let field = fields[k];
            assert(field.ty.0 < parent.0);
            let s = self.lower(hir, names, field.ty);
            let name = symbol_string(names, field.name);
            proof {
                let (rest, fin) = lower_fields_spec(hir.kinds(), nm, self.state(), parent, fields@, k + 1);
                assert(lower_fields_spec(hir.kinds(), nm, cur, parent, fields@, k as int) == (
                    seq![(symbol_text(nm, field.name), s)] + rest,
                    fin,
                ));
            }
            let ghost before = out@;
            out.push(SurfaceTyField { name, ty: s });
            proof {
                assert(crate::surface::field_nodes(out@) =~= crate::surface::field_nodes(before).push(
                    (symbol_text(nm, field.name), s),
                ));
                let (rest, fin) = lower_fields_spec(hir.kinds(), nm, self.state(), parent, fields@, k + 1);
                assert(crate::surface::field_nodes(out@) + rest =~= crate::surface::field_nodes(before) + (
                    seq![(symbol_text(nm, field.name), s)] + rest));
            }
            k = k + 1;
        }
        proof {
            assert(crate::surface::field_nodes(out@) + Seq::<(Seq<char>, SurfaceTyId)>::empty()
                =~= crate::surface::field_nodes(out@));
        }
        out
    }

    /// The surface type table written.
    pub fn finish(self) -> (tys: Vec<SurfaceTy>)
        ensures
            tys@.map_values(|t: SurfaceTy| t.kind@) == self.state().nodes,
    {
        self.tys
    }
}

/// The surface form of array dimensions.
fn lower_dims(names: &Vec<String>, dims: &Vec<Dim>) -> (r: Vec<SurfaceDim>)
    ensures
        crate::surface::dim_nodes(r@) == dims@.map_values(|d: Dim| surface_dim(symbol_texts(names@), d)),
{
    let mut out: Vec<SurfaceDim> = Vec::new();
    let mut i: usize = 0;
    while i < dims.len()
        invariant
            i <= dims.len(),
            crate::surface::dim_nodes(out@) == dims@.subrange(0, i as int).map_values(
                |d: Dim| surface_dim(symbol_texts(names@), d),
            ),
        decreases dims.len() - i,
    {
        let d = match dims[i] {
            Dim::Unknown => SurfaceDim::Unknown,
            Dim::Name(s) => SurfaceDim::Name(symbol_string(names, s)),
            Dim::Int(v) => SurfaceDim::Int(v),
        };
        let ghost before = out@;
        out.push(d);
        proof {
            assert(crate::surface::dim_nodes(out@) =~= crate::surface::dim_nodes(before).push(d@));
            assert(dims@.subrange(0, i + 1).map_values(|d: Dim| surface_dim(symbol_texts(names@), d))
                =~= dims@.subrange(0, i as int).map_values(|d: Dim| surface_dim(symbol_texts(names@), d)).push(
                surface_dim(symbol_texts(names@), dims@[i as int]),
            ));
        }
        i = i + 1;
    }
    assert(dims@.subrange(0, i as int) =~= dims@);
    out
}

/// The surface type `sid` of the table `nodes` says what the store type
/// `hid` says: the same shape, symbols written as their texts, and children
/// that say what the store type's children say.
pub open spec fn corresponds(hir: Seq<TyNode>, names: Seq<Seq<char>>, nodes: Seq<SurfaceNode>, hid: TyId, sid: SurfaceTyId) -> bool
    decreases hid.0, 1nat,
    when store_wf(hir) && hid.0 < hir.len()
{
    sid.index() < nodes.len() && node_corresponds(hir, names, nodes, hid, nodes[sid.index() as int])
}

/// The surface node `n`, read in the table `nodes`, says what the store
/// type `hid` says.
pub open spec fn node_corresponds(hir: Seq<TyNode>, names: Seq<Seq<char>>, nodes: Seq<SurfaceNode>, hid: TyId, n: SurfaceNode) -> bool
    decreases hid.0, 0nat,
    when store_wf(hir) && hid.0 < hir.len()
{
    match hir[hid.0 as int] {
        TyNode::Named { name, args } => match n {
            SurfaceNode::Named { name: t, args: sa } => t == symbol_text(names, name) && sa.len() == args.len()
                && forall|k: int| 0 <= k < args.len() ==> corresponds(hir, names, nodes, #[trigger] args[k], sa[k]),
            _ => false,
        },
        TyNode::Pi { binder, binder_ty, body, is_effectful } => match n {
            SurfaceNode::Pi { binder: t, binder_ty: sb, body: sc, is_effectful: e } => t == symbol_text(names, binder)
                && e == is_effectful && corresponds(hir, names, nodes, binder_ty, sb) && corresponds(
                hir,
                names,
                nodes,
                body,
                sc,
            ),
            _ => false,
        },
        TyNode::Arrow { params, ret, is_effectful } => match n {
            SurfaceNode::Arrow { params: sp, ret: sr, is_effectful: e } => e == is_effectful && sp.len() == params.len()
                && (forall|k: int| 0 <= k < params.len() ==> corresponds(hir, names, nodes, #[trigger] params[k], sp[k]))
                && corresponds(hir, names, nodes, ret, sr),
            _ => false,
        },
        TyNode::Sum { left, right } => match n {
            SurfaceNode::Sum { left: sl, right: sr } => corresponds(hir, names, nodes, left, sl) && corresponds(
                hir,
                names,
                nodes,
                right,
                sr,
            ),
            _ => false,
        },
        TyNode::Tuple { items } => match n {
            SurfaceNode::Tuple { items: si } => si.len() == items.len() && forall|k: int|
                0 <= k < items.len() ==> corresponds(hir, names, nodes, #[trigger] items[k], si[k]),
            _ => false,
        },
        TyNode::Sequence { item } => match n {
            SurfaceNode::Sequence { item: si } => corresponds(hir, names, nodes, item, si),
            _ => false,
        },
        TyNode::Array { dims, item } => match n {
            SurfaceNode::Array { dims: sd, item: si } => sd == dims.map_values(|d: Dim| surface_dim(names, d))
                && corresponds(hir, names, nodes, item, si),
            _ => false,
        },
        TyNode::Bits { width } => n == (SurfaceNode::Bits { width }),
        TyNode::Range { bound } => match n {
            SurfaceNode::Range { bound: sb } => corresponds(hir, names, nodes, bound, sb),
            _ => false,
        },
        TyNode::Mut { inner } => match n {
            SurfaceNode::Mut { inner: si } => corresponds(hir, names, nodes, inner, si),
            _ => false,
        },
        TyNode::AnyShape { capability } => match n {
            SurfaceNode::AnyShape { capability: sc } => corresponds(hir, names, nodes, capability, sc),
            _ => false,
        },
        TyNode::SomeShape { capability } => match n {
            SurfaceNode::SomeShape { capability: sc } => corresponds(hir, names, nodes, capability, sc),
            _ => false,
        },
        TyNode::Record { fields } => match n {
            SurfaceNode::Record { fields: sf } => sf.len() == fields.len() && forall|k: int|
                0 <= k < fields.len() ==> sf[k].0 == symbol_text(names, (#[trigger] fields[k]).name)
                    && corresponds(hir, names, nodes, fields[k].ty, sf[k].1),
            _ => false,
        },
        k => simple_surface_node(k) == Some(n),
    }
}

/// `small` is the start of `big`.
pub open spec fn nodes_prefix(small: Seq<SurfaceNode>, big: Seq<SurfaceNode>) -> bool {
    small.len() <= big.len() && forall|i: int| 0 <= i < small.len() ==> #[trigger] big[i] == small[i]
}

/// Every surface type in the cache says what its store type says.
pub open spec fn cache_ok(hir: Seq<TyNode>, names: Seq<Seq<char>>, st: LowerState) -> bool {
    &&& st.cache.len() == hir.len()
    &&& forall|h: int| 0 <= h < st.cache.len() && #[trigger] st.cache[h] is Some ==> corresponds(
        hir,
        names,
        st.nodes,
        TyId(h as u32),
        st.cache[h]->0,
    )
}

/// A surface type keeps its meaning as the table grows.
pub proof fn lemma_corresponds_extend(
    hir: Seq<TyNode>,
    names: Seq<Seq<char>>,
    small: Seq<SurfaceNode>,
    big: Seq<SurfaceNode>,
    hid: TyId,
    sid: SurfaceTyId,
)
    requires
        store_wf(hir),
        hid.0 < hir.len(),
        nodes_prefix(small, big),
        corresponds(hir, names, small, hid, sid),
    ensures
        corresponds(hir, names, big, hid, sid),
    decreases hid.0, 1nat,
{
    assert(big[sid.index() as int] == small[sid.index() as int]);
    lemma_node_corresponds_extend(hir, names, small, big, hid, small[sid.index() as int]);
}

/// A surface node keeps its meaning as the table grows.
pub proof fn lemma_node_corresponds_extend(
    hir: Seq<TyNode>,
    names: Seq<Seq<char>>,
    small: Seq<SurfaceNode>,
    big: Seq<SurfaceNode>,
    hid: TyId,
    n: SurfaceNode,
)
    requires
        store_wf(hir),
        hid.0 < hir.len(),
        nodes_prefix(small, big),
        node_corresponds(hir, names, small, hid, n),
    ensures
        node_corresponds(hir, names, big, hid, n),
    decreases hid.0, 0nat,
{
    assert(children_below(hir[hid.0 as int], hid.0 as int));
    match hir[hid.0 as int] {
        TyNode::Named { args, .. } => {
            if let SurfaceNode::Named { args: sa, .. } = n {
                assert forall|k: int| 0 <= k < args.len() implies corresponds(hir, names, big, #[trigger] args[k], sa[k]) by {
                    lemma_corresponds_extend(hir, names, small, big, args[k], sa[k]);
                }
            }
        },
        TyNode::Pi { binder_ty, body, .. } => {
            if let SurfaceNode::Pi { binder_ty: sb, body: sc, .. } = n {
                lemma_corresponds_extend(hir, names, small, big, binder_ty, sb);
                lemma_corresponds_extend(hir, names, small, big, body, sc);
            }
        },
        TyNode::Arrow { params, ret, .. } => {
            if let SurfaceNode::Arrow { params: sp, ret: sr, .. } = n {
                assert forall|k: int| 0 <= k < params.len() implies corresponds(hir, names, big, #[trigger] params[k], sp[k]) by {
                    lemma_corresponds_extend(hir, names, small, big, params[k], sp[k]);
                }
                lemma_corresponds_extend(hir, names, small, big, ret, sr);
            }
        },
        TyNode::Sum { left, right } => {
            if let SurfaceNode::Sum { left: sl, right: sr } = n {
                lemma_corresponds_extend(hir, names, small, big, left, sl);
                lemma_corresponds_extend(hir, names, small, big, right, sr);
            }
        },
        TyNode::Tuple { items } => {
            if let SurfaceNode::Tuple { items: si } = n {
                assert forall|k: int| 0 <= k < items.len() implies corresponds(hir, names, big, #[trigger] items[k], si[k]) by {
                    lemma_corresponds_extend(hir, names, small, big, items[k], si[k]);
                }
            }
        },
        TyNode::Sequence { item } => {
            if let SurfaceNode::Sequence { item: si } = n {
                lemma_corresponds_extend(hir, names, small, big, item, si);
            }
        },
        TyNode::Array { item, .. } => {
            if let SurfaceNode::Array { item: si, .. } = n {
                lemma_corresponds_extend(hir, names, small, big, item, si);
            }
        },
        TyNode::Range { bound } => {
            if let SurfaceNode::Range { bound: sb } = n {
                lemma_corresponds_extend(hir, names, small, big, bound, sb);
            }
        },
        TyNode::Mut { inner } => {
            if let SurfaceNode::Mut { inner: si } = n {
                lemma_corresponds_extend(hir, names, small, big, inner, si);
            }
        },
        TyNode::AnyShape { capability } => {
            if let SurfaceNode::AnyShape { capability: sc } = n {
                lemma_corresponds_extend(hir, names, small, big, capability, sc);
            }
        },
        TyNode::SomeShape { capability } => {
            if let SurfaceNode::SomeShape { capability: sc } = n {
                lemma_corresponds_extend(hir, names, small, big, capability, sc);
            }
        },
        TyNode::Record { fields } => {
            if let SurfaceNode::Record { fields: sf } = n {
                assert forall|k: int| 0 <= k < fields.len() implies sf[k].0 == symbol_text(names, (#[trigger] fields[k]).name)
                    && corresponds(hir, names, big, fields[k].ty, sf[k].1) by {
                    lemma_corresponds_extend(hir, names, small, big, fields[k].ty, sf[k].1);
                }
            }
        },
        _ => {},
    }
}

proof fn lemma_cache_ok_extend(hir: Seq<TyNode>, names: Seq<Seq<char>>, st: LowerState, nodes: Seq<SurfaceNode>)
    requires
        store_wf(hir),
        cache_ok(hir, names, st),
        nodes_prefix(st.nodes, nodes),
    ensures
        cache_ok(hir, names, LowerState { cache: st.cache, nodes }),
{
    assert forall|h: int| 0 <= h < st.cache.len() && #[trigger] st.cache[h] is Some implies corresponds(
        hir,
        names,
        nodes,
        TyId(h as u32),
        st.cache[h]->0,
    ) by {
        lemma_corresponds_extend(hir, names, st.nodes, nodes, TyId(h as u32), st.cache[h]->0);
    }
}

proof fn lemma_nodes_prefix_trans(a: Seq<SurfaceNode>, b: Seq<SurfaceNode>, c: Seq<SurfaceNode>)
    requires
        nodes_prefix(a, b),
        nodes_prefix(b, c),
    ensures
        nodes_prefix(a, c),
{
    assert forall|i: int| 0 <= i < a.len() implies #[trigger] c[i] == a[i] by {
        assert(c[i] == b[i]);
    }
}

/// Writing a type keeps the cache's length and only adds to the table.
pub proof fn lemma_lower_grows(hir: Seq<TyNode>, names: Seq<Seq<char>>, st: LowerState, id: TyId)
    requires
        store_wf(hir),
        id.0 < hir.len(),
        st.cache.len() == hir.len(),
    ensures
        lower_spec(hir, names, st, id).1.cache.len() == st.cache.len(),
        nodes_prefix(st.nodes, lower_spec(hir, names, st, id).1.nodes),
    decreases id.0, 2nat,
{
    if st.cache[id.0 as int] is None {
        lemma_lower_node_grows(hir, names, st, id);
        let st1 = lower_node_spec(hir, names, st, id).1;
        let node = lower_node_spec(hir, names, st, id).0;
        assert(nodes_prefix(st1.nodes, st1.nodes.push(node)));
        lemma_nodes_prefix_trans(st.nodes, st1.nodes, st1.nodes.push(node));
    }
}

proof fn lemma_lower_node_grows(hir: Seq<TyNode>, names: Seq<Seq<char>>, st: LowerState, id: TyId)
    requires
        store_wf(hir),
        id.0 < hir.len(),
        st.cache.len() == hir.len(),
    ensures
        lower_node_spec(hir, names, st, id).1.cache.len() == st.cache.len(),
        nodes_prefix(st.nodes, lower_node_spec(hir, names, st, id).1.nodes),
    decreases id.0, 1nat,
{
    assert(children_below(hir[id.0 as int], id.0 as int));
    match hir[id.0 as int] {
        TyNode::Named { args, .. } => {
            lemma_lower_list_grows(hir, names, st, id, args, 0);
        },
        TyNode::Pi { binder_ty, body, .. } => {
            lemma_lower_grows(hir, names, st, binder_ty);
            let st1 = lower_spec(hir, names, st, binder_ty).1;
            lemma_lower_grows(hir, names, st1, body);
            lemma_nodes_prefix_trans(st.nodes, st1.nodes, lower_spec(hir, names, st1, body).1.nodes);
        },
        TyNode::Arrow { params, ret, .. } => {
            lemma_lower_list_grows(hir, names, st, id, params, 0);
            let st1 = lower_list_spec(hir, names, st, id, params, 0).1;
            lemma_lower_grows(hir, names, st1, ret);
            lemma_nodes_prefix_trans(st.nodes, st1.nodes, lower_spec(hir, names, st1, ret).1.nodes);
        },
        TyNode::Sum { left, right } => {
            lemma_lower_grows(hir, names, st, left);
            let st1 = lower_spec(hir, names, st, left).1;
            lemma_lower_grows(hir, names, st1, right);
            lemma_nodes_prefix_trans(st.nodes, st1.nodes, lower_spec(hir, names, st1, right).1.nodes);
        },
        TyNode::Tuple { items } => {
            lemma_lower_list_grows(hir, names, st, id, items, 0);
        },
        TyNode::Sequence { item } => {
            lemma_lower_grows(hir, names, st, item);
        },
        TyNode::Array { item, .. } => {
            lemma_lower_grows(hir, names, st, item);
        },
        TyNode::Range { bound } => {
            lemma_lower_grows(hir, names, st, bound);
        },
        TyNode::Mut { inner } => {
            lemma_lower_grows(hir, names, st, inner);
        },
        TyNode::AnyShape { capability } => {
            lemma_lower_grows(hir, names, st, capability);
        },
        TyNode::SomeShape { capability } => {
            lemma_lower_grows(hir, names, st, capability);
        },
        TyNode::Record { fields } => {
            lemma_lower_fields_grows(hir, names, st, id, fields, 0);
        },
        _ => {},
    }
}

proof fn lemma_lower_list_grows(
    hir: Seq<TyNode>,
    names: Seq<Seq<char>>,
    st: LowerState,
    parent: TyId,
    ids: Seq<TyId>,
    k: int,
)
    requires
        store_wf(hir),
        parent.0 < hir.len(),
        ids_below(ids, parent.0 as int),
        0 <= k,
        st.cache.len() == hir.len(),
    ensures
        lower_list_spec(hir, names, st, parent, ids, k).1.cache.len() == st.cache.len(),
        nodes_prefix(st.nodes, lower_list_spec(hir, names, st, parent, ids, k).1.nodes),
        lower_list_spec(hir, names, st, parent, ids, k).0.len() == if k < ids.len() { ids.len() - k } else { 0 },
    decreases parent.0, 0nat, ids.len() - k,
{
    if k < ids.len() {
        lemma_lower_grows(hir, names, st, ids[k]);
        let st1 = lower_spec(hir, names, st, ids[k]).1;
        lemma_lower_list_grows(hir, names, st1, parent, ids, k + 1);
        lemma_nodes_prefix_trans(st.nodes, st1.nodes, lower_list_spec(hir, names, st1, parent, ids, k + 1).1.nodes);
    }
}

proof fn lemma_lower_fields_grows(
    hir: Seq<TyNode>,
    names: Seq<Seq<char>>,
    st: LowerState,
    parent: TyId,
    fields: Seq<TyField>,
    k: int,
)
    requires
        store_wf(hir),
        parent.0 < hir.len(),
        fields_below(fields, parent.0 as int),
        0 <= k,
        st.cache.len() == hir.len(),
    ensures
        lower_fields_spec(hir, names, st, parent, fields, k).1.cache.len() == st.cache.len(),
        nodes_prefix(st.nodes, lower_fields_spec(hir, names, st, parent, fields, k).1.nodes),
        lower_fields_spec(hir, names, st, parent, fields, k).0.len() == if k < fields.len() { fields.len() - k } else { 0 },
    decreases parent.0, 0nat, fields.len() - k,
{
    if k < fields.len() {
        lemma_lower_grows(hir, names, st, fields[k].ty);
        let st1 = lower_spec(hir, names, st, fields[k].ty).1;
        lemma_lower_fields_grows(hir, names, st1, parent, fields, k + 1);
        lemma_nodes_prefix_trans(st.nodes, st1.nodes, lower_fields_spec(hir, names, st1, parent, fields, k + 1).1.nodes);
    }
}

/// Writing a type into the surface gives a surface type that says what the
/// store type says, and keeps every cached surface type saying what its store
/// type says, as long as the table's ids have not run out.
pub proof fn lemma_lower_corresponds(hir: Seq<TyNode>, names: Seq<Seq<char>>, st: LowerState, id: TyId)
    requires
        store_wf(hir),
        id.0 < hir.len(),
        cache_ok(hir, names, st),
        lower_spec(hir, names, st, id).1.nodes.len() <= u32::MAX + 1,
    ensures
        cache_ok(hir, names, lower_spec(hir, names, st, id).1),
        corresponds(hir, names, lower_spec(hir, names, st, id).1.nodes, id, lower_spec(hir, names, st, id).0),
    decreases id.0, 2nat,
{
    if st.cache[id.0 as int] is Some {
        assert(TyId(id.0 as u32) == id);
    } else {
        let (node, st1) = lower_node_spec(hir, names, st, id);
        lemma_lower_node_corresponds(hir, names, st, id);
        let sid = next_surface_id(st1.nodes.len());
        lemma_surface_id_index(sid, st1.nodes.len() as u32);
        let nodes2 = st1.nodes.push(node);
        assert(nodes_prefix(st1.nodes, nodes2));
        lemma_node_corresponds_extend(hir, names, st1.nodes, nodes2, id, node);
        assert(nodes2[sid.index() as int] == node);
        lemma_cache_ok_extend(hir, names, st1, nodes2);
        let res = LowerState { cache: st1.cache.update(id.0 as int, Some(sid)), nodes: nodes2 };
        assert forall|h: int| 0 <= h < res.cache.len() && #[trigger] res.cache[h] is Some implies corresponds(
            hir,
            names,
            res.nodes,
            TyId(h as u32),
            res.cache[h]->0,
        ) by {
            if h == id.0 {
                assert(TyId(h as u32) == id);
            } else {
                assert(res.cache[h] == st1.cache[h]);
            }
        }
    }
}

proof fn lemma_lower_child(hir: Seq<TyNode>, names: Seq<Seq<char>>, st: LowerState, child: TyId)
    requires
        store_wf(hir),
        child.0 < hir.len(),
        cache_ok(hir, names, st),
        lower_spec(hir, names, st, child).1.nodes.len() <= u32::MAX + 1,
    ensures
        cache_ok(hir, names, lower_spec(hir, names, st, child).1),
        corresponds(hir, names, lower_spec(hir, names, st, child).1.nodes, child, lower_spec(hir, names, st, child).0),
        nodes_prefix(st.nodes, lower_spec(hir, names, st, child).1.nodes),
    decreases child.0, 3nat,
{
    lemma_lower_grows(hir, names, st, child);
    lemma_lower_corresponds(hir, names, st, child);
}

/// Two children written one after the other: both say what their store
/// types say in the final table.
proof fn lemma_lower_two(hir: Seq<TyNode>, names: Seq<Seq<char>>, st: LowerState, a: TyId, b: TyId, bound: TyId)
    requires
        store_wf(hir),
        a.0 < bound.0,
        b.0 < bound.0,
        bound.0 < hir.len(),
        cache_ok(hir, names, st),
        lower_spec(hir, names, lower_spec(hir, names, st, a).1, b).1.nodes.len() <= u32::MAX + 1,
    ensures
        cache_ok(hir, names, lower_spec(hir, names, lower_spec(hir, names, st, a).1, b).1),
        corresponds(
            hir,
            names,
            lower_spec(hir, names, lower_spec(hir, names, st, a).1, b).1.nodes,
            a,
            lower_spec(hir, names, st, a).0,
        ),
        corresponds(
            hir,
            names,
            lower_spec(hir, names, lower_spec(hir, names, st, a).1, b).1.nodes,
            b,
            lower_spec(hir, names, lower_spec(hir, names, st, a).1, b).0,
        ),
    decreases bound.0, 0nat,
{
    let (sa, st1) = lower_spec(hir, names, st, a);
    lemma_lower_grows(hir, names, st, a);
    lemma_lower_grows(hir, names, st1, b);
    lemma_lower_child(hir, names, st, a);
    lemma_lower_child(hir, names, st1, b);
    lemma_corresponds_extend(hir, names, st1.nodes, lower_spec(hir, names, st1, b).1.nodes, a, sa);
}

proof fn lemma_lower_node_corresponds(hir: Seq<TyNode>, names: Seq<Seq<char>>, st: LowerState, id: TyId)
    requires
        store_wf(hir),
        id.0 < hir.len(),
        cache_ok(hir, names, st),
        lower_node_spec(hir, names, st, id).1.nodes.len() <= u32::MAX + 1,
    ensures
        cache_ok(hir, names, lower_node_spec(hir, names, st, id).1),
        node_corresponds(hir, names, lower_node_spec(hir, names, st, id).1.nodes, id, lower_node_spec(hir, names, st, id).0),
    decreases id.0, 1nat,
{
    assert(children_below(hir[id.0 as int], id.0 as int));
    match hir[id.0 as int] {
        TyNode::Named { args, .. } => {
            lemma_lower_list_corresponds(hir, names, st, id, args, 0);
        },
        TyNode::Pi { binder_ty, body, .. } => {
            lemma_lower_grows(hir, names, st, binder_ty);
            lemma_lower_two(hir, names, st, binder_ty, body, id);
        },
        TyNode::Arrow { params, ret, .. } => {
            let (p, st1) = lower_list_spec(hir, names, st, id, params, 0);
            let fin = lower_spec(hir, names, st1, ret).1;
            lemma_lower_list_grows(hir, names, st, id, params, 0);
            lemma_lower_grows(hir, names, st1, ret);
            lemma_lower_list_corresponds(hir, names, st, id, params, 0);
            lemma_lower_child(hir, names, st1, ret);
            assert forall|k: int| 0 <= k < params.len() implies corresponds(hir, names, fin.nodes, #[trigger] params[k], p[k]) by {
                lemma_corresponds_extend(hir, names, st1.nodes, fin.nodes, params[k], p[k]);
            }
        },
        TyNode::Sum { left, right } => {
            lemma_lower_grows(hir, names, st, left);
            lemma_lower_two(hir, names, st, left, right, id);
        },
        TyNode::Tuple { items } => {
            lemma_lower_list_corresponds(hir, names, st, id, items, 0);
        },
        TyNode::Sequence { item } => {
            lemma_lower_child(hir, names, st, item);
        },
        TyNode::Array { item, .. } => {
            lemma_lower_child(hir, names, st, item);
        },
        TyNode::Range { bound } => {
            lemma_lower_child(hir, names, st, bound);
        },
        TyNode::Mut { inner } => {
            lemma_lower_child(hir, names, st, inner);
        },
        TyNode::AnyShape { capability } => {
            lemma_lower_child(hir, names, st, capability);
        },
        TyNode::SomeShape { capability } => {
            lemma_lower_child(hir, names, st, capability);
        },
        TyNode::Record { fields } => {
            lemma_lower_fields_corresponds(hir, names, st, id, fields, 0);
        },
        _ => {},
    }
}

proof fn lemma_lower_list_corresponds(
    hir: Seq<TyNode>,
    names: Seq<Seq<char>>,
    st: LowerState,
    parent: TyId,
    ids: Seq<TyId>,
    k: int,
)
    requires
        store_wf(hir),
        parent.0 < hir.len(),
        ids_below(ids, parent.0 as int),
        0 <= k <= ids.len(),
        cache_ok(hir, names, st),
        lower_list_spec(hir, names, st, parent, ids, k).1.nodes.len() <= u32::MAX + 1,
    ensures
        cache_ok(hir, names, lower_list_spec(hir, names, st, parent, ids, k).1),
        lower_list_spec(hir, names, st, parent, ids, k).0.len() == ids.len() - k,
        forall|j: int|
            k <= j < ids.len() ==> corresponds(
                hir,
                names,
                lower_list_spec(hir, names, st, parent, ids, k).1.nodes,
                #[trigger] ids[j],
                lower_list_spec(hir, names, st, parent, ids, k).0[j - k],
            ),
    decreases parent.0, 0nat, ids.len() - k,
{
    lemma_lower_list_grows(hir, names, st, parent, ids, k);
    if k < ids.len() {
        let (s, st1) = lower_spec(hir, names, st, ids[k]);
        let (rest, st2) = lower_list_spec(hir, names, st1, parent, ids, k + 1);
        lemma_lower_grows(hir, names, st, ids[k]);
        lemma_lower_list_grows(hir, names, st1, parent, ids, k + 1);
        lemma_lower_child(hir, names, st, ids[k]);
        lemma_lower_list_corresponds(hir, names, st1, parent, ids, k + 1);
        lemma_corresponds_extend(hir, names, st1.nodes, st2.nodes, ids[k], s);
        let all = seq![s] + rest;
        assert forall|j: int| k <= j < ids.len() implies corresponds(hir, names, st2.nodes, #[trigger] ids[j], all[j - k]) by {
            if j > k {
                assert(all[j - k] == rest[j - (k + 1)]);
            }
        }
    }
}

proof fn lemma_lower_fields_corresponds(
    hir: Seq<TyNode>,
    names: Seq<Seq<char>>,
    st: LowerState,
    parent: TyId,
    fields: Seq<TyField>,
    k: int,
)
    requires
        store_wf(hir),
        parent.0 < hir.len(),
        fields_below(fields, parent.0 as int),
        0 <= k <= fields.len(),
        cache_ok(hir, names, st),
        lower_fields_spec(hir, names, st, parent, fields, k).1.nodes.len() <= u32::MAX + 1,
    ensures
        cache_ok(hir, names, lower_fields_spec(hir, names, st, parent, fields, k).1),
        lower_fields_spec(hir, names, st, parent, fields, k).0.len() == fields.len() - k,
        forall|j: int|
            k <= j < fields.len() ==> lower_fields_spec(hir, names, st, parent, fields, k).0[j - k].0
                == symbol_text(names, (#[trigger] fields[j]).name) && corresponds(
                hir,
                names,
                lower_fields_spec(hir, names, st, parent, fields, k).1.nodes,
                fields[j].ty,
                lower_fields_spec(hir, names, st, parent, fields, k).0[j - k].1,
            ),
    decreases parent.0, 0nat, fields.len() - k,
{
    lemma_lower_fields_grows(hir, names, st, parent, fields, k);
    if k < fields.len() {
        let (s, st1) = lower_spec(hir, names, st, fields[k].ty);
        let (rest, st2) = lower_fields_spec(hir, names, st1, parent, fields, k + 1);
        lemma_lower_grows(hir, names, st, fields[k].ty);
        lemma_lower_fields_grows(hir, names, st1, parent, fields, k + 1);
        lemma_lower_child(hir, names, st, fields[k].ty);
        lemma_lower_fields_corresponds(hir, names, st1, parent, fields, k + 1);
        lemma_corresponds_extend(hir, names, st1.nodes, st2.nodes, fields[k].ty, s);
        let all = seq![(symbol_text(names, fields[k].name), s)] + rest;
        assert forall|j: int| k <= j < fields.len() implies all[j - k].0 == symbol_text(names, (#[trigger] fields[j]).name)
            && corresponds(hir, names, st2.nodes, fields[j].ty, all[j - k].1) by {
            if j > k {
                assert(all[j - k] == rest[j - (k + 1)]);
            }
        }
    }
}

/// A surface node that says what a store type says has its children in the
/// table.
pub proof fn lemma_node_corresponds_children(
    hir: Seq<TyNode>,
    names: Seq<Seq<char>>,
    nodes: Seq<SurfaceNode>,
    hid: TyId,
    n: SurfaceNode,
)
    requires
        store_wf(hir),
        hid.0 < hir.len(),
        node_corresponds(hir, names, nodes, hid, n),
    ensures
        surface_children_below(n, nodes.len() as int),
{
    assert(children_below(hir[hid.0 as int], hid.0 as int));
    match hir[hid.0 as int] {
        TyNode::Named { args, .. } => {
            if let SurfaceNode::Named { args: sa, .. } = n {
                assert forall|k: int| 0 <= k < sa.len() implies (#[trigger] sa[k]).index() < nodes.len() by {
                    assert(corresponds(hir, names, nodes, args[k], sa[k]));
                }
            }
        },
        TyNode::Arrow { params, .. } => {
            if let SurfaceNode::Arrow { params: sp, .. } = n {
                assert forall|k: int| 0 <= k < sp.len() implies (#[trigger] sp[k]).index() < nodes.len() by {
                    assert(corresponds(hir, names, nodes, params[k], sp[k]));
                }
            }
        },
        TyNode::Tuple { items } => {
            if let SurfaceNode::Tuple { items: si } = n {
                assert forall|k: int| 0 <= k < si.len() implies (#[trigger] si[k]).index() < nodes.len() by {
                    assert(corresponds(hir, names, nodes, items[k], si[k]));
                }
            }
        },
        TyNode::Record { fields } => {
            if let SurfaceNode::Record { fields: sf } = n {
                assert forall|k: int| 0 <= k < sf.len() implies (#[trigger] sf[k]).1.index() < nodes.len() by {
                    assert(corresponds(hir, names, nodes, fields[k].ty, sf[k].1));
                }
            }
        },
        _ => {},
    }
}

/// Writing a type keeps every surface type's children before it in the
/// table, as long as the table's ids have not run out.
pub proof fn lemma_lower_wf(hir: Seq<TyNode>, names: Seq<Seq<char>>, st: LowerState, id: TyId)
    requires
        store_wf(hir),
        id.0 < hir.len(),
        cache_ok(hir, names, st),
        surface_wf(st.nodes),
        lower_spec(hir, names, st, id).1.nodes.len() <= u32::MAX + 1,
    ensures
        surface_wf(lower_spec(hir, names, st, id).1.nodes),
    decreases id.0, 2nat,
{
    if st.cache[id.0 as int] is None {
        let (node, st1) = lower_node_spec(hir, names, st, id);
        lemma_lower_node_wf(hir, names, st, id);
        lemma_lower_node_corresponds(hir, names, st, id);
        lemma_node_corresponds_children(hir, names, st1.nodes, id, node);
        let nodes2 = st1.nodes.push(node);
        assert forall|i: int| 0 <= i < nodes2.len() implies surface_children_below(#[trigger] nodes2[i], i) by {
            if i < st1.nodes.len() {
                assert(nodes2[i] == st1.nodes[i]);
            }
        }
    }
}

proof fn lemma_lower_node_wf(hir: Seq<TyNode>, names: Seq<Seq<char>>, st: LowerState, id: TyId)
    requires
        store_wf(hir),
        id.0 < hir.len(),
        cache_ok(hir, names, st),
        surface_wf(st.nodes),
        lower_node_spec(hir, names, st, id).1.nodes.len() <= u32::MAX + 1,
    ensures
        surface_wf(lower_node_spec(hir, names, st, id).1.nodes),
    decreases id.0, 1nat,
{
    assert(children_below(hir[id.0 as int], id.0 as int));
    match hir[id.0 as int] {
        TyNode::Named { args, .. } => {
            lemma_lower_list_wf(hir, names, st, id, args, 0);
        },
        TyNode::Pi { binder_ty, body, .. } => {
            let st1 = lower_spec(hir, names, st, binder_ty).1;
            lemma_lower_grows(hir, names, st, binder_ty);
            lemma_lower_grows(hir, names, st1, body);
            lemma_lower_child(hir, names, st, binder_ty);
            lemma_lower_wf(hir, names, st, binder_ty);
            lemma_lower_wf(hir, names, st1, body);
        },
        TyNode::Arrow { params, ret, .. } => {
            let st1 = lower_list_spec(hir, names, st, id, params, 0).1;
            lemma_lower_list_grows(hir, names, st, id, params, 0);
            lemma_lower_grows(hir, names, st1, ret);
            lemma_lower_list_corresponds(hir, names, st, id, params, 0);
            lemma_lower_list_wf(hir, names, st, id, params, 0);
            lemma_lower_wf(hir, names, st1, ret);
        },
        TyNode::Sum { left, right } => {
            let st1 = lower_spec(hir, names, st, left).1;
            lemma_lower_grows(hir, names, st, left);
            lemma_lower_grows(hir, names, st1, right);
            lemma_lower_child(hir, names, st, left);
            lemma_lower_wf(hir, names, st, left);
            lemma_lower_wf(hir, names, st1, right);
        },
        TyNode::Tuple { items } => {
            lemma_lower_list_wf(hir, names, st, id, items, 0);
        },
        TyNode::Sequence { item } => {
            lemma_lower_wf(hir, names, st, item);
        },
        TyNode::Array { item, .. } => {
            lemma_lower_wf(hir, names, st, item);
        },
        TyNode::Range { bound } => {
            lemma_lower_wf(hir, names, st, bound);
        },
        TyNode::Mut { inner } => {
            lemma_lower_wf(hir, names, st, inner);
        },
        TyNode::AnyShape { capability } => {
            lemma_lower_wf(hir, names, st, capability);
        },
        TyNode::SomeShape { capability } => {
            lemma_lower_wf(hir, names, st, capability);
        },
        TyNode::Record { fields } => {
            lemma_lower_fields_wf(hir, names, st, id, fields, 0);
        },
        _ => {},
    }
}

proof fn lemma_lower_list_wf(
    hir: Seq<TyNode>,
    names: Seq<Seq<char>>,
    st: LowerState,
    parent: TyId,
    ids: Seq<TyId>,
    k: int,
)
    requires
        store_wf(hir),
        parent.0 < hir.len(),
        ids_below(ids, parent.0 as int),
        0 <= k <= ids.len(),
        cache_ok(hir, names, st),
        surface_wf(st.nodes),
        lower_list_spec(hir, names, st, parent, ids, k).1.nodes.len() <= u32::MAX + 1,
    ensures
        surface_wf(lower_list_spec(hir, names, st, parent, ids, k).1.nodes),
    decreases parent.0, 0nat, ids.len() - k,
{
    if k < ids.len() {
        let st1 = lower_spec(hir, names, st, ids[k]).1;
        lemma_lower_grows(hir, names, st, ids[k]);
        lemma_lower_list_grows(hir, names, st1, parent, ids, k + 1);
        lemma_lower_child(hir, names, st, ids[k]);
        lemma_lower_wf(hir, names, st, ids[k]);
        lemma_lower_list_wf(hir, names, st1, parent, ids, k + 1);
    }
}

proof fn lemma_lower_fields_wf(
    hir: Seq<TyNode>,
    names: Seq<Seq<char>>,
    st: LowerState,
    parent: TyId,
    fields: Seq<TyField>,
    k: int,
)
    requires
        store_wf(hir),
        parent.0 < hir.len(),
        fields_below(fields, parent.0 as int),
        0 <= k <= fields.len(),
        cache_ok(hir, names, st),
        surface_wf(st.nodes),
        lower_fields_spec(hir, names, st, parent, fields, k).1.nodes.len() <= u32::MAX + 1,
    ensures
        surface_wf(lower_fields_spec(hir, names, st, parent, fields, k).1.nodes),
    decreases parent.0, 0nat, fields.len() - k,
{
    if k < fields.len() {
        let st1 = lower_spec(hir, names, st, fields[k].ty).1;
        lemma_lower_grows(hir, names, st, fields[k].ty);
        lemma_lower_fields_grows(hir, names, st1, parent, fields, k + 1);
        lemma_lower_child(hir, names, st, fields[k].ty);
        lemma_lower_wf(hir, names, st, fields[k].ty);
        lemma_lower_fields_wf(hir, names, st1, parent, fields, k + 1);
    }
}

} // verus!
