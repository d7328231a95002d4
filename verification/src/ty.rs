//! The checker's type store: types are nodes in an arena, each naming its
//! children by id, and every child is allocated before its parent.
use vstd::prelude::*;

verus! {

/// An interned name.
#[derive(Debug, Clone, Copy, PartialEq, Eq, Hash, Structural)]
pub struct Symbol(pub u32);

/// The id of a type in a `TyStore`.
#[derive(Debug, Clone, Copy, PartialEq, Eq, Hash, Structural)]
pub struct TyId(pub u32);

/// A dimension of an array type.
#[derive(Debug, Clone, Copy, PartialEq, Eq, Structural)]
pub enum Dim {
    Unknown,
    Name(Symbol),
    Int(u32),
}

/// A named field of a record type.
#[derive(Debug, Clone, Copy, PartialEq, Eq, Structural)]
pub struct TyField {
    pub name: Symbol,
    pub ty: TyId,
}

/// The shape of a type; children are ids in the same store.
#[derive(Debug, Clone, PartialEq, Eq)]
pub enum TyKind {
    Error,
    Unknown,
    Type,
    Syntax,
    Any,
    Empty,
    Unit,
    Bool,
    Nat,
    Int,
    Int8,
    Int16,
    Int32,
    Int64,
    Nat8,
    Nat16,
    Nat32,
    Nat64,
    Float,
    Float32,
    Float64,
    String,
    Rune,
    CString,
    CPtr,
    Bits { width: u32 },
    NatLit(u64),
    Named { name: Symbol, args: Vec<TyId> },
    Pi { binder: Symbol, binder_ty: TyId, body: TyId, is_effectful: bool },
    Arrow { params: Vec<TyId>, ret: TyId, is_effectful: bool },
    Sum { left: TyId, right: TyId },
    Tuple { items: Vec<TyId> },
    Sequence { item: TyId },
    Array { dims: Vec<Dim>, item: TyId },
    Range { bound: TyId },
    Mut { inner: TyId },
    AnyShape { capability: TyId },
    SomeShape { capability: TyId },
    Record { fields: Vec<TyField> },
}

/// The shape of a type as a mathematical value: a `TyKind` with its lists
/// as sequences.
pub enum TyNode {
    Error,
    Unknown,
    Type,
    Syntax,
    Any,
    Empty,
    Unit,
    Bool,
    Nat,
    Int,
    Int8,
    Int16,
    Int32,
    Int64,
    Nat8,
    Nat16,
    Nat32,
    Nat64,
    Float,
    Float32,
    Float64,
    String,
    Rune,
    CString,
    CPtr,
    Bits { width: u32 },
    NatLit(u64),
    Named { name: Symbol, args: Seq<TyId> },
    Pi { binder: Symbol, binder_ty: TyId, body: TyId, is_effectful: bool },
    Arrow { params: Seq<TyId>, ret: TyId, is_effectful: bool },
    Sum { left: TyId, right: TyId },
    Tuple { items: Seq<TyId> },
    Sequence { item: TyId },
    Array { dims: Seq<Dim>, item: TyId },
    Range { bound: TyId },
    Mut { inner: TyId },
    AnyShape { capability: TyId },
    SomeShape { capability: TyId },
    Record { fields: Seq<TyField> },
}

impl View for TyKind {
    type V = TyNode;

    open spec fn view(&self) -> TyNode {
        match *self {
            TyKind::Error => TyNode::Error,
            TyKind::Unknown => TyNode::Unknown,
            TyKind::Type => TyNode::Type,
            TyKind::Syntax => TyNode::Syntax,
            TyKind::Any => TyNode::Any,
            TyKind::Empty => TyNode::Empty,
            TyKind::Unit => TyNode::Unit,
            TyKind::Bool => TyNode::Bool,
            TyKind::Nat => TyNode::Nat,
            TyKind::Int => TyNode::Int,
            TyKind::Int8 => TyNode::Int8,
            TyKind::Int16 => TyNode::Int16,
            TyKind::Int32 => TyNode::Int32,
            TyKind::Int64 => TyNode::Int64,
            TyKind::Nat8 => TyNode::Nat8,
            TyKind::Nat16 => TyNode::Nat16,
            TyKind::Nat32 => TyNode::Nat32,
            TyKind::Nat64 => TyNode::Nat64,
            TyKind::Float => TyNode::Float,
            TyKind::Float32 => TyNode::Float32,
            TyKind::Float64 => TyNode::Float64,
            TyKind::String => TyNode::String,
            TyKind::Rune => TyNode::Rune,
            TyKind::CString => TyNode::CString,
            TyKind::CPtr => TyNode::CPtr,
            TyKind::Bits { width } => TyNode::Bits { width },
            TyKind::NatLit(v) => TyNode::NatLit(v),
            TyKind::Named { name, args } => TyNode::Named { name, args: args@ },
            TyKind::Pi { binder, binder_ty, body, is_effectful } => TyNode::Pi { binder, binder_ty, body, is_effectful },
            TyKind::Arrow { params, ret, is_effectful } => TyNode::Arrow { params: params@, ret, is_effectful },
            TyKind::Sum { left, right } => TyNode::Sum { left, right },
            TyKind::Tuple { items } => TyNode::Tuple { items: items@ },
            TyKind::Sequence { item } => TyNode::Sequence { item },
            TyKind::Array { dims, item } => TyNode::Array { dims: dims@, item },
            TyKind::Range { bound } => TyNode::Range { bound },
            TyKind::Mut { inner } => TyNode::Mut { inner },
            TyKind::AnyShape { capability } => TyNode::AnyShape { capability },
            TyKind::SomeShape { capability } => TyNode::SomeShape { capability },
            TyKind::Record { fields } => TyNode::Record { fields: fields@ },
        }
    }
}

/// Every id in `ids` is below `bound`.
pub open spec fn ids_below(ids: Seq<TyId>, bound: int) -> bool {
    forall|k: int| 0 <= k < ids.len() ==> (#[trigger] ids[k]).0 < bound
}

/// Every field type in `fields` is below `bound`.
pub open spec fn fields_below(fields: Seq<TyField>, bound: int) -> bool {
    forall|k: int| 0 <= k < fields.len() ==> (#[trigger] fields[k]).ty.0 < bound
}

/// Every child of `k` has an id below `bound`.
pub open spec fn children_below(k: TyNode, bound: int) -> bool {
    match k {
        TyNode::Named { args, .. } => ids_below(args, bound),
        TyNode::Pi { binder_ty, body, .. } => binder_ty.0 < bound && body.0 < bound,
        TyNode::Arrow { params, ret, .. } => ids_below(params, bound) && ret.0 < bound,
        TyNode::Sum { left, right } => left.0 < bound && right.0 < bound,
        TyNode::Tuple { items } => ids_below(items, bound),
        TyNode::Sequence { item } => item.0 < bound,
        TyNode::Array { item, .. } => item.0 < bound,
        TyNode::Range { bound: b } => b.0 < bound,
        TyNode::Mut { inner } => inner.0 < bound,
        TyNode::AnyShape { capability } => capability.0 < bound,
        TyNode::SomeShape { capability } => capability.0 < bound,
        TyNode::Record { fields } => fields_below(fields, bound),
        _ => true,
    }
}

/// Every type's children come before it in the store.
pub open spec fn store_wf(tys: Seq<TyNode>) -> bool {
    forall|i: int| 0 <= i < tys.len() ==> children_below(#[trigger] tys[i], i)
}

/// `id` names a type of the store.
pub open spec fn valid_id(tys: Seq<TyNode>, id: TyId) -> bool {
    id.0 < tys.len()
}

/// An arena of types. Each type's children are allocated before it, so every
/// walk down a type ends.
pub struct TyStore {
    tys: Vec<TyKind>,
}

impl TyStore {
    /// Every type's children come before it, and ids fit in `u32`.
    #[verifier::type_invariant]
    pub open spec fn wf(self) -> bool {
        &&& store_wf(self.kinds())
        &&& self.kinds().len() <= u32::MAX
    }

    /// The types of the store, by id.
    pub closed spec fn kinds(self) -> Seq<TyNode> {
        self.tys@.map_values(|k: TyKind| k@)
    }

    /// An empty store.
    pub fn new() -> (s: Self)
        ensures
            s.kinds() == Seq::<TyNode>::empty(),
    {
        let s = TyStore { tys: Vec::new() };
        assert(s.kinds() =~= Seq::<TyNode>::empty());
        s
    }

    /// The number of types in the store.
    pub fn len(&self) -> (n: usize)
        ensures
            n == self.kinds().len(),
    {
        self.tys.len()
    }

    /// The shape of type `id`.
    pub fn kind(&self, id: TyId) -> (k: &TyKind)
        requires
            valid_id(self.kinds(), id),
        ensures
            k@ == self.kinds()[id.0 as int],
    {
        &self.tys[id.0 as usize]
    }

    /// Adds a type whose children are already in the store, and returns its id.
    pub fn push_kind(&mut self, kind: TyKind) -> (id: TyId)
        requires
            children_below(kind@, old(self).kinds().len() as int),
            old(self).kinds().len() < u32::MAX,
        ensures
            final(self).kinds() == old(self).kinds().push(kind@),
            id.0 == old(self).kinds().len(),
    {
        proof {
            use_type_invariant(&*self);
        }
        let id = TyId(self.tys.len() as u32);
        let mut tys: Vec<TyKind> = Vec::new();
        std::mem::swap(&mut tys, &mut self.tys);
        let ghost before = tys@;
        tys.push(kind);
        proof {
            let nodes = tys@.map_values(|k: TyKind| k@);
            assert(nodes =~= before.map_values(|k: TyKind| k@).push(kind@));
            assert forall|i: int| 0 <= i < nodes.len() implies children_below(
                #[trigger] nodes[i],
                i,
            ) by {
                if i < nodes.len() - 1 {
                    assert(nodes[i] == old(self).kinds()[i]);
                }
            }
        }
        self.tys = tys;
        id
    }
}

/// A copy of a list of type ids.
pub(crate) fn copy_ids(v: &Vec<TyId>) -> (r: Vec<TyId>)
    ensures
        r@ == v@,
{
    let mut r: Vec<TyId> = Vec::new();
    let mut i: usize = 0;
    while i < v.len()
        invariant
            i <= v.len(),
            r@ == v@.subrange(0, i as int),
        decreases v.len() - i,
    {
        r.push(v[i]);
        i = i + 1;
        assert(r@ =~= v@.subrange(0, i as int));
    }
    assert(r@ =~= v@);
    r
}

/// A copy of a list of array dimensions.
pub(crate) fn copy_dims(v: &Vec<Dim>) -> (r: Vec<Dim>)
    ensures
        r@ == v@,
{
    let mut r: Vec<Dim> = Vec::new();
    let mut i: usize = 0;
    while i < v.len()
        invariant
            i <= v.len(),
            r@ == v@.subrange(0, i as int),
        decreases v.len() - i,
    {
        r.push(v[i]);
        i = i + 1;
        assert(r@ =~= v@.subrange(0, i as int));
    }
    assert(r@ =~= v@);
    r
}

/// A copy of a list of record fields.
pub(crate) fn copy_fields(v: &Vec<TyField>) -> (r: Vec<TyField>)
    ensures
        r@ == v@,
{
    let mut r: Vec<TyField> = Vec::new();
    let mut i: usize = 0;
    while i < v.len()
        invariant
            i <= v.len(),
            r@ == v@.subrange(0, i as int),
        decreases v.len() - i,
    {
        r.push(v[i]);
        i = i + 1;
        assert(r@ =~= v@.subrange(0, i as int));
    }
    assert(r@ =~= v@);
    r
}

/// A copy of a type's shape.
pub(crate) fn copy_kind(k: &TyKind) -> (r: TyKind)
    ensures
        r@ == k@,
{
    match k {
        TyKind::Error => TyKind::Error,
        TyKind::Unknown => TyKind::Unknown,
        TyKind::Type => TyKind::Type,
        TyKind::Syntax => TyKind::Syntax,
        TyKind::Any => TyKind::Any,
        TyKind::Empty => TyKind::Empty,
        TyKind::Unit => TyKind::Unit,
        TyKind::Bool => TyKind::Bool,
        TyKind::Nat => TyKind::Nat,
        TyKind::Int => TyKind::Int,
        TyKind::Int8 => TyKind::Int8,
        TyKind::Int16 => TyKind::Int16,
        TyKind::Int32 => TyKind::Int32,
        TyKind::Int64 => TyKind::Int64,
        TyKind::Nat8 => TyKind::Nat8,
        TyKind::Nat16 => TyKind::Nat16,
        TyKind::Nat32 => TyKind::Nat32,
        TyKind::Nat64 => TyKind::Nat64,
        TyKind::Float => TyKind::Float,
        TyKind::Float32 => TyKind::Float32,
        TyKind::Float64 => TyKind::Float64,
        TyKind::String => TyKind::String,
        TyKind::Rune => TyKind::Rune,
        TyKind::CString => TyKind::CString,
        TyKind::CPtr => TyKind::CPtr,
        TyKind::Bits { width } => TyKind::Bits { width: *width },
        TyKind::NatLit(v) => TyKind::NatLit(*v),
        TyKind::Named { name, args } => TyKind::Named { name: *name, args: copy_ids(args) },
        TyKind::Pi { binder, binder_ty, body, is_effectful } => TyKind::Pi {
            binder: *binder,
            binder_ty: *binder_ty,
            body: *body,
            is_effectful: *is_effectful,
        },
        TyKind::Arrow { params, ret, is_effectful } => TyKind::Arrow {
            params: copy_ids(params),
            ret: *ret,
            is_effectful: *is_effectful,
        },
        TyKind::Sum { left, right } => TyKind::Sum { left: *left, right: *right },
        TyKind::Tuple { items } => TyKind::Tuple { items: copy_ids(items) },
        TyKind::Sequence { item } => TyKind::Sequence { item: *item },
        TyKind::Array { dims, item } => TyKind::Array { dims: copy_dims(dims), item: *item },
        TyKind::Range { bound } => TyKind::Range { bound: *bound },
        TyKind::Mut { inner } => TyKind::Mut { inner: *inner },
        TyKind::AnyShape { capability } => TyKind::AnyShape { capability: *capability },
        TyKind::SomeShape { capability } => TyKind::SomeShape { capability: *capability },
        TyKind::Record { fields } => TyKind::Record { fields: copy_fields(fields) },
    }
}

impl TyStore {
    /// A store with the same types.
    pub fn copy(&self) -> (s: Self)
        ensures
            s.kinds() == self.kinds(),
    {
        proof {
            use_type_invariant(self);
        }
        let mut tys: Vec<TyKind> = Vec::new();
        let mut i: usize = 0;
        while i < self.tys.len()
            invariant
                i <= self.tys.len(),
                tys@.map_values(|k: TyKind| k@) == self.kinds().subrange(0, i as int),
            decreases self.tys.len() - i,
        {
            let ghost before = tys@;
            tys.push(copy_kind(&self.tys[i]));
            proof {
                assert(tys@.map_values(|k: TyKind| k@) =~= before.map_values(|k: TyKind| k@).push(self.kinds()[i as int]));
                assert(self.kinds().subrange(0, i + 1) =~= self.kinds().subrange(0, i as int).push(self.kinds()[i as int]));
            }
            i = i + 1;
        }
        proof {
            assert(self.kinds().subrange(0, i as int) =~= self.kinds());
        }
        TyStore { tys }
    }
}

} // verus!
