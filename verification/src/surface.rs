//! Exported (surface) types: the type language a module's export surface is
//! written in, independent of any one module's type store.
use vstd::prelude::*;

verus! {

/// The index of a type in a surface type table.
#[derive(Debug, Clone, Copy, PartialEq, Eq, Hash)]
pub struct SurfaceTyId(u32);

impl SurfaceTyId {
    /// The id with index `raw`.
    pub fn new(raw: u32) -> (id: Self)
        ensures
            id.index() == raw,
            id == surface_id(raw),
    {
        SurfaceTyId(raw)
    }

    /// The index of this id.
    pub closed spec fn index(self) -> u32 {
        self.0
    }

    /// The index of this id.
    pub fn raw(self) -> (raw: u32)
        ensures
            raw == self.index(),
    {
        self.0
    }
}

/// The id with index `raw`.
pub closed spec fn surface_id(raw: u32) -> SurfaceTyId {
    SurfaceTyId(raw)
}

/// An id is the id of its index, and the id of an index has that index.
pub proof fn lemma_surface_id_index(id: SurfaceTyId, raw: u32)
    ensures
        surface_id(id.index()) == id,
        surface_id(raw).index() == raw,
{
}

/// A dimension of an array type in a surface type.
#[derive(Debug, Clone, PartialEq, Eq)]
pub enum SurfaceDim {
    Unknown,
    Name(String),
    Int(u32),
}

/// A named field of a record type in a surface type.
#[derive(Debug, Clone, PartialEq, Eq)]
pub struct SurfaceTyField {
    pub name: String,
    pub ty: SurfaceTyId,
}

impl SurfaceTyField {
    /// The field `name` of type `ty`.
    pub fn new(name: &str, ty: SurfaceTyId) -> (field: Self)
        ensures
            field.name@ == name@,
            field.ty == ty,
    {
        SurfaceTyField { name: name.to_owned(), ty }
    }
}

/// The shape of a surface type; children are ids in the same table.
#[derive(Debug, Clone, PartialEq, Eq)]
pub enum SurfaceTyKind {
    Error,
    Unknown,
    Type,
    Syntax,
    Any,
    Empty,
    Unit,
    Bool,
    Nat,
    Int,
    Int8,
    Int16,
    Int32,
    Int64,
    Nat8,
    Nat16,
    Nat32,
    Nat64,
    Float,
    Float32,
    Float64,
    String,
    Rune,
    CString,
    CPtr,
    Bits { width: u32 },
    NatLit(u64),
    Named { name: String, args: Vec<SurfaceTyId> },
    Pi { binder: String, binder_ty: SurfaceTyId, body: SurfaceTyId, is_effectful: bool },
    Arrow { params: Vec<SurfaceTyId>, ret: SurfaceTyId, is_effectful: bool },
    Sum { left: SurfaceTyId, right: SurfaceTyId },
    Tuple { items: Vec<SurfaceTyId> },
    Sequence { item: SurfaceTyId },
    Array { dims: Vec<SurfaceDim>, item: SurfaceTyId },
    Range { bound: SurfaceTyId },
    Mut { inner: SurfaceTyId },
    AnyShape { capability: SurfaceTyId },
    SomeShape { capability: SurfaceTyId },
    Record { fields: Vec<SurfaceTyField> },
}

/// A surface type.
#[derive(Debug, Clone, PartialEq, Eq)]
pub struct SurfaceTy {
    pub kind: SurfaceTyKind,
}

impl SurfaceTy {
    /// The surface type of shape `kind`.
    pub fn new(kind: SurfaceTyKind) -> (ty: Self)
        ensures
            ty.kind == kind,
    {
        SurfaceTy { kind }
    }
}

/// The bound of a range type, taken apart.
#[derive(Debug, Clone, Copy, PartialEq, Eq)]
pub struct RangeTyForm<Id> {
    pub bound: Id,
}

/// The surface range type over `bound`.
pub fn range_to_surface_kind(bound: SurfaceTyId) -> (kind: SurfaceTyKind)
    ensures
        kind == (SurfaceTyKind::Range { bound }),
{
    SurfaceTyKind::Range { bound }
}

/// The bound of `kind` when it is a range type.
pub fn surface_range_form(kind: &SurfaceTyKind) -> (form: Option<RangeTyForm<SurfaceTyId>>)
    ensures
        match *kind {
            SurfaceTyKind::Range { bound } => form == Some(RangeTyForm { bound }),
            _ => form is None,
        },
{
    if let SurfaceTyKind::Range { bound } = kind {
        return Some(RangeTyForm { bound: *bound });
    }
    None
}

/// A dimension of a surface array type as a value.
pub enum SurfaceDimNode {
    Unknown,
    Name(Seq<char>),
    Int(u32),
}

impl View for SurfaceDim {
    type V = SurfaceDimNode;

    open spec fn view(&self) -> SurfaceDimNode {
        match *self {
            SurfaceDim::Unknown => SurfaceDimNode::Unknown,
            SurfaceDim::Name(n) => SurfaceDimNode::Name(n@),
            SurfaceDim::Int(v) => SurfaceDimNode::Int(v),
        }
    }
}

/// The dimensions as values.
pub open spec fn dim_nodes(dims: Seq<SurfaceDim>) -> Seq<SurfaceDimNode> {
    dims.map_values(|d: SurfaceDim| d@)
}

/// The fields as values: name and type.
pub open spec fn field_nodes(fields: Seq<SurfaceTyField>) -> Seq<(Seq<char>, SurfaceTyId)> {
    fields.map_values(|f: SurfaceTyField| (f.name@, f.ty))
}

/// The shape of a surface type as a mathematical value: a `SurfaceTyKind`
/// with its texts and lists as sequences.
pub enum SurfaceNode {
    Error,
    Unknown,
    Type,
    Syntax,
    Any,
    Empty,
    Unit,
    Bool,
    Nat,
    Int,
    Int8,
    Int16,
    Int32,
    Int64,
    Nat8,
    Nat16,
    Nat32,
    Nat64,
    Float,
    Float32,
    Float64,
    String,
    Rune,
    CString,
    CPtr,
    Bits { width: u32 },
    NatLit(u64),
    Named { name: Seq<char>, args: Seq<SurfaceTyId> },
    Pi { binder: Seq<char>, binder_ty: SurfaceTyId, body: SurfaceTyId, is_effectful: bool },
    Arrow { params: Seq<SurfaceTyId>, ret: SurfaceTyId, is_effectful: bool },
    Sum { left: SurfaceTyId, right: SurfaceTyId },
    Tuple { items: Seq<SurfaceTyId> },
    Sequence { item: SurfaceTyId },
    Array { dims: Seq<SurfaceDimNode>, item: SurfaceTyId },
    Range { bound: SurfaceTyId },
    Mut { inner: SurfaceTyId },
    AnyShape { capability: SurfaceTyId },
    SomeShape { capability: SurfaceTyId },
    Record { fields: Seq<(Seq<char>, SurfaceTyId)> },
}

impl View for SurfaceTyKind {
    type V = SurfaceNode;

    open spec fn view(&self) -> SurfaceNode {
        match *self {
            SurfaceTyKind::Error => SurfaceNode::Error,
            SurfaceTyKind::Unknown => SurfaceNode::Unknown,
            SurfaceTyKind::Type => SurfaceNode::Type,
            SurfaceTyKind::Syntax => SurfaceNode::Syntax,
            SurfaceTyKind::Any => SurfaceNode::Any,
            SurfaceTyKind::Empty => SurfaceNode::Empty,
            SurfaceTyKind::Unit => SurfaceNode::Unit,
            SurfaceTyKind::Bool => SurfaceNode::Bool,
            SurfaceTyKind::Nat => SurfaceNode::Nat,
            SurfaceTyKind::Int => SurfaceNode::Int,
            SurfaceTyKind::Int8 => SurfaceNode::Int8,
            SurfaceTyKind::Int16 => SurfaceNode::Int16,
            SurfaceTyKind::Int32 => SurfaceNode::Int32,
            SurfaceTyKind::Int64 => SurfaceNode::Int64,
            SurfaceTyKind::Nat8 => SurfaceNode::Nat8,
            SurfaceTyKind::Nat16 => SurfaceNode::Nat16,
            SurfaceTyKind::Nat32 => SurfaceNode::Nat32,
            SurfaceTyKind::Nat64 => SurfaceNode::Nat64,
            SurfaceTyKind::Float => SurfaceNode::Float,
            SurfaceTyKind::Float32 => SurfaceNode::Float32,
            SurfaceTyKind::Float64 => SurfaceNode::Float64,
            SurfaceTyKind::String => SurfaceNode::String,
            SurfaceTyKind::Rune => SurfaceNode::Rune,
            SurfaceTyKind::CString => SurfaceNode::CString,
            SurfaceTyKind::CPtr => SurfaceNode::CPtr,
            SurfaceTyKind::Bits { width } => SurfaceNode::Bits { width },
            SurfaceTyKind::NatLit(v) => SurfaceNode::NatLit(v),
            SurfaceTyKind::Named { name, args } => SurfaceNode::Named { name: name@, args: args@ },
            SurfaceTyKind::Pi { binder, binder_ty, body, is_effectful } => SurfaceNode::Pi {
                binder: binder@,
                binder_ty,
                body,
                is_effectful,
            },
            SurfaceTyKind::Arrow { params, ret, is_effectful } => SurfaceNode::Arrow {
                params: params@,
                ret,
                is_effectful,
            },
            SurfaceTyKind::Sum { left, right } => SurfaceNode::Sum { left, right },
            SurfaceTyKind::Tuple { items } => SurfaceNode::Tuple { items: items@ },
            SurfaceTyKind::Sequence { item } => SurfaceNode::Sequence { item },
            SurfaceTyKind::Array { dims, item } => SurfaceNode::Array { dims: dim_nodes(dims@), item },
            SurfaceTyKind::Range { bound } => SurfaceNode::Range { bound },
            SurfaceTyKind::Mut { inner } => SurfaceNode::Mut { inner },
            SurfaceTyKind::AnyShape { capability } => SurfaceNode::AnyShape { capability },
            SurfaceTyKind::SomeShape { capability } => SurfaceNode::SomeShape { capability },
            SurfaceTyKind::Record { fields } => SurfaceNode::Record { fields: field_nodes(fields@) },
        }
    }
}


/// The surface types of a table as values.
pub open spec fn table_nodes(table: Seq<SurfaceTy>) -> Seq<SurfaceNode> {
    table.map_values(|t: SurfaceTy| t.kind@)
}

/// Every child of the surface node `n` has an index below `bound`.
pub open spec fn surface_children_below(n: SurfaceNode, bound: int) -> bool {
    match n {
        SurfaceNode::Named { args, .. } => forall|k: int| 0 <= k < args.len() ==> (#[trigger] args[k]).index() < bound,
        SurfaceNode::Pi { binder_ty, body, .. } => binder_ty.index() < bound && body.index() < bound,
        SurfaceNode::Arrow { params, ret, .. } => (forall|k: int|
            0 <= k < params.len() ==> (#[trigger] params[k]).index() < bound) && ret.index() < bound,
        SurfaceNode::Sum { left, right } => left.index() < bound && right.index() < bound,
        SurfaceNode::Tuple { items } => forall|k: int| 0 <= k < items.len() ==> (#[trigger] items[k]).index() < bound,
        SurfaceNode::Sequence { item } => item.index() < bound,
        SurfaceNode::Array { item, .. } => item.index() < bound,
        SurfaceNode::Range { bound: b } => b.index() < bound,
        SurfaceNode::Mut { inner } => inner.index() < bound,
        SurfaceNode::AnyShape { capability } => capability.index() < bound,
        SurfaceNode::SomeShape { capability } => capability.index() < bound,
        SurfaceNode::Record { fields } => forall|k: int| 0 <= k < fields.len() ==> (#[trigger] fields[k]).1.index() < bound,
        _ => true,
    }
}

/// Every surface type's children come before it in the table, as writing
/// a store's types puts them.
pub open spec fn surface_wf(nodes: Seq<SurfaceNode>) -> bool {
    forall|i: int| 0 <= i < nodes.len() ==> surface_children_below(#[trigger] nodes[i], i)
}

} // verus!
