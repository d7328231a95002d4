//! What checking records about expressions, constraints, shapes and data
//! definitions.
use vstd::prelude::*;

use crate::text_map::TextMap;
use crate::ty::{Symbol, TyId};

verus! {

/// A definition's identity: the module that declares it and its name.
#[derive(Debug, Clone, PartialEq, Eq, Hash)]
pub struct DefinitionKey {
    pub module: String,
    pub name: String,
}

/// A copy of a definition key.
pub(crate) fn copy_key(k: &DefinitionKey) -> (r: DefinitionKey)
    ensures
        r == *k,
{
    DefinitionKey { module: k.module.clone(), name: k.name.clone() }
}

/// The type checking gives an expression.
#[derive(Debug, Clone, Copy, PartialEq, Eq, Structural)]
pub struct ExprFacts {
    pub ty: TyId,
}

impl ExprFacts {
    /// Facts giving the type `ty`.
    pub fn new(ty: TyId) -> (f: Self)
        ensures
            f.ty == ty,
    {
        ExprFacts { ty }
    }
}

/// Semantic kind for a resolved member access expression.
#[derive(Debug, Clone, Copy, PartialEq, Eq, Structural)]
pub enum ExprMemberKind {
    /// Field provided by a record-like value.
    RecordField,
    /// Value exported by a module.
    ImportRecordExport,
    /// Callable resolved from receiver-first visible binding lookup.
    DotCallable,
    /// Callable declared with receiver-pattern method syntax.
    AttachedMethod,
    /// Attached method reached through receiver type namespace.
    AttachedMethodNamespace,
    /// Member projected from contextual evidence lookup.
    ShapeMember,
    /// Export reached through std FFI pointer namespace support.
    FfiPointerExport,
}

/// Resolved target information for a member access expression.
#[derive(Debug, Clone, PartialEq, Eq)]
pub struct ExprMemberFact {
    pub kind: ExprMemberKind,
    pub name: Symbol,
    pub ty: TyId,
    /// The binding the member resolves to.
    pub binding: Option<u32>,
    /// The module an imported record member comes from.
    pub import_record_target: Option<String>,
    /// The member's position.
    pub index: Option<u16>,
}

impl ExprMemberFact {
    /// A member of the given kind, name and type, with nothing else known.
    pub fn new(kind: ExprMemberKind, name: Symbol, ty: TyId) -> (f: Self)
        ensures
            f.kind == kind,
            f.name == name,
            f.ty == ty,
            f.binding is None,
            f.import_record_target is None,
            f.index is None,
    {
        ExprMemberFact { kind, name, ty, binding: None, import_record_target: None, index: None }
    }

    /// The same fact, resolving to `binding`.
    pub fn with_binding(self, binding: u32) -> (f: Self)
        ensures
            f == (ExprMemberFact { binding: Some(binding), ..self }),
    {
        let mut f = self;
        f.binding = Some(binding);
        f
    }

    /// The same fact, coming from the module `target`.
    pub fn with_import_record_target(self, target: String) -> (f: Self)
        ensures
            f == (ExprMemberFact { import_record_target: Some(target), ..self }),
    {
        let mut f = self;
        f.import_record_target = Some(target);
        f
    }

    /// The same fact, at position `index`.
    pub fn with_index(self, index: u16) -> (f: Self)
        ensures
            f == (ExprMemberFact { index: Some(index), ..self }),
    {
        let mut f = self;
        f.index = Some(index);
        f
    }
}

/// The type checking gives a pattern.
#[derive(Debug, Clone, Copy, PartialEq, Eq, Structural)]
pub struct PatFacts {
    pub ty: TyId,
}

impl PatFacts {
    /// Facts giving the type `ty`.
    pub fn new(ty: TyId) -> (f: Self)
        ensures
            f.ty == ty,
    {
        PatFacts { ty }
    }
}

/// How a constraint relates a type parameter to a type.
#[derive(Debug, Clone, Copy, PartialEq, Eq, Hash, Structural)]
pub enum ConstraintKind {
    Implements,
    TypeEq,
}

/// A constraint on a type parameter.
#[derive(Debug, Clone, PartialEq, Eq)]
pub struct ConstraintFacts {
    pub name: Symbol,
    pub kind: ConstraintKind,
    pub value: TyId,
    pub shape_key: Option<DefinitionKey>,
}

impl ConstraintFacts {
    /// The constraint `name kind value`, with no shape known.
    pub fn new(name: Symbol, kind: ConstraintKind, value: TyId) -> (f: Self)
        ensures
            f.name == name,
            f.kind == kind,
            f.value == value,
            f.shape_key is None,
    {
        ConstraintFacts { name, kind, value, shape_key: None }
    }

    /// The same constraint, on the shape `shape_key`.
    pub fn with_shape_key(self, shape_key: DefinitionKey) -> (f: Self)
        ensures
            f == (ConstraintFacts { shape_key: Some(shape_key), ..self }),
    {
        let mut f = self;
        f.shape_key = Some(shape_key);
        f
    }
}

/// A constraint to be satisfied: the kind, the constrained type, the type
/// it is constrained to, and the shape when there is one.
#[derive(Debug, Clone, PartialEq, Eq)]
pub struct ConstraintKey {
    pub kind: ConstraintKind,
    pub subject: TyId,
    pub value: TyId,
    pub shape_key: Option<DefinitionKey>,
}

impl ConstraintKey {
    /// The key of the given parts.
    pub fn new(kind: ConstraintKind, subject: TyId, value: TyId, shape_key: Option<DefinitionKey>) -> (k: Self)
        ensures
            k == (ConstraintKey { kind, subject, value, shape_key }),
    {
        ConstraintKey { kind, subject, value, shape_key }
    }
}

/// A member of a shape: its name, parameter types and result type.
#[derive(Debug, Clone, PartialEq, Eq)]
pub struct ShapeMemberFacts {
    pub name: Symbol,
    pub params: Vec<TyId>,
    pub result: TyId,
}

impl ShapeMemberFacts {
    /// The member of the given parts.
    pub fn new(name: Symbol, params: Vec<TyId>, result: TyId) -> (m: Self)
        ensures
            m.name == name,
            m.params@ == params@,
            m.result == result,
    {
        ShapeMemberFacts { name, params, result }
    }
}

/// A parameter of a shape law.
#[derive(Debug, Clone, Copy, PartialEq, Eq, Structural)]
pub struct LawParamFacts {
    pub name: Symbol,
    pub ty: TyId,
}

impl LawParamFacts {
    /// The parameter `name` of type `ty`.
    pub fn new(name: Symbol, ty: TyId) -> (p: Self)
        ensures
            p.name == name,
            p.ty == ty,
    {
        LawParamFacts { name, ty }
    }
}

/// A law of a shape: its name and parameters.
#[derive(Debug, Clone, PartialEq, Eq)]
pub struct LawFacts {
    pub name: Symbol,
    pub params: Vec<LawParamFacts>,
}

impl LawFacts {
    /// The law of the given name and parameters.
    pub fn new(name: Symbol, params: Vec<LawParamFacts>) -> (l: Self)
        ensures
            l.name == name,
            l.params@ == params@,
    {
        LawFacts { name, params }
    }
}

/// A shape: its key, name, type parameters and their kinds, constraints,
/// members and laws.
#[derive(Debug, Clone, PartialEq, Eq)]
pub struct ShapeFacts {
    pub key: DefinitionKey,
    pub name: Symbol,
    pub type_params: Vec<Symbol>,
    pub type_param_kinds: Vec<TyId>,
    pub constraints: Vec<ConstraintFacts>,
    pub members: Vec<ShapeMemberFacts>,
    pub laws: Vec<LawFacts>,
}

impl ShapeFacts {
    /// A shape with the given members and laws, and no type parameters or
    /// constraints.
    pub fn new(key: DefinitionKey, name: Symbol, members: Vec<ShapeMemberFacts>, laws: Vec<LawFacts>) -> (s: Self)
        ensures
            s.key == key,
            s.name == name,
            s.type_params@.len() == 0,
            s.type_param_kinds@.len() == 0,
            s.constraints@.len() == 0,
            s.members@ == members@,
            s.laws@ == laws@,
    {
        ShapeFacts {
            key,
            name,
            type_params: Vec::new(),
            type_param_kinds: Vec::new(),
            constraints: Vec::new(),
            members,
            laws,
        }
    }

    /// The same shape with the type parameters `type_params`.
    pub fn with_type_params(self, type_params: Vec<Symbol>) -> (s: Self)
        ensures
            s == (ShapeFacts { type_params, ..self }),
    {
        let mut s = self;
        s.type_params = type_params;
        s
    }

    /// The same shape with the type parameter kinds `type_param_kinds`.
    pub fn with_type_param_kinds(self, type_param_kinds: Vec<TyId>) -> (s: Self)
        ensures
            s == (ShapeFacts { type_param_kinds, ..self }),
    {
        let mut s = self;
        s.type_param_kinds = type_param_kinds;
        s
    }

    /// The same shape with the constraints `constraints`.
    pub fn with_constraints(self, constraints: Vec<ConstraintFacts>) -> (s: Self)
        ensures
            s == (ShapeFacts { constraints, ..self }),
    {
        let mut s = self;
        s.constraints = constraints;
        s
    }
}

/// A variant of a data definition: its discriminant, payload and result
/// types, and its fields' types and names.
#[derive(Debug, Clone, PartialEq, Eq)]
pub struct SemaDataVariantDef {
    tag: i64,
    payload: Option<TyId>,
    result: Option<TyId>,
    field_tys: Vec<TyId>,
    field_names: Vec<Option<String>>,
}

impl SemaDataVariantDef {
    /// The variant of discriminant `tag`.
    pub closed spec fn tag_spec(&self) -> i64 {
        self.tag
    }

    /// The variant of the given parts.
    pub fn new(
        tag: i64,
        payload: Option<TyId>,
        result: Option<TyId>,
        field_tys: Vec<TyId>,
        field_names: Vec<Option<String>>,
    ) -> (v: Self)
        ensures
            v.tag_spec() == tag,
            v.payload_spec() == payload,
            v.result_spec() == result,
            v.field_tys_spec() == field_tys@,
            v.field_names_spec() == field_names@,
    {
        SemaDataVariantDef { tag, payload, result, field_tys, field_names }
    }

    /// The payload type.
    pub closed spec fn payload_spec(&self) -> Option<TyId> {
        self.payload
    }

    /// The result type.
    pub closed spec fn result_spec(&self) -> Option<TyId> {
        self.result
    }

    /// The field types.
    pub closed spec fn field_tys_spec(&self) -> Seq<TyId> {
        self.field_tys@
    }

    /// The field names.
    pub closed spec fn field_names_spec(&self) -> Seq<Option<String>> {
        self.field_names@
    }

    /// The discriminant.
    pub fn tag(&self) -> (t: i64)
        ensures
            t == self.tag_spec(),
    {
        self.tag
    }

    /// The payload type.
    pub fn payload(&self) -> (p: Option<TyId>)
        ensures
            p == self.payload_spec(),
    {
        self.payload
    }

    /// The result type.
    pub fn result(&self) -> (r: Option<TyId>)
        ensures
            r == self.result_spec(),
    {
        self.result
    }

    /// The field types.
    pub fn field_tys(&self) -> (f: &Vec<TyId>)
        ensures
            f@ == self.field_tys_spec(),
    {
        &self.field_tys
    }

    /// The field names.
    pub fn field_names(&self) -> (f: &Vec<Option<String>>)
        ensures
            f@ == self.field_names_spec(),
    {
        &self.field_names
    }
}

/// The variants of a data definition by name, in name order; a later
/// variant of a name replaces an earlier one.
pub type DataVariants = TextMap<SemaDataVariantDef>;

/// A data definition: its key, type parameters, variants, and layout.
#[derive(Debug, PartialEq, Eq)]
pub struct SemaDataDef {
    pub key: DefinitionKey,
    pub type_params: Vec<Symbol>,
    pub type_param_kinds: Vec<TyId>,
    pub variants: DataVariants,
    pub is_record_shape: bool,
    pub repr_kind: Option<String>,
    pub layout_align: Option<u32>,
    pub layout_pack: Option<u32>,
    pub frozen: bool,
}

impl SemaDataDef {
    /// A data definition with the given variants and layout, no type
    /// parameters, and not a record shape.
    pub fn new(
        key: DefinitionKey,
        variants: DataVariants,
        repr_kind: Option<String>,
        layout_align: Option<u32>,
        layout_pack: Option<u32>,
        frozen: bool,
    ) -> (d: Self)
        ensures
            d == (SemaDataDef {
                key,
                type_params: d.type_params,
                type_param_kinds: d.type_param_kinds,
                variants,
                is_record_shape: false,
                repr_kind,
                layout_align,
                layout_pack,
                frozen,
            }),
            d.type_params@.len() == 0,
            d.type_param_kinds@.len() == 0,
    {
        SemaDataDef {
            key,
            type_params: Vec::new(),
            type_param_kinds: Vec::new(),
            variants,
            is_record_shape: false,
            repr_kind,
            layout_align,
            layout_pack,
            frozen,
        }
    }

    /// The same definition with the given type parameters and their kinds.
    pub fn with_type_params(self, type_params: Vec<Symbol>, type_param_kinds: Vec<TyId>) -> (d: Self)
        ensures
            d == (SemaDataDef { type_params, type_param_kinds, ..self }),
    {
        let mut d = self;
        d.type_params = type_params;
        d.type_param_kinds = type_param_kinds;
        d
    }

    /// The same definition, a record shape or not.
    pub fn with_record_shape(self, is_record_shape: bool) -> (d: Self)
        ensures
            d == (SemaDataDef { is_record_shape, ..self }),
    {
        let mut d = self;
        d.is_record_shape = is_record_shape;
        d
    }

    /// The variant named `name`.
    pub fn variant(&self, name: &str) -> (r: Option<&SemaDataVariantDef>)
        ensures
            match r {
                Some(d) => self.variants.map().contains_key(name@) && self.variants.map()[name@] == *d,
                None => !self.variants.map().contains_key(name@),
            },
    {
        self.variants.get(name)
    }

    /// The position of the variant `name` in name order, when it has one that
    /// fits `u16`.
    pub fn variant_index(&self, name: &str) -> (r: Option<u16>)
        ensures
            match r {
                Some(i) => i < self.variants.names().len() && self.variants.names()[i as int]
                    == name@,
                None => !self.variants.names().contains(name@) || exists|i: int|
                    u16::MAX < i < self.variants.names().len() && self.variants.names()[i] == name@,
            },
    {
        match self.variants.position(name) {
            Some(i) => if i <= u16::MAX as usize {
                Some(i as u16)
            } else {
                None
            },
            None => None,
        }
    }

    /// The number of variants.
    pub fn variant_count(&self) -> (n: usize)
        ensures
            n == self.variants.names().len(),
    {
        self.variants.len()
    }

    /// The variant of a record shape: the one named like the definition.
    pub fn record_shape_variant(&self) -> (r: Option<&SemaDataVariantDef>)
        ensures
            !self.is_record_shape ==> r is None,
            self.is_record_shape ==> match r {
                Some(d) => self.variants.map().contains_key(self.key.name@) && self.variants.map()[self.key.name@] == *d,
                None => !self.variants.map().contains_key(self.key.name@),
            },
    {
        if self.is_record_shape {
            self.variants.get(self.key.name.as_str())
        } else {
            None
        }
    }
}


/// An operation of an effect: its parameter types and names, its result
/// type, and whether it may run at compile time.
#[derive(Debug, PartialEq, Eq)]
pub struct SemaEffectOpDef {
    pub params: Vec<TyId>,
    pub param_names: Vec<Symbol>,
    pub result: TyId,
    pub comptime_safe: bool,
}

impl SemaEffectOpDef {
    /// The operation of the given parts, not safe at compile time.
    pub fn new(params: Vec<TyId>, param_names: Vec<Symbol>, result: TyId) -> (d: Self)
        ensures
            d.params@ == params@,
            d.param_names@ == param_names@,
            d.result == result,
            !d.comptime_safe,
    {
        SemaEffectOpDef { params, param_names, result, comptime_safe: false }
    }

    /// The same operation, safe at compile time or not.
    pub fn with_comptime_safe(self, comptime_safe: bool) -> (d: Self)
        ensures
            d == (SemaEffectOpDef { comptime_safe, ..self }),
    {
        let mut d = self;
        d.comptime_safe = comptime_safe;
        d
    }
}

/// An effect: its key, its operations by name, and its laws.
#[derive(Debug, PartialEq, Eq)]
pub struct SemaEffectDef {
    pub key: DefinitionKey,
    pub ops: TextMap<SemaEffectOpDef>,
    pub laws: Vec<LawFacts>,
}

} // verus!
