//! The part of the checked expression tree that constant evaluation and
//! diagnostic subjects read: an arena of expressions, each naming its
//! sub-expressions by id, every child allocated before its parent.
use vstd::prelude::*;

use crate::ty::Symbol;

verus! {

/// The id of an expression in an `ExprStore`.
#[derive(Debug, Clone, Copy, PartialEq, Eq, Hash, Structural)]
pub struct ExprId(pub u32);

/// A literal.
#[derive(Debug, Clone, PartialEq, Eq)]
pub enum LitKind {
    /// An integer literal: its text, and its value when the text reads as an
    /// `i64` literal.
    Int { raw: String, parsed: Option<i64> },
    Float { raw: String },
    String { value: String },
    Rune { value: u32 },
}

/// A prefix operator.
#[derive(Debug, Clone, Copy, PartialEq, Eq, Structural)]
pub enum PrefixOp {
    Neg,
    Not,
    Mut,
    Known,
}

/// A binary operator.
#[derive(Debug, Clone, Copy, PartialEq, Eq, Structural)]
pub enum BinaryOp {
    Assign,
    Arrow,
    TypeEq,
    Eq,
    Or,
    Xor,
    And,
    Ne,
    Lt,
    Gt,
    Le,
    Ge,
    Shl,
    Shr,
    Add,
    Sub,
    Mul,
    Div,
    Rem,
    In,
    Range { include_lower: bool, include_upper: bool },
    UserOp(Symbol),
}

/// The pattern of a `let`, as far as constant evaluation reads it.
#[derive(Debug, Clone, Copy, PartialEq, Eq, Structural)]
pub enum LetPat {
    /// A plain binding; the binding it declares, when resolved.
    Bind { binding: Option<u32> },
    /// Any other pattern.
    Other,
}

/// The kinds of expression that are told apart only by name.
#[derive(Debug, Clone, Copy, PartialEq, Eq, Structural)]
pub enum ExprForm {
    Template,
    Array,
    ArrayTy,
    Record,
    Pi,
    Lambda,
    Call,
    Apply,
    Index,
    RecordUpdate,
    TypeTest,
    TypeCast,
    PartialRange,
    Import,
    Yield,
    Defer,
    Match,
    If,
    Data,
    Effect,
    Shape,
    Unsafe,
    Pin,
    /// Any other kind of expression.
    Unlisted,
}

/// An expression; children are ids in the same store.
#[derive(Debug, Clone, PartialEq, Eq)]
pub enum ExprKind {
    Error,
    /// A use of a name; the binding it refers to, when resolved.
    Name { name: Symbol, binding: Option<u32> },
    Field { base: ExprId, name: Symbol },
    Lit { lit: LitKind },
    Variant { tag: Symbol, args: Vec<ExprId> },
    Prefix { op: PrefixOp, expr: ExprId },
    Binary { op: BinaryOp, left: ExprId, right: ExprId },
    Sequence { exprs: Vec<ExprId> },
    Tuple { items: Vec<ExprId> },
    /// A `let`; `callable` when it declares a receiver or parameters, so that
    /// its value is the body of a callable.
    Let { pat: LetPat, value: ExprId, callable: bool },
    /// Any other expression: its form, and the sub-expressions that checking
    /// visits, in the order it visits them (a lambda's only one is its body).
    Other { form: ExprForm, children: Vec<ExprId> },
}

/// Every id in `ids` is below `bound`.
pub open spec fn expr_ids_below(ids: Seq<ExprId>, bound: int) -> bool {
    forall|k: int| 0 <= k < ids.len() ==> (#[trigger] ids[k]).0 < bound
}

/// Every child of `k` is below `bound`, and every binding it names is below
/// `bindings`.
pub open spec fn expr_kind_wf(k: ExprKind, bound: int, bindings: int) -> bool {
    match k {
        ExprKind::Name { binding, .. } => match binding {
            Some(b) => b < bindings,
            None => true,
        },
        ExprKind::Field { base, .. } => base.0 < bound,
        ExprKind::Variant { args, .. } => expr_ids_below(args@, bound),
        ExprKind::Prefix { expr, .. } => expr.0 < bound,
        ExprKind::Binary { left, right, .. } => left.0 < bound && right.0 < bound,
        ExprKind::Sequence { exprs } => expr_ids_below(exprs@, bound),
        ExprKind::Tuple { items } => expr_ids_below(items@, bound),
        ExprKind::Let { pat, value, .. } => value.0 < bound && match pat {
            LetPat::Bind { binding: Some(b) } => b < bindings,
            _ => true,
        },
        ExprKind::Other { children, .. } => expr_ids_below(children@, bound),
        _ => true,
    }
}

/// Every expression's children come before it, and every binding is below
/// `bindings`.
pub open spec fn exprs_wf(exprs: Seq<ExprKind>, bindings: int) -> bool {
    forall|i: int| 0 <= i < exprs.len() ==> expr_kind_wf(#[trigger] exprs[i], i, bindings)
}

/// An arena of expressions over a fixed number of bindings.
pub struct ExprStore {
    exprs: Vec<ExprKind>,
    binding_count: u32,
}

impl ExprStore {
    /// Children come before parents; bindings are below the binding count.
    #[verifier::type_invariant]
    pub open spec fn wf(self) -> bool {
        &&& exprs_wf(self.kinds(), self.bindings() as int)
        &&& self.kinds().len() <= u32::MAX
    }

    /// The expressions, by id.
    pub closed spec fn kinds(self) -> Seq<ExprKind> {
        self.exprs@
    }

    /// The number of bindings expressions may refer to.
    pub closed spec fn bindings(self) -> u32 {
        self.binding_count
    }

    /// An empty store whose expressions may refer to `binding_count` bindings.
    pub fn new(binding_count: u32) -> (s: Self)
        ensures
            s.kinds() == Seq::<ExprKind>::empty(),
            s.bindings() == binding_count,
    {
        ExprStore { exprs: Vec::new(), binding_count }
    }

    /// The number of expressions.
    pub fn len(&self) -> (n: usize)
        ensures
            n == self.kinds().len(),
    {
        self.exprs.len()
    }

    /// The number of bindings expressions may refer to.
    pub fn binding_count(&self) -> (n: u32)
        ensures
            n == self.bindings(),
    {
        self.binding_count
    }

    /// The expression `id`.
    pub fn kind(&self, id: ExprId) -> (k: &ExprKind)
        requires
            id.0 < self.kinds().len(),
        ensures
            *k == self.kinds()[id.0 as int],
    {
        &self.exprs[id.0 as usize]
    }

    /// Adds an expression whose children are already in the store; `None`,
    /// with the store unchanged, when a child or binding is out of range or the
    /// store is full.
    pub fn push_expr(&mut self, kind: ExprKind) -> (id: Option<ExprId>)
        ensures
            expr_kind_wf(kind, old(self).kinds().len() as int, old(self).bindings() as int)
                && old(self).kinds().len() < u32::MAX ==> id == Some(
                ExprId(old(self).kinds().len() as u32),
            ) && final(self).kinds() == old(self).kinds().push(kind),
            !(expr_kind_wf(kind, old(self).kinds().len() as int, old(self).bindings() as int)
                && old(self).kinds().len() < u32::MAX) ==> id is None && final(self).kinds()
                == old(self).kinds(),
            final(self).bindings() == old(self).bindings(),
    {
        proof {
            use_type_invariant(&*self);
        }
        if self.exprs.len() >= u32::MAX as usize || !kind_wf_exec(
            &kind,
            self.exprs.len(),
            self.binding_count,
        ) {
            return None;
        }
        let id = ExprId(self.exprs.len() as u32);
        let mut exprs: Vec<ExprKind> = Vec::new();
        std::mem::swap(&mut exprs, &mut self.exprs);
        let ghost before = exprs@;
        exprs.push(kind);
        proof {
            assert forall|i: int| 0 <= i < exprs@.len() implies expr_kind_wf(
                #[trigger] exprs@[i],
                i,
                self.binding_count as int,
            ) by {
                if i < before.len() {
                    assert(exprs@[i] == before[i]);
                }
            }
        }
        self.exprs = exprs;
        Some(id)
    }
}

fn ids_below_exec(ids: &Vec<ExprId>, bound: usize) -> (r: bool)
    ensures
        r == expr_ids_below(ids@, bound as int),
{
    let mut i: usize = 0;
    while i < ids.len()
        invariant
            i <= ids.len(),
            forall|k: int| 0 <= k < i ==> (#[trigger] ids@[k]).0 < bound,
        decreases ids.len() - i,
    {
        if ids[i].0 as usize >= bound {
            return false;
        }
        i = i + 1;
    }
    true
}

fn kind_wf_exec(k: &ExprKind, bound: usize, bindings: u32) -> (r: bool)
    ensures
        r == expr_kind_wf(*k, bound as int, bindings as int),
{
    match k {
        ExprKind::Name { binding, .. } => match binding {
            Some(b) => *b < bindings,
            None => true,
        },
        ExprKind::Field { base, .. } => (base.0 as usize) < bound,
        ExprKind::Variant { args, .. } => ids_below_exec(args, bound),
        ExprKind::Prefix { expr, .. } => (expr.0 as usize) < bound,
        ExprKind::Binary { left, right, .. } => (left.0 as usize) < bound && (right.0 as usize)
            < bound,
        ExprKind::Sequence { exprs } => ids_below_exec(exprs, bound),
        ExprKind::Tuple { items } => ids_below_exec(items, bound),
        ExprKind::Let { pat, value, .. } => (value.0 as usize) < bound && match pat {
            LetPat::Bind { binding: Some(b) } => *b < bindings,
            _ => true,
        },
        ExprKind::Other { children, .. } => ids_below_exec(children, bound),
        _ => true,
    }
}

} // verus!
