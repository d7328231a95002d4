//! Array literals and indexing: the item type an array literal settles on,
//! item by item and spread by spread, how many items it is known to have,
//! whether its length meets the length that the expected type asks for, the
//! type it gets, and what indexing an array or a sequence gives.
use vstd::prelude::*;

use crate::diag::SemaDiagKind;
use crate::ty::{Dim, TyId, TyKind, TyNode, TyStore};
use crate::ty_props::{peel_mut, peel_mut_ty};

verus! {

/// What reading one item of an array literal asks for, in order.
#[derive(Debug, Clone, Copy, PartialEq, Eq, Structural)]
pub enum ArrayStep {
    /// Report a mismatch unless `found` fits `expected`.
    Mismatch { expected: TyId, found: TyId },
    /// Look for the evidence that `item` can be ranged over.
    RangeEvidence { item: TyId },
    /// Report a diagnostic.
    Diag { kind: SemaDiagKind },
}

/// Where reading an array literal stands: the item type so far (the
/// unknown type until an item fixes it), the number of items known, and
/// whether a spread adds items known only at run time.
#[derive(Debug, Clone, Copy, PartialEq, Eq, Structural)]
pub struct ArrayLitState {
    pub item_ty: TyId,
    pub known_len: u32,
    pub has_runtime_spread: bool,
}

/// What the expected type asks of an array literal: the dimensions of an
/// expected array (none for an expected sequence), and its item type.
#[derive(Debug, Clone, PartialEq, Eq)]
pub struct ArrayContract {
    pub dims: Option<Vec<Dim>>,
    pub item: Option<TyId>,
    pub is_seq: bool,
}

/// A problem with the length of an array literal.
#[derive(Debug, Clone, Copy, PartialEq, Eq, Structural)]
pub enum ArrayLenIssue {
    /// A spread adds items known only at run time, so the length the
    /// expected type asks for cannot be checked.
    UnknownFromRuntimeSpread,
    /// The literal has `found` items where `expected` are asked for.
    Mismatch { expected: u32, found: u32 },
}

/// A problem with an index expression.
#[derive(Debug, Clone, Copy, PartialEq, Eq, Structural)]
pub enum IndexIssue {
    /// `found` indices where `expected` are taken.
    ArgCount { expected: usize, found: usize },
    /// The indexed value is neither an array nor a sequence.
    Target,
}

/// `a + b`, staying at the largest `u32`.
pub open spec fn sat_add(a: u32, b: u32) -> u32 {
    if a + b <= u32::MAX {
        (a + b) as u32
    } else {
        u32::MAX
    }
}

/// An item type found: it fixes the item type while that is unknown, and is
/// otherwise matched against it.
pub open spec fn merge_step(st: ArrayLitState, unknown: TyId, found: TyId) -> (ArrayLitState, Seq<ArrayStep>) {
    if st.item_ty == unknown {
        (ArrayLitState { item_ty: found, ..st }, Seq::empty())
    } else {
        (st, seq![ArrayStep::Mismatch { expected: st.item_ty, found }])
    }
}

/// An item written out, of type `found`: one more item.
pub open spec fn direct_step(st: ArrayLitState, unknown: TyId, found: TyId) -> (ArrayLitState, Seq<ArrayStep>) {
    let (s1, out) = merge_step(st, unknown, found);
    (ArrayLitState { known_len: sat_add(s1.known_len, 1), ..s1 }, out)
}

/// The items of a spread tuple, in order.
pub open spec fn tuple_items(st: ArrayLitState, unknown: TyId, found: Seq<TyId>) -> (ArrayLitState, Seq<ArrayStep>)
    decreases found.len(),
{
    if found.len() == 0 {
        (st, Seq::empty())
    } else {
        let (s1, out1) = tuple_items(st, unknown, found.drop_last());
        let (s2, out2) = direct_step(s1, unknown, found.last());
        (s2, out1 + out2)
    }
}

/// Items known only at run time, of type `item`.
pub open spec fn runtime_items(st: ArrayLitState, unknown: TyId, item: TyId) -> (ArrayLitState, Seq<ArrayStep>) {
    merge_step(ArrayLitState { has_runtime_spread: true, ..st }, unknown, item)
}

/// A spread of an expression of type `ty`: a tuple adds its items; a
/// one-dimensional array adds its length when known and run-time items
/// otherwise; a sequence and a range add run-time items; anything else is no
/// spread source.
pub open spec fn spread_step(tys: Seq<TyNode>, st: ArrayLitState, unknown: TyId, ty: TyId) -> (ArrayLitState, Seq<ArrayStep>) {
    match tys[ty.0 as int] {
        TyNode::Tuple { items } => tuple_items(st, unknown, items),
        TyNode::Array { dims, item } => if dims.len() == 0 {
            runtime_items(st, unknown, item)
        } else if dims.len() != 1 {
            (st, seq![ArrayStep::Diag { kind: SemaDiagKind::ArraySpreadRequiresOneDimensionalArray }])
        } else {
            match dims[0] {
                Dim::Int(len) => {
                    let (s1, out) = merge_step(st, unknown, item);
                    (ArrayLitState { known_len: sat_add(s1.known_len, len), ..s1 }, out)
                },
                _ => runtime_items(st, unknown, item),
            }
        },
        TyNode::Sequence { item } => runtime_items(st, unknown, item),
        TyNode::Range { bound } => {
            let (s1, out) = runtime_items(st, unknown, bound);
            (s1, out.push(ArrayStep::RangeEvidence { item: bound }))
        },
        _ => (st, seq![ArrayStep::Diag { kind: SemaDiagKind::InvalidSpreadSource }]),
    }
}

/// What an expected type asks of an array literal: with `mut` taken off, an
/// array gives its dimensions and item type, a sequence no dimensions and its
/// item type, and anything else nothing.
pub open spec fn contract_of(tys: Seq<TyNode>, expected: Option<TyId>) -> (Option<Seq<Dim>>, Option<TyId>, bool) {
    match expected {
        Some(e) => match tys[peel_mut(tys, e).0 as int] {
            TyNode::Array { dims, item } => (Some(dims), Some(item), dims.len() == 0),
            TyNode::Sequence { item } => (Some(Seq::empty()), Some(item), true),
            _ => (None, None, false),
        },
        None => (None, None, false),
    }
}

/// The state before the first item: the expected item type, or unknown.
pub open spec fn start_state(item: Option<TyId>, unknown: TyId) -> ArrayLitState {
    ArrayLitState {
        item_ty: match item {
            Some(t) => t,
            None => unknown,
        },
        known_len: 0,
        has_runtime_spread: false,
    }
}

/// Whether the literal's length meets the expected one: only an expected
/// one-dimensional array of a fixed length asks for one.
pub open spec fn len_issue(dims: Option<Seq<Dim>>, st: ArrayLitState) -> Option<ArrayLenIssue> {
    match dims {
        Some(d) => if d.len() == 1 {
            match d[0] {
                Dim::Int(expected) => if st.has_runtime_spread {
                    Some(ArrayLenIssue::UnknownFromRuntimeSpread)
                } else if expected != st.known_len {
                    Some(ArrayLenIssue::Mismatch { expected, found: st.known_len })
                } else {
                    None
                },
                _ => None,
            }
        } else {
            None
        },
        None => None,
    }
}

/// The type of the literal: a sequence unless an array is expected, then an
/// array of the expected dimensions.
pub open spec fn literal_node(dims: Option<Seq<Dim>>, is_seq: bool, item: TyId) -> TyNode {
    if is_seq || dims is None {
        TyNode::Sequence { item }
    } else {
        TyNode::Array { dims: dims->0, item }
    }
}

/// What indexing a value of type `base` (with `mut` taken off) with
/// `arg_count` indices gives: an array's item type, checked against its
/// number of dimensions when it has any; a sequence's item type, taking one
/// index; anything else is reported and gives the unknown type.
pub open spec fn index_result(tys: Seq<TyNode>, unknown: TyId, base: TyId, arg_count: usize) -> (TyId, Option<IndexIssue>) {
    match tys[base.0 as int] {
        TyNode::Array { dims, item } => (
            item,
            if dims.len() != 0 && dims.len() != arg_count {
                Some(IndexIssue::ArgCount { expected: dims.len() as usize, found: arg_count })
            } else {
                None
            },
        ),
        TyNode::Sequence { item } => (
            item,
            if arg_count != 1 {
                Some(IndexIssue::ArgCount { expected: 1, found: arg_count })
            } else {
                None
            },
        ),
        _ => (unknown, Some(IndexIssue::Target)),
    }
}

/// Items written out add one each to the known length and add no run-time
/// items.
proof fn lemma_items_len(st: ArrayLitState, unknown: TyId, found: Seq<TyId>)
    requires
        st.known_len + found.len() <= u32::MAX,
    ensures
        tuple_items(st, unknown, found).0.known_len == st.known_len + found.len(),
        tuple_items(st, unknown, found).0.has_runtime_spread == st.has_runtime_spread,
    decreases found.len(),
{
    if found.len() > 0 {
        lemma_items_len(st, unknown, found.drop_last());
    }
}

/// A literal of `n` items written out, against an expected array of one
/// fixed dimension `expected`, has a length issue exactly when `n` is not
/// `expected`.
pub proof fn lemma_plain_literal_len(item: Option<TyId>, unknown: TyId, found: Seq<TyId>, expected: u32)
    requires
        found.len() <= u32::MAX,
    ensures
        len_issue(Some(seq![Dim::Int(expected)]), tuple_items(start_state(item, unknown), unknown, found).0) == if expected
            == found.len() {
            None
        } else {
            Some(ArrayLenIssue::Mismatch { expected, found: found.len() as u32 })
        },
{
    lemma_items_len(start_state(item, unknown), unknown, found);
}

impl View for ArrayContract {
    type V = (Option<Seq<Dim>>, Option<TyId>, bool);

    open spec fn view(&self) -> (Option<Seq<Dim>>, Option<TyId>, bool) {
        (
            match self.dims {
                Some(d) => Some(d@),
                None => None,
            },
            self.item,
            self.is_seq,
        )
    }
}

/// What the expected type, if any, asks of an array literal.
pub fn expected_array_contract(store: &TyStore, expected: Option<TyId>) -> (c: ArrayContract)
    requires
        match expected {
            Some(e) => e.0 < store.kinds().len(),
            None => true,
        },
    ensures
        c@ == contract_of(store.kinds(), expected),
{
    match expected {
        Some(e) => {
            let inner = peel_mut_ty(store, e);
            match store.kind(inner) {
                TyKind::Array { dims, item } => ArrayContract {
                    dims: Some(dims.clone()),
                    item: Some(*item),
                    is_seq: dims.len() == 0,
                },
                TyKind::Sequence { item } => ArrayContract { dims: Some(Vec::new()), item: Some(*item), is_seq: true },
                _ => ArrayContract { dims: None, item: None, is_seq: false },
            }
        },
        None => ArrayContract { dims: None, item: None, is_seq: false },
    }
}

impl ArrayLitState {
    /// Before the first item of a literal with the given contract.
    pub fn start(contract: &ArrayContract, unknown: TyId) -> (s: Self)
        ensures
            s == start_state(contract.item, unknown),
    {
        ArrayLitState {
            item_ty: match contract.item {
                Some(t) => t,
                None => unknown,
            },
            known_len: 0,
            has_runtime_spread: false,
        }
    }

    fn merge(&mut self, unknown: TyId, found: TyId, out: &mut Vec<ArrayStep>)
        ensures
            *final(self) == merge_step(*old(self), unknown, found).0,
            final(out)@ == old(out)@ + merge_step(*old(self), unknown, found).1,
    {
        if self.item_ty == unknown {
            self.item_ty = found;
            assert(out@ =~= old(out)@ + Seq::<ArrayStep>::empty());
        } else {
            out.push(ArrayStep::Mismatch { expected: self.item_ty, found });
        }
    }

    fn add_len(&mut self, n: u32)
        ensures
            *final(self) == (ArrayLitState { known_len: sat_add(old(self).known_len, n), ..*old(self) }),
    {
        self.known_len = if self.known_len <= u32::MAX - n {
            self.known_len + n
        } else {
            u32::MAX
        };
    }

    /// An item written out, checked as of type `found` against `item_ty`.
    pub fn direct(&mut self, unknown: TyId, found: TyId) -> (out: Vec<ArrayStep>)
        ensures
            (*final(self), out@) == direct_step(*old(self), unknown, found),
    {
        let mut out: Vec<ArrayStep> = Vec::new();
        self.merge(unknown, found, &mut out);
        self.add_len(1);
        assert(out@ =~= direct_step(*old(self), unknown, found).1);
        out
    }

    fn tuple(&mut self, unknown: TyId, items: &Vec<TyId>, out: &mut Vec<ArrayStep>)
        ensures
            *final(self) == tuple_items(*old(self), unknown, items@).0,
            final(out)@ == old(out)@ + tuple_items(*old(self), unknown, items@).1,
    {
        let ghost st0 = *self;
        let ghost out0 = out@;
        let mut k: usize = 0;
        while k < items.len()
            invariant
                k <= items.len(),
                *self == tuple_items(st0, unknown, items@.subrange(0, k as int)).0,
                out@ == out0 + tuple_items(st0, unknown, items@.subrange(0, k as int)).1,
            decreases items.len() - k,
        {
            proof {
                assert(items@.subrange(0, k + 1).drop_last() =~= items@.subrange(0, k as int));
            }
            let ghost ob = out@;
            let step = self.direct(unknown, items[k]);
            let mut j: usize = 0;
            while j < step.len()
                invariant
                    j <= step.len(),
                    out@ == ob + step@.subrange(0, j as int),
                decreases step.len() - j,
            {
                out.push(step[j]);
                j = j + 1;
                assert(out@ =~= ob + step@.subrange(0, j as int));
            }
            k = k + 1;
            proof {
                assert(step@.subrange(0, j as int) =~= step@);
                assert(out@ =~= out0 + tuple_items(st0, unknown, items@.subrange(0, k as int)).1);
            }
        }
        proof {
            assert(items@.subrange(0, k as int) =~= items@);
        }
    }

    /// A spread of an expression of type `ty`.
    pub fn spread(&mut self, store: &TyStore, unknown: TyId, ty: TyId) -> (out: Vec<ArrayStep>)
        requires
            ty.0 < store.kinds().len(),
        ensures
            (*final(self), out@) == spread_step(store.kinds(), *old(self), unknown, ty),
    {
        let mut out: Vec<ArrayStep> = Vec::new();
        match store.kind(ty) {
            TyKind::Tuple { items } => {
                self.tuple(unknown, items, &mut out);
            },
            TyKind::Array { dims, item } => {
                if dims.len() == 0 {
                    self.has_runtime_spread = true;
                    self.merge(unknown, *item, &mut out);
                } else if dims.len() != 1 {
                    out.push(ArrayStep::Diag { kind: SemaDiagKind::ArraySpreadRequiresOneDimensionalArray });
                } else {
                    match dims[0] {
                        Dim::Int(len) => {
                            self.merge(unknown, *item, &mut out);
                            self.add_len(len);
                        },
                        _ => {
                            self.has_runtime_spread = true;
                            self.merge(unknown, *item, &mut out);
                        },
                    }
                }
            },
            TyKind::Sequence { item } => {
                self.has_runtime_spread = true;
                self.merge(unknown, *item, &mut out);
            },
            TyKind::Range { bound } => {
                self.has_runtime_spread = true;
                self.merge(unknown, *bound, &mut out);
                out.push(ArrayStep::RangeEvidence { item: *bound });
            },
            _ => {
                out.push(ArrayStep::Diag { kind: SemaDiagKind::InvalidSpreadSource });
            },
        }
        proof {
            assert(out@ =~= spread_step(store.kinds(), *old(self), unknown, ty).1);
        }
        out
    }

    /// Whether the literal's length meets the length the contract asks for.
    pub fn len_issue(&self, contract: &ArrayContract) -> (r: Option<ArrayLenIssue>)
        ensures
            r == len_issue(contract@.0, *self),
    {
        match &contract.dims {
            Some(d) => {
                if d.len() == 1 {
                    match d[0] {
                        Dim::Int(expected) => {
                            if self.has_runtime_spread {
                                Some(ArrayLenIssue::UnknownFromRuntimeSpread)
                            } else if expected != self.known_len {
                                Some(ArrayLenIssue::Mismatch { expected, found: self.known_len })
                            } else {
                                None
                            }
                        },
                        _ => None,
                    }
                } else {
                    None
                }
            },
            None => None,
        }
    }

    /// The type of the literal, to be added to the store.
    pub fn literal_kind(&self, contract: &ArrayContract) -> (k: TyKind)
        ensures
            k@ == literal_node(contract@.0, contract.is_seq, self.item_ty),
    {
        match &contract.dims {
            Some(d) => {
                if contract.is_seq {
                    TyKind::Sequence { item: self.item_ty }
                } else {
                    TyKind::Array { dims: d.clone(), item: self.item_ty }
                }
            },
            None => TyKind::Sequence { item: self.item_ty },
        }
    }
}

/// What indexing a value of type `base` with `arg_count` indices gives,
/// with `mut` taken off `base` first.
pub fn index_expr_result(store: &TyStore, unknown: TyId, base: TyId, arg_count: usize) -> (r: (TyId, Option<IndexIssue>))
    requires
        base.0 < store.kinds().len(),
    ensures
        r == index_result(store.kinds(), unknown, peel_mut(store.kinds(), base), arg_count),
{
    let inner = peel_mut_ty(store, base);
    match store.kind(inner) {
        TyKind::Array { dims, item } => {
            let issue = if dims.len() != 0 && dims.len() != arg_count {
                Some(IndexIssue::ArgCount { expected: dims.len(), found: arg_count })
            } else {
                None
            };
            (*item, issue)
        },
        TyKind::Sequence { item } => {
            let issue = if arg_count != 1 {
                Some(IndexIssue::ArgCount { expected: 1, found: arg_count })
            } else {
                None
            };
            (*item, issue)
        },
        _ => (unknown, Some(IndexIssue::Target)),
    }
}

} // verus!
