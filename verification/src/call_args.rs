//! Matching the arguments of a call to the callee's parameters: positional
//! arguments fill parameters in order, named arguments fill the parameter of
//! their name, spread arguments expand a tuple or a fixed-size array into
//! several parameters or, for a sequence, a range or an array of `Any`, into
//! as many as come at run time. Each argument yields the checks to make and
//! the diagnostics to report; after the last one the call's arity is judged.
use vstd::prelude::*;

use crate::diag::SemaDiagKind;
use crate::ty::{children_below, Dim, Symbol, TyId, TyKind, TyNode, TyStore};

verus! {

/// An argument of a call: its name, if named, and for a spread argument the
/// type of the spread expression (with any `mut` peeled off).
#[derive(Debug, Clone, Copy, PartialEq, Eq, Structural)]
pub struct CallArg {
    pub name: Option<Symbol>,
    pub spread: Option<TyId>,
}

/// What checking one argument asks for, in order.
#[derive(Debug, Clone, Copy, PartialEq, Eq, Structural)]
pub enum CallStep {
    /// Check the argument against the expected type; keep its compile-time
    /// value when the parameter is compile-time.
    Check { expected: TyId, comptime: bool },
    /// Check a named argument against the parameter's type, if it has one.
    CheckNamed { name: Symbol, expected: Option<TyId>, comptime: bool },
    /// Report a mismatch unless `found` fits `expected`.
    Mismatch { expected: TyId, found: TyId },
    /// Look for the evidence that `item` can be ranged over.
    RangeEvidence { item: TyId },
    /// Report a diagnostic, naming the argument when it has a name.
    Diag { kind: SemaDiagKind, argument: Option<Symbol> },
}

/// Where the matching of a call's arguments stands.
#[derive(Debug, Clone, PartialEq, Eq)]
pub struct CallArgState {
    /// The next parameter a positional argument fills.
    pub param_index: usize,
    /// Which parameters have an argument.
    pub filled: Vec<bool>,
    /// Whether a spread has expanded into a number of arguments known only
    /// at run time.
    pub has_runtime_spread: bool,
    /// The names of the named arguments so far.
    pub named_seen: Vec<Symbol>,
    /// Whether a named argument has come.
    pub in_named_suffix: bool,
}

/// The matching state as values.
pub struct CallState {
    pub param_index: usize,
    pub filled: Seq<bool>,
    pub runtime_spread: bool,
    pub named_seen: Seq<Symbol>,
    pub in_named_suffix: bool,
}

impl View for CallArgState {
    type V = CallState;

    open spec fn view(&self) -> CallState {
        CallState {
            param_index: self.param_index,
            filled: self.filled@,
            runtime_spread: self.has_runtime_spread,
            named_seen: self.named_seen@,
            in_named_suffix: self.in_named_suffix,
        }
    }
}

/// Before the first argument of a call with `param_count` parameters.
pub open spec fn start_state(param_count: nat) -> CallState {
    CallState {
        param_index: 0,
        filled: Seq::new(param_count, |_i: int| false),
        runtime_spread: false,
        named_seen: Seq::empty(),
        in_named_suffix: false,
    }
}

/// The type parameter `i` expects, or `unknown` past the last parameter.
pub open spec fn expected_at(params: Seq<TyId>, unknown: TyId, i: usize) -> TyId {
    if i < params.len() {
        params[i as int]
    } else {
        unknown
    }
}

/// Whether parameter `i` is compile-time.
pub open spec fn comptime_at(comptime: Seq<bool>, i: int) -> bool {
    0 <= i < comptime.len() && comptime[i]
}

/// `i + 1`, staying at the largest index.
pub open spec fn sat_inc(i: usize) -> usize {
    if i < usize::MAX {
        (i + 1) as usize
    } else {
        i
    }
}

/// Marks parameter `i` filled, when there is one.
pub open spec fn fill_at(filled: Seq<bool>, i: int) -> Seq<bool> {
    if 0 <= i < filled.len() {
        filled.update(i, true)
    } else {
        filled
    }
}

/// One argument fills the next parameter.
pub open spec fn fill_next(st: CallState) -> CallState {
    CallState { param_index: sat_inc(st.param_index), filled: fill_at(st.filled, st.param_index as int), ..st }
}

/// A spread now expands into a number of arguments known at run time.
pub open spec fn runtime(st: CallState) -> CallState {
    CallState { runtime_spread: true, ..st }
}

/// A diagnostic step that names no argument.
pub open spec fn diag_step(kind: SemaDiagKind) -> CallStep {
    CallStep::Diag { kind, argument: None }
}

/// The items `found` of a spread, in order: each is matched against the
/// next parameter and fills it.
pub open spec fn spread_items(st: CallState, params: Seq<TyId>, unknown: TyId, found: Seq<TyId>) -> (CallState, Seq<CallStep>)
    decreases found.len(),
{
    if found.len() == 0 {
        (st, Seq::empty())
    } else {
        let (s1, out) = spread_items(st, params, unknown, found.drop_last());
        (fill_next(s1), out.push(CallStep::Mismatch { expected: expected_at(params, unknown, s1.param_index), found: found.last() }))
    }
}

/// A spread of an array of `Any` whose length is not known: its arguments
/// come at run time; of any other array, it is reported.
pub open spec fn unsized_array_spread(tys: Seq<TyNode>, st: CallState, item: TyId) -> (CallState, Seq<CallStep>) {
    if tys[item.0 as int] == TyNode::Any {
        (runtime(st), Seq::empty())
    } else {
        (st, seq![diag_step(SemaDiagKind::CallRuntimeSpreadRequiresArrayAny)])
    }
}

/// A spread of an expression of type `ty`: a tuple's items and a fixed-size
/// array's items fill parameters one by one; a sequence, a range and an
/// array of `Any` of unknown size expand at run time; anything else is no
/// spread source.
pub open spec fn spread_step(tys: Seq<TyNode>, st: CallState, params: Seq<TyId>, unknown: TyId, ty: TyId) -> (CallState, Seq<CallStep>) {
    match tys[ty.0 as int] {
        TyNode::Tuple { items } => spread_items(st, params, unknown, items),
        TyNode::Array { dims, item } => if dims.len() == 0 {
            unsized_array_spread(tys, st, item)
        } else if dims.len() != 1 {
            (st, seq![diag_step(SemaDiagKind::CallSpreadRequiresTupleOrArray)])
        } else {
            match dims[0] {
                Dim::Int(len) => spread_items(st, params, unknown, Seq::new(len as nat, |_i: int| item)),
                _ => unsized_array_spread(tys, st, item),
            }
        },
        TyNode::Sequence { item } => (
            runtime(st),
            seq![CallStep::Mismatch { expected: expected_at(params, unknown, st.param_index), found: item }],
        ),
        TyNode::Range { bound } => (
            runtime(st),
            seq![
                CallStep::Mismatch { expected: expected_at(params, unknown, st.param_index), found: bound },
                CallStep::RangeEvidence { item: bound },
            ],
        ),
        _ => (st, seq![diag_step(SemaDiagKind::InvalidSpreadSource)]),
    }
}

/// An argument matched by position: checked against the next parameter, or
/// expanded when it is a spread.
pub open spec fn positional_step(
    tys: Seq<TyNode>,
    st: CallState,
    params: Seq<TyId>,
    unknown: TyId,
    comptime: Seq<bool>,
    arg: CallArg,
) -> (CallState, Seq<CallStep>) {
    match arg.spread {
        None => (
            fill_next(st),
            seq![CallStep::Check { expected: expected_at(params, unknown, st.param_index), comptime: comptime_at(comptime, st.param_index as int) }],
        ),
        Some(ty) => spread_step(tys, st, params, unknown, ty),
    }
}

/// The first position of `n` in `names`.
pub open spec fn first_index(names: Seq<Symbol>, n: Symbol) -> Option<int>
    decreases names.len(),
{
    if names.len() == 0 {
        None
    } else {
        match first_index(names.drop_last(), n) {
            Some(i) => Some(i),
            None => if names.last() == n {
                Some(names.len() - 1)
            } else {
                None
            },
        }
    }
}

/// A named argument, once nothing blocks it: a repeated name is reported,
/// an unknown name is reported and checked against nothing, and a known
/// name fills its parameter, reported when that was already filled.
pub open spec fn named_step(st: CallState, params: Seq<TyId>, param_names: Seq<Symbol>, comptime: Seq<bool>, n: Symbol) -> (
    CallState,
    Seq<CallStep>,
) {
    let dup = st.named_seen.contains(n);
    let seen = if dup {
        st.named_seen
    } else {
        st.named_seen.push(n)
    };
    let d1: Seq<CallStep> = if dup {
        seq![CallStep::Diag { kind: SemaDiagKind::CallNamedArgumentDuplicate, argument: Some(n) }]
    } else {
        Seq::empty()
    };
    let st1 = CallState { named_seen: seen, in_named_suffix: true, ..st };
    match first_index(param_names, n) {
        None => (
            st1,
            d1 + seq![
                CallStep::Diag { kind: SemaDiagKind::CallNamedArgumentUnknown, argument: Some(n) },
                CallStep::CheckNamed { name: n, expected: None, comptime: false },
            ],
        ),
        Some(i) => {
            let d2: Seq<CallStep> = if 0 <= i < st1.filled.len() && st1.filled[i] {
                seq![diag_step(SemaDiagKind::CallNamedArgumentAlreadyProvided)]
            } else {
                Seq::empty()
            };
            let expected = if i < params.len() {
                Some(params[i])
            } else {
                None
            };
            (
                CallState { filled: fill_at(st1.filled, i), ..st1 },
                d1 + d2 + seq![CallStep::CheckNamed { name: n, expected, comptime: comptime_at(comptime, i) }],
            )
        },
    }
}

/// One argument of the call: a positional one after a named one is
/// reported; a named spread is reported and expanded as a spread; a named
/// argument after a spread of run-time length is reported and checked
/// against nothing.
pub open spec fn arg_step(
    tys: Seq<TyNode>,
    st: CallState,
    params: Seq<TyId>,
    unknown: TyId,
    param_names: Seq<Symbol>,
    comptime: Seq<bool>,
    arg: CallArg,
) -> (CallState, Seq<CallStep>) {
    match arg.name {
        None => {
            let d: Seq<CallStep> = if st.in_named_suffix {
                if arg.spread is Some {
                    seq![diag_step(SemaDiagKind::CallSpreadAfterNamedArgument)]
                } else {
                    seq![diag_step(SemaDiagKind::CallPositionalAfterNamedArgument)]
                }
            } else {
                Seq::empty()
            };
            let (s1, out) = positional_step(tys, st, params, unknown, comptime, arg);
            (s1, d + out)
        },
        Some(n) => if arg.spread is Some {
            let (s1, out) = positional_step(tys, st, params, unknown, comptime, arg);
            (s1, seq![diag_step(SemaDiagKind::CallNamedSpreadArgument)] + out)
        } else if st.runtime_spread {
            (
                st,
                seq![
                    diag_step(SemaDiagKind::CallNamedArgumentsAfterRuntimeSpread),
                    CallStep::CheckNamed { name: n, expected: None, comptime: false },
                ],
            )
        } else {
            named_step(st, params, param_names, comptime, n)
        },
    }
}

/// The arguments of a call, in order: the final state and each argument's
/// steps.
pub open spec fn args_steps(
    tys: Seq<TyNode>,
    params: Seq<TyId>,
    unknown: TyId,
    param_names: Seq<Symbol>,
    comptime: Seq<bool>,
    args: Seq<CallArg>,
) -> (CallState, Seq<Seq<CallStep>>)
    decreases args.len(),
{
    if args.len() == 0 {
        (start_state(params.len()), Seq::empty())
    } else {
        let (s1, outs) = args_steps(tys, params, unknown, param_names, comptime, args.drop_last());
        let (s2, out) = arg_step(tys, s1, params, unknown, param_names, comptime, args.last());
        (s2, outs.push(out))
    }
}

/// Whether the call's arity is wrong: with no spread of run-time length,
/// when more arguments came than parameters or a parameter has none; with
/// one, only when more arguments came than parameters.
pub open spec fn arity_mismatch(st: CallState, param_count: nat) -> bool {
    if st.runtime_spread {
        st.param_index > param_count
    } else {
        st.param_index > param_count || exists|i: int| 0 <= i < st.filled.len() && !(#[trigger] st.filled[i])
    }
}

/// Every spread type of `args` is a type of the store.
pub open spec fn spreads_in(tys: Seq<TyNode>, args: Seq<CallArg>) -> bool {
    forall|k: int| 0 <= k < args.len() ==> match (#[trigger] args[k]).spread {
        Some(t) => t.0 < tys.len(),
        None => true,
    }
}

/// The first position of `n` in `names`.
fn first_index_exec(names: &Vec<Symbol>, n: Symbol) -> (r: Option<usize>)
    ensures
        match r {
            Some(i) => first_index(names@, n) == Some(i as int),
            None => first_index(names@, n) is None,
        },
{
    let mut k: usize = 0;
    while k < names.len()
        invariant
            k <= names.len(),
            first_index(names@.subrange(0, k as int), n) is None,
        decreases names.len() - k,
    {
        proof {
            assert(names@.subrange(0, k + 1).drop_last() =~= names@.subrange(0, k as int));
        }
        if names[k] == n {
            proof {
                lemma_first_index_prefix(names@, n, k as int + 1);
            }
            return Some(k);
        }
        k = k + 1;
    }
    proof {
        assert(names@.subrange(0, k as int) =~= names@);
    }
    None
}

/// A position found in a prefix is the position in the whole.
proof fn lemma_first_index_prefix(names: Seq<Symbol>, n: Symbol, k: int)
    requires
        0 <= k <= names.len(),
        first_index(names.subrange(0, k), n) is Some,
    ensures
        first_index(names, n) == first_index(names.subrange(0, k), n),
    decreases names.len() - k,
{
    if k < names.len() {
        assert(names.subrange(0, k + 1).drop_last() =~= names.subrange(0, k));
        lemma_first_index_prefix(names, n, k + 1);
    } else {
        assert(names.subrange(0, k) =~= names);
    }
}

impl CallArgState {
    /// Before the first argument of a call with `param_count` parameters.
    pub fn new(param_count: usize) -> (s: Self)
        ensures
            s@ == start_state(param_count as nat),
    {
        let mut filled: Vec<bool> = Vec::new();
        let mut i: usize = 0;
        while i < param_count
            invariant
                i <= param_count,
                filled@ == Seq::new(i as nat, |_j: int| false),
            decreases param_count - i,
        {
            filled.push(false);
            i = i + 1;
            assert(filled@ =~= Seq::new(i as nat, |_j: int| false));
        }
        let s = CallArgState {
            param_index: 0,
            filled,
            has_runtime_spread: false,
            named_seen: Vec::new(),
            in_named_suffix: false,
        };
        assert(s@.named_seen =~= Seq::<Symbol>::empty());
        s
    }

    fn fill_next_exec(&mut self)
        ensures
            final(self)@ == fill_next(old(self)@),
    {
        if self.param_index < self.filled.len() {
            self.filled.set(self.param_index, true);
        }
        self.param_index = if self.param_index < usize::MAX {
            self.param_index + 1
        } else {
            usize::MAX
        };
    }

    fn spread_item(&mut self, params: &Vec<TyId>, unknown: TyId, found: TyId, out: &mut Vec<CallStep>)
        ensures
            final(self)@ == fill_next(old(self)@),
            final(out)@ == old(out)@.push(
                CallStep::Mismatch { expected: expected_at(params@, unknown, old(self).param_index), found },
            ),
    {
        let expected = if self.param_index < params.len() {
            params[self.param_index]
        } else {
            unknown
        };
        out.push(CallStep::Mismatch { expected, found });
        self.fill_next_exec();
    }

    fn spread_tuple(&mut self, params: &Vec<TyId>, unknown: TyId, items: &Vec<TyId>, out: &mut Vec<CallStep>)
        ensures
            (final(self)@, final(out)@) == ({
                let r = spread_items(old(self)@, params@, unknown, items@);
                (r.0, old(out)@ + r.1)
            }),
    {
        let ghost st0 = self@;
        let ghost out0 = out@;
        let mut k: usize = 0;
        while k < items.len()
            invariant
                k <= items.len(),
                self@ == spread_items(st0, params@, unknown, items@.subrange(0, k as int)).0,
                out@ == out0 + spread_items(st0, params@, unknown, items@.subrange(0, k as int)).1,
            decreases items.len() - k,
        {
            proof {
                assert(items@.subrange(0, k + 1).drop_last() =~= items@.subrange(0, k as int));
            }
            self.spread_item(params, unknown, items[k], out);
            k = k + 1;
            proof {
                assert(out@ =~= out0 + spread_items(st0, params@, unknown, items@.subrange(0, k as int)).1);
            }
        }
        proof {
            assert(items@.subrange(0, k as int) =~= items@);
        }
    }

    fn spread_repeat(&mut self, params: &Vec<TyId>, unknown: TyId, item: TyId, len: u32, out: &mut Vec<CallStep>)
        ensures
            (final(self)@, final(out)@) == ({
                let r = spread_items(old(self)@, params@, unknown, Seq::new(len as nat, |_i: int| item));
                (r.0, old(out)@ + r.1)
            }),
    {
        let ghost st0 = self@;
        let ghost out0 = out@;
        let mut k: u32 = 0;
        while k < len
            invariant
                k <= len,
                self@ == spread_items(st0, params@, unknown, Seq::new(k as nat, |_i: int| item)).0,
                out@ == out0 + spread_items(st0, params@, unknown, Seq::new(k as nat, |_i: int| item)).1,
            decreases len - k,
        {
            proof {
                assert(Seq::new((k + 1) as nat, |_i: int| item).drop_last() =~= Seq::new(k as nat, |_i: int| item));
            }
            self.spread_item(params, unknown, item, out);
            k = k + 1;
            proof {
                assert(out@ =~= out0 + spread_items(st0, params@, unknown, Seq::new(k as nat, |_i: int| item)).1);
            }
        }
    }

    fn unsized_array(&mut self, store: &TyStore, item: TyId, out: &mut Vec<CallStep>)
        requires
            item.0 < store.kinds().len(),
        ensures
            (final(self)@, final(out)@) == ({
                let r = unsized_array_spread(store.kinds(), old(self)@, item);
                (r.0, old(out)@ + r.1)
            }),
    {
        if let TyKind::Any = store.kind(item) {
            self.has_runtime_spread = true;
            proof {
                assert(out@ =~= old(out)@ + Seq::<CallStep>::empty());
            }
        } else {
            out.push(CallStep::Diag { kind: SemaDiagKind::CallRuntimeSpreadRequiresArrayAny, argument: None });
        }
    }

    fn spread(&mut self, store: &TyStore, params: &Vec<TyId>, unknown: TyId, ty: TyId, out: &mut Vec<CallStep>)
        requires
            ty.0 < store.kinds().len(),
        ensures
            (final(self)@, final(out)@) == ({
                let r = spread_step(store.kinds(), old(self)@, params@, unknown, ty);
                (r.0, old(out)@ + r.1)
            }),
    {
        proof {
            use_type_invariant(store);
            assert(children_below(store.kinds()[ty.0 as int], ty.0 as int));
        }
        let ghost out0 = out@;
        match store.kind(ty) {
            TyKind::Tuple { items } => {
                self.spread_tuple(params, unknown, items, out);
            },
            TyKind::Array { dims, item } => {
                if dims.len() == 0 {
                    self.unsized_array(store, *item, out);
                } else if dims.len() != 1 {
                    out.push(CallStep::Diag { kind: SemaDiagKind::CallSpreadRequiresTupleOrArray, argument: None });
                } else {
                    match dims[0] {
                        Dim::Int(len) => {
                            self.spread_repeat(params, unknown, *item, len, out);
                        },
                        _ => {
                            self.unsized_array(store, *item, out);
                        },
                    }
                }
            },
            TyKind::Sequence { item } => {
                let expected = if self.param_index < params.len() {
                    params[self.param_index]
                } else {
                    unknown
                };
                self.has_runtime_spread = true;
                out.push(CallStep::Mismatch { expected, found: *item });
            },
            TyKind::Range { bound } => {
                let expected = if self.param_index < params.len() {
                    params[self.param_index]
                } else {
                    unknown
                };
                self.has_runtime_spread = true;
                out.push(CallStep::Mismatch { expected, found: *bound });
                out.push(CallStep::RangeEvidence { item: *bound });
            },
            _ => {
                out.push(CallStep::Diag { kind: SemaDiagKind::InvalidSpreadSource, argument: None });
            },
        }
        proof {
            assert(out@ =~= out0 + spread_step(store.kinds(), old(self)@, params@, unknown, ty).1);
        }
    }

    fn positional(
        &mut self,
        store: &TyStore,
        params: &Vec<TyId>,
        unknown: TyId,
        comptime: &Vec<bool>,
        arg: CallArg,
        out: &mut Vec<CallStep>,
    )
        requires
            match arg.spread {
                Some(t) => t.0 < store.kinds().len(),
                None => true,
            },
        ensures
            (final(self)@, final(out)@) == ({
                let r = positional_step(store.kinds(), old(self)@, params@, unknown, comptime@, arg);
                (r.0, old(out)@ + r.1)
            }),
    {
        match arg.spread {
            None => {
                let expected = if self.param_index < params.len() {
                    params[self.param_index]
                } else {
                    unknown
                };
                let is_comptime = self.param_index < comptime.len() && comptime[self.param_index];
                out.push(CallStep::Check { expected, comptime: is_comptime });
                self.fill_next_exec();
                proof {
                    assert(out@ =~= old(out)@ + positional_step(store.kinds(), old(self)@, params@, unknown, comptime@, arg).1);
                }
            },
            Some(ty) => {
                self.spread(store, params, unknown, ty, out);
            },
        }
    }

    fn seen(&self, n: Symbol) -> (r: bool)
        ensures
            r == self@.named_seen.contains(n),
    {
        let mut k: usize = 0;
        while k < self.named_seen.len()
            invariant
                k <= self.named_seen.len(),
                forall|j: int| 0 <= j < k ==> self.named_seen@[j] != n,
            decreases self.named_seen.len() - k,
        {
            if self.named_seen[k] == n {
                return true;
            }
            k = k + 1;
        }
        false
    }

    fn named(
        &mut self,
        params: &Vec<TyId>,
        param_names: &Vec<Symbol>,
        comptime: &Vec<bool>,
        n: Symbol,
        out: &mut Vec<CallStep>,
    )
        ensures
            (final(self)@, final(out)@) == ({
                let r = named_step(old(self)@, params@, param_names@, comptime@, n);
                (r.0, old(out)@ + r.1)
            }),
    {
        let ghost st0 = self@;
        let ghost out0 = out@;
        if self.seen(n) {
            out.push(CallStep::Diag { kind: SemaDiagKind::CallNamedArgumentDuplicate, argument: Some(n) });
        } else {
            self.named_seen.push(n);
        }
        self.in_named_suffix = true;
        let ghost out1 = out@;
        let index = first_index_exec(param_names, n);
        match index {
            None => {
                out.push(CallStep::Diag { kind: SemaDiagKind::CallNamedArgumentUnknown, argument: Some(n) });
                out.push(CallStep::CheckNamed { name: n, expected: None, comptime: false });
            },
            Some(i) => {
                if i < self.filled.len() && self.filled[i] {
                    out.push(CallStep::Diag { kind: SemaDiagKind::CallNamedArgumentAlreadyProvided, argument: None });
                }
                let expected = if i < params.len() {
                    Some(params[i])
                } else {
                    None
                };
                let is_comptime = i < comptime.len() && comptime[i];
                out.push(CallStep::CheckNamed { name: n, expected, comptime: is_comptime });
                if i < self.filled.len() {
                    self.filled.set(i, true);
                }
            },
        }
        proof {
            assert(out@ =~= out0 + named_step(st0, params@, param_names@, comptime@, n).1);
            assert(self@.filled =~= named_step(st0, params@, param_names@, comptime@, n).0.filled);
        }
    }

    /// Matches the next argument of the call; the steps it asks for, in
    /// order.
    pub fn step(
        &mut self,
        store: &TyStore,
        params: &Vec<TyId>,
        unknown: TyId,
        param_names: &Vec<Symbol>,
        comptime: &Vec<bool>,
        arg: CallArg,
    ) -> (out: Vec<CallStep>)
        requires
            match arg.spread {
                Some(t) => t.0 < store.kinds().len(),
                None => true,
            },
        ensures
            (final(self)@, out@) == arg_step(store.kinds(), old(self)@, params@, unknown, param_names@, comptime@, arg),
    {
        let mut out: Vec<CallStep> = Vec::new();
        match arg.name {
            None => {
                if self.in_named_suffix {
                    let kind = if arg.spread.is_some() {
                        SemaDiagKind::CallSpreadAfterNamedArgument
                    } else {
                        SemaDiagKind::CallPositionalAfterNamedArgument
                    };
                    out.push(CallStep::Diag { kind, argument: None });
                }
                self.positional(store, params, unknown, comptime, arg, &mut out);
            },
            Some(n) => {
                if arg.spread.is_some() {
                    out.push(CallStep::Diag { kind: SemaDiagKind::CallNamedSpreadArgument, argument: None });
                    self.positional(store, params, unknown, comptime, arg, &mut out);
                } else if self.has_runtime_spread {
                    out.push(CallStep::Diag { kind: SemaDiagKind::CallNamedArgumentsAfterRuntimeSpread, argument: None });
                    out.push(CallStep::CheckNamed { name: n, expected: None, comptime: false });
                } else {
                    self.named(params, param_names, comptime, n, &mut out);
                }
            },
        }
        proof {
            assert(out@ =~= arg_step(store.kinds(), old(self)@, params@, unknown, param_names@, comptime@, arg).1);
        }
        out
    }

    /// Whether, after the last argument, the call's arity is wrong.
    pub fn arity_mismatch(&self, param_count: usize) -> (r: bool)
        ensures
            r == arity_mismatch(self@, param_count as nat),
    {
        if self.param_index > param_count {
            return true;
        }
        if self.has_runtime_spread {
            return false;
        }
        let mut k: usize = 0;
        while k < self.filled.len()
            invariant
                k <= self.filled.len(),
                !self.has_runtime_spread,
                self.param_index <= param_count,
                forall|j: int| 0 <= j < k ==> self.filled@[j],
            decreases self.filled.len() - k,
        {
            if !self.filled[k] {
                assert(!self@.filled[k as int]);
                return true;
            }
            k = k + 1;
        }
        false
    }
}

/// Matches all arguments of a call, in order: each argument's steps, and
/// whether the call's arity is wrong.
pub fn plan_call_args(
    store: &TyStore,
    params: &Vec<TyId>,
    unknown: TyId,
    param_names: &Vec<Symbol>,
    comptime: &Vec<bool>,
    args: &Vec<CallArg>,
) -> (r: (Vec<Vec<CallStep>>, bool))
    requires
        spreads_in(store.kinds(), args@),
    ensures
        r.0@.map_values(|v: Vec<CallStep>| v@) == args_steps(store.kinds(), params@, unknown, param_names@, comptime@, args@).1,
        r.1 == arity_mismatch(
            args_steps(store.kinds(), params@, unknown, param_names@, comptime@, args@).0,
            params@.len(),
        ),
{
    let mut state = CallArgState::new(params.len());
    let mut outs: Vec<Vec<CallStep>> = Vec::new();
    let mut i: usize = 0;
    while i < args.len()
        invariant
            i <= args.len(),
            spreads_in(store.kinds(), args@),
            state@ == args_steps(store.kinds(), params@, unknown, param_names@, comptime@, args@.subrange(0, i as int)).0,
            outs@.map_values(|v: Vec<CallStep>| v@) == args_steps(
                store.kinds(),
                params@,
                unknown,
                param_names@,
                comptime@,
                args@.subrange(0, i as int),
            ).1,
        decreases args.len() - i,
    {
        proof {
            assert(args@.subrange(0, i + 1).drop_last() =~= args@.subrange(0, i as int));
        }
        let ghost before = outs@;
        let out = state.step(store, params, unknown, param_names, comptime, args[i]);
        outs.push(out);
        proof {
            assert(outs@.map_values(|v: Vec<CallStep>| v@) =~= before.map_values(|v: Vec<CallStep>| v@).push(out@));
        }
        i = i + 1;
    }
    proof {
        assert(args@.subrange(0, i as int) =~= args@);
    }
    let mismatch = state.arity_mismatch(params.len());
    (outs, mismatch)
}

/// Every argument is positional and no spread.
pub open spec fn all_plain(args: Seq<CallArg>) -> bool {
    forall|k: int| 0 <= k < args.len() ==> (#[trigger] args[k]).name is None && args[k].spread is None
}

/// Plain positional arguments fill the parameters in order: after `n` of
/// them the first `n` parameters are filled, and argument `k` is checked
/// against parameter `k`.
proof fn lemma_plain_prefix(
    tys: Seq<TyNode>,
    params: Seq<TyId>,
    unknown: TyId,
    param_names: Seq<Symbol>,
    comptime: Seq<bool>,
    args: Seq<CallArg>,
)
    requires
        all_plain(args),
        args.len() <= usize::MAX,
    ensures
        args_steps(tys, params, unknown, param_names, comptime, args).0.param_index == args.len(),
        args_steps(tys, params, unknown, param_names, comptime, args).0.filled == Seq::new(
            params.len(),
            |i: int| i < args.len(),
        ),
        !args_steps(tys, params, unknown, param_names, comptime, args).0.runtime_spread,
        !args_steps(tys, params, unknown, param_names, comptime, args).0.in_named_suffix,
        args_steps(tys, params, unknown, param_names, comptime, args).1.len() == args.len(),
        forall|k: int|
            0 <= k < args.len() ==> #[trigger] args_steps(tys, params, unknown, param_names, comptime, args).1[k] == seq![
                CallStep::Check { expected: expected_at(params, unknown, k as usize), comptime: comptime_at(comptime, k) },
            ],
    decreases args.len(),
{
    let st = args_steps(tys, params, unknown, param_names, comptime, args).0;
    if args.len() == 0 {
        assert(st.filled =~= Seq::new(params.len(), |i: int| i < args.len()));
    } else {
        let init = args.drop_last();
        assert(all_plain(init)) by {
            assert forall|k: int| 0 <= k < init.len() implies (#[trigger] init[k]).name is None && init[k].spread is None by {
                assert(init[k] == args[k]);
            }
        }
        assert(args[args.len() - 1] == args.last());
        lemma_plain_prefix(tys, params, unknown, param_names, comptime, init);
        assert(st.filled =~= Seq::new(params.len(), |i: int| i < args.len()));
    }
}

/// A call whose arguments are all plain positional ones checks argument `k`
/// against parameter `k` (the unknown type past the last parameter), and has
/// a wrong arity exactly when the numbers of arguments and parameters
/// differ.
pub proof fn lemma_plain_call(
    tys: Seq<TyNode>,
    params: Seq<TyId>,
    unknown: TyId,
    param_names: Seq<Symbol>,
    comptime: Seq<bool>,
    args: Seq<CallArg>,
)
    requires
        all_plain(args),
        args.len() <= usize::MAX,
    ensures
        forall|k: int|
            0 <= k < args.len() ==> #[trigger] args_steps(tys, params, unknown, param_names, comptime, args).1[k] == seq![
                CallStep::Check { expected: expected_at(params, unknown, k as usize), comptime: comptime_at(comptime, k) },
            ],
        arity_mismatch(args_steps(tys, params, unknown, param_names, comptime, args).0, params.len()) <==> args.len()
            != params.len(),
{
    lemma_plain_prefix(tys, params, unknown, param_names, comptime, args);
    let st = args_steps(tys, params, unknown, param_names, comptime, args).0;
    if args.len() < params.len() {
        assert(!st.filled[args.len() as int]);
    }
}

} // verus!
