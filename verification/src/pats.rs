//! Patterns: which patterns always match, which names a pattern binds, and
//! how a pattern is bound against a type, node by node.
use vstd::prelude::*;

use crate::const_eval::symbol_text;
use crate::diag::SemaDiagKind;
use crate::expr::ExprId;
use crate::facts::SemaDataDef;
use crate::ty::{children_below, store_wf, Symbol, TyId, TyNode};

verus! {

/// The id of a pattern in a `PatStore`.
#[derive(Debug, Clone, Copy, PartialEq, Eq, Hash, Structural)]
pub struct PatId(pub u32);

/// A field of a record pattern: its name, the binding a bare field name
/// declares, and the pattern it is matched against, if written.
#[derive(Debug, Clone, Copy, PartialEq, Eq, Structural)]
pub struct RecordPatField {
    pub name: Symbol,
    pub binding: Option<u32>,
    pub value: Option<PatId>,
}

/// An argument of a variant pattern: its field name, if written, and its
/// pattern.
#[derive(Debug, Clone, Copy, PartialEq, Eq, Structural)]
pub struct VariantPatArg {
    pub name: Option<Symbol>,
    pub pat: PatId,
}

/// A pattern; sub-patterns are ids in the same store.
#[derive(Debug, Clone, PartialEq, Eq)]
pub enum PatKind {
    Error,
    Wildcard,
    /// A name; the binding it declares, when resolved.
    Bind { name: Symbol, binding: Option<u32> },
    /// A literal, matched by value.
    Lit { expr: ExprId },
    Tuple { items: Vec<PatId> },
    Array { items: Vec<PatId> },
    Record { fields: Vec<RecordPatField> },
    Variant { tag: Symbol, args: Vec<VariantPatArg> },
    Or { left: PatId, right: PatId },
    /// `pat as name`.
    As { pat: PatId, name: Symbol, binding: Option<u32> },
}

/// Every id in `ids` is below `bound`.
pub open spec fn pat_ids_below(ids: Seq<PatId>, bound: int) -> bool {
    forall|k: int| 0 <= k < ids.len() ==> (#[trigger] ids[k]).0 < bound
}

/// Every sub-pattern of `k` is below `bound`.
pub open spec fn pat_kind_wf(k: PatKind, bound: int) -> bool {
    match k {
        PatKind::Tuple { items } => pat_ids_below(items@, bound),
        PatKind::Array { items } => pat_ids_below(items@, bound),
        PatKind::Record { fields } => forall|j: int|
            0 <= j < fields@.len() ==> ((#[trigger] fields@[j]).value matches Some(v) ==> v.0 < bound),
        PatKind::Variant { args, .. } => forall|j: int| 0 <= j < args@.len() ==> (#[trigger] args@[j]).pat.0 < bound,
        PatKind::Or { left, right } => left.0 < bound && right.0 < bound,
        PatKind::As { pat, .. } => pat.0 < bound,
        _ => true,
    }
}

/// Every pattern's sub-patterns come before it.
pub open spec fn pats_wf(pats: Seq<PatKind>) -> bool {
    forall|i: int| 0 <= i < pats.len() ==> pat_kind_wf(#[trigger] pats[i], i)
}

/// An arena of patterns, each one's sub-patterns before it.
pub struct PatStore {
    pats: Vec<PatKind>,
}

impl PatStore {
    /// Sub-patterns come before their patterns.
    #[verifier::type_invariant]
    pub open spec fn wf(self) -> bool {
        &&& pats_wf(self.kinds())
        &&& self.kinds().len() <= u32::MAX
    }

    /// The patterns, by id.
    pub closed spec fn kinds(self) -> Seq<PatKind> {
        self.pats@
    }

    /// An empty store.
    pub fn new() -> (s: Self)
        ensures
            s.kinds() == Seq::<PatKind>::empty(),
    {
        PatStore { pats: Vec::new() }
    }

    /// The number of patterns.
    pub fn len(&self) -> (n: usize)
        ensures
            n == self.kinds().len(),
    {
        self.pats.len()
    }

    /// The pattern `id`.
    pub fn kind(&self, id: PatId) -> (k: &PatKind)
        requires
            id.0 < self.kinds().len(),
        ensures
            *k == self.kinds()[id.0 as int],
    {
        &self.pats[id.0 as usize]
    }

    /// Adds a pattern whose sub-patterns are already in the store; `None`,
    /// with the store unchanged, when one is not or the store is full.
    pub fn push_pat(&mut self, kind: PatKind) -> (id: Option<PatId>)
        ensures
            pat_kind_wf(kind, old(self).kinds().len() as int) && old(self).kinds().len() < u32::MAX ==> id == Some(
                PatId(old(self).kinds().len() as u32),
            ) && final(self).kinds() == old(self).kinds().push(kind),
            !(pat_kind_wf(kind, old(self).kinds().len() as int) && old(self).kinds().len() < u32::MAX) ==> id is None
                && final(self).kinds() == old(self).kinds(),
    {
        proof {
            use_type_invariant(&*self);
        }
        if self.pats.len() >= u32::MAX as usize || !pat_kind_wf_exec(&kind, self.pats.len()) {
            return None;
        }
        let id = PatId(self.pats.len() as u32);
        let mut pats: Vec<PatKind> = Vec::new();
        std::mem::swap(&mut pats, &mut self.pats);
        let ghost before = pats@;
        pats.push(kind);
        proof {
            assert forall|i: int| 0 <= i < pats@.len() implies pat_kind_wf(#[trigger] pats@[i], i) by {
                if i < before.len() {
                    assert(pats@[i] == before[i]);
                }
            }
        }
        self.pats = pats;
        Some(id)
    }
}

fn ids_below_exec(items: &Vec<PatId>, bound: usize) -> (r: bool)
    ensures
        r == pat_ids_below(items@, bound as int),
{
    let mut j: usize = 0;
    while j < items.len()
        invariant
            j <= items.len(),
            forall|q: int| 0 <= q < j ==> (#[trigger] items@[q]).0 < bound,
        decreases items.len() - j,
    {
        if items[j].0 as usize >= bound {
            assert(!((items@[j as int]).0 < bound));
            return false;
        }
        j = j + 1;
    }
    true
}

fn fields_below_exec(fields: &Vec<RecordPatField>, bound: usize) -> (r: bool)
    ensures
        r == forall|q: int| 0 <= q < fields@.len() ==> ((#[trigger] fields@[q]).value matches Some(v) ==> v.0 < bound),
{
    let mut j: usize = 0;
    while j < fields.len()
        invariant
            j <= fields.len(),
            forall|q: int| 0 <= q < j ==> ((#[trigger] fields@[q]).value matches Some(v) ==> v.0 < bound),
        decreases fields.len() - j,
    {
        if let Some(v) = fields[j].value {
            if v.0 as usize >= bound {
                assert(fields@[j as int].value == Some(v));
                return false;
            }
        }
        j = j + 1;
    }
    true
}

fn args_below_exec(args: &Vec<VariantPatArg>, bound: usize) -> (r: bool)
    ensures
        r == forall|q: int| 0 <= q < args@.len() ==> (#[trigger] args@[q]).pat.0 < bound,
{
    let mut j: usize = 0;
    while j < args.len()
        invariant
            j <= args.len(),
            forall|q: int| 0 <= q < j ==> (#[trigger] args@[q]).pat.0 < bound,
        decreases args.len() - j,
    {
        if args[j].pat.0 as usize >= bound {
            assert(!((args@[j as int]).pat.0 < bound));
            return false;
        }
        j = j + 1;
    }
    true
}

fn pat_kind_wf_exec(k: &PatKind, bound: usize) -> (r: bool)
    ensures
        r == pat_kind_wf(*k, bound as int),
{
    match k {
        PatKind::Tuple { items } => ids_below_exec(items, bound),
        PatKind::Array { items } => ids_below_exec(items, bound),
        PatKind::Record { fields } => fields_below_exec(fields, bound),
        PatKind::Variant { args, .. } => args_below_exec(args, bound),
        PatKind::Or { left, right } => (left.0 as usize) < bound && (right.0 as usize) < bound,
        PatKind::As { pat, .. } => (pat.0 as usize) < bound,
        _ => true,
    }
}

/// Whether pattern `id` matches every value: wildcards and names do, and
/// tuples, arrays, records and `as` patterns whose parts all do; literals,
/// variants and alternatives may not.
pub open spec fn irrefutable(pats: Seq<PatKind>, id: PatId) -> bool
    decreases id.0, 1nat, 0nat,
    when pats_wf(pats) && id.0 < pats.len()
{
    match pats[id.0 as int] {
        PatKind::Error | PatKind::Wildcard | PatKind::Bind { .. } => true,
        PatKind::Tuple { items } => items_irrefutable(pats, id, items@, 0),
        PatKind::Array { items } => items_irrefutable(pats, id, items@, 0),
        PatKind::Record { fields } => fields_irrefutable(pats, id, fields@, 0),
        PatKind::As { pat, .. } => irrefutable(pats, pat),
        _ => false,
    }
}

/// Whether the patterns `items[k..]`, parts of `parent`, all match every
/// value.
pub open spec fn items_irrefutable(pats: Seq<PatKind>, parent: PatId, items: Seq<PatId>, k: int) -> bool
    decreases parent.0, 0nat, items.len() - k,
    when pats_wf(pats) && parent.0 < pats.len() && pat_ids_below(items, parent.0 as int) && 0 <= k
{
    if k >= items.len() {
        true
    } else {
        irrefutable(pats, items[k]) && items_irrefutable(pats, parent, items, k + 1)
    }
}

/// Whether the field patterns `fields[k..]` of `parent` all match every
/// value.
pub open spec fn fields_irrefutable(pats: Seq<PatKind>, parent: PatId, fields: Seq<RecordPatField>, k: int) -> bool
    decreases parent.0, 0nat, fields.len() - k,
    when pats_wf(pats) && parent.0 < pats.len() && (forall|j: int|
        0 <= j < fields.len() ==> ((#[trigger] fields[j]).value matches Some(v) ==> v.0 < parent.0)) && 0 <= k
{
    if k >= fields.len() {
        true
    } else {
        (match fields[k].value {
            Some(v) => irrefutable(pats, v),
            None => true,
        }) && fields_irrefutable(pats, parent, fields, k + 1)
    }
}

/// Whether pattern `id` matches every value.
pub fn pat_is_irrefutable(store: &PatStore, id: PatId) -> (r: bool)
    requires
        id.0 < store.kinds().len(),
    ensures
        r == irrefutable(store.kinds(), id),
    decreases id.0, 1nat,
{
    proof {
        use_type_invariant(store);
        assert(pat_kind_wf(store.kinds()[id.0 as int], id.0 as int));
    }
    match store.kind(id) {
        PatKind::Error | PatKind::Wildcard | PatKind::Bind { .. } => true,
        PatKind::Tuple { items } | PatKind::Array { items } => items_are_irrefutable(store, id, items),
        PatKind::Record { fields } => {
            let mut k: usize = fields.len();
            let mut all = true;
            proof {
                assert(fields_irrefutable(store.kinds(), id, fields@, k as int));
            }
            while k > 0
                invariant
                    k <= fields.len(),
                    id.0 < store.kinds().len(),
                    pats_wf(store.kinds()),
                    store.kinds()[id.0 as int] == (PatKind::Record { fields: *fields }),
                    forall|j: int| 0 <= j < fields@.len() ==> ((#[trigger] fields@[j]).value matches Some(v) ==> v.0 < id.0),
                    all == fields_irrefutable(store.kinds(), id, fields@, k as int),
                decreases k,
            {
                k = k - 1;
                let here = match fields[k].value {
                    Some(v) => pat_is_irrefutable(store, v),
                    None => true,
                };
                all = here && all;
            }
            all
        },
        PatKind::As { pat, .. } => pat_is_irrefutable(store, *pat),
        _ => false,
    }
}

fn items_are_irrefutable(store: &PatStore, id: PatId, items: &Vec<PatId>) -> (r: bool)
    requires
        id.0 < store.kinds().len(),
        pat_ids_below(items@, id.0 as int),
    ensures
        r == items_irrefutable(store.kinds(), id, items@, 0),
    decreases id.0, 0nat,
{
    proof {
        use_type_invariant(store);
    }
    let mut k: usize = items.len();
    let mut all = true;
    while k > 0
        invariant
            k <= items.len(),
            id.0 < store.kinds().len(),
            pats_wf(store.kinds()),
            pat_ids_below(items@, id.0 as int),
            all == items_irrefutable(store.kinds(), id, items@, k as int),
        decreases k,
    {
        k = k - 1;
        let here = pat_is_irrefutable(store, items[k]);
        all = here && all;
    }
    all
}

/// The binding an optional binding names, as a set.
pub open spec fn opt_set(b: Option<u32>) -> Set<u32> {
    match b {
        Some(x) => set![x],
        None => Set::empty(),
    }
}

/// The bindings pattern `id` declares.
pub open spec fn binders(pats: Seq<PatKind>, id: PatId) -> Set<u32>
    decreases id.0, 1nat, 0nat,
    when pats_wf(pats) && id.0 < pats.len()
{
    match pats[id.0 as int] {
        PatKind::Bind { binding, .. } => opt_set(binding),
        PatKind::Tuple { items } => items_binders(pats, id, items@, 0),
        PatKind::Array { items } => items_binders(pats, id, items@, 0),
        PatKind::Record { fields } => fields_binders(pats, id, fields@, 0),
        PatKind::Variant { args, .. } => args_binders(pats, id, args@, 0),
        PatKind::Or { left, right } => binders(pats, left) + binders(pats, right),
        PatKind::As { pat, binding, .. } => binders(pats, pat) + opt_set(binding),
        _ => Set::empty(),
    }
}

/// The bindings the patterns `items[k..]`, parts of `parent`, declare.
pub open spec fn items_binders(pats: Seq<PatKind>, parent: PatId, items: Seq<PatId>, k: int) -> Set<u32>
    decreases parent.0, 0nat, items.len() - k,
    when pats_wf(pats) && parent.0 < pats.len() && pat_ids_below(items, parent.0 as int) && 0 <= k
{
    if k >= items.len() {
        Set::empty()
    } else {
        binders(pats, items[k]) + items_binders(pats, parent, items, k + 1)
    }
}

/// The bindings the fields `fields[k..]` of `parent` declare: a bare field
/// name its own binding, a field with a pattern that pattern's.
pub open spec fn fields_binders(pats: Seq<PatKind>, parent: PatId, fields: Seq<RecordPatField>, k: int) -> Set<u32>
    decreases parent.0, 0nat, fields.len() - k,
    when pats_wf(pats) && parent.0 < pats.len() && (forall|j: int|
        0 <= j < fields.len() ==> ((#[trigger] fields[j]).value matches Some(v) ==> v.0 < parent.0)) && 0 <= k
{
    if k >= fields.len() {
        Set::empty()
    } else {
        (match fields[k].value {
            Some(v) => binders(pats, v),
            None => opt_set(fields[k].binding),
        }) + fields_binders(pats, parent, fields, k + 1)
    }
}

/// The bindings the arguments `args[k..]` of the variant pattern `parent`
/// declare.
pub open spec fn args_binders(pats: Seq<PatKind>, parent: PatId, args: Seq<VariantPatArg>, k: int) -> Set<u32>
    decreases parent.0, 0nat, args.len() - k,
    when pats_wf(pats) && parent.0 < pats.len() && (forall|j: int| 0 <= j < args.len() ==> (#[trigger] args[j]).pat.0 < parent.0)
        && 0 <= k
{
    if k >= args.len() {
        Set::empty()
    } else {
        binders(pats, args[k].pat) + args_binders(pats, parent, args, k + 1)
    }
}

fn push_opt(out: &mut Vec<u32>, b: Option<u32>)
    ensures
        final(out)@.to_set() == old(out)@.to_set() + opt_set(b),
{
    if let Some(x) = b {
        let ghost before = out@;
        out.push(x);
        proof {
            assert(out@ == before.push(x));
            assert forall|y: u32| out@.contains(y) <==> (before.contains(y) || y == x) by {
                if before.contains(y) {
                    let j = before.index_of(y);
                    assert(out@[j] == y);
                }
                if y == x {
                    assert(out@[before.len() as int] == y);
                }
                if out@.contains(y) {
                    let j = out@.index_of(y);
                    if j < before.len() {
                        assert(before[j] == y);
                    }
                }
            }
            assert(out@.to_set() =~= before.to_set() + set![x]);
        }
    } else {
        assert(out@.to_set() =~= old(out)@.to_set() + Set::<u32>::empty());
    }
}

/// Adds the bindings pattern `id` declares to `out`.
fn collect_binders(store: &PatStore, id: PatId, out: &mut Vec<u32>)
    requires
        id.0 < store.kinds().len(),
    ensures
        final(out)@.to_set() == old(out)@.to_set() + binders(store.kinds(), id),
    decreases id.0, 1nat,
{
    proof {
        use_type_invariant(store);
        assert(pat_kind_wf(store.kinds()[id.0 as int], id.0 as int));
    }
    let ghost before = out@.to_set();
    match store.kind(id) {
        PatKind::Bind { binding, .. } => push_opt(out, *binding),
        PatKind::Tuple { items } | PatKind::Array { items } => {
            collect_items_binders(store, id, items, out);
            assert(out@.to_set() =~= before + binders(store.kinds(), id));
        },
        PatKind::Record { fields } => {
            let mut k: usize = 0;
            while k < fields.len()
                invariant
                    k <= fields.len(),
                    id.0 < store.kinds().len(),
                    pats_wf(store.kinds()),
                    store.kinds()[id.0 as int] == (PatKind::Record { fields: *fields }),
                    forall|j: int| 0 <= j < fields@.len() ==> ((#[trigger] fields@[j]).value matches Some(v) ==> v.0 < id.0),
                    out@.to_set() + fields_binders(store.kinds(), id, fields@, k as int) == before + binders(store.kinds(), id),
                decreases fields.len() - k,
            {
                let ghost mid = out@.to_set();
                match fields[k].value {
                    Some(v) => collect_binders(store, v, out),
                    None => push_opt(out, fields[k].binding),
                }
                proof {
                    assert(out@.to_set() + fields_binders(store.kinds(), id, fields@, k + 1) =~= mid + fields_binders(
                        store.kinds(),
                        id,
                        fields@,
                        k as int,
                    ));
                }
                k = k + 1;
            }
            proof {
                assert(out@.to_set() =~= before + binders(store.kinds(), id));
            }
        },
        PatKind::Variant { args, .. } => {
            let mut k: usize = 0;
            while k < args.len()
                invariant
                    k <= args.len(),
                    id.0 < store.kinds().len(),
                    pats_wf(store.kinds()),
                    store.kinds()[id.0 as int] matches PatKind::Variant { .. },
                    store.kinds()[id.0 as int]->args == *args,
                    forall|j: int| 0 <= j < args@.len() ==> (#[trigger] args@[j]).pat.0 < id.0,
                    out@.to_set() + args_binders(store.kinds(), id, args@, k as int) == before + binders(store.kinds(), id),
                decreases args.len() - k,
            {
                let ghost mid = out@.to_set();
                collect_binders(store, args[k].pat, out);
                proof {
                    assert(out@.to_set() + args_binders(store.kinds(), id, args@, k + 1) =~= mid + args_binders(
                        store.kinds(),
                        id,
                        args@,
                        k as int,
                    ));
                }
                k = k + 1;
            }
            proof {
                assert(out@.to_set() =~= before + binders(store.kinds(), id));
            }
        },
        PatKind::Or { left, right } => {
            collect_binders(store, *left, out);
            collect_binders(store, *right, out);
            assert(out@.to_set() =~= before + binders(store.kinds(), id));
        },
        PatKind::As { pat, binding, .. } => {
            collect_binders(store, *pat, out);
            push_opt(out, *binding);
            assert(out@.to_set() =~= before + binders(store.kinds(), id));
        },
        _ => {
            assert(out@.to_set() =~= before + binders(store.kinds(), id));
        },
    }
}

fn collect_items_binders(store: &PatStore, id: PatId, items: &Vec<PatId>, out: &mut Vec<u32>)
    requires
        id.0 < store.kinds().len(),
        pat_ids_below(items@, id.0 as int),
    ensures
        final(out)@.to_set() == old(out)@.to_set() + items_binders(store.kinds(), id, items@, 0),
    decreases id.0, 0nat,
{
    proof {
        use_type_invariant(store);
    }
    let ghost before = out@.to_set();
    let mut k: usize = 0;
    while k < items.len()
        invariant
            k <= items.len(),
            id.0 < store.kinds().len(),
            pats_wf(store.kinds()),
            pat_ids_below(items@, id.0 as int),
            out@.to_set() + items_binders(store.kinds(), id, items@, k as int) == before + items_binders(
                store.kinds(),
                id,
                items@,
                0,
            ),
        decreases items.len() - k,
    {
        let ghost mid = out@.to_set();
        collect_binders(store, items[k], out);
        proof {
            assert(out@.to_set() + items_binders(store.kinds(), id, items@, k + 1) =~= mid + items_binders(
                store.kinds(),
                id,
                items@,
                k as int,
            ));
        }
        k = k + 1;
    }
    proof {
        assert(out@.to_set() =~= before + items_binders(store.kinds(), id, items@, 0));
    }
}

/// The bindings pattern `id` declares.
pub fn binders_in_pat(store: &PatStore, id: PatId) -> (r: Vec<u32>)
    requires
        id.0 < store.kinds().len(),
    ensures
        r@.to_set() == binders(store.kinds(), id),
{
    let mut out: Vec<u32> = Vec::new();
    collect_binders(store, id, &mut out);
    proof {
        assert(Seq::<u32>::empty().to_set() =~= Set::<u32>::empty());
        assert(out@.to_set() =~= binders(store.kinds(), id));
    }
    out
}

/// Whether two lists hold the same values.
fn same_set(a: &Vec<u32>, b: &Vec<u32>) -> (r: bool)
    ensures
        r == (a@.to_set() == b@.to_set()),
{
    let mut i: usize = 0;
    while i < a.len()
        invariant
            i <= a.len(),
            forall|j: int| 0 <= j < i ==> b@.contains(#[trigger] a@[j]),
        decreases a.len() - i,
    {
        if !contains_u32(b, a[i]) {
            proof {
                assert(a@.to_set().contains(a@[i as int]));
                assert(!b@.to_set().contains(a@[i as int]));
            }
            return false;
        }
        i = i + 1;
    }
    let mut j: usize = 0;
    while j < b.len()
        invariant
            j <= b.len(),
            forall|q: int| 0 <= q < a@.len() ==> b@.contains(#[trigger] a@[q]),
            forall|q: int| 0 <= q < j ==> a@.contains(#[trigger] b@[q]),
        decreases b.len() - j,
    {
        if !contains_u32(a, b[j]) {
            proof {
                assert(b@.to_set().contains(b@[j as int]));
                assert(!a@.to_set().contains(b@[j as int]));
            }
            return false;
        }
        j = j + 1;
    }
    proof {
        assert forall|x: u32| a@.to_set().contains(x) <==> b@.to_set().contains(x) by {
            if a@.contains(x) {
                let q = a@.index_of(x);
                assert(a@[q] == x);
            }
            if b@.contains(x) {
                let q = b@.index_of(x);
                assert(b@[q] == x);
            }
        }
        assert(a@.to_set() =~= b@.to_set());
    }
    true
}

fn contains_u32(v: &Vec<u32>, x: u32) -> (r: bool)
    ensures
        r == v@.contains(x),
{
    let mut k: usize = 0;
    while k < v.len()
        invariant
            k <= v.len(),
            forall|j: int| 0 <= j < k ==> v@[j] != x,
        decreases v.len() - k,
    {
        if v[k] == x {
            assert(v@[k as int] == x);
            return true;
        }
        k = k + 1;
    }
    false
}

/// Whether the two sides of an alternative pattern declare the same
/// bindings, as they must.
pub fn or_pattern_binders_match(store: &PatStore, left: PatId, right: PatId) -> (r: bool)
    requires
        left.0 < store.kinds().len(),
        right.0 < store.kinds().len(),
    ensures
        r == (binders(store.kinds(), left) == binders(store.kinds(), right)),
{
    let l = binders_in_pat(store, left);
    let r = binders_in_pat(store, right);
    same_set(&l, &r)
}

/// What binding one pattern node asks for, in order.
#[derive(Debug, Clone, Copy, PartialEq, Eq, Structural)]
pub enum PatStep {
    /// Pattern `pat` is matched against a value of type `ty`.
    Fact { pat: PatId, ty: TyId },
    /// Binding `binding` gets the type `ty`.
    BindType { binding: u32, ty: TyId },
    /// The literal expression is checked against `expected`.
    CheckLit { expr: ExprId, expected: TyId },
    /// The sub-pattern `pat` is bound against `ty`.
    Visit { pat: PatId, ty: TyId },
    /// The sum data definition of `left + right` is made to exist.
    EnsureSum { left: TyId, right: TyId },
    /// A diagnostic.
    Diag { kind: SemaDiagKind },
    /// A diagnostic naming a field written in the pattern.
    FieldDiag { kind: SemaDiagKind, name: Symbol },
    /// The variant's field at `index` has no argument.
    MissingField { index: usize },
}

/// What the type a variant pattern is matched against says of the variant
/// `tag`: its field types and names, and the sum type to make a definition
/// for. A sum's `Left` and `Right` take the side's type, or its items for a
/// tuple; a data type's variant its fields; `Bool` the variants of `Bit`.
pub open spec fn variant_expected(
    tys: Seq<TyNode>,
    names: Seq<Seq<char>>,
    defs: Map<Seq<char>, SemaDataDef>,
    ty: TyId,
    tag: Symbol,
) -> (Seq<TyId>, Seq<Option<String>>, Option<(TyId, TyId)>) {
    let t = symbol_text(names, tag);
    match tys[ty.0 as int] {
        TyNode::Sum { left, right } => {
            let chosen: Option<TyId> = if t == "Left"@ {
                Some(left)
            } else if t == "Right"@ {
                Some(right)
            } else {
                None
            };
            match chosen {
                Some(p) => (
                    match tys[p.0 as int] {
                        TyNode::Tuple { items } => items,
                        _ => seq![p],
                    },
                    Seq::empty(),
                    Some((left, right)),
                ),
                None => (Seq::empty(), Seq::empty(), None),
            }
        },
        TyNode::Named { name, .. } => data_variant_fields(defs, symbol_text(names, name), t),
        TyNode::Bool => data_variant_fields(defs, "Bit"@, t),
        _ => (Seq::empty(), Seq::empty(), None),
    }
}

/// The field types and names of variant `tag` of the data definition
/// `data`, or none.
pub open spec fn data_variant_fields(defs: Map<Seq<char>, SemaDataDef>, data: Seq<char>, tag: Seq<char>) -> (
    Seq<TyId>,
    Seq<Option<String>>,
    Option<(TyId, TyId)>,
) {
    if defs.contains_key(data) && defs[data].variants.map().contains_key(tag) {
        (defs[data].variants.map()[tag].field_tys_spec(), defs[data].variants.map()[tag].field_names_spec(), None)
    } else {
        (Seq::empty(), Seq::empty(), None)
    }
}

/// Whether field `j` is named `text`.
pub open spec fn field_named(field_names: Seq<Option<String>>, j: int, text: Seq<char>) -> bool {
    field_names[j] matches Some(s) && s@ == text
}

/// Whether some field is named `text`.
pub open spec fn has_field(field_names: Seq<Option<String>>, text: Seq<char>) -> bool {
    exists|j: int| 0 <= j < field_names.len() && #[trigger] field_named(field_names, j, text)
}

/// The first field named `text`.
pub open spec fn field_position(field_names: Seq<Option<String>>, text: Seq<char>) -> Option<int>
    decreases field_names.len(),
{
    if field_names.len() == 0 {
        None
    } else {
        match field_position(field_names.drop_last(), text) {
            Some(j) => Some(j),
            None => if field_named(field_names, field_names.len() - 1, text) {
                Some(field_names.len() - 1)
            } else {
                None
            },
        }
    }
}

/// The field name an argument stands for: its written name, or a bare
/// binder named like a field.
pub open spec fn arg_name(pats: Seq<PatKind>, names: Seq<Seq<char>>, field_names: Seq<Option<String>>, arg: VariantPatArg) -> Option<Symbol> {
    match arg.name {
        Some(n) => Some(n),
        None => match pats[arg.pat.0 as int] {
            PatKind::Bind { name, .. } => if has_field(field_names, symbol_text(names, name)) {
                Some(name)
            } else {
                None
            },
            _ => None,
        },
    }
}

/// Whether an argument among `args[..k]` stands for a field name.
pub open spec fn any_arg_named(pats: Seq<PatKind>, names: Seq<Seq<char>>, field_names: Seq<Option<String>>, args: Seq<VariantPatArg>) -> bool {
    exists|k: int| 0 <= k < args.len() && #[trigger] arg_name(pats, names, field_names, args[k]) is Some
}

/// The names the arguments `args[..k]` stand for.
pub open spec fn seen_names(pats: Seq<PatKind>, names: Seq<Seq<char>>, field_names: Seq<Option<String>>, args: Seq<VariantPatArg>, k: int) -> Set<Symbol>
    decreases k,
{
    if k <= 0 {
        Set::empty()
    } else {
        let prior = seen_names(pats, names, field_names, args, k - 1);
        match arg_name(pats, names, field_names, args[k - 1]) {
            Some(n) => prior.insert(n),
            None => prior,
        }
    }
}

/// The steps of argument `k` of a variant with named fields.
pub open spec fn named_arg_steps(
    pats: Seq<PatKind>,
    names: Seq<Seq<char>>,
    expected: Seq<TyId>,
    field_names: Seq<Option<String>>,
    args: Seq<VariantPatArg>,
    unknown: TyId,
    k: int,
) -> Seq<PatStep> {
    let arg = args[k];
    match arg_name(pats, names, field_names, arg) {
        None => seq![PatStep::Visit { pat: arg.pat, ty: unknown }],
        Some(n) => {
            let dup: Seq<PatStep> = if seen_names(pats, names, field_names, args, k).contains(n) {
                seq![PatStep::FieldDiag { kind: SemaDiagKind::DuplicateVariantField, name: n }]
            } else {
                Seq::empty()
            };
            let rest: Seq<PatStep> = match field_position(field_names, symbol_text(names, n)) {
                Some(j) => if j < expected.len() {
                    seq![PatStep::Visit { pat: arg.pat, ty: expected[j] }]
                } else {
                    seq![
                        PatStep::FieldDiag { kind: SemaDiagKind::UnknownVariantField, name: n },
                        PatStep::Visit { pat: arg.pat, ty: unknown },
                    ]
                },
                None => seq![
                    PatStep::FieldDiag { kind: SemaDiagKind::UnknownVariantField, name: n },
                    PatStep::Visit { pat: arg.pat, ty: unknown },
                ],
            };
            dup + rest
        },
    }
}

/// The steps of the first `k` arguments of a variant with named fields.
pub open spec fn named_args_steps(
    pats: Seq<PatKind>,
    names: Seq<Seq<char>>,
    expected: Seq<TyId>,
    field_names: Seq<Option<String>>,
    args: Seq<VariantPatArg>,
    unknown: TyId,
    k: int,
) -> Seq<PatStep>
    decreases k,
{
    if k <= 0 {
        Seq::empty()
    } else {
        named_args_steps(pats, names, expected, field_names, args, unknown, k - 1) + named_arg_steps(
            pats,
            names,
            expected,
            field_names,
            args,
            unknown,
            k - 1,
        )
    }
}

/// Whether some argument stands for a name with text `text`.
pub open spec fn arg_names_text(pats: Seq<PatKind>, names: Seq<Seq<char>>, field_names: Seq<Option<String>>, args: Seq<VariantPatArg>, text: Seq<char>) -> bool {
    exists|k: int|
        0 <= k < args.len() && ((#[trigger] arg_name(pats, names, field_names, args[k])) matches Some(n) && symbol_text(
            names,
            n,
        ) == text)
}

/// The fields among the first `j` that no argument stands for.
pub open spec fn missing_steps(
    pats: Seq<PatKind>,
    names: Seq<Seq<char>>,
    field_names: Seq<Option<String>>,
    args: Seq<VariantPatArg>,
    j: int,
) -> Seq<PatStep>
    decreases j,
{
    if j <= 0 {
        Seq::empty()
    } else {
        let prior = missing_steps(pats, names, field_names, args, j - 1);
        match field_names[j - 1] {
            Some(s) => if arg_names_text(pats, names, field_names, args, s@) {
                prior
            } else {
                prior.push(PatStep::MissingField { index: (j - 1) as usize })
            },
            None => prior,
        }
    }
}

/// The steps of the first `k` arguments of a variant without named fields.
pub open spec fn positional_args_steps(expected: Seq<TyId>, args: Seq<VariantPatArg>, unknown: TyId, k: int) -> Seq<PatStep>
    decreases k,
{
    if k <= 0 {
        Seq::empty()
    } else {
        positional_args_steps(expected, args, unknown, k - 1).push(
            PatStep::Visit { pat: args[k - 1].pat, ty: if k - 1 < expected.len() { expected[k - 1] } else { unknown } },
        )
    }
}

/// The steps of a variant pattern `tag(args)` against type `ty`.
pub open spec fn variant_steps(
    tys: Seq<TyNode>,
    names: Seq<Seq<char>>,
    defs: Map<Seq<char>, SemaDataDef>,
    pats: Seq<PatKind>,
    unknown: TyId,
    ty: TyId,
    tag: Symbol,
    args: Seq<VariantPatArg>,
) -> Seq<PatStep> {
    let (expected, field_names, sum) = variant_expected(tys, names, defs, ty, tag);
    let ensure: Seq<PatStep> = match sum {
        Some((l, r)) => seq![PatStep::EnsureSum { left: l, right: r }],
        None => Seq::empty(),
    };
    let named_variant = exists|j: int| 0 <= j < field_names.len() && (#[trigger] field_names[j]) is Some;
    let named_args = any_arg_named(pats, names, field_names, args);
    if named_variant {
        let req: Seq<PatStep> = if named_args {
            Seq::empty()
        } else {
            seq![PatStep::Diag { kind: SemaDiagKind::VariantNamedFieldsRequired }]
        };
        ensure + req + named_args_steps(pats, names, expected, field_names, args, unknown, args.len() as int) + missing_steps(
            pats,
            names,
            field_names,
            args,
            field_names.len() as int,
        )
    } else {
        let unexpected: Seq<PatStep> = if named_args {
            seq![PatStep::Diag { kind: SemaDiagKind::VariantNamedFieldsUnexpected }]
        } else {
            Seq::empty()
        };
        let arity: Seq<PatStep> = if expected.len() != args.len() {
            seq![PatStep::Diag { kind: SemaDiagKind::VariantPatternArityMismatch }]
        } else {
            Seq::empty()
        };
        ensure + unexpected + arity + positional_args_steps(expected, args, unknown, args.len() as int)
    }
}

/// The steps of a record pattern's fields `fields[..k]` against the fields
/// `record` the matched type offers.
pub open spec fn record_pat_steps(names: Seq<Seq<char>>, record: Map<Seq<char>, TyId>, fields: Seq<RecordPatField>, unknown: TyId, k: int) -> Seq<PatStep>
    decreases k,
{
    if k <= 0 {
        Seq::empty()
    } else {
        let f = fields[k - 1];
        let text = symbol_text(names, f.name);
        let fty = if record.contains_key(text) {
            record[text]
        } else {
            unknown
        };
        let here: Seq<PatStep> = match f.value {
            Some(v) => seq![PatStep::Visit { pat: v, ty: fty }],
            None => match f.binding {
                Some(b) => seq![PatStep::BindType { binding: b, ty: fty }],
                None => Seq::empty(),
            },
        };
        record_pat_steps(names, record, fields, unknown, k - 1) + here
    }
}

/// The steps of the sub-patterns `items[..k]`: each against its type in
/// `types` when given, else against `fallback`.
pub open spec fn visit_items(items: Seq<PatId>, types: Option<Seq<TyId>>, fallback: TyId, k: int) -> Seq<PatStep>
    decreases k,
{
    if k <= 0 {
        Seq::empty()
    } else {
        visit_items(items, types, fallback, k - 1).push(
            PatStep::Visit {
                pat: items[k - 1],
                ty: match types {
                    Some(ts) => ts[k - 1],
                    None => fallback,
                },
            },
        )
    }
}

/// The types a tuple pattern of `n` items takes from the matched type: a
/// tuple type's items when it has `n` of them.
pub open spec fn tuple_types(tys: Seq<TyNode>, ty: TyId, n: nat) -> Option<Seq<TyId>> {
    match tys[ty.0 as int] {
        TyNode::Tuple { items } => if items.len() == n {
            Some(items)
        } else {
            None
        },
        _ => None,
    }
}

/// The type an array pattern's items take: the matched array type's item
/// type, or `unknown`.
pub open spec fn array_item(tys: Seq<TyNode>, ty: TyId, unknown: TyId) -> TyId {
    match tys[ty.0 as int] {
        TyNode::Array { item, .. } => item,
        _ => unknown,
    }
}

/// What binding pattern `id` against type `ty` asks for, in order, where
/// `record` holds the fields `ty` offers as a record (read for record
/// patterns only).
pub open spec fn node_steps(
    tys: Seq<TyNode>,
    names: Seq<Seq<char>>,
    defs: Map<Seq<char>, SemaDataDef>,
    pats: Seq<PatKind>,
    unknown: TyId,
    record: Map<Seq<char>, TyId>,
    id: PatId,
    ty: TyId,
) -> Seq<PatStep> {
    let fact = seq![PatStep::Fact { pat: id, ty }];
    fact + match pats[id.0 as int] {
        PatKind::Bind { binding, .. } => match binding {
            Some(b) => seq![PatStep::BindType { binding: b, ty }],
            None => Seq::empty(),
        },
        PatKind::Lit { expr } => seq![PatStep::CheckLit { expr, expected: ty }],
        PatKind::Tuple { items } => visit_items(items@, tuple_types(tys, ty, items@.len()), unknown, items@.len() as int),
        PatKind::Array { items } => visit_items(items@, None, array_item(tys, ty, unknown), items@.len() as int),
        PatKind::Record { fields } => record_pat_steps(names, record, fields@, unknown, fields@.len() as int),
        PatKind::Variant { tag, args } => variant_steps(tys, names, defs, pats, unknown, ty, tag, args@),
        PatKind::Or { left, right } => (if binders(pats, left) == binders(pats, right) {
            Seq::empty()
        } else {
            seq![PatStep::Diag { kind: SemaDiagKind::OrPatternBindersMismatch }]
        }) + seq![PatStep::Visit { pat: left, ty }, PatStep::Visit { pat: right, ty }],
        PatKind::As { pat, binding, .. } => seq![PatStep::Visit { pat, ty }] + match binding {
            Some(b) => seq![PatStep::BindType { binding: b, ty }],
            None => Seq::empty(),
        },
        _ => Seq::empty(),
    }
}

/// The bindings a list of steps declares: those it types, and those of the
/// sub-patterns it visits.
pub open spec fn step_binders(pats: Seq<PatKind>, steps: Seq<PatStep>) -> Set<u32>
    decreases steps.len(),
{
    if steps.len() == 0 {
        Set::empty()
    } else {
        step_binders(pats, steps.drop_last()) + step_set(pats, steps.last())
    }
}

/// The bindings one step declares: the one it types, or those of the
/// sub-pattern it visits.
pub open spec fn step_set(pats: Seq<PatKind>, step: PatStep) -> Set<u32> {
    match step {
        PatStep::BindType { binding, .. } => set![binding],
        PatStep::Visit { pat, .. } => if pats_wf(pats) && pat.0 < pats.len() {
            binders(pats, pat)
        } else {
            Set::empty()
        },
        _ => Set::empty(),
    }
}

/// The step binders of one step.
pub proof fn lemma_step_binders_single(pats: Seq<PatKind>, a: PatStep)
    ensures
        step_binders(pats, seq![a]) == step_set(pats, a),
{
    assert(seq![a].drop_last() =~= Seq::<PatStep>::empty());
    assert(seq![a].last() == a);
    assert(step_binders(pats, Seq::<PatStep>::empty()) == Set::<u32>::empty());
    assert(step_binders(pats, seq![a]) =~= step_set(pats, a));
}

/// The step binders of two lists put together.
pub proof fn lemma_step_binders_concat(pats: Seq<PatKind>, a: Seq<PatStep>, b: Seq<PatStep>)
    ensures
        step_binders(pats, a + b) == step_binders(pats, a) + step_binders(pats, b),
    decreases b.len(),
{
    if b.len() == 0 {
        assert(a + b =~= a);
        assert(step_binders(pats, a) + Set::<u32>::empty() =~= step_binders(pats, a));
    } else {
        assert((a + b).drop_last() =~= a + b.drop_last());
        lemma_step_binders_concat(pats, a, b.drop_last());
        assert((a + b).last() == b.last());
        assert(step_binders(pats, a + b) =~= step_binders(pats, a) + step_binders(pats, b));
    }
}

/// A binding is among those of `items[k..]` exactly when one of those items
/// declares it.
proof fn lemma_items_binders_mem(pats: Seq<PatKind>, parent: PatId, items: Seq<PatId>, k: int, x: u32)
    requires
        pats_wf(pats),
        parent.0 < pats.len(),
        pat_ids_below(items, parent.0 as int),
        0 <= k <= items.len(),
    ensures
        items_binders(pats, parent, items, k).contains(x) <==> exists|j: int|
            k <= j < items.len() && #[trigger] binders(pats, items[j]).contains(x),
    decreases items.len() - k,
{
    if k < items.len() {
        lemma_items_binders_mem(pats, parent, items, k + 1, x);
        if binders(pats, items[k]).contains(x) {
            assert(exists|j: int| k <= j < items.len() && #[trigger] binders(pats, items[j]).contains(x));
        }
    }
}

/// The visits of `items[..k]` declare the bindings of those items.
proof fn lemma_visit_items_mem(pats: Seq<PatKind>, items: Seq<PatId>, types: Option<Seq<TyId>>, fallback: TyId, k: int, bound: int, x: u32)
    requires
        pats_wf(pats),
        bound <= pats.len(),
        pat_ids_below(items, bound),
        0 <= k <= items.len(),
    ensures
        step_binders(pats, visit_items(items, types, fallback, k)).contains(x) <==> exists|j: int|
            0 <= j < k && #[trigger] binders(pats, items[j]).contains(x),
    decreases k,
{
    if k > 0 {
        lemma_visit_items_mem(pats, items, types, fallback, k - 1, bound, x);
        assert(visit_items(items, types, fallback, k).drop_last() == visit_items(items, types, fallback, k - 1));
        if binders(pats, items[k - 1]).contains(x) {
            assert(exists|j: int| 0 <= j < k && #[trigger] binders(pats, items[j]).contains(x));
        }
    }
}

/// Binding the items of a tuple or an array declares what the items do.
proof fn lemma_visit_items_binders(pats: Seq<PatKind>, parent: PatId, items: Seq<PatId>, types: Option<Seq<TyId>>, fallback: TyId)
    requires
        pats_wf(pats),
        parent.0 < pats.len(),
        pat_ids_below(items, parent.0 as int),
    ensures
        step_binders(pats, visit_items(items, types, fallback, items.len() as int)) == items_binders(pats, parent, items, 0),
{
    assert forall|x: u32| step_binders(pats, visit_items(items, types, fallback, items.len() as int)).contains(x)
        <==> items_binders(pats, parent, items, 0).contains(x) by {
        lemma_visit_items_mem(pats, items, types, fallback, items.len() as int, parent.0 as int, x);
        lemma_items_binders_mem(pats, parent, items, 0, x);
    }
    assert(step_binders(pats, visit_items(items, types, fallback, items.len() as int)) =~= items_binders(pats, parent, items, 0));
}

/// The bindings one record pattern field declares.
pub open spec fn field_binder_set(pats: Seq<PatKind>, f: RecordPatField) -> Set<u32> {
    match f.value {
        Some(v) => binders(pats, v),
        None => opt_set(f.binding),
    }
}

proof fn lemma_fields_binders_mem(pats: Seq<PatKind>, parent: PatId, fields: Seq<RecordPatField>, k: int, x: u32)
    requires
        pats_wf(pats),
        parent.0 < pats.len(),
        forall|j: int| 0 <= j < fields.len() ==> ((#[trigger] fields[j]).value matches Some(v) ==> v.0 < parent.0),
        0 <= k <= fields.len(),
    ensures
        fields_binders(pats, parent, fields, k).contains(x) <==> exists|j: int|
            k <= j < fields.len() && #[trigger] field_binder_set(pats, fields[j]).contains(x),
    decreases fields.len() - k,
{
    if k < fields.len() {
        lemma_fields_binders_mem(pats, parent, fields, k + 1, x);
        if field_binder_set(pats, fields[k]).contains(x) {
            assert(exists|j: int| k <= j < fields.len() && #[trigger] field_binder_set(pats, fields[j]).contains(x));
        }
    }
}

proof fn lemma_record_steps_mem(
    pats: Seq<PatKind>,
    names: Seq<Seq<char>>,
    record: Map<Seq<char>, TyId>,
    fields: Seq<RecordPatField>,
    unknown: TyId,
    bound: int,
    k: int,
    x: u32,
)
    requires
        pats_wf(pats),
        bound <= pats.len(),
        forall|j: int| 0 <= j < fields.len() ==> ((#[trigger] fields[j]).value matches Some(v) ==> v.0 < bound),
        0 <= k <= fields.len(),
    ensures
        step_binders(pats, record_pat_steps(names, record, fields, unknown, k)).contains(x) <==> exists|j: int|
            0 <= j < k && #[trigger] field_binder_set(pats, fields[j]).contains(x),
    decreases k,
{
    if k > 0 {
        lemma_record_steps_mem(pats, names, record, fields, unknown, bound, k - 1, x);
        let prior = record_pat_steps(names, record, fields, unknown, k - 1);
        let f = fields[k - 1];
        let text = symbol_text(names, f.name);
        let fty = if record.contains_key(text) {
            record[text]
        } else {
            unknown
        };
        let here: Seq<PatStep> = match f.value {
            Some(v) => seq![PatStep::Visit { pat: v, ty: fty }],
            None => match f.binding {
                Some(b) => seq![PatStep::BindType { binding: b, ty: fty }],
                None => Seq::empty(),
            },
        };
        assert(record_pat_steps(names, record, fields, unknown, k) == prior + here);
        lemma_step_binders_concat(pats, prior, here);
        match f.value {
            Some(v) => {
                lemma_step_binders_single(pats, PatStep::Visit { pat: v, ty: fty });
            },
            None => match f.binding {
                Some(b) => {
                    lemma_step_binders_single(pats, PatStep::BindType { binding: b, ty: fty });
                    assert(step_binders(pats, here) =~= field_binder_set(pats, f));
                },
                None => {
                    assert(step_binders(pats, here) =~= field_binder_set(pats, f));
                },
            },
        }
        if field_binder_set(pats, fields[k - 1]).contains(x) {
            assert(exists|j: int| 0 <= j < k && #[trigger] field_binder_set(pats, fields[j]).contains(x));
        }
    }
}

proof fn lemma_args_binders_mem(pats: Seq<PatKind>, parent: PatId, args: Seq<VariantPatArg>, k: int, x: u32)
    requires
        pats_wf(pats),
        parent.0 < pats.len(),
        forall|j: int| 0 <= j < args.len() ==> (#[trigger] args[j]).pat.0 < parent.0,
        0 <= k <= args.len(),
    ensures
        args_binders(pats, parent, args, k).contains(x) <==> exists|j: int|
            k <= j < args.len() && #[trigger] binders(pats, args[j].pat).contains(x),
    decreases args.len() - k,
{
    if k < args.len() {
        lemma_args_binders_mem(pats, parent, args, k + 1, x);
        if binders(pats, args[k].pat).contains(x) {
            assert(exists|j: int| k <= j < args.len() && #[trigger] binders(pats, args[j].pat).contains(x));
        }
    }
}

proof fn lemma_named_arg_binders(
    pats: Seq<PatKind>,
    names: Seq<Seq<char>>,
    expected: Seq<TyId>,
    field_names: Seq<Option<String>>,
    args: Seq<VariantPatArg>,
    unknown: TyId,
    k: int,
)
    requires
        pats_wf(pats),
        0 <= k < args.len(),
        args[k].pat.0 < pats.len(),
    ensures
        step_binders(pats, named_arg_steps(pats, names, expected, field_names, args, unknown, k)) == binders(pats, args[k].pat),
{
    let arg = args[k];
    let visit_unknown = PatStep::Visit { pat: arg.pat, ty: unknown };
    lemma_step_binders_single(pats, visit_unknown);
    match arg_name(pats, names, field_names, arg) {
        None => {},
        Some(n) => {
            let dup: Seq<PatStep> = if seen_names(pats, names, field_names, args, k).contains(n) {
                seq![PatStep::FieldDiag { kind: SemaDiagKind::DuplicateVariantField, name: n }]
            } else {
                Seq::empty()
            };
            let unknown_field = PatStep::FieldDiag { kind: SemaDiagKind::UnknownVariantField, name: n };
            let rest: Seq<PatStep> = match field_position(field_names, symbol_text(names, n)) {
                Some(j) => if j < expected.len() {
                    seq![PatStep::Visit { pat: arg.pat, ty: expected[j] }]
                } else {
                    seq![unknown_field, visit_unknown]
                },
                None => seq![unknown_field, visit_unknown],
            };
            lemma_plain_steps(pats, dup);
            lemma_step_binders_concat(pats, dup, rest);
            assert(seq![unknown_field, visit_unknown] =~= seq![unknown_field] + seq![visit_unknown]);
            lemma_step_binders_concat(pats, seq![unknown_field], seq![visit_unknown]);
            lemma_step_binders_single(pats, unknown_field);
            match field_position(field_names, symbol_text(names, n)) {
                Some(j) => if j < expected.len() {
                    lemma_step_binders_single(pats, PatStep::Visit { pat: arg.pat, ty: expected[j] });
                },
                None => {},
            }
            assert(step_binders(pats, rest) =~= binders(pats, arg.pat));
            assert(step_binders(pats, dup + rest) =~= binders(pats, arg.pat));
        },
    }
}

proof fn lemma_named_args_mem(
    pats: Seq<PatKind>,
    names: Seq<Seq<char>>,
    expected: Seq<TyId>,
    field_names: Seq<Option<String>>,
    args: Seq<VariantPatArg>,
    unknown: TyId,
    bound: int,
    k: int,
    x: u32,
)
    requires
        pats_wf(pats),
        bound <= pats.len(),
        forall|j: int| 0 <= j < args.len() ==> (#[trigger] args[j]).pat.0 < bound,
        0 <= k <= args.len(),
    ensures
        step_binders(pats, named_args_steps(pats, names, expected, field_names, args, unknown, k)).contains(x) <==> exists|j: int|
            0 <= j < k && #[trigger] binders(pats, args[j].pat).contains(x),
    decreases k,
{
    if k > 0 {
        lemma_named_args_mem(pats, names, expected, field_names, args, unknown, bound, k - 1, x);
        lemma_step_binders_concat(
            pats,
            named_args_steps(pats, names, expected, field_names, args, unknown, k - 1),
            named_arg_steps(pats, names, expected, field_names, args, unknown, k - 1),
        );
        lemma_named_arg_binders(pats, names, expected, field_names, args, unknown, k - 1);
        if binders(pats, args[k - 1].pat).contains(x) {
            assert(exists|j: int| 0 <= j < k && #[trigger] binders(pats, args[j].pat).contains(x));
        }
    }
}

proof fn lemma_positional_args_mem(
    pats: Seq<PatKind>,
    expected: Seq<TyId>,
    args: Seq<VariantPatArg>,
    unknown: TyId,
    bound: int,
    k: int,
    x: u32,
)
    requires
        pats_wf(pats),
        bound <= pats.len(),
        forall|j: int| 0 <= j < args.len() ==> (#[trigger] args[j]).pat.0 < bound,
        0 <= k <= args.len(),
    ensures
        step_binders(pats, positional_args_steps(expected, args, unknown, k)).contains(x) <==> exists|j: int|
            0 <= j < k && #[trigger] binders(pats, args[j].pat).contains(x),
    decreases k,
{
    if k > 0 {
        lemma_positional_args_mem(pats, expected, args, unknown, bound, k - 1, x);
        assert(positional_args_steps(expected, args, unknown, k).drop_last() == positional_args_steps(expected, args, unknown, k - 1));
        if binders(pats, args[k - 1].pat).contains(x) {
            assert(exists|j: int| 0 <= j < k && #[trigger] binders(pats, args[j].pat).contains(x));
        }
    }
}

proof fn lemma_missing_no_binders(
    pats: Seq<PatKind>,
    names: Seq<Seq<char>>,
    field_names: Seq<Option<String>>,
    args: Seq<VariantPatArg>,
    j: int,
)
    ensures
        step_binders(pats, missing_steps(pats, names, field_names, args, j)) == Set::<u32>::empty(),
    decreases j,
{
    if j > 0 {
        lemma_missing_no_binders(pats, names, field_names, args, j - 1);
        let prior = missing_steps(pats, names, field_names, args, j - 1);
        let cur = missing_steps(pats, names, field_names, args, j);
        if cur.len() > prior.len() {
            assert(cur.drop_last() == prior);
        }
        assert(step_binders(pats, cur) =~= Set::<u32>::empty());
    }
}

/// A short list of steps that types and visits nothing declares nothing.
proof fn lemma_plain_steps(pats: Seq<PatKind>, s: Seq<PatStep>)
    requires
        forall|k: int| 0 <= k < s.len() ==> !((#[trigger] s[k]) is BindType || s[k] is Visit),
    ensures
        step_binders(pats, s) == Set::<u32>::empty(),
    decreases s.len(),
{
    if s.len() > 0 {
        assert forall|k: int| 0 <= k < s.drop_last().len() implies !((#[trigger] s.drop_last()[k]) is BindType || s.drop_last()[k] is Visit) by {
            assert(s.drop_last()[k] == s[k]);
        }
        lemma_plain_steps(pats, s.drop_last());
        assert(s.last() == s[s.len() - 1]);
        assert(step_binders(pats, s) =~= Set::<u32>::empty());
    }
}

/// Binding a pattern node types and visits exactly what declares the
/// node's bindings.
pub proof fn lemma_node_binders(
    tys: Seq<TyNode>,
    names: Seq<Seq<char>>,
    defs: Map<Seq<char>, SemaDataDef>,
    pats: Seq<PatKind>,
    unknown: TyId,
    record: Map<Seq<char>, TyId>,
    id: PatId,
    ty: TyId,
)
    requires
        pats_wf(pats),
        id.0 < pats.len(),
    ensures
        step_binders(pats, node_steps(tys, names, defs, pats, unknown, record, id, ty)) == binders(pats, id),
{
    assert(pat_kind_wf(pats[id.0 as int], id.0 as int));
    let fact = seq![PatStep::Fact { pat: id, ty }];
    let all = node_steps(tys, names, defs, pats, unknown, record, id, ty);
    let rest = all.subrange(1, all.len() as int);
    assert(all =~= fact + rest);
    lemma_step_binders_concat(pats, fact, rest);
    lemma_step_binders_single(pats, PatStep::Fact { pat: id, ty });
    assert(step_binders(pats, fact) =~= Set::<u32>::empty());
    match pats[id.0 as int] {
        PatKind::Bind { binding, .. } => {
            if let Some(b) = binding {
                lemma_step_binders_single(pats, PatStep::BindType { binding: b, ty });
                assert(rest =~= seq![PatStep::BindType { binding: b, ty }]);
            } else {
                assert(rest =~= Seq::<PatStep>::empty());
            }
            assert(step_binders(pats, rest) =~= binders(pats, id));
        },
        PatKind::Lit { expr } => {
            lemma_step_binders_single(pats, PatStep::CheckLit { expr, expected: ty });
            assert(rest =~= seq![PatStep::CheckLit { expr, expected: ty }]);
            assert(step_binders(pats, rest) =~= binders(pats, id));
        },
        PatKind::Tuple { items } => {
            assert(rest =~= visit_items(items@, tuple_types(tys, ty, items@.len()), unknown, items@.len() as int));
            lemma_visit_items_binders(pats, id, items@, tuple_types(tys, ty, items@.len()), unknown);
        },
        PatKind::Array { items } => {
            assert(rest =~= visit_items(items@, None, array_item(tys, ty, unknown), items@.len() as int));
            lemma_visit_items_binders(pats, id, items@, None, array_item(tys, ty, unknown));
        },
        PatKind::Record { fields } => {
            assert(rest =~= record_pat_steps(names, record, fields@, unknown, fields@.len() as int));
            assert forall|x: u32| step_binders(pats, rest).contains(x) <==> binders(pats, id).contains(x) by {
                lemma_record_steps_mem(pats, names, record, fields@, unknown, id.0 as int, fields@.len() as int, x);
                lemma_fields_binders_mem(pats, id, fields@, 0, x);
            }
            assert(step_binders(pats, rest) =~= binders(pats, id));
        },
        PatKind::Variant { tag, args } => {
            let (expected, field_names, sum) = variant_expected(tys, names, defs, ty, tag);
            let ensure: Seq<PatStep> = match sum {
                Some((l, r)) => seq![PatStep::EnsureSum { left: l, right: r }],
                None => Seq::empty(),
            };
            lemma_plain_steps(pats, ensure);
            let named_variant = exists|j: int| 0 <= j < field_names.len() && (#[trigger] field_names[j]) is Some;
            let named_args = any_arg_named(pats, names, field_names, args@);
            if named_variant {
                let req: Seq<PatStep> = if named_args {
                    Seq::empty()
                } else {
                    seq![PatStep::Diag { kind: SemaDiagKind::VariantNamedFieldsRequired }]
                };
                let body = named_args_steps(pats, names, expected, field_names, args@, unknown, args@.len() as int);
                let miss = missing_steps(pats, names, field_names, args@, field_names.len() as int);
                lemma_plain_steps(pats, req);
                lemma_missing_no_binders(pats, names, field_names, args@, field_names.len() as int);
                assert(rest =~= ensure + req + body + miss);
                lemma_step_binders_concat(pats, ensure, req);
                lemma_step_binders_concat(pats, ensure + req, body);
                lemma_step_binders_concat(pats, ensure + req + body, miss);
                assert forall|x: u32| step_binders(pats, body).contains(x) <==> binders(pats, id).contains(x) by {
                    lemma_named_args_mem(pats, names, expected, field_names, args@, unknown, id.0 as int, args@.len() as int, x);
                    lemma_args_binders_mem(pats, id, args@, 0, x);
                }
            } else {
                let unexpected: Seq<PatStep> = if named_args {
                    seq![PatStep::Diag { kind: SemaDiagKind::VariantNamedFieldsUnexpected }]
                } else {
                    Seq::empty()
                };
                let arity: Seq<PatStep> = if expected.len() != args@.len() {
                    seq![PatStep::Diag { kind: SemaDiagKind::VariantPatternArityMismatch }]
                } else {
                    Seq::empty()
                };
                let body = positional_args_steps(expected, args@, unknown, args@.len() as int);
                lemma_plain_steps(pats, unexpected);
                lemma_plain_steps(pats, arity);
                assert(rest =~= ensure + unexpected + arity + body);
                lemma_step_binders_concat(pats, ensure, unexpected);
                lemma_step_binders_concat(pats, ensure + unexpected, arity);
                lemma_step_binders_concat(pats, ensure + unexpected + arity, body);
                assert forall|x: u32| step_binders(pats, body).contains(x) <==> binders(pats, id).contains(x) by {
                    lemma_positional_args_mem(pats, expected, args@, unknown, id.0 as int, args@.len() as int, x);
                    lemma_args_binders_mem(pats, id, args@, 0, x);
                }
            }
            assert(step_binders(pats, rest) =~= binders(pats, id));
        },
        PatKind::Or { left, right } => {
            let d: Seq<PatStep> = if binders(pats, left) == binders(pats, right) {
                Seq::empty()
            } else {
                seq![PatStep::Diag { kind: SemaDiagKind::OrPatternBindersMismatch }]
            };
            let v = seq![PatStep::Visit { pat: left, ty }, PatStep::Visit { pat: right, ty }];
            lemma_plain_steps(pats, d);
            assert(rest =~= d + v);
            lemma_step_binders_concat(pats, d, v);
            assert(v =~= seq![PatStep::Visit { pat: left, ty }] + seq![PatStep::Visit { pat: right, ty }]);
            lemma_step_binders_concat(pats, seq![PatStep::Visit { pat: left, ty }], seq![PatStep::Visit { pat: right, ty }]);
            lemma_step_binders_single(pats, PatStep::Visit { pat: left, ty });
            lemma_step_binders_single(pats, PatStep::Visit { pat: right, ty });
            assert(step_binders(pats, rest) =~= binders(pats, id));
        },
        PatKind::As { pat, binding, .. } => {
            let tail: Seq<PatStep> = match binding {
                Some(b) => seq![PatStep::BindType { binding: b, ty }],
                None => Seq::empty(),
            };
            assert(rest =~= seq![PatStep::Visit { pat, ty }] + tail);
            lemma_step_binders_concat(pats, seq![PatStep::Visit { pat, ty }], tail);
            lemma_step_binders_single(pats, PatStep::Visit { pat, ty });
            if let Some(b) = binding {
                lemma_step_binders_single(pats, PatStep::BindType { binding: b, ty });
            }
            assert(step_binders(pats, rest) =~= binders(pats, id));
        },
        _ => {
            assert(rest =~= Seq::<PatStep>::empty());
            assert(step_binders(pats, rest) =~= binders(pats, id));
        },
    }
}

/// Every visit of `steps` is of a pattern below `bound` against a type of a
/// store of `tys_len` types.
pub open spec fn visits_ok(steps: Seq<PatStep>, bound: int, tys_len: int) -> bool {
    forall|i: int|
        0 <= i < steps.len() ==> ((#[trigger] steps[i]) matches PatStep::Visit { pat, ty } ==> pat.0 < bound && ty.0 < tys_len)
}

/// Every value of a field map is a type of a store of `tys_len` types.
pub open spec fn map_values_in(tys_len: int, m: Map<Seq<char>, TyId>) -> bool {
    forall|k: Seq<char>| #[trigger] m.contains_key(k) ==> m[k].0 < tys_len
}

/// Every field type of every variant of every data definition is a type of
/// the store.
pub open spec fn defs_tys_in(tys_len: int, defs: Map<Seq<char>, SemaDataDef>) -> bool {
    forall|d: Seq<char>, v: Seq<char>| #[trigger] defs.contains_key(d) && #[trigger] defs[d].variants.map().contains_key(v)
        ==> forall|j: int|
        0 <= j < defs[d].variants.map()[v].field_tys_spec().len() ==> (
        #[trigger] defs[d].variants.map()[v].field_tys_spec()[j]).0 < tys_len
}

proof fn lemma_visits_concat(a: Seq<PatStep>, b: Seq<PatStep>, bound: int, tys_len: int)
    requires
        visits_ok(a, bound, tys_len),
        visits_ok(b, bound, tys_len),
    ensures
        visits_ok(a + b, bound, tys_len),
{
    assert forall|i: int| 0 <= i < (a + b).len() implies ((#[trigger] (a + b)[i]) matches PatStep::Visit { pat, ty }
        ==> pat.0 < bound && ty.0 < tys_len) by {
        if i < a.len() {
            assert((a + b)[i] == a[i]);
        } else {
            assert((a + b)[i] == b[i - a.len()]);
        }
    }
}

proof fn lemma_visit_items_ok(items: Seq<PatId>, types: Option<Seq<TyId>>, fallback: TyId, k: int, bound: int, tys_len: int)
    requires
        0 <= k <= items.len(),
        pat_ids_below(items, bound),
        fallback.0 < tys_len,
        types matches Some(ts) ==> ts.len() >= items.len() && forall|j: int| 0 <= j < ts.len() ==> (#[trigger] ts[j]).0 < tys_len,
    ensures
        visits_ok(visit_items(items, types, fallback, k), bound, tys_len),
        visit_items(items, types, fallback, k).len() == k,
    decreases k,
{
    if k > 0 {
        lemma_visit_items_ok(items, types, fallback, k - 1, bound, tys_len);
        let v = visit_items(items, types, fallback, k);
        assert forall|i: int| 0 <= i < v.len() implies ((#[trigger] v[i]) matches PatStep::Visit { pat, ty } ==> pat.0 < bound
            && ty.0 < tys_len) by {
            if i < k - 1 {
                assert(v[i] == visit_items(items, types, fallback, k - 1)[i]);
            }
        }
    }
}

proof fn lemma_record_steps_ok(
    names: Seq<Seq<char>>,
    record: Map<Seq<char>, TyId>,
    fields: Seq<RecordPatField>,
    unknown: TyId,
    k: int,
    bound: int,
    tys_len: int,
)
    requires
        0 <= k <= fields.len(),
        forall|j: int| 0 <= j < fields.len() ==> ((#[trigger] fields[j]).value matches Some(v) ==> v.0 < bound),
        unknown.0 < tys_len,
        map_values_in(tys_len, record),
    ensures
        visits_ok(record_pat_steps(names, record, fields, unknown, k), bound, tys_len),
    decreases k,
{
    if k > 0 {
        lemma_record_steps_ok(names, record, fields, unknown, k - 1, bound, tys_len);
        let prior = record_pat_steps(names, record, fields, unknown, k - 1);
        let all = record_pat_steps(names, record, fields, unknown, k);
        assert forall|i: int| 0 <= i < all.len() implies ((#[trigger] all[i]) matches PatStep::Visit { pat, ty } ==> pat.0 < bound
            && ty.0 < tys_len) by {
            if i < prior.len() {
                assert(all[i] == prior[i]);
            }
        }
    }
}

proof fn lemma_named_args_ok(
    pats: Seq<PatKind>,
    names: Seq<Seq<char>>,
    expected: Seq<TyId>,
    field_names: Seq<Option<String>>,
    args: Seq<VariantPatArg>,
    unknown: TyId,
    k: int,
    bound: int,
    tys_len: int,
)
    requires
        0 <= k <= args.len(),
        forall|j: int| 0 <= j < args.len() ==> (#[trigger] args[j]).pat.0 < bound,
        forall|j: int| 0 <= j < expected.len() ==> (#[trigger] expected[j]).0 < tys_len,
        unknown.0 < tys_len,
    ensures
        visits_ok(named_args_steps(pats, names, expected, field_names, args, unknown, k), bound, tys_len),
    decreases k,
{
    if k > 0 {
        lemma_named_args_ok(pats, names, expected, field_names, args, unknown, k - 1, bound, tys_len);
        let one = named_arg_steps(pats, names, expected, field_names, args, unknown, k - 1);
        assert(args[k - 1].pat.0 < bound);
        match arg_name(pats, names, field_names, args[k - 1]) {
            Some(nm) => {
                match field_position(field_names, symbol_text(names, nm)) {
                    Some(j) => {
                        lemma_field_position_bounds(field_names, symbol_text(names, nm));
                        if j < expected.len() {
                            assert(expected[j].0 < tys_len);
                        }
                    },
                    None => {},
                }
            },
            None => {},
        }
        assert forall|i: int| 0 <= i < one.len() implies ((#[trigger] one[i]) matches PatStep::Visit { pat, ty } ==> pat.0 < bound
            && ty.0 < tys_len) by {}
        lemma_visits_concat(named_args_steps(pats, names, expected, field_names, args, unknown, k - 1), one, bound, tys_len);
    }
}

proof fn lemma_positional_args_ok(
    expected: Seq<TyId>,
    args: Seq<VariantPatArg>,
    unknown: TyId,
    k: int,
    bound: int,
    tys_len: int,
)
    requires
        0 <= k <= args.len(),
        forall|j: int| 0 <= j < args.len() ==> (#[trigger] args[j]).pat.0 < bound,
        forall|j: int| 0 <= j < expected.len() ==> (#[trigger] expected[j]).0 < tys_len,
        unknown.0 < tys_len,
    ensures
        visits_ok(positional_args_steps(expected, args, unknown, k), bound, tys_len),
        positional_args_steps(expected, args, unknown, k).len() == k,
    decreases k,
{
    if k > 0 {
        lemma_positional_args_ok(expected, args, unknown, k - 1, bound, tys_len);
        let v = positional_args_steps(expected, args, unknown, k);
        assert(args[k - 1].pat.0 < bound);
        assert forall|i: int| 0 <= i < v.len() implies ((#[trigger] v[i]) matches PatStep::Visit { pat, ty } ==> pat.0 < bound
            && ty.0 < tys_len) by {
            if i < k - 1 {
                assert(v[i] == positional_args_steps(expected, args, unknown, k - 1)[i]);
            } else if k - 1 < expected.len() {
                assert(expected[k - 1].0 < tys_len);
            }
        }
    }
}

proof fn lemma_missing_ok(pats: Seq<PatKind>, names: Seq<Seq<char>>, field_names: Seq<Option<String>>, args: Seq<VariantPatArg>, j: int, bound: int, tys_len: int)
    ensures
        visits_ok(missing_steps(pats, names, field_names, args, j), bound, tys_len),
    decreases j,
{
    if j > 0 {
        lemma_missing_ok(pats, names, field_names, args, j - 1, bound, tys_len);
        let prior = missing_steps(pats, names, field_names, args, j - 1);
        let all = missing_steps(pats, names, field_names, args, j);
        assert forall|i: int| 0 <= i < all.len() implies ((#[trigger] all[i]) matches PatStep::Visit { pat, ty } ==> pat.0 < bound
            && ty.0 < tys_len) by {
            if i < prior.len() {
                assert(all[i] == prior[i]);
            }
        }
    }
}

proof fn lemma_field_position_bounds(field_names: Seq<Option<String>>, text: Seq<char>)
    ensures
        field_position(field_names, text) matches Some(j) ==> 0 <= j < field_names.len(),
    decreases field_names.len(),
{
    if field_names.len() > 0 {
        lemma_field_position_bounds(field_names.drop_last(), text);
    }
}

/// The visits binding a pattern node asks for are of its sub-patterns,
/// against types of the store.
pub proof fn lemma_node_visits(
    tys: Seq<TyNode>,
    names: Seq<Seq<char>>,
    defs: Map<Seq<char>, SemaDataDef>,
    pats: Seq<PatKind>,
    unknown: TyId,
    record: Map<Seq<char>, TyId>,
    id: PatId,
    ty: TyId,
)
    requires
        store_wf(tys),
        pats_wf(pats),
        id.0 < pats.len(),
        ty.0 < tys.len(),
        unknown.0 < tys.len(),
        map_values_in(tys.len() as int, record),
        defs_tys_in(tys.len() as int, defs),
    ensures
        visits_ok(node_steps(tys, names, defs, pats, unknown, record, id, ty), id.0 as int, tys.len() as int),
{
    let n = tys.len() as int;
    let b = id.0 as int;
    assert(pat_kind_wf(pats[id.0 as int], id.0 as int));
    assert(children_below(tys[ty.0 as int], ty.0 as int));
    let fact = seq![PatStep::Fact { pat: id, ty }];
    let all = node_steps(tys, names, defs, pats, unknown, record, id, ty);
    let rest = all.subrange(1, all.len() as int);
    assert(all =~= fact + rest);
    assert(visits_ok(fact, b, n));
    match pats[id.0 as int] {
        PatKind::Tuple { items } => {
            assert(rest =~= visit_items(items@, tuple_types(tys, ty, items@.len()), unknown, items@.len() as int));
            lemma_visit_items_ok(items@, tuple_types(tys, ty, items@.len()), unknown, items@.len() as int, b, n);
        },
        PatKind::Array { items } => {
            assert(rest =~= visit_items(items@, None, array_item(tys, ty, unknown), items@.len() as int));
            lemma_visit_items_ok(items@, None, array_item(tys, ty, unknown), items@.len() as int, b, n);
        },
        PatKind::Record { fields } => {
            assert(rest =~= record_pat_steps(names, record, fields@, unknown, fields@.len() as int));
            lemma_record_steps_ok(names, record, fields@, unknown, fields@.len() as int, b, n);
        },
        PatKind::Variant { tag, args } => {
            let (expected, field_names, sum) = variant_expected(tys, names, defs, ty, tag);
            assert forall|j: int| 0 <= j < expected.len() implies (#[trigger] expected[j]).0 < n by {
                match tys[ty.0 as int] {
                    TyNode::Sum { left, right } => {
                        let t = symbol_text(names, tag);
                        let p = if t == "Left"@ { left } else { right };
                        assert(children_below(tys[p.0 as int], p.0 as int));
                    },
                    TyNode::Named { name, .. } => {},
                    _ => {},
                }
            }
            let ensure: Seq<PatStep> = match sum {
                Some((l, r)) => seq![PatStep::EnsureSum { left: l, right: r }],
                None => Seq::empty(),
            };
            assert(visits_ok(ensure, b, n));
            let named_variant = exists|j: int| 0 <= j < field_names.len() && (#[trigger] field_names[j]) is Some;
            let named_args = any_arg_named(pats, names, field_names, args@);
            if named_variant {
                let req: Seq<PatStep> = if named_args {
                    Seq::empty()
                } else {
                    seq![PatStep::Diag { kind: SemaDiagKind::VariantNamedFieldsRequired }]
                };
                let body = named_args_steps(pats, names, expected, field_names, args@, unknown, args@.len() as int);
                let miss = missing_steps(pats, names, field_names, args@, field_names.len() as int);
                assert(visits_ok(req, b, n));
                lemma_named_args_ok(pats, names, expected, field_names, args@, unknown, args@.len() as int, b, n);
                lemma_missing_ok(pats, names, field_names, args@, field_names.len() as int, b, n);
                assert(rest =~= ensure + req + body + miss);
                lemma_visits_concat(ensure, req, b, n);
                lemma_visits_concat(ensure + req, body, b, n);
                lemma_visits_concat(ensure + req + body, miss, b, n);
            } else {
                let unexpected: Seq<PatStep> = if named_args {
                    seq![PatStep::Diag { kind: SemaDiagKind::VariantNamedFieldsUnexpected }]
                } else {
                    Seq::empty()
                };
                let arity: Seq<PatStep> = if expected.len() != args@.len() {
                    seq![PatStep::Diag { kind: SemaDiagKind::VariantPatternArityMismatch }]
                } else {
                    Seq::empty()
                };
                let body = positional_args_steps(expected, args@, unknown, args@.len() as int);
                assert(visits_ok(unexpected, b, n));
                assert(visits_ok(arity, b, n));
                lemma_positional_args_ok(expected, args@, unknown, args@.len() as int, b, n);
                assert(rest =~= ensure + unexpected + arity + body);
                lemma_visits_concat(ensure, unexpected, b, n);
                lemma_visits_concat(ensure + unexpected, arity, b, n);
                lemma_visits_concat(ensure + unexpected + arity, body, b, n);
            }
        },
        _ => {},
    }
    lemma_visits_concat(fact, rest, b, n);
}

} // verus!
