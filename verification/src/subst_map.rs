//! A substitution: a finite map from type-parameter names to types.
use vstd::prelude::*;

use crate::ty::{Symbol, TyId};

verus! {

/// The map that a list of bindings describes; a later binding of a name
/// replaces an earlier one.
pub open spec fn entries_map(entries: Seq<(Symbol, TyId)>) -> Map<Symbol, TyId>
    decreases entries.len(),
{
    if entries.len() == 0 {
        Map::empty()
    } else {
        entries_map(entries.drop_last()).insert(entries.last().0, entries.last().1)
    }
}

/// A map from type-parameter names to types.
#[derive(Debug)]
pub struct SubstMap {
    entries: Vec<(Symbol, TyId)>,
}

impl SubstMap {
    /// The map held.
    pub closed spec fn view(self) -> Map<Symbol, TyId> {
        entries_map(self.entries@)
    }

    /// An empty substitution.
    pub fn new() -> (m: Self)
        ensures
            m@ == Map::<Symbol, TyId>::empty(),
    {
        SubstMap { entries: Vec::new() }
    }

    /// The type bound to `name`, if any.
    pub fn get(&self, name: Symbol) -> (r: Option<TyId>)
        ensures
            match r {
                Some(t) => self@.contains_key(name) && self@[name] == t,
                None => !self@.contains_key(name),
            },
    {
        let mut i: usize = self.entries.len();
        assert(self.entries@.subrange(0, i as int) =~= self.entries@);
        while i > 0
            invariant
                i <= self.entries.len(),
                self@.contains_key(name) == entries_map(
                    self.entries@.subrange(0, i as int),
                ).contains_key(name),
                self@[name] == entries_map(self.entries@.subrange(0, i as int))[name],
            decreases i,
        {
            assert(self.entries@.subrange(0, i as int).drop_last() =~= self.entries@.subrange(
                0,
                i - 1,
            ));
            if self.entries[i - 1].0 == name {
                return Some(self.entries[i - 1].1);
            }
            i = i - 1;
        }
        None
    }

    /// Binds `name` to `ty`, replacing any earlier binding.
    pub fn insert(&mut self, name: Symbol, ty: TyId)
        ensures
            final(self)@ == old(self)@.insert(name, ty),
    {
        let ghost before = self.entries@;
        self.entries.push((name, ty));
        assert(self.entries@.drop_last() =~= before);
    }

    /// The same substitution without a binding for `name`.
    pub fn without(&self, name: Symbol) -> (m: Self)
        ensures
            m@ == self@.remove(name),
    {
        let mut entries: Vec<(Symbol, TyId)> = Vec::new();
        let mut i: usize = 0;
        while i < self.entries.len()
            invariant
                i <= self.entries.len(),
                entries_map(entries@) == entries_map(self.entries@.subrange(0, i as int)).remove(
                    name,
                ),
            decreases self.entries.len() - i,
        {
            let e = self.entries[i];
            let ghost before = entries@;
            assert(self.entries@.subrange(0, i + 1).drop_last() =~= self.entries@.subrange(
                0,
                i as int,
            ));
            if e.0 != name {
                entries.push(e);
                assert(entries@.drop_last() =~= before);
                assert(entries_map(entries@) =~= entries_map(
                    self.entries@.subrange(0, i + 1),
                ).remove(name));
            } else {
                assert(entries_map(entries@) =~= entries_map(
                    self.entries@.subrange(0, i + 1),
                ).remove(name));
            }
            i = i + 1;
        }
        assert(self.entries@.subrange(0, i as int) =~= self.entries@);
        SubstMap { entries }
    }

    /// A copy of the substitution.
    pub fn copy(&self) -> (m: Self)
        ensures
            m@ == self@,
    {
        let mut entries: Vec<(Symbol, TyId)> = Vec::new();
        let mut i: usize = 0;
        while i < self.entries.len()
            invariant
                i <= self.entries.len(),
                entries@ == self.entries@.subrange(0, i as int),
            decreases self.entries.len() - i,
        {
            entries.push(self.entries[i]);
            i = i + 1;
            assert(entries@ =~= self.entries@.subrange(0, i as int));
        }
        assert(entries@ =~= self.entries@);
        SubstMap { entries }
    }
}

} // verus!
