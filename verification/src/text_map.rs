//! Maps keyed by text that keep their names in order, so that walking one
//! goes by name and two maps with the same entries are equal.
use vstd::prelude::*;

use crate::name_set::{lemma_text_lt_irreflexive, sorted_names, text_lt, NameSet};
use crate::text::text_eq;

verus! {

/// The entries of parallel lists of distinct names and values, as a map.
pub open spec fn entry_map<V>(names: Seq<Seq<char>>, values: Seq<V>) -> Map<Seq<char>, V> {
    Map::new(|k: Seq<char>| names.contains(k), |k: Seq<char>| values[names.index_of(k)])
}

/// In names sorted with no name twice, a name's only position is where it
/// stands.
pub proof fn lemma_sorted_index_of(names: Seq<Seq<char>>, i: int)
    requires
        sorted_names(names),
        0 <= i < names.len(),
    ensures
        names.index_of(names[i]) == i,
{
    let j = names.index_of(names[i]);
    assert(names[i] == names[i]);
    assert(0 <= j < names.len() && names[j] == names[i]);
    if j < i {
        assert(text_lt(names[j], names[i]));
        lemma_text_lt_irreflexive(names[i]);
    } else if j > i {
        assert(text_lt(names[i], names[j]));
        lemma_text_lt_irreflexive(names[i]);
    }
}

/// The map of distinct names holds exactly the names.
pub proof fn lemma_entry_map_dom<V>(names: Seq<Seq<char>>, values: Seq<V>)
    ensures
        entry_map(names, values).dom() == names.to_set(),
{
    assert(entry_map(names, values).dom() =~= names.to_set());
}

/// Names sorted with no name twice stay so in any prefix.
proof fn lemma_sorted_prefix(names: Seq<Seq<char>>, n: int)
    requires
        sorted_names(names),
        0 <= n <= names.len(),
    ensures
        sorted_names(names.subrange(0, n)),
{
    let p = names.subrange(0, n);
    assert forall|i: int, j: int| 0 <= i < j < p.len() implies text_lt(#[trigger] p[i], #[trigger] p[j]) by {
        assert(p[i] == names[i] && p[j] == names[j]);
    }
}

/// The entries of the first `i + 1` names are those of the first `i` with
/// name `i` added.
pub proof fn lemma_entry_map_push<V>(names: Seq<Seq<char>>, values: Seq<V>, i: int)
    requires
        sorted_names(names),
        names.len() == values.len(),
        0 <= i < names.len(),
    ensures
        entry_map(names.subrange(0, i + 1), values.subrange(0, i + 1)) == entry_map(
            names.subrange(0, i),
            values.subrange(0, i),
        ).insert(names[i], values[i]),
{
    let a = names.subrange(0, i + 1);
    let b = names.subrange(0, i);
    let va = values.subrange(0, i + 1);
    let vb = values.subrange(0, i);
    lemma_sorted_prefix(names, i + 1);
    lemma_sorted_prefix(names, i);
    let lhs = entry_map(a, va);
    let rhs = entry_map(b, vb).insert(names[i], values[i]);
    assert forall|k: Seq<char>| #[trigger] lhs.contains_key(k) == rhs.contains_key(k) && (lhs.contains_key(k) ==> lhs[k] == rhs[k]) by {
        if a.contains(k) {
            let j = a.index_of(k);
            lemma_sorted_index_of(a, j);
            if j < i {
                assert(b[j] == k);
                lemma_sorted_index_of(b, j);
                if k == names[i] {
                    assert(a[j] == a[i]);
                    lemma_sorted_index_of(a, i);
                }
            } else {
                assert(a[i] == names[i]);
            }
        }
        if b.contains(k) {
            let j = b.index_of(k);
            assert(a[j] == k);
        }
        if k == names[i] {
            assert(a[i] == k);
            lemma_sorted_index_of(a, i);
        }
    }
    assert(lhs =~= rhs);
}

/// Values by name, in name order; a later value of a name replaces an
/// earlier one.
#[derive(Debug, PartialEq, Eq)]
pub struct TextMap<V> {
    names: NameSet,
    values: Vec<V>,
}

impl<V> TextMap<V> {
    /// One value for each name, and the names in order with none twice.
    #[verifier::type_invariant]
    pub(crate) open spec fn wf(self) -> bool {
        &&& self.names().len() == self.values().len()
        &&& sorted_names(self.names())
    }

    /// The names, in order.
    pub closed spec fn names(self) -> Seq<Seq<char>> {
        self.names.names()
    }

    /// The values, in the order of their names.
    pub closed spec fn values(self) -> Seq<V> {
        self.values@
    }

    /// The values by name.
    pub open spec fn map(self) -> Map<Seq<char>, V> {
        entry_map(self.names(), self.values())
    }

    /// No entries.
    pub fn new() -> (v: Self)
        ensures
            v.names().len() == 0,
            v.values().len() == 0,
            v.map() == Map::<Seq<char>, V>::empty(),
    {
        let v = TextMap { names: NameSet::new(), values: Vec::new() };
        assert(sorted_names(v.names()));
        assert(v.map() =~= Map::<Seq<char>, V>::empty());
        v
    }

    /// The number of entries.
    pub fn len(&self) -> (n: usize)
        ensures
            n == self.names().len(),
    {
        proof {
            use_type_invariant(self);
        }
        self.values.len()
    }

    /// Adds `value` under `name`, replacing the value of the same name.
    pub fn insert(&mut self, name: String, value: V)
        ensures
            sorted_names(final(self).names()),
            final(self).names().len() == final(self).values().len(),
            final(self).names().to_set() == old(self).names().to_set().insert(name@),
            exists|i: int|
                0 <= i < final(self).names().len() && final(self).names()[i] == name@
                    && final(self).values()[i] == value,
            final(self).map() == old(self).map().insert(name@, value),
    {
        proof {
            use_type_invariant(&*self);
        }
        let ghost key = name@;
        let mut taken = TextMap::new();
        std::mem::swap(&mut taken, self);
        proof {
            use_type_invariant(&taken);
        }
        let ghost old_map = taken.map();
        let TextMap { mut names, mut values } = taken;
        proof {
            use_type_invariant(&names);
        }
        let ghost n0 = names.names();
        let ghost d0 = values@;
        let (i, added) = names.place(name);
        if added {
            values.insert(i, value);
        } else {
            values.set(i, value);
        }
        proof {
            use_type_invariant(&names);
            assert(names.names()[i as int] == key);
            let n1 = names.names();
            let d1 = values@;
            assert forall|k: Seq<char>| #[trigger] entry_map(n1, d1).contains_key(k) == old_map.insert(key, value).contains_key(k)
                && (entry_map(n1, d1).contains_key(k) ==> entry_map(n1, d1)[k] == old_map.insert(key, value)[k]) by {
                if n1.contains(k) {
                    let j = n1.index_of(k);
                    lemma_sorted_index_of(n1, j);
                    if k == key {
                        lemma_sorted_index_of(n1, i as int);
                    } else if added {
                        if j < i {
                            assert(n0[j] == k);
                            lemma_sorted_index_of(n0, j);
                        } else {
                            assert(j > i);
                            assert(n0[j - 1] == k);
                            lemma_sorted_index_of(n0, j - 1);
                        }
                    } else {
                        assert(n0[j] == k);
                        lemma_sorted_index_of(n0, j);
                    }
                }
                if n0.contains(k) {
                    let j0 = n0.index_of(k);
                    if added {
                        if j0 < i {
                            assert(n1[j0] == k);
                        } else {
                            assert(n1[j0 + 1] == k);
                        }
                    } else {
                        assert(n1[j0] == k);
                    }
                }
            }
            assert(entry_map(n1, d1) =~= old_map.insert(key, value));
        }
        *self = TextMap { names, values };
    }

    /// The position of `name` in name order.
    pub fn position(&self, name: &str) -> (r: Option<usize>)
        ensures
            match r {
                Some(i) => i < self.names().len() && self.names()[i as int] == name@,
                None => !self.names().contains(name@),
            },
    {
        proof {
            use_type_invariant(self);
        }
        let mut i: usize = 0;
        while i < self.values.len()
            invariant
                self.names().len() == self.values@.len(),
                i <= self.values.len(),
                forall|j: int| 0 <= j < i ==> self.names()[j] != name@,
            decreases self.values.len() - i,
        {
            if text_eq(self.names.get(i).as_str(), name) {
                return Some(i);
            }
            i = i + 1;
        }
        None
    }

    /// The value of `name`.
    pub fn get(&self, name: &str) -> (r: Option<&V>)
        ensures
            match r {
                Some(d) => self.map().contains_key(name@) && self.map()[name@] == *d,
                None => !self.map().contains_key(name@),
            },
    {
        proof {
            use_type_invariant(self);
            use_type_invariant(&self.names);
        }
        match self.position(name) {
            Some(i) => {
                proof {
                    lemma_sorted_index_of(self.names(), i as int);
                }
                Some(&self.values[i])
            },
            None => None,
        }
    }

    /// The entry at position `i` in name order: its name and value.
    pub fn at(&self, i: usize) -> (r: (&String, &V))
        requires
            i < self.names().len(),
        ensures
            r.0@ == self.names()[i as int],
            *r.1 == self.values()[i as int],
    {
        proof {
            use_type_invariant(self);
        }
        (self.names.get(i), &self.values[i])
    }
}

} // verus!
