//! An ordered set of names, kept sorted by code point and free of duplicates.
use vstd::prelude::*;

use crate::text::chars_of;

verus! {

/// Strict lexicographic order of character sequences by code point, the order
/// of std's `str` comparison.
pub open spec fn text_lt(a: Seq<char>, b: Seq<char>) -> bool
    decreases a.len(),
{
    if a.len() == 0 {
        b.len() > 0
    } else if b.len() == 0 {
        false
    } else if a[0] != b[0] {
        a[0] < b[0]
    } else {
        text_lt(a.drop_first(), b.drop_first())
    }
}

/// `text_lt` is irreflexive.
pub proof fn lemma_text_lt_irreflexive(a: Seq<char>)
    ensures
        !text_lt(a, a),
    decreases a.len(),
{
    if a.len() > 0 {
        lemma_text_lt_irreflexive(a.drop_first());
    }
}

/// `text_lt` is transitive.
pub proof fn lemma_text_lt_transitive(a: Seq<char>, b: Seq<char>, c: Seq<char>)
    requires
        text_lt(a, b),
        text_lt(b, c),
    ensures
        text_lt(a, c),
    decreases a.len(),
{
    if a.len() > 0 && b.len() > 0 && c.len() > 0 {
        if a[0] == b[0] && b[0] == c[0] {
            lemma_text_lt_transitive(a.drop_first(), b.drop_first(), c.drop_first());
        }
    }
}

/// Two different sequences are ordered one way or the other.
pub proof fn lemma_text_lt_total(a: Seq<char>, b: Seq<char>)
    requires
        a != b,
    ensures
        text_lt(a, b) || text_lt(b, a),
    decreases a.len(),
{
    if a.len() > 0 && b.len() > 0 && a[0] == b[0] {
        if a.drop_first() == b.drop_first() {
            assert(a =~= seq![a[0]] + a.drop_first());
            assert(b =~= seq![b[0]] + b.drop_first());
        }
        lemma_text_lt_total(a.drop_first(), b.drop_first());
    } else if a.len() == 0 && b.len() == 0 {
        assert(a =~= b);
    }
}

/// `text_lt` is asymmetric.
pub proof fn lemma_text_lt_asymmetric(a: Seq<char>, b: Seq<char>)
    requires
        text_lt(a, b),
    ensures
        !text_lt(b, a),
{
    if text_lt(b, a) {
        lemma_text_lt_transitive(a, b, a);
        lemma_text_lt_irreflexive(a);
    }
}

/// Compares two character vectors: `-1` when `a` orders first, `0` when they
/// are equal, `1` when `b` orders first.
pub fn compare_chars(a: &Vec<char>, b: &Vec<char>) -> (r: i8)
    ensures
        r == 0 <==> a@ == b@,
        r < 0 <==> text_lt(a@, b@),
        r > 0 <==> text_lt(b@, a@),
{
    let mut i: usize = 0;
    proof {
        assert(a@.subrange(0, a@.len() as int) =~= a@);
        assert(b@.subrange(0, b@.len() as int) =~= b@);
    }
    while i < a.len() && i < b.len() && a[i] == b[i]
        invariant
            i <= a.len(),
            i <= b.len(),
            a@.subrange(0, i as int) == b@.subrange(0, i as int),
            text_lt(a@, b@) == text_lt(
                a@.subrange(i as int, a@.len() as int),
                b@.subrange(i as int, b@.len() as int),
            ),
            text_lt(b@, a@) == text_lt(
                b@.subrange(i as int, b@.len() as int),
                a@.subrange(i as int, a@.len() as int),
            ),
        decreases a.len() - i,
    {
        assert(a@.subrange(i as int, a@.len() as int).drop_first() =~= a@.subrange(
            i + 1,
            a@.len() as int,
        ));
        assert(b@.subrange(i as int, b@.len() as int).drop_first() =~= b@.subrange(
            i + 1,
            b@.len() as int,
        ));
        assert(a@.subrange(0, i + 1) =~= a@.subrange(0, i as int).push(a@[i as int]));
        assert(b@.subrange(0, i + 1) =~= b@.subrange(0, i as int).push(b@[i as int]));
        i = i + 1;
    }
    if i == a.len() && i == b.len() {
        assert(a@ =~= a@.subrange(0, i as int));
        assert(b@ =~= b@.subrange(0, i as int));
        proof { lemma_text_lt_irreflexive(a@); }
        0
    } else if i == a.len() {
        proof {
            if a@ == b@ {
                assert(a@.len() == b@.len());
            }
        }
        -1
    } else if i == b.len() {
        proof {
            if a@ == b@ {
                assert(a@.len() == b@.len());
            }
        }
        1
    } else {
        proof {
            if a@ == b@ {
                assert(a@[i as int] == b@[i as int]);
            }
        }
        if a[i] < b[i] {
            -1
        } else {
            1
        }
    }
}

/// The characters of every name in `items`.
pub open spec fn name_views(items: Seq<String>) -> Seq<Seq<char>> {
    items.map_values(|s: String| s@)
}

/// Names sorted by `text_lt`, with no name twice.
pub open spec fn sorted_names(names: Seq<Seq<char>>) -> bool {
    forall|i: int, j: int| 0 <= i < j < names.len() ==> text_lt(#[trigger] names[i], #[trigger] names[j])
}

/// A set of names. Iteration and comparison follow the names' code point
/// order, so two sets with the same names are equal.
#[derive(Debug, PartialEq, Eq)]
pub struct NameSet {
    items: Vec<String>,
}

impl NameSet {
    #[verifier::type_invariant]
    pub(crate) open spec fn sorted(self) -> bool {
        sorted_names(self.names())
    }

    /// The names, in order.
    pub closed spec fn names(self) -> Seq<Seq<char>> {
        name_views(self.items@)
    }

    /// The set of names held.
    pub open spec fn view(self) -> Set<Seq<char>> {
        self.names().to_set()
    }

    /// An empty set.
    pub fn new() -> (s: Self)
        ensures
            s.names() == Seq::<Seq<char>>::empty(),
            s.view() == Set::<Seq<char>>::empty(),
    {
        let s = NameSet { items: Vec::new() };
        assert(s.names() =~= Seq::<Seq<char>>::empty());
        s
    }

    /// The number of names.
    pub fn len(&self) -> (n: usize)
        ensures
            n == self.names().len(),
    {
        self.items.len()
    }

    /// The name at position `i` of the ordered names.
    pub fn get(&self, i: usize) -> (name: &String)
        requires
            i < self.names().len(),
        ensures
            name@ == self.names()[i as int],
    {
        &self.items[i]
    }

    /// Inserts `name`; returns whether it was absent.
    pub fn insert(&mut self, name: String) -> (added: bool)
        ensures
            final(self).view() == old(self).view().insert(name@),
            added == !old(self).view().contains(name@),
            sorted_names(final(self).names()),
    {
        let (_, added) = self.place(name);
        added
    }

    /// Inserts `name` at its place in the order, if absent; returns that
    /// place and whether it was absent.
    pub fn place(&mut self, name: String) -> (r: (usize, bool))
        ensures
            final(self).view() == old(self).view().insert(name@),
            r.1 == !old(self).view().contains(name@),
            sorted_names(final(self).names()),
            r.0 <= old(self).names().len(),
            r.1 ==> final(self).names() == old(self).names().insert(r.0 as int, name@),
            !r.1 ==> final(self).names() == old(self).names() && r.0 < old(self).names().len()
                && old(self).names()[r.0 as int] == name@,
    {
        proof {
            use_type_invariant(&*self);
        }
        let key = chars_of(name.as_str());
        let ghost names = self.names();
        let (i, present) = self.locate(&key);
        if present {
            assert(names.to_set().insert(name@) =~= names.to_set());
            return (i, false);
        }
        proof {
            assert forall|j: int| i <= j < names.len() implies text_lt(key@, #[trigger] names[j]) by {
                if j > i {
                    lemma_text_lt_transitive(key@, names[i as int], names[j]);
                }
            }
            assert(!names.contains(name@)) by {
                if names.contains(name@) {
                    let k = names.index_of(name@);
                    if k < i {
                        lemma_text_lt_irreflexive(key@);
                    } else {
                        lemma_text_lt_irreflexive(key@);
                    }
                }
            }
        }
        let mut items: Vec<String> = Vec::new();
        std::mem::swap(&mut items, &mut self.items);
        items.insert(i, name);
        proof {
            let after = name_views(items@);
            assert(after =~= names.insert(i as int, key@));
            assert(after.to_set() =~= names.to_set().insert(key@)) by {
                assert forall|x: Seq<char>| after.to_set().contains(x) <==> names.to_set().insert(
                    key@,
                ).contains(x) by {
                    if after.contains(x) {
                        let k = after.index_of(x);
                        if k < i {
                            assert(names[k] == x);
                        } else if k > i {
                            assert(names[k - 1] == x);
                        }
                    }
                    if names.contains(x) {
                        let k = names.index_of(x);
                        if k < i {
                            assert(after[k] == x);
                        } else {
                            assert(after[k + 1] == x);
                        }
                    }
                    if x == key@ {
                        assert(after[i as int] == x);
                    }
                }
            }
            assert forall|a: int, b: int| 0 <= a < b < after.len() implies text_lt(
                #[trigger] after[a],
                #[trigger] after[b],
            ) by {
                if b < i {
                } else if a < i && b == i {
                } else if a < i && b > i {
                    assert(after[b] == names[b - 1]);
                } else if a == i {
                    assert(after[b] == names[b - 1]);
                } else {
                    assert(after[a] == names[a - 1]);
                    assert(after[b] == names[b - 1]);
                }
            }
        }
        self.items = items;
        (i, true)
    }

    /// The position of `key` among the ordered names: every name before it
    /// orders first, and the name at it, if any, is `key` or orders after it.
    fn locate(&self, key: &Vec<char>) -> (r: (usize, bool))
        ensures
            r.0 <= self.names().len(),
            forall|j: int| 0 <= j < r.0 ==> text_lt(#[trigger] self.names()[j], key@),
            r.1 <==> (r.0 < self.names().len() && self.names()[r.0 as int] == key@),
            !r.1 && r.0 < self.names().len() ==> text_lt(key@, self.names()[r.0 as int]),
    {
        let mut i: usize = 0;
        while i < self.items.len()
            invariant
                i <= self.items.len(),
                forall|j: int| 0 <= j < i ==> text_lt(#[trigger] self.names()[j], key@),
            decreases self.items.len() - i,
        {
            let here = chars_of(self.items[i].as_str());
            let c = compare_chars(&here, key);
            if c == 0 {
                return (i, true);
            }
            if c > 0 {
                return (i, false);
            }
            i = i + 1;
        }
        (i, false)
    }

    /// A copy of the set, with the same names in the same order.
    pub fn copy(&self) -> (out: Self)
        ensures
            out.names() == self.names(),
            out.view() == self.view(),
    {
        proof {
            use_type_invariant(self);
        }
        let mut items: Vec<String> = Vec::new();
        let mut i: usize = 0;
        while i < self.items.len()
            invariant
                i <= self.items.len(),
                name_views(items@) == self.names().subrange(0, i as int),
            decreases self.items.len() - i,
        {
            let item = self.items[i].clone();
            assert(item@ == self.names()[i as int]);
            let ghost before = items@;
            items.push(item);
            assert(name_views(items@) =~= name_views(before).push(item@));
            i = i + 1;
            assert(name_views(items@) =~= self.names().subrange(0, i as int));
        }
        assert(self.names().subrange(0, i as int) =~= self.names());
        NameSet { items }
    }

    /// Whether `name` is in the set.
    pub fn contains(&self, name: &str) -> (r: bool)
        ensures
            r == self.view().contains(name@),
    {
        let key = chars_of(name);
        let mut i: usize = 0;
        while i < self.items.len()
            invariant
                key@ == name@,
                i <= self.items.len(),
                forall|j: int| 0 <= j < i ==> self.names()[j] != key@,
            decreases self.items.len() - i,
        {
            let here = chars_of(self.items[i].as_str());
            if compare_chars(&here, &key) == 0 {
                assert(self.names()[i as int] == name@);
                return true;
            }
            i = i + 1;
        }
        proof {
            if self.names().contains(name@) {
                let k = self.names().index_of(name@);
                assert(self.names()[k] == name@);
            }
        }
        false
    }
}

impl Clone for NameSet {
    fn clone(&self) -> (out: Self)
        ensures
            out.names() == self.names(),
    {
        self.copy()
    }
}

impl Default for NameSet {
    fn default() -> (out: Self)
        ensures
            out.names() == Seq::<Seq<char>>::empty(),
    {
        NameSet::new()
    }
}

} // verus!
