//! A map from integer keys to values, kept as a sorted list so that it can be
//! walked in a fixed order.

use vstd::prelude::*;

verus! {

/// A finite map from `u64` to `V`. The view is the map; `list` is its entries
/// in increasing key order.
pub struct Table<V> {
    entries: Vec<(u64, V)>,
}

pub open spec fn increasing<V>(s: Seq<(u64, V)>) -> bool {
    forall|i: int, j: int| 0 <= i < j < s.len() ==> (#[trigger] s[i]).0 < (#[trigger] s[j]).0
}

pub open spec fn has_key<V>(s: Seq<(u64, V)>, k: u64) -> bool {
    exists|i: int| 0 <= i < s.len() && (#[trigger] s[i]).0 == k
}

pub open spec fn index_of<V>(s: Seq<(u64, V)>, k: u64) -> int {
    choose|i: int| 0 <= i < s.len() && (#[trigger] s[i]).0 == k
}

/// The map that a list of entries stands for.
pub open spec fn as_map<V>(s: Seq<(u64, V)>) -> Map<u64, V> {
    Map::new(|k: u64| has_key(s, k), |k: u64| s[index_of(s, k)].1)
}

/// An entry of an increasing list is the map's value at its key.
pub proof fn entry_is_mapped<V>(s: Seq<(u64, V)>, i: int)
    requires
        increasing(s),
        0 <= i < s.len(),
    ensures
        as_map(s).contains_key(s[i].0),
        as_map(s)[s[i].0] == s[i].1,
        index_of(s, s[i].0) == i,
{
    assert(s[i].0 == s[i].0);
    let j = index_of(s, s[i].0);
    assert(s[j].0 == s[i].0);
}

impl<V> View for Table<V> {
    type V = Map<u64, V>;

    closed spec fn view(&self) -> Map<u64, V> {
        as_map(self.entries@)
    }
}

impl<V> Table<V> {
    /// The entries, in increasing key order.
    pub closed spec fn list(self) -> Seq<(u64, V)> {
        self.entries@
    }

    #[verifier::type_invariant]
    spec fn ordered(self) -> bool {
        increasing(self.entries@)
    }
}

impl<V: Copy> Table<V> {
    pub fn new() -> (r: Self)
        ensures
            r@ == Map::<u64, V>::empty(),
    {
        let r = Table { entries: Vec::new() };
        assert(r@ =~= Map::<u64, V>::empty());
        r
    }

    fn lower_bound(&self, key: u64) -> (p: usize)
        ensures
            p <= self.entries@.len(),
            forall|i: int| 0 <= i < p ==> (#[trigger] self.entries@[i]).0 < key,
            forall|i: int| p <= i < self.entries@.len() ==> (#[trigger] self.entries@[i]).0 >= key,
    {
        proof {
            use_type_invariant(self);
        }
        let mut lo: usize = 0;
        let mut hi: usize = self.entries.len();
        while lo < hi
            invariant
                lo <= hi <= self.entries@.len(),
                increasing(self.entries@),
                forall|i: int| 0 <= i < lo ==> (#[trigger] self.entries@[i]).0 < key,
                forall|i: int|
                    hi <= i < self.entries@.len() ==> (#[trigger] self.entries@[i]).0 >= key,
            decreases hi - lo,
        {
            let mid: usize = lo + (hi - lo) / 2;
            if self.entries[mid].0 < key {
                lo = mid + 1;
            } else {
                hi = mid;
            }
        }
        lo
    }

    pub fn get(&self, key: u64) -> (r: Option<V>)
        ensures
            r == (if self@.contains_key(key) {
                Some(self@[key])
            } else {
                None
            }),
    {
        let p: usize = self.lower_bound(key);
        proof {
            use_type_invariant(self);
        }
        if p < self.entries.len() && self.entries[p].0 == key {
            proof {
                entry_is_mapped(self.entries@, p as int);
            }
            Some(self.entries[p].1)
        } else {
            assert(!has_key(self.entries@, key)) by {
                if has_key(self.entries@, key) {
                    let i = index_of(self.entries@, key);
                    assert(self.entries@[i].0 == key);
                }
            }
            None
        }
    }

    pub fn contains(&self, key: u64) -> (r: bool)
        ensures
            r == self@.contains_key(key),
    {
        self.get(key).is_some()
    }

    pub fn insert(&mut self, key: u64, value: V)
        ensures
            final(self)@ == old(self)@.insert(key, value),
    {
        let p: usize = self.lower_bound(key);
        proof {
            use_type_invariant(&*self);
        }
        let ghost before = self.entries@;
        let mut entries: Vec<(u64, V)> = Vec::new();
        std::mem::swap(&mut entries, &mut self.entries);
        if p < entries.len() && entries[p].0 == key {
            entries.set(p, (key, value));
            proof {
                lemma_set(before, p as int, key, value);
            }
        } else {
            entries.insert(p, (key, value));
            proof {
                lemma_insert(before, p as int, key, value);
            }
        }
        self.entries = entries;
    }

    pub fn remove(&mut self, key: u64)
        ensures
            final(self)@ == old(self)@.remove(key),
    {
        let p: usize = self.lower_bound(key);
        proof {
            use_type_invariant(&*self);
        }
        let ghost before = self.entries@;
        let mut entries: Vec<(u64, V)> = Vec::new();
        std::mem::swap(&mut entries, &mut self.entries);
        if p < entries.len() && entries[p].0 == key {
            entries.remove(p);
            proof {
                lemma_remove(before, p as int);
            }
        } else {
            proof {
                assert(!has_key(before, key)) by {
                    if has_key(before, key) {
                        let i = index_of(before, key);
                        assert(before[i].0 == key);
                    }
                }
                assert(as_map(before).remove(key) =~= as_map(before));
            }
        }
        self.entries = entries;
    }

    pub fn clear(&mut self)
        ensures
            final(self)@ == Map::<u64, V>::empty(),
    {
        let entries: Vec<(u64, V)> = Vec::new();
        self.entries = entries;
        assert(self@ =~= Map::<u64, V>::empty());
    }

    pub fn is_empty(&self) -> (r: bool)
        ensures
            r == (self@ == Map::<u64, V>::empty()),
    {
        let r: bool = self.entries.len() == 0;
        proof {
            use_type_invariant(self);
            if r {
                assert(self@ =~= Map::<u64, V>::empty());
            } else {
                entry_is_mapped(self.entries@, 0);
            }
        }
        r
    }

    pub fn len(&self) -> (n: usize)
        ensures
            n == self.list().len(),
            increasing(self.list()),
            self@ == as_map(self.list()),
    {
        proof {
            use_type_invariant(self);
        }
        self.entries.len()
    }

    /// The `i`-th entry in key order.
    pub fn entry(&self, i: usize) -> (r: (u64, V))
        requires
            i < self.list().len(),
        ensures
            r == self.list()[i as int],
    {
        self.entries[i]
    }
}

proof fn lemma_set<V>(s: Seq<(u64, V)>, p: int, key: u64, value: V)
    requires
        increasing(s),
        0 <= p < s.len(),
        s[p].0 == key,
    ensures
        increasing(s.update(p, (key, value))),
        as_map(s.update(p, (key, value))) == as_map(s).insert(key, value),
{
    let t = s.update(p, (key, value));
    assert forall|k: u64| has_key(t, k) == (has_key(s, k) || k == key) by {
        if has_key(s, k) {
            assert(t[index_of(s, k)].0 == k);
        }
        if has_key(t, k) {
            assert(s[index_of(t, k)].0 == k);
        }
        assert(t[p].0 == key);
    }
    assert forall|k: u64| has_key(t, k) implies as_map(t)[k] == as_map(s).insert(key, value)[k] by {
        let i = index_of(t, k);
        entry_is_mapped(t, i);
        entry_is_mapped(s, i);
        entry_is_mapped(t, p);
    }
    assert(as_map(t) =~= as_map(s).insert(key, value));
}

proof fn lemma_insert<V>(s: Seq<(u64, V)>, p: int, key: u64, value: V)
    requires
        increasing(s),
        0 <= p <= s.len(),
        forall|i: int| 0 <= i < p ==> (#[trigger] s[i]).0 < key,
        forall|i: int| p <= i < s.len() ==> (#[trigger] s[i]).0 >= key,
        p < s.len() ==> s[p].0 != key,
    ensures
        increasing(s.insert(p, (key, value))),
        as_map(s.insert(p, (key, value))) == as_map(s).insert(key, value),
{
    let t = s.insert(p, (key, value));
    assert forall|i: int, j: int| 0 <= i < j < t.len() implies (#[trigger] t[i]).0 < (
    #[trigger] t[j]).0 by {
        let i0 = if i < p { i } else { i - 1 };
        let j0 = if j < p { j } else { j - 1 };
        if i != p {
            assert(t[i] == s[i0]);
        }
        if j != p {
            assert(t[j] == s[j0]);
            if i == p && j0 > p {
                assert(s[p].0 < s[j0].0);
            }
        }
    }
    assert forall|k: u64| has_key(t, k) == (has_key(s, k) || k == key) by {
        if has_key(s, k) {
            let i = index_of(s, k);
            let i1 = if i < p { i } else { i + 1 };
            assert(t[i1] == s[i]);
        }
        if has_key(t, k) && k != key {
            let i = index_of(t, k);
            let i0 = if i < p { i } else { i - 1 };
            assert(s[i0] == t[i]);
        }
        assert(t[p].0 == key);
    }
    assert forall|k: u64| has_key(t, k) implies as_map(t)[k] == as_map(s).insert(key, value)[k] by {
        let i = index_of(t, k);
        entry_is_mapped(t, i);
        entry_is_mapped(t, p);
        if i != p {
            let i0 = if i < p { i } else { i - 1 };
            assert(s[i0] == t[i]);
            entry_is_mapped(s, i0);
        }
    }
    assert(as_map(t) =~= as_map(s).insert(key, value));
}

proof fn lemma_remove<V>(s: Seq<(u64, V)>, p: int)
    requires
        increasing(s),
        0 <= p < s.len(),
    ensures
        increasing(s.remove(p)),
        as_map(s.remove(p)) == as_map(s).remove(s[p].0),
{
    let t = s.remove(p);
    let key = s[p].0;
    assert forall|i: int, j: int| 0 <= i < j < t.len() implies (#[trigger] t[i]).0 < (
    #[trigger] t[j]).0 by {
        let i1 = if i < p { i } else { i + 1 };
        let j1 = if j < p { j } else { j + 1 };
        assert(t[i] == s[i1] && t[j] == s[j1]);
    }
    assert forall|k: u64| has_key(t, k) == (has_key(s, k) && k != key) by {
        if has_key(s, k) && k != key {
            let i = index_of(s, k);
            let i0 = if i < p { i } else { i - 1 };
            assert(t[i0] == s[i]);
        }
        if has_key(t, k) {
            let i = index_of(t, k);
            let i1 = if i < p { i } else { i + 1 };
            assert(s[i1] == t[i]);
        }
    }
    assert forall|k: u64| has_key(t, k) implies as_map(t)[k] == as_map(s).remove(key)[k] by {
        let i = index_of(t, k);
        let i1 = if i < p { i } else { i + 1 };
        assert(s[i1] == t[i]);
        entry_is_mapped(t, i);
        entry_is_mapped(s, i1);
    }
    assert(as_map(t) =~= as_map(s).remove(key));
}

} // verus!
