//! Player edits: sparse per-column height changes, kept apart per body.

use vstd::prelude::*;
use crate::body::BodyId;

verus! {

/// A column's identity on one body: cube face, then lattice indices.
pub type ColumnKey = (u8, u64, u64);

/// Lexicographic order on column keys.
pub open spec fn key_lt(a: ColumnKey, b: ColumnKey) -> bool {
    a.0 < b.0 || (a.0 == b.0 && (a.1 < b.1 || (a.1 == b.1 && a.2 < b.2)))
}

fn key_less(a: ColumnKey, b: ColumnKey) -> (r: bool)
    ensures
        r == key_lt(a, b),
{
    a.0 < b.0 || (a.0 == b.0 && (a.1 < b.1 || (a.1 == b.1 && a.2 < b.2)))
}

fn key_same(a: ColumnKey, b: ColumnKey) -> (r: bool)
    ensures
        r == (a == b),
{
    a.0 == b.0 && a.1 == b.1 && a.2 == b.2
}

/// Height change in blocks of every touched column of one body. The view is a
/// finite map from column to change; untouched columns are not in it.
pub struct Edits {
    entries: Vec<(ColumnKey, i64)>,
}

impl View for Edits {
    type V = Map<ColumnKey, i64>;

    closed spec fn view(&self) -> Map<ColumnKey, i64> {
        entries_map(self.entries@)
    }
}

/// The map a sorted entry list stands for.
spec fn entries_map(s: Seq<(ColumnKey, i64)>) -> Map<ColumnKey, i64> {
    Map::new(|k: ColumnKey| has_key(s, k), |k: ColumnKey| s[key_index(s, k)].1)
}

spec fn has_key(s: Seq<(ColumnKey, i64)>, k: ColumnKey) -> bool {
    exists|i: int| 0 <= i < s.len() && #[trigger] s[i].0 == k
}

spec fn key_index(s: Seq<(ColumnKey, i64)>, k: ColumnKey) -> int {
    choose|i: int| 0 <= i < s.len() && #[trigger] s[i].0 == k
}

spec fn sorted(s: Seq<(ColumnKey, i64)>) -> bool {
    forall|i: int, j: int| 0 <= i < j < s.len() ==> key_lt(#[trigger] s[i].0, #[trigger] s[j].0)
}

proof fn lemma_entry(s: Seq<(ColumnKey, i64)>, i: int)
    requires
        sorted(s),
        0 <= i < s.len(),
    ensures
        has_key(s, s[i].0),
        key_index(s, s[i].0) == i,
        entries_map(s).contains_key(s[i].0),
        entries_map(s)[s[i].0] == s[i].1,
{
    let k = s[i].0;
    assert(s[i].0 == k);
    let j = key_index(s, k);
    assert(0 <= j < s.len() && s[j].0 == k);
}

impl Edits {
    /// Entries are in strictly increasing key order.
    #[verifier::type_invariant]
    spec fn ordered(self) -> bool {
        sorted(self.entries@)
    }

    pub fn new() -> (r: Self)
        ensures
            r@ == Map::<ColumnKey, i64>::empty(),
    {
        let r = Edits { entries: Vec::new() };
        assert(r@ =~= Map::<ColumnKey, i64>::empty());
        r
    }

    /// The first position whose key is not below `key`.
    fn lower_bound(&self, key: ColumnKey) -> (p: usize)
        ensures
            p <= self.entries@.len(),
            forall|i: int| 0 <= i < p ==> key_lt(#[trigger] self.entries@[i].0, key),
            forall|i: int|
                p <= i < self.entries@.len() ==> !key_lt(#[trigger] self.entries@[i].0, key),
    {
        proof {
            use_type_invariant(self);
        }
        let mut lo: usize = 0;
        let mut hi: usize = self.entries.len();
        while lo < hi
            invariant
                lo <= hi <= self.entries@.len(),
                sorted(self.entries@),
                forall|i: int| 0 <= i < lo ==> key_lt(#[trigger] self.entries@[i].0, key),
                forall|i: int|
                    hi <= i < self.entries@.len() ==> !key_lt(#[trigger] self.entries@[i].0, key),
            decreases hi - lo,
        {
            let mid: usize = lo + (hi - lo) / 2;
            if key_less(self.entries[mid].0, key) {
                lo = mid + 1;
            } else {
                hi = mid;
            }
        }
        lo
    }

    /// The change stored for a column, if any.
    pub fn get(&self, key: &ColumnKey) -> (r: Option<&i64>)
        ensures
            r == (if self@.contains_key(*key) {
                Some(&self@[*key])
            } else {
                None
            }),
    {
        let p: usize = self.lower_bound(*key);
        proof {
            use_type_invariant(self);
        }
        if p < self.entries.len() && key_same(self.entries[p].0, *key) {
            proof {
                lemma_entry(self.entries@, p as int);
            }
            Some(&self.entries[p].1)
        } else {
            assert(!has_key(self.entries@, *key)) by {
                if has_key(self.entries@, *key) {
                    let i = key_index(self.entries@, *key);
                    assert(self.entries@[i].0 == *key);
                }
            }
            None
        }
    }

    /// The net change of a column: zero where nothing is stored.
    pub fn delta(&self, key: ColumnKey) -> (r: i64)
        ensures
            r == spec_delta(self@, key),
    {
        match self.get(&key) {
            Some(d) => *d,
            None => 0,
        }
    }

    /// Store a column's change, replacing what was there.
    pub fn insert(&mut self, key: ColumnKey, value: i64)
        ensures
            final(self)@ == old(self)@.insert(key, value),
    {
        let p: usize = self.lower_bound(key);
        proof {
            use_type_invariant(&*self);
        }
        let ghost before = self.entries@;
        let mut entries: Vec<(ColumnKey, i64)> = Vec::new();
        std::mem::swap(&mut entries, &mut self.entries);
        if p < entries.len() && key_same(entries[p].0, key) {
            entries.set(p, (key, value));
            proof {
                let after = entries@;
                assert forall|k: ColumnKey| has_key(after, k) == (has_key(before, k) || k == key) by {
                    if has_key(before, k) {
                        let i = key_index(before, k);
                        assert(after[i].0 == k);
                    }
                    if has_key(after, k) {
                        let i = key_index(after, k);
                        assert(before[i].0 == k);
                    }
                    assert(after[p as int].0 == key);
                }
                assert forall|k: ColumnKey| has_key(after, k) implies entries_map(after)[k]
                    == entries_map(before).insert(key, value)[k] by {
                    let i = key_index(after, k);
                    lemma_entry(after, i);
                    lemma_entry(before, i);
                }
                assert(entries_map(after) =~= entries_map(before).insert(key, value));
            }
        } else {
            entries.insert(p, (key, value));
            proof {
                let after = entries@;
                assert(after == before.insert(p as int, (key, value)));
                assert forall|i: int, j: int| 0 <= i < j < after.len() implies key_lt(
                    #[trigger] after[i].0,
                    #[trigger] after[j].0,
                ) by {
                    if j == p {
                        assert(after[i] == before[i]);
                    } else if i == p {
                        assert(after[j] == before[j - 1]);
                    } else {
                        let i2 = if i < p { i } else { i - 1 };
                        let j2 = if j < p { j } else { j - 1 };
                        assert(after[i] == before[i2]);
                        assert(after[j] == before[j2]);
                    }
                }
                assert forall|k: ColumnKey| has_key(after, k) == (has_key(before, k) || k == key) by {
                    if has_key(before, k) {
                        let i = key_index(before, k);
                        let i2 = if i < p { i } else { i + 1 };
                        assert(after[i2] == before[i]);
                    }
                    if has_key(after, k) && k != key {
                        let i = key_index(after, k);
                        let i2 = if i < p { i } else { i - 1 };
                        assert(before[i2] == after[i]);
                    }
                    assert(after[p as int].0 == key);
                }
                assert forall|k: ColumnKey| has_key(after, k) implies entries_map(after)[k]
                    == entries_map(before).insert(key, value)[k] by {
                    let i = key_index(after, k);
                    lemma_entry(after, i);
                    if i != p {
                        let i2 = if i < p { i } else { i - 1 };
                        assert(before[i2] == after[i]);
                        lemma_entry(before, i2);
                        lemma_entry(after, p as int);
                    }
                }
                assert(entries_map(after) =~= entries_map(before).insert(key, value));
            }
        }
        self.entries = entries;
    }

    pub fn len(&self) -> (n: usize)
        ensures
            n == self@.dom().len(),
            self@.dom().finite(),
    {
        proof {
            use_type_invariant(self);
            lemma_entries_len(self.entries@);
        }
        self.entries.len()
    }
}

proof fn lemma_entries_len(s: Seq<(ColumnKey, i64)>)
    requires
        sorted(s),
    ensures
        entries_map(s).dom().finite(),
        entries_map(s).dom().len() == s.len(),
    decreases s.len(),
{
    if s.len() == 0 {
        assert(entries_map(s).dom() =~= Set::<ColumnKey>::empty());
    } else {
        let t = s.drop_last();
        let k = s.last().0;
        lemma_entries_len(t);
        assert(!has_key(t, k)) by {
            if has_key(t, k) {
                let i = key_index(t, k);
                assert(s[i].0 == t[i].0);
                assert(s[s.len() - 1].0 == k);
            }
        }
        assert forall|x: ColumnKey| has_key(s, x) == (has_key(t, x) || x == k) by {
            if has_key(t, x) {
                let i = key_index(t, x);
                assert(s[i].0 == x);
            }
            if has_key(s, x) && x != k {
                let i = key_index(s, x);
                assert(t[i].0 == x);
            }
            assert(s[s.len() - 1].0 == k);
        }
        assert(entries_map(s).dom() =~= entries_map(t).dom().insert(k));
    }
}

pub open spec fn spec_delta(m: Map<ColumnKey, i64>, key: ColumnKey) -> i64 {
    if m.contains_key(key) {
        m[key]
    } else {
        0
    }
}

impl Clone for Edits {
    fn clone(&self) -> (r: Self)
        ensures
            r@ == self@,
    {
        let mut entries: Vec<(ColumnKey, i64)> = Vec::new();
        let mut i: usize = 0;
        while i < self.entries.len()
            invariant
                i <= self.entries@.len(),
                entries@ == self.entries@.take(i as int),
            decreases self.entries@.len() - i,
        {
            entries.push(self.entries[i]);
            i += 1;
        }
        proof {
            use_type_invariant(self);
            assert(entries@ =~= self.entries@);
        }
        Edits { entries }
    }
}

impl Default for Edits {
    fn default() -> (r: Self)
        ensures
            r@ == Map::<ColumnKey, i64>::empty(),
    {
        Edits::new()
    }
}

/// Edits of every body, in independent maps: the body is part of the key.
pub struct BodyEdits {
    pub sun: Edits,
    pub neisor: Edits,
    pub moon: Edits,
}

impl BodyEdits {
    /// The edits of one body.
    pub open spec fn of(self, body: BodyId) -> Edits {
        match body {
            BodyId::Sun => self.sun,
            BodyId::Neisor => self.neisor,
            BodyId::Moon => self.moon,
        }
    }

    pub fn for_body(&self, body: BodyId) -> (r: &Edits)
        ensures
            *r == self.of(body),
    {
        match body {
            BodyId::Sun => &self.sun,
            BodyId::Neisor => &self.neisor,
            BodyId::Moon => &self.moon,
        }
    }

    /// Mutable access to one body's edits; the other bodies keep theirs.
    pub fn for_body_mut(&mut self, body: BodyId) -> (r: &mut Edits)
        ensures
            *r == old(self).of(body),
            final(self).of(body) == *final(r),
            forall|other: BodyId| other != body ==> #[trigger] final(self).of(other) == old(self).of(other),
    {
        match body {
            BodyId::Sun => &mut self.sun,
            BodyId::Neisor => &mut self.neisor,
            BodyId::Moon => &mut self.moon,
        }
    }

    /// A save record that predates the other bodies: all edits are Neisor's.
    pub fn from_neisor(neisor: Edits) -> (r: Self)
        ensures
            r.neisor == neisor,
            r.sun@ == Map::<ColumnKey, i64>::empty(),
            r.moon@ == Map::<ColumnKey, i64>::empty(),
    {
        Self { sun: Edits::new(), neisor, moon: Edits::new() }
    }
}

impl Clone for BodyEdits {
    fn clone(&self) -> (r: Self)
        ensures
            forall|body: BodyId| (#[trigger] r.of(body))@ == self.of(body)@,
    {
        BodyEdits { sun: self.sun.clone(), neisor: self.neisor.clone(), moon: self.moon.clone() }
    }
}

impl Default for BodyEdits {
    fn default() -> (r: Self)
        ensures
            forall|body: BodyId| (#[trigger] r.of(body))@ == Map::<ColumnKey, i64>::empty(),
    {
        Self { sun: Edits::new(), neisor: Edits::new(), moon: Edits::new() }
    }
}

/// A touched column has its change, an untouched one none.
pub proof fn untouched_columns_are_unchanged(m: Map<ColumnKey, i64>, key: ColumnKey, other: ColumnKey, d: i64)
    ensures
        spec_delta(Map::empty(), key) == 0,
        spec_delta(m.insert(key, d), key) == d,
        other != key ==> spec_delta(m.insert(key, d), other) == spec_delta(m, other),
{
}

/// Every body has edits of its own.
pub proof fn bodies_have_their_own_edits(e: BodyEdits)
    ensures
        e.of(BodyId::Sun) == e.sun,
        e.of(BodyId::Neisor) == e.neisor,
        e.of(BodyId::Moon) == e.moon,
{
}

} // verus!
