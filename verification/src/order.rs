//! Lists without repetitions.

use vstd::prelude::*;

verus! {

/// `s` with every repetition of an earlier element left out.
pub open spec fn first_occurrences<A>(s: Seq<A>) -> Seq<A>
    decreases s.len(),
{
    if s.len() == 0 {
        s
    } else {
        let rest = first_occurrences(s.drop_last());
        if rest.contains(s.last()) {
            rest
        } else {
            rest.push(s.last())
        }
    }
}

/// An element of a pushed list is the last one or an earlier one.
pub proof fn push_contains<A>(s: Seq<A>, x: A)
    ensures
        forall|k: A| #[trigger] s.push(x).contains(k) <==> (s.contains(k) || k == x),
{
    assert forall|k: A| #[trigger] s.push(x).contains(k) <==> (s.contains(k) || k == x) by {
        if s.contains(k) {
            let i = choose|i: int| 0 <= i < s.len() && s[i] == k;
            assert(s.push(x)[i] == k);
        }
        assert(s.push(x)[s.len() as int] == x);
        if s.push(x).contains(k) && k != x {
            let i = choose|i: int| 0 <= i < s.push(x).len() && s.push(x)[i] == k;
            assert(s[i] == k);
        }
    }
}

/// Leaving out repetitions keeps the same elements, each once, and the first
/// of them first.
pub proof fn first_occurrences_keep_the_set<A>(s: Seq<A>)
    ensures
        first_occurrences(s).no_duplicates(),
        forall|k: A| #[trigger] first_occurrences(s).contains(k) <==> s.contains(k),
        s.len() > 0 ==> first_occurrences(s).len() > 0 && first_occurrences(s)[0] == s[0],
        first_occurrences(s).len() <= s.len(),
    decreases s.len(),
{
    if s.len() > 0 {
        let t = s.drop_last();
        let rest = first_occurrences(t);
        let all = first_occurrences(s);
        first_occurrences_keep_the_set(t);
        push_contains(t, s.last());
        push_contains(rest, s.last());
        assert(t.push(s.last()) =~= s);
        assert(all.no_duplicates()) by {
            if !rest.contains(s.last()) {
                assert forall|a: int, b: int| 0 <= a < all.len() && 0 <= b < all.len() && a
                    != b implies all[a] != all[b] by {
                    if a == rest.len() {
                        assert(rest[b] == all[b]);
                    } else if b == rest.len() {
                        assert(rest[a] == all[a]);
                    }
                }
            }
        }
        if t.len() == 0 {
            assert(rest =~= Seq::<A>::empty());
            assert(all[0] == s[0]);
        } else {
            assert(t[0] == s[0]);
            assert(all[0] == rest[0]);
        }
    }
}

/// Elements stand in the order in which they first occur.
pub proof fn first_occurrences_keep_the_order<A>(s: Seq<A>, i: int, j: int, p: int)
    requires
        0 <= i < j < first_occurrences(s).len(),
        0 <= p < s.len(),
        s[p] == first_occurrences(s)[j],
    ensures
        exists|q: int| 0 <= q < p && #[trigger] s[q] == first_occurrences(s)[i],
    decreases s.len(),
{
    let t = s.drop_last();
    let rest = first_occurrences(t);
    first_occurrences_keep_the_set(t);
    first_occurrences_keep_the_set(s);
    if j < rest.len() {
        if p < t.len() {
            assert(t[p] == s[p]);
            first_occurrences_keep_the_order(t, i, j, p);
            let q = choose|q: int| 0 <= q < p && #[trigger] t[q] == rest[i];
            assert(s[q] == rest[i]);
        } else {
            assert(rest.contains(rest[i]));
            let q = choose|q: int| 0 <= q < t.len() && t[q] == rest[i];
            assert(s[q] == rest[i]);
        }
    } else {
        if p < t.len() {
            assert(t[p] == s.last());
            assert(t.contains(s.last()));
            assert(rest.contains(s.last()));
        }
        assert(rest.contains(rest[i]));
        let q = choose|q: int| 0 <= q < t.len() && t[q] == rest[i];
        assert(s[q] == rest[i]);
    }
}

} // verus!
