//! Ranking things by a measure: which torches light the scene, and how slow
//! the slow frames are.

use vstd::prelude::*;
use crate::measure::Measure;

verus! {

/// Torches that light the scene at once.
pub const MAX_LIGHTS: usize = 16;

/// Frames below which no statistic is worth showing.
pub const LEAST_FRAMES: usize = 30;

/// `a` ranks before `b`: it is less, or as much and listed earlier.
pub open spec fn ranks_before(keys: Seq<Measure>, a: int, b: int) -> bool {
    keys[a] < keys[b] || (keys[a] == keys[b] && a < b)
}

/// `order` lists the first `n` places, each once, least key first.
pub open spec fn is_ranking(keys: Seq<Measure>, order: Seq<usize>, n: int) -> bool {
    &&& order.len() == n
    &&& forall|i: int| 0 <= i < order.len() ==> (#[trigger] order[i]) < n
    &&& forall|i: int, j: int|
        #![trigger order[i], order[j]]
        0 <= i < j < order.len() ==> ranks_before(keys, order[i] as int, order[j] as int)
}

/// The places of `keys`, least key first; equal keys keep their order.
pub fn ranking(keys: &Vec<Measure>) -> (order: Vec<usize>)
    ensures
        is_ranking(keys@, order@, keys@.len() as int),
{
    let mut order: Vec<usize> = Vec::new();
    let mut k: usize = 0;
    while k < keys.len()
        invariant
            k <= keys@.len(),
            is_ranking(keys@, order@, k as int),
        decreases keys@.len() - k,
    {
        let mut at: usize = order.len();
        while at > 0 && keys[k] < keys[order[at - 1]]
            invariant
                k < keys@.len(),
                at <= order@.len(),
                is_ranking(keys@, order@, k as int),
                forall|i: int|
                    at <= i < order@.len() ==> keys@[k as int] < keys@[(#[trigger] order@[i]) as int],
            decreases at,
        {
            at -= 1;
        }
        let ghost before = order@;
        order.insert(at, k);
        proof {
            lemma_ranked(keys@, before, k as int, at as int);
            assert(order@ =~= before.insert(at as int, k));
        }
        k += 1;
    }
    order
}

proof fn lemma_ranked(keys: Seq<Measure>, before: Seq<usize>, k: int, at: int)
    requires
        0 <= k < keys.len() <= usize::MAX,
        is_ranking(keys, before, k),
        0 <= at <= before.len(),
        at > 0 ==> keys[before[at - 1] as int] <= keys[k],
        forall|i: int| at <= i < before.len() ==> keys[k] < keys[(#[trigger] before[i]) as int],
    ensures
        is_ranking(keys, before.insert(at, k as usize), k + 1),
{
    let after = before.insert(at, k as usize);
    assert forall|i: int, j: int|
        #![trigger after[i], after[j]]
        0 <= i < j < after.len() implies ranks_before(keys, after[i] as int, after[j] as int) by {
        if i < at && j == at {
            assert(after[i] == before[i]);
            if i < at - 1 {
                assert(ranks_before(keys, before[i] as int, before[at - 1] as int));
            }
        } else if i == at {
            assert(after[j] == before[j - 1]);
        } else {
            let a = if i < at {
                i
            } else {
                i - 1
            };
            let b = if j < at {
                j
            } else {
                j - 1
            };
            assert(after[i] == before[a] && after[j] == before[b]);
        }
    }
    assert forall|i: int| 0 <= i < after.len() implies (#[trigger] after[i]) < k + 1 by {
        if i < at {
            assert(after[i] == before[i]);
        } else if i > at {
            assert(after[i] == before[i - 1]);
        }
    }
}

/// A ranking names no place twice.
pub proof fn rankings_name_places_once(
    keys: Seq<Measure>,
    order: Seq<usize>,
    n: int,
    i: int,
    j: int,
)
    requires
        is_ranking(keys, order, n),
        0 <= i < j < order.len(),
    ensures
        order[i] != order[j],
{
    assert(ranks_before(keys, order[i] as int, order[j] as int));
}

/// `lit` starts the ranking of the distances: at most [`MAX_LIGHTS`] of them.
pub open spec fn are_lights(dists: Seq<Measure>, lit: Seq<usize>) -> bool {
    exists|order: Seq<usize>|
        {
            &&& #[trigger] is_ranking(dists, order, dists.len() as int)
            &&& lit == order.take(
                if dists.len() < MAX_LIGHTS {
                    dists.len() as int
                } else {
                    MAX_LIGHTS as int
                },
            )
        }
}

/// The torches that become lights, nearest first.
pub fn nearest_lights(dists: &Vec<Measure>) -> (lit: Vec<usize>)
    ensures
        are_lights(dists@, lit@),
{
    let order: Vec<usize> = ranking(dists);
    let mut lit: Vec<usize> = Vec::new();
    let mut i: usize = 0;
    while i < order.len() && i < MAX_LIGHTS
        invariant
            i <= order@.len(),
            i <= MAX_LIGHTS,
            lit@ == order@.take(i as int),
        decreases order@.len() - i,
    {
        lit.push(order[i]);
        i += 1;
        assert(lit@ =~= order@.take(i as int));
    }
    lit
}

/// Where, in the ranking of `n` frame times, the slow ones begin.
pub open spec fn slow_place(n: int) -> int {
    95 * n / 100
}

/// The frame of a window with which the slow ones begin: 95 in a hundred of
/// the frames rank before it. Fewer than [`LEAST_FRAMES`] frames have none.
pub fn slow_frame(times: &Vec<Measure>) -> (r: Option<usize>)
    requires
        times@.len() <= crate::frame::WINDOW,
    ensures
        r is None <==> times@.len() < LEAST_FRAMES,
        r matches Some(k) ==> exists|order: Seq<usize>|
            {
                &&& #[trigger] is_ranking(times@, order, times@.len() as int)
                &&& k == order[slow_place(times@.len() as int)]
            },
{
    if times.len() < LEAST_FRAMES {
        return None;
    }
    let order: Vec<usize> = ranking(times);
    let at: usize = 95 * order.len() / 100;
    Some(order[at])
}

proof fn lemma_ranking_covers(keys: Seq<Measure>, order: Seq<usize>, n: int, k: int) -> (i: int)
    requires
        is_ranking(keys, order, n),
        0 <= k < n,
    ensures
        0 <= i < order.len(),
        order[i] == k,
{
    let places = order.map_values(|x: usize| x as int);
    assert(places.no_duplicates()) by {
        assert forall|a: int, b: int|
            0 <= a < places.len() && 0 <= b < places.len() && a != b implies places[a]
            != places[b] by {
            if a < b {
                rankings_name_places_once(keys, order, n, a, b);
            } else {
                rankings_name_places_once(keys, order, n, b, a);
            }
        }
    }
    let all = vstd::set_lib::set_int_range(0, n);
    vstd::set_lib::lemma_int_range(0, n);
    places.unique_seq_to_set();
    assert(places.to_set().subset_of(all)) by {
        assert forall|x: int| places.to_set().contains(x) implies all.contains(x) by {
            let a = choose|a: int| 0 <= a < places.len() && places[a] == x;
            assert(order[a] == x);
        }
    }
    vstd::set_lib::lemma_subset_equality(places.to_set(), all);
    assert(places.to_set().contains(k));
    choose|a: int| 0 <= a < places.len() && places[a] == k
}

/// A torch that is left dark is no nearer than any that is lit, and torches
/// stay dark only when all the lights are taken.
pub proof fn dark_torches_are_no_nearer(dists: Seq<Measure>, lit: Seq<usize>, dark: int)
    requires
        are_lights(dists, lit),
        0 <= dark < dists.len(),
        !lit.contains(dark as usize),
        dists.len() <= usize::MAX,
    ensures
        lit.len() == MAX_LIGHTS,
        forall|i: int| 0 <= i < lit.len() ==> dists[(#[trigger] lit[i]) as int] <= dists[dark],
{
    let order = choose|order: Seq<usize>|
        {
            &&& #[trigger] is_ranking(dists, order, dists.len() as int)
            &&& lit == order.take(
                if dists.len() < MAX_LIGHTS {
                    dists.len() as int
                } else {
                    MAX_LIGHTS as int
                },
            )
        };
    let d = lemma_ranking_covers(dists, order, dists.len() as int, dark);
    assert(d >= lit.len()) by {
        if d < lit.len() {
            assert(lit[d] == dark);
        }
    }
    assert forall|i: int| 0 <= i < lit.len() implies dists[(#[trigger] lit[i]) as int]
        <= dists[dark] by {
        assert(lit[i] == order[i]);
        assert(ranks_before(dists, order[i] as int, order[d] as int));
    }
}

/// The sixteen nearest torches, or all where there are fewer, are lit, the
/// nearest first and each once.
pub proof fn lights_go_from_near_to_far(dists: Seq<Measure>, lit: Seq<usize>, i: int, j: int)
    requires
        are_lights(dists, lit),
    ensures
        dists.len() <= 16 ==> lit.len() == dists.len(),
        dists.len() > 16 ==> lit.len() == 16,
        0 <= i < lit.len() ==> lit[i] < dists.len(),
        0 <= i < j < lit.len() ==> lit[i] != lit[j] && dists[lit[i] as int] <= dists[lit[j] as int] && (
        dists[lit[i] as int] == dists[lit[j] as int] ==> lit[i] < lit[j]),
{
    let order = choose|order: Seq<usize>|
        {
            &&& #[trigger] is_ranking(dists, order, dists.len() as int)
            &&& lit == order.take(
                if dists.len() < MAX_LIGHTS {
                    dists.len() as int
                } else {
                    MAX_LIGHTS as int
                },
            )
        };
    if 0 <= i < lit.len() {
        assert(lit[i] == order[i]);
    }
    if 0 <= i < j < lit.len() {
        assert(lit[j] == order[j]);
        assert(ranks_before(dists, order[i] as int, order[j] as int));
    }
}

/// Ranked keys never fall, and equal keys stay in their order.
pub proof fn rankings_rise(keys: Seq<Measure>, order: Seq<usize>, i: int, j: int)
    requires
        is_ranking(keys, order, keys.len() as int),
        0 <= i < j < order.len(),
    ensures
        order.len() == keys.len(),
        keys[order[i] as int] <= keys[order[j] as int],
        keys[order[i] as int] == keys[order[j] as int] ==> order[i] < order[j],
{
    assert(ranks_before(keys, order[i] as int, order[j] as int));
}

/// Slow frames begin where 95 in a hundred rank before.
pub proof fn slow_frames_are_one_in_twenty(n: int)
    requires
        n >= 30,
    ensures
        0 <= slow_place(n) < n,
        100 * slow_place(n) <= 95 * n < 100 * (slow_place(n) + 1),
{
}

} // verus!
