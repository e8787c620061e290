//! Reaches: junction-to-junction chains of drainage segments.
//!
//! A node is pinned where the graph branches, begins, ends, or crosses a
//! lake's shore. A reach runs from pin to pin, so noise along a course does
//! not restart at every cell.

use std::collections::{HashMap, HashSet};
use vstd::prelude::*;
use crate::rivers_file::{LakeRecord, Node, SegmentRecord};

verus! {

/// Segments among the first `k` that end at a node.
pub open spec fn count_into(segs: Seq<SegmentRecord>, n: Node, k: int) -> int
    decreases k,
{
    if k <= 0 {
        0
    } else {
        count_into(segs, n, k - 1) + if segs[k - 1].b == n {
            1int
        } else {
            0
        }
    }
}

/// Segments among the first `k` that start at a node.
pub open spec fn count_out(segs: Seq<SegmentRecord>, n: Node, k: int) -> int
    decreases k,
{
    if k <= 0 {
        0
    } else {
        count_out(segs, n, k - 1) + if segs[k - 1].a == n {
            1int
        } else {
            0
        }
    }
}

/// The first segment among the first `k` that starts at a node.
pub open spec fn first_out(segs: Seq<SegmentRecord>, n: Node, k: int) -> Option<usize>
    decreases k,
{
    if k <= 0 {
        None
    } else if first_out(segs, n, k - 1) is Some {
        first_out(segs, n, k - 1)
    } else if segs[k - 1].a == n {
        Some((k - 1) as usize)
    } else {
        None
    }
}

/// A node is the center of a wet lake cell among the first `k`.
pub open spec fn in_lake(lakes: Seq<LakeRecord>, n: Node, k: int) -> bool {
    exists|i: int| 0 <= i < k && !(#[trigger] lakes[i]).is_rim() && lakes[i].center == n
}

/// A segment crosses a shore: exactly one of its ends lies in a lake.
pub open spec fn crosses(lakes: Seq<LakeRecord>, s: SegmentRecord) -> bool {
    in_lake(lakes, s.a, lakes.len() as int) != in_lake(lakes, s.b, lakes.len() as int)
}

/// The lake end of a segment that crosses a shore.
pub open spec fn shore_node(lakes: Seq<LakeRecord>, s: SegmentRecord) -> Node {
    if in_lake(lakes, s.a, lakes.len() as int) {
        s.a
    } else {
        s.b
    }
}

/// A node is where one of the first `k` segments crosses a shore.
pub open spec fn on_shore(segs: Seq<SegmentRecord>, lakes: Seq<LakeRecord>, n: Node, k: int) -> bool {
    exists|i: int|
        0 <= i < k && crosses(lakes, #[trigger] segs[i]) && shore_node(lakes, segs[i]) == n
}

/// Reaches begin and end at pinned nodes.
pub open spec fn pinned(segs: Seq<SegmentRecord>, lakes: Seq<LakeRecord>, n: Node) -> bool {
    let k = segs.len() as int;
    count_into(segs, n, k) != 1 || count_out(segs, n, k) != 1 || on_shore(segs, lakes, n, k)
}

/// The segment that continues a reach, unless it ends at a pin.
pub open spec fn continues(segs: Seq<SegmentRecord>, lakes: Seq<LakeRecord>, i: int) -> Option<
    usize,
> {
    if pinned(segs, lakes, segs[i].b) {
        None
    } else {
        first_out(segs, segs[i].b, segs.len() as int)
    }
}

// ------------------------------------------------------------------- links

/// A number that identifies a node.
spec fn node_id(n: Node) -> u128 {
    (n.x * 0x1_0000_0000_0000_0000 + n.y * 0x1_0000_0000 + n.z) as u128
}

fn node_code(n: Node) -> (r: u128)
    ensures
        r == node_id(n),
{
    n.x as u128 * 0x1_0000_0000_0000_0000 + n.y as u128 * 0x1_0000_0000 + n.z as u128
}

proof fn lemma_node_ids(a: Node, b: Node)
    ensures
        node_id(a) == node_id(b) ==> a == b,
{
    if node_id(a) == node_id(b) {
        assert(a.z == b.z && a.y == b.y && a.x == b.x);
    }
}

proof fn lemma_all_node_ids()
    ensures
        forall|a: Node, b: Node| #[trigger] node_id(a) == #[trigger] node_id(b) ==> a == b,
{
    assert forall|a: Node, b: Node| #[trigger] node_id(a) == #[trigger] node_id(b) implies a == b by {
        lemma_node_ids(a, b);
    }
}

/// How the segments use one node.
#[derive(Clone, Copy)]
struct NodeUse {
    incoming: usize,
    outgoing: usize,
    first: Option<usize>,
}

spec fn use_of(m: Map<u128, NodeUse>, n: Node) -> NodeUse {
    if m.contains_key(node_id(n)) {
        m[node_id(n)]
    } else {
        NodeUse { incoming: 0, outgoing: 0, first: None }
    }
}

spec fn counted(m: Map<u128, NodeUse>, segs: Seq<SegmentRecord>, k: int) -> bool {
    forall|n: Node| {
        let u = #[trigger] use_of(m, n);
        &&& u.incoming == count_into(segs, n, k)
        &&& u.outgoing == count_out(segs, n, k)
        &&& u.first == first_out(segs, n, k)
    }
}

fn lookup(m: &HashMap<u128, NodeUse>, n: Node) -> (u: NodeUse)
    ensures
        u == use_of(m@, n),
{
    broadcast use vstd::std_specs::hash::group_hash_axioms;

    match m.get(&node_code(n)) {
        Some(u) => *u,
        None => NodeUse { incoming: 0, outgoing: 0, first: None },
    }
}

proof fn lemma_counts_bounded(segs: Seq<SegmentRecord>, n: Node, k: int)
    requires
        k >= 0,
    ensures
        0 <= count_into(segs, n, k) <= k,
        0 <= count_out(segs, n, k) <= k,
    decreases k,
{
    if k > 0 {
        lemma_counts_bounded(segs, n, k - 1);
    }
}

fn count_uses(segs: &Vec<SegmentRecord>) -> (m: HashMap<u128, NodeUse>)
    ensures
        counted(m@, segs@, segs@.len() as int),
{
    broadcast use vstd::std_specs::hash::group_hash_axioms;

    proof {
        lemma_all_node_ids();
    }
    let mut m: HashMap<u128, NodeUse> = HashMap::new();
    let mut k: usize = 0;
    while k < segs.len()
        invariant
            k <= segs@.len(),
            counted(m@, segs@, k as int),
            forall|a: Node, b: Node| #[trigger] node_id(a) == #[trigger] node_id(b) ==> a == b,
        decreases segs@.len() - k,
    {
        let s: SegmentRecord = segs[k];
        let ghost m0 = m@;
        let ua: NodeUse = lookup(&m, s.a);
        proof {
            lemma_counts_bounded(segs@, s.a, k as int);
        }
        let first: Option<usize> = match ua.first {
            Some(i) => Some(i),
            None => Some(k),
        };
        m.insert(
            node_code(s.a),
            NodeUse { incoming: ua.incoming, outgoing: ua.outgoing + 1, first },
        );
        let ghost m1 = m@;
        let ub: NodeUse = lookup(&m, s.b);
        proof {
            lemma_counts_bounded(segs@, s.b, k as int);
            assert(m1 == m0.insert(
                node_id(s.a),
                NodeUse { incoming: ua.incoming, outgoing: (ua.outgoing + 1) as usize, first },
            ));
            assert(use_of(m0, s.b).incoming == count_into(segs@, s.b, k as int));
            assert(ub.incoming == use_of(m0, s.b).incoming);
        }
        m.insert(
            node_code(s.b),
            NodeUse { incoming: ub.incoming + 1, outgoing: ub.outgoing, first: ub.first },
        );
        proof {
            assert forall|n: Node| {
                let u = #[trigger] use_of(m@, n);
                &&& u.incoming == count_into(segs@, n, k + 1)
                &&& u.outgoing == count_out(segs@, n, k + 1)
                &&& u.first == first_out(segs@, n, k + 1)
            } by {
                let u0 = use_of(m0, n);
                assert(u0.incoming == count_into(segs@, n, k as int));
                assert(u0.outgoing == count_out(segs@, n, k as int));
                assert(u0.first == first_out(segs@, n, k as int));
                let u1 = use_of(m1, n);
                if n == s.a {
                } else {
                    assert(node_id(n) != node_id(s.a));
                    assert(u1 == u0);
                }
                if n != s.b {
                    assert(node_id(n) != node_id(s.b));
                }
            }
        }
        k += 1;
    }
    m
}

spec fn lake_set(s: Set<u128>, lakes: Seq<LakeRecord>, k: int) -> bool {
    forall|n: Node| #[trigger] s.contains(node_id(n)) <==> in_lake(lakes, n, k)
}

fn lake_nodes(lakes: &Vec<LakeRecord>) -> (s: HashSet<u128>)
    ensures
        lake_set(s@, lakes@, lakes@.len() as int),
{
    broadcast use vstd::std_specs::hash::group_hash_axioms;

    proof {
        lemma_all_node_ids();
    }
    let mut s: HashSet<u128> = HashSet::new();
    let mut k: usize = 0;
    while k < lakes.len()
        invariant
            k <= lakes@.len(),
            lake_set(s@, lakes@, k as int),
            forall|a: Node, b: Node| #[trigger] node_id(a) == #[trigger] node_id(b) ==> a == b,
        decreases lakes@.len() - k,
    {
        let ghost s0 = s@;
        let l: LakeRecord = lakes[k];
        if !l.rim() {
            s.insert(node_code(l.center));
        }
        proof {
            assert forall|n: Node| #[trigger] s@.contains(node_id(n)) <==> in_lake(
                lakes@,
                n,
                k + 1,
            ) by {
                if in_lake(lakes@, n, k as int) {
                    let i = choose|i: int|
                        0 <= i < k && !(#[trigger] lakes@[i]).is_rim() && lakes@[i].center == n;
                    assert(!lakes@[i].is_rim());
                    assert(s0.contains(node_id(n)));
                }
                if in_lake(lakes@, n, k + 1) && !in_lake(lakes@, n, k as int) {
                    let i = choose|i: int|
                        0 <= i < k + 1 && !(#[trigger] lakes@[i]).is_rim() && lakes@[i].center == n;
                    assert(i == k);
                }
                if s@.contains(node_id(n)) && !s0.contains(node_id(n)) {
                    assert(node_id(n) == node_id(l.center));
                    assert(!lakes@[k as int].is_rim());
                }
            }
        }
        k += 1;
    }
    s
}

spec fn shore_set(s: Set<u128>, segs: Seq<SegmentRecord>, lakes: Seq<LakeRecord>, k: int) -> bool {
    forall|n: Node| #[trigger] s.contains(node_id(n)) <==> on_shore(segs, lakes, n, k)
}

fn shore_nodes(segs: &Vec<SegmentRecord>, lakes: &Vec<LakeRecord>) -> (s: HashSet<u128>)
    ensures
        shore_set(s@, segs@, lakes@, segs@.len() as int),
{
    broadcast use vstd::std_specs::hash::group_hash_axioms;

    let wet: HashSet<u128> = lake_nodes(lakes);
    proof {
        lemma_all_node_ids();
    }
    let mut s: HashSet<u128> = HashSet::new();
    let mut k: usize = 0;
    while k < segs.len()
        invariant
            k <= segs@.len(),
            lake_set(wet@, lakes@, lakes@.len() as int),
            shore_set(s@, segs@, lakes@, k as int),
            forall|a: Node, b: Node| #[trigger] node_id(a) == #[trigger] node_id(b) ==> a == b,
        decreases segs@.len() - k,
    {
        let ghost s0 = s@;
        let seg: SegmentRecord = segs[k];
        let a_lake: bool = wet.contains(&node_code(seg.a));
        let b_lake: bool = wet.contains(&node_code(seg.b));
        proof {
            assert(a_lake == in_lake(lakes@, seg.a, lakes@.len() as int));
            assert(b_lake == in_lake(lakes@, seg.b, lakes@.len() as int));
        }
        if a_lake != b_lake {
            s.insert(
                node_code(
                    if a_lake {
                        seg.a
                    } else {
                        seg.b
                    },
                ),
            );
        }
        proof {
            assert forall|n: Node| #[trigger] s@.contains(node_id(n)) <==> on_shore(
                segs@,
                lakes@,
                n,
                k + 1,
            ) by {
                if on_shore(segs@, lakes@, n, k as int) {
                    let i = choose|i: int|
                        0 <= i < k && crosses(lakes@, #[trigger] segs@[i]) && shore_node(
                            lakes@,
                            segs@[i],
                        ) == n;
                    assert(crosses(lakes@, segs@[i]));
                    assert(s0.contains(node_id(n)));
                }
                if on_shore(segs@, lakes@, n, k + 1) && !on_shore(segs@, lakes@, n, k as int) {
                    let i = choose|i: int|
                        0 <= i < k + 1 && crosses(lakes@, #[trigger] segs@[i]) && shore_node(
                            lakes@,
                            segs@[i],
                        ) == n;
                    assert(i == k);
                }
                if s@.contains(node_id(n)) && !s0.contains(node_id(n)) {
                    assert(node_id(n) == node_id(shore_node(lakes@, seg)));
                    assert(crosses(lakes@, segs@[k as int]));
                }
            }
        }
        k += 1;
    }
    s
}

/// How segments join: whether each starts at a pin, and which continues it.
pub struct Links {
    pub starts: Vec<bool>,
    pub next: Vec<Option<usize>>,
}

/// Work out how the segments join.
pub fn link_segments(segs: &Vec<SegmentRecord>, lakes: &Vec<LakeRecord>) -> (r: Links)
    ensures
        r.starts@ == Seq::new(segs@.len(), |i: int| pinned(segs@, lakes@, segs@[i].a)),
        r.next@ == Seq::new(segs@.len(), |i: int| continues(segs@, lakes@, i)),
        links_ok(r.next@),
{
    broadcast use vstd::std_specs::hash::group_hash_axioms;

    let n: usize = segs.len();
    let uses: HashMap<u128, NodeUse> = count_uses(segs);
    let shore: HashSet<u128> = shore_nodes(segs, lakes);
    let mut starts: Vec<bool> = Vec::new();
    let mut next: Vec<Option<usize>> = Vec::new();
    let mut k: usize = 0;
    while k < segs.len()
        invariant
            k <= segs@.len(),
            counted(uses@, segs@, segs@.len() as int),
            shore_set(shore@, segs@, lakes@, segs@.len() as int),
            starts@ == Seq::new(k as nat, |i: int| pinned(segs@, lakes@, segs@[i].a)),
            next@ == Seq::new(k as nat, |i: int| continues(segs@, lakes@, i)),
        decreases segs@.len() - k,
    {
        let s: SegmentRecord = segs[k];
        let ua: NodeUse = lookup(&uses, s.a);
        let ub: NodeUse = lookup(&uses, s.b);
        let pin_a: bool = ua.incoming != 1 || ua.outgoing != 1 || shore.contains(&node_code(s.a));
        let pin_b: bool = ub.incoming != 1 || ub.outgoing != 1 || shore.contains(&node_code(s.b));
        assert(shore@.contains(node_id(s.a)) == on_shore(
            segs@,
            lakes@,
            s.a,
            segs@.len() as int,
        ));
        assert(shore@.contains(node_id(s.b)) == on_shore(
            segs@,
            lakes@,
            s.b,
            segs@.len() as int,
        ));
        starts.push(pin_a);
        next.push(
            if pin_b {
                None
            } else {
                ub.first
            },
        );
        assert(starts@ =~= Seq::new((k + 1) as nat, |i: int| pinned(segs@, lakes@, segs@[i].a)));
        assert(next@ =~= Seq::new((k + 1) as nat, |i: int| continues(segs@, lakes@, i)));
        k += 1;
    }
    proof {
        assert forall|i: int| 0 <= i < next@.len() implies ((#[trigger] next@[i]) matches Some(j)
            ==> j < next@.len()) by {
            continuations_join_ends(segs@, lakes@, i);
        }
    }
    Links { starts, next }
}

// ------------------------------------------------------------------ tracing

/// Segments not yet in a reach.
pub open spec fn open_count(assigned: Seq<bool>) -> nat
    decreases assigned.len(),
{
    if assigned.len() == 0 {
        0
    } else {
        open_count(assigned.drop_last()) + if assigned.last() {
            0nat
        } else {
            1nat
        }
    }
}

proof fn lemma_assign_one(assigned: Seq<bool>, i: int)
    requires
        0 <= i < assigned.len(),
        !assigned[i],
    ensures
        open_count(assigned.update(i, true)) == open_count(assigned) - 1,
        open_count(assigned) >= 1,
    decreases assigned.len(),
{
    let t = assigned.update(i, true);
    if i == assigned.len() - 1 {
        assert(t.drop_last() =~= assigned.drop_last());
    } else {
        assert(t.drop_last() =~= assigned.drop_last().update(i, true));
        lemma_assign_one(assigned.drop_last(), i);
    }
}

/// Every link leads to a segment.
pub open spec fn links_ok(next: Seq<Option<usize>>) -> bool {
    forall|i: int| 0 <= i < next.len() ==> ((#[trigger] next[i]) matches Some(j) ==> j < next.len())
}

/// The chain that starts at a segment and follows links up to a pin, an end,
/// or a segment that already belongs to a reach.
pub open spec fn chain(next: Seq<Option<usize>>, assigned: Seq<bool>, i: usize) -> Seq<usize>
    decreases open_count(assigned),
    via chain_decreases
{
    if i >= assigned.len() || assigned[i as int] {
        Seq::empty()
    } else {
        match next[i as int] {
            None => seq![i],
            Some(j) => seq![i] + chain(next, assigned.update(i as int, true), j),
        }
    }
}

#[via_fn]
proof fn chain_decreases(next: Seq<Option<usize>>, assigned: Seq<bool>, i: usize) {
    if i < assigned.len() && !assigned[i as int] {
        lemma_assign_one(assigned, i as int);
    }
}

/// `assigned` with the segments of a chain taken.
pub open spec fn taken(assigned: Seq<bool>, c: Seq<usize>) -> Seq<bool> {
    Seq::new(assigned.len(), |i: int| assigned[i] || c.contains(i as usize))
}

/// Reaches so far.
#[verifier::ext_equal]
pub struct Tracing {
    pub assigned: Seq<bool>,
    pub chains: Seq<Seq<usize>>,
}

/// Trace the chain of one start, unless its segment is taken.
pub open spec fn traced(next: Seq<Option<usize>>, t: Tracing, i: usize) -> Tracing {
    if t.assigned[i as int] {
        t
    } else {
        let c = chain(next, t.assigned, i);
        Tracing { assigned: taken(t.assigned, c), chains: t.chains.push(c) }
    }
}

/// Trace from every pinned start among the first `k` segments.
pub open spec fn pinned_pass(
    starts: Seq<bool>,
    next: Seq<Option<usize>>,
    t: Tracing,
    k: int,
) -> Tracing
    decreases k,
{
    if k <= 0 {
        t
    } else {
        let before = pinned_pass(starts, next, t, k - 1);
        if starts[k - 1] {
            traced(next, before, (k - 1) as usize)
        } else {
            before
        }
    }
}

/// Trace whatever is left among the first `k` segments: cycles without a pin.
pub open spec fn rest_pass(next: Seq<Option<usize>>, t: Tracing, k: int) -> Tracing
    decreases k,
{
    if k <= 0 {
        t
    } else {
        traced(next, rest_pass(next, t, k - 1), (k - 1) as usize)
    }
}

pub open spec fn untouched(n: nat) -> Tracing {
    Tracing { assigned: Seq::new(n, |i: int| false), chains: Seq::empty() }
}

/// All reaches, in order.
pub open spec fn all_reaches(starts: Seq<bool>, next: Seq<Option<usize>>) -> Seq<Seq<usize>> {
    let n = next.len() as int;
    rest_pass(next, pinned_pass(starts, next, untouched(next.len()), n), n).chains
}

fn trace_reach(start: usize, next: &Vec<Option<usize>>, assigned: &mut Vec<bool>) -> (out: Vec<usize>)
    requires
        links_ok(next@),
        old(assigned)@.len() == next@.len(),
        start < next@.len(),
    ensures
        out@ == chain(next@, old(assigned)@, start),
        final(assigned)@ == taken(old(assigned)@, out@),
{
    let mut out: Vec<usize> = Vec::new();
    let mut current: usize = start;
    let n: usize = next.len();
    let ghost before = assigned@;
    let mut going: bool = true;
    assert(Seq::<usize>::empty() + chain(next@, before, start) =~= chain(next@, before, start));
    assert(assigned@ =~= taken(before, out@));
    while going && !assigned[current]
        invariant
            links_ok(next@),
            n == next@.len(),
            before.len() == n,
            assigned@.len() == n,
            current < n,
            assigned@ == taken(before, out@),
            going ==> chain(next@, before, start) == out@ + chain(next@, assigned@, current),
            !going ==> chain(next@, before, start) == out@,
        decreases open_count(assigned@),
    {
        let ghost was = assigned@;
        let ghost done = out@;
        proof {
            lemma_assign_one(was, current as int);
        }
        let here: usize = current;
        assigned.set(here, true);
        out.push(here);
        proof {
            assert(assigned@ =~= was.update(here as int, true));
            crate::order::push_contains(done, here);
            assert forall|i: int| 0 <= i < n implies assigned@[i] == (before[i] || out@.contains(
                i as usize,
            )) by {
                assert(was[i] == (before[i] || done.contains(i as usize)));
                assert((i as usize == here) == (i == here));
            }
            assert(assigned@ =~= taken(before, out@));
        }
        match next[here] {
            Some(j) => {
                assert(next@[here as int] == Some(j));
                current = j;
                assert(done + (seq![here] + chain(next@, assigned@, j)) =~= out@ + chain(
                    next@,
                    assigned@,
                    j,
                ));
            },
            None => {
                going = false;
                assert(done + seq![here] =~= out@);
            },
        }
    }
    assert(out@ + Seq::<usize>::empty() =~= out@);
    out
}

/// Derive the reaches: first from pinned starts in segment order, then any
/// cycle that has none.
pub fn build_reaches(links: &Links) -> (out: Vec<Vec<usize>>)
    requires
        links_ok(links.next@),
        links.starts@.len() == links.next@.len(),
    ensures
        out@.map_values(|c: Vec<usize>| c@) == all_reaches(links.starts@, links.next@),
{
    let n: usize = links.next.len();
    let ghost next = links.next@;
    let ghost starts = links.starts@;
    let mut assigned: Vec<bool> = Vec::new();
    let mut i: usize = 0;
    while i < n
        invariant
            i <= n,
            assigned@ == Seq::new(i as nat, |k: int| false),
        decreases n - i,
    {
        assigned.push(false);
        assert(assigned@ =~= Seq::new((i + 1) as nat, |k: int| false));
        i += 1;
    }
    let mut out: Vec<Vec<usize>> = Vec::new();
    let ghost view = |c: Vec<usize>| c@;
    assert(out@.map_values(view) =~= Seq::<Seq<usize>>::empty());
    let mut k: usize = 0;
    while k < n
        invariant
            k <= n,
            n == next.len(),
            next == links.next@,
            starts == links.starts@,
            starts.len() == n,
            links_ok(next),
            view == (|c: Vec<usize>| c@),
            assigned@.len() == n,
            (Tracing { assigned: assigned@, chains: out@.map_values(view) }) == pinned_pass(
                starts,
                next,
                untouched(next.len()),
                k as int,
            ),
        decreases n - k,
    {
        if !assigned[k] && links.starts[k] {
            let ghost chains0 = out@.map_values(view);
            let c: Vec<usize> = trace_reach(k, &links.next, &mut assigned);
            out.push(c);
            assert(out@.map_values(view) =~= chains0.push(c@));
        }
        k += 1;
    }
    let ghost half = pinned_pass(starts, next, untouched(next.len()), n as int);
    let mut r: usize = 0;
    while r < n
        invariant
            r <= n,
            n == next.len(),
            next == links.next@,
            links_ok(next),
            view == (|c: Vec<usize>| c@),
            assigned@.len() == n,
            (Tracing { assigned: assigned@, chains: out@.map_values(view) }) == rest_pass(
                next,
                half,
                r as int,
            ),
        decreases n - r,
    {
        if !assigned[r] {
            let ghost chains0 = out@.map_values(view);
            let c: Vec<usize> = trace_reach(r, &links.next, &mut assigned);
            out.push(c);
            assert(out@.map_values(view) =~= chains0.push(c@));
        }
        r += 1;
    }
    out
}

// --------------------------------------------------------------------- laws

/// A chain is a chain: no segment twice, only open segments, its start first,
/// every segment followed by its continuation.
pub proof fn chains_follow_links(next: Seq<Option<usize>>, assigned: Seq<bool>, i: usize)
    requires
        next.len() == assigned.len(),
    ensures
        chain(next, assigned, i).no_duplicates(),
        forall|k: int|
            0 <= k < chain(next, assigned, i).len() ==> (#[trigger] chain(next, assigned, i)[k])
                < assigned.len() && !assigned[chain(next, assigned, i)[k] as int],
        forall|k: int|
            0 <= k < chain(next, assigned, i).len() - 1 ==> next[(#[trigger] chain(
                next,
                assigned,
                i,
            )[k]) as int] == Some(chain(next, assigned, i)[k + 1]),
        i < assigned.len() && !assigned[i as int] ==> chain(next, assigned, i).len() > 0 && chain(
            next,
            assigned,
            i,
        )[0] == i,
    decreases open_count(assigned),
{
    let c = chain(next, assigned, i);
    if i < assigned.len() && !assigned[i as int] {
        lemma_assign_one(assigned, i as int);
        if let Some(j) = next[i as int] {
            let later = assigned.update(i as int, true);
            let rest = chain(next, later, j);
            chains_follow_links(next, later, j);
            assert(c == seq![i] + rest);
            assert forall|k: int| 0 <= k < c.len() implies (#[trigger] c[k]) < assigned.len()
                && !assigned[c[k] as int] by {
                if k > 0 {
                    assert(c[k] == rest[k - 1]);
                }
            }
            assert forall|a: int, b: int|
                0 <= a < c.len() && 0 <= b < c.len() && a != b implies c[a] != c[b] by {
                if a > 0 {
                    assert(c[a] == rest[a - 1]);
                }
                if b > 0 {
                    assert(c[b] == rest[b - 1]);
                }
                if a == 0 {
                    assert(!later[rest[b - 1] as int]);
                }
                if b == 0 {
                    assert(!later[rest[a - 1] as int]);
                }
            }
            assert forall|k: int| 0 <= k < c.len() - 1 implies next[(#[trigger] c[k]) as int]
                == Some(c[k + 1]) by {
                assert(c[k + 1] == rest[k]);
                if k > 0 {
                    assert(c[k] == rest[k - 1]);
                }
            }
        }
    }
}

/// A segment belongs to a reach.
pub open spec fn in_reach(chains: Seq<Seq<usize>>, i: usize) -> bool {
    exists|r: int| 0 <= r < chains.len() && (#[trigger] chains[r]).contains(i)
}

/// Reaches so far share no segment and hold exactly the taken ones.
pub open spec fn disjoint(t: Tracing) -> bool {
    &&& forall|r: int| 0 <= r < t.chains.len() ==> (#[trigger] t.chains[r]).no_duplicates()
    &&& forall|r: int, q: int, i: usize|
        0 <= r < q < t.chains.len() && #[trigger] t.chains[r].contains(i)
            ==> !#[trigger] t.chains[q].contains(i)
    &&& forall|i: usize|
        i < t.assigned.len() ==> (#[trigger] t.assigned[i as int] <==> in_reach(t.chains, i))
}

proof fn lemma_traced_disjoint(next: Seq<Option<usize>>, t: Tracing, i: usize)
    requires
        disjoint(t),
        next.len() == t.assigned.len(),
        i < t.assigned.len(),
        t.assigned.len() <= usize::MAX,
    ensures
        disjoint(traced(next, t, i)),
        traced(next, t, i).assigned.len() == t.assigned.len(),
        traced(next, t, i).assigned[i as int],
        forall|k: int|
            0 <= k < t.assigned.len() && t.assigned[k] ==> #[trigger] traced(
                next,
                t,
                i,
            ).assigned[k],
{
    if !t.assigned[i as int] {
        let c = chain(next, t.assigned, i);
        let u = traced(next, t, i);
        chains_follow_links(next, t.assigned, i);
        assert(c[0] == i);
        assert(c.contains(i));
        let last = t.chains.len() as int;
        assert forall|r: int| 0 <= r < u.chains.len() implies (#[trigger] u.chains[r]).no_duplicates() by {
            if r < last {
                assert(u.chains[r] == t.chains[r]);
            }
        }
        assert forall|r: int, q: int, x: usize|
            0 <= r < q < u.chains.len() && #[trigger] u.chains[r].contains(
                x,
            ) implies !#[trigger] u.chains[q].contains(x) by {
            assert(u.chains[r] == t.chains[r]);
            if q < last {
                assert(u.chains[q] == t.chains[q]);
            } else if c.contains(x) {
                let k = choose|k: int| 0 <= k < c.len() && c[k] == x;
                assert(!t.assigned[c[k] as int]);
                assert(t.chains[r].contains(x));
                assert(in_reach(t.chains, x));
                assert(t.assigned[x as int]);
            }
        }
        assert forall|x: usize| x < u.assigned.len() implies (#[trigger] u.assigned[x as int]
            <==> in_reach(u.chains, x)) by {
            if t.assigned[x as int] {
                let r = choose|r: int| 0 <= r < t.chains.len() && (#[trigger] t.chains[r]).contains(x);
                assert(u.chains[r].contains(x));
            }
            if c.contains(x) {
                assert(u.chains[last].contains(x));
            }
            if in_reach(u.chains, x) {
                let r = choose|r: int| 0 <= r < u.chains.len() && (#[trigger] u.chains[r]).contains(x);
                if r < last {
                    assert(t.chains[r].contains(x));
                }
            }
        }
    }
}

proof fn lemma_pinned_pass_disjoint(
    starts: Seq<bool>,
    next: Seq<Option<usize>>,
    k: int,
)
    requires
        0 <= k <= next.len(),
        next.len() <= usize::MAX,
        starts.len() == next.len(),
    ensures
        ({
            let t = pinned_pass(starts, next, untouched(next.len()), k);
            disjoint(t) && t.assigned.len() == next.len()
        }),
    decreases k,
{
    if k > 0 {
        lemma_pinned_pass_disjoint(starts, next, k - 1);
        let before = pinned_pass(starts, next, untouched(next.len()), k - 1);
        if starts[k - 1] {
            lemma_traced_disjoint(next, before, (k - 1) as usize);
        }
    }
}

proof fn lemma_rest_pass_disjoint(next: Seq<Option<usize>>, t: Tracing, k: int)
    requires
        0 <= k <= next.len(),
        next.len() <= usize::MAX,
        disjoint(t),
        t.assigned.len() == next.len(),
    ensures
        disjoint(rest_pass(next, t, k)),
        rest_pass(next, t, k).assigned.len() == next.len(),
        forall|i: int| 0 <= i < k ==> #[trigger] rest_pass(next, t, k).assigned[i],
    decreases k,
{
    if k > 0 {
        lemma_rest_pass_disjoint(next, t, k - 1);
        let before = rest_pass(next, t, k - 1);
        lemma_traced_disjoint(next, before, (k - 1) as usize);
        assert forall|i: int| 0 <= i < k implies #[trigger] rest_pass(next, t, k).assigned[i] by {
            if i < k - 1 {
                assert(before.assigned[i]);
            }
        }
    }
}

/// Every segment belongs to exactly one reach, and to it once.
pub proof fn reaches_partition_the_segments(
    starts: Seq<bool>,
    next: Seq<Option<usize>>,
    i: usize,
)
    requires
        i < next.len(),
        next.len() <= usize::MAX,
        starts.len() == next.len(),
    ensures
        in_reach(all_reaches(starts, next), i),
        forall|r: int, q: int|
            0 <= r < q < all_reaches(starts, next).len() && (#[trigger] all_reaches(
                starts,
                next,
            )[r]).contains(i) ==> !(#[trigger] all_reaches(starts, next)[q]).contains(i),
        forall|r: int|
            0 <= r < all_reaches(starts, next).len() ==> (#[trigger] all_reaches(
                starts,
                next,
            )[r]).no_duplicates(),
{
    let n = next.len() as int;
    lemma_pinned_pass_disjoint(starts, next, n);
    let half = pinned_pass(starts, next, untouched(next.len()), n);
    lemma_rest_pass_disjoint(next, half, n);
    assert(rest_pass(next, half, n).assigned[i as int]);
}

/// Links between segments join ends: what continues a segment starts where it
/// ends, and the links of a river file lead to its own segments.
pub proof fn continuations_join_ends(
    segs: Seq<SegmentRecord>,
    lakes: Seq<LakeRecord>,
    i: int,
)
    requires
        0 <= i < segs.len(),
        segs.len() <= usize::MAX,
    ensures
        continues(segs, lakes, i) matches Some(j) ==> j < segs.len() && segs[j as int].a
            == segs[i].b,
{
    lemma_first_out(segs, segs[i].b, segs.len() as int);
}

proof fn lemma_first_out(segs: Seq<SegmentRecord>, n: Node, k: int)
    requires
        0 <= k <= segs.len(),
        segs.len() <= usize::MAX,
    ensures
        first_out(segs, n, k) matches Some(j) ==> j < k && segs[j as int].a == n,
    decreases k,
{
    if k > 0 {
        lemma_first_out(segs, n, k - 1);
    }
}

proof fn lemma_counts(segs: Seq<SegmentRecord>, n: Node, k: int)
    requires
        0 <= k <= segs.len(),
    ensures
        count_into(segs, n, k) >= 0,
        count_out(segs, n, k) >= 0,
        count_into(segs, n, k) == 0 <==> forall|s: int| 0 <= s < k ==> (#[trigger] segs[s]).b != n,
        count_out(segs, n, k) == 0 <==> forall|s: int| 0 <= s < k ==> (#[trigger] segs[s]).a != n,
    decreases k,
{
    if k > 0 {
        lemma_counts(segs, n, k - 1);
    }
}

proof fn lemma_single(segs: Seq<SegmentRecord>, n: Node, k: int, i: int)
    requires
        0 <= i < k <= segs.len(),
    ensures
        segs[i].b == n ==> (count_into(segs, n, k) == 1 <==> forall|s: int|
            0 <= s < k && s != i ==> (#[trigger] segs[s]).b != n),
        segs[i].a == n ==> (count_out(segs, n, k) == 1 <==> forall|s: int|
            0 <= s < k && s != i ==> (#[trigger] segs[s]).a != n),
    decreases k,
{
    lemma_counts(segs, n, k - 1);
    if i < k - 1 {
        lemma_single(segs, n, k - 1, i);
        lemma_counts(segs, n, k - 1);
        if segs[i].b == n && segs[k - 1].b == n {
            assert(count_into(segs, n, k - 1) > 0) by {
                assert(segs[i].b == n);
            }
        }
        if segs[i].a == n && segs[k - 1].a == n {
            assert(count_out(segs, n, k - 1) > 0) by {
                assert(segs[i].a == n);
            }
        }
    }
}

/// The center of some wet lake cell.
pub open spec fn wet_center(lakes: Seq<LakeRecord>, n: Node) -> bool {
    exists|c: int| 0 <= c < lakes.len() && (#[trigger] lakes[c]).center == n && !(0x3FC0_0000 < lakes[c].flags <= 0x7F80_0000)
}

/// A segment comes out of a lake, or runs into one, at a node.
pub open spec fn meets_lake_at(lakes: Seq<LakeRecord>, s: SegmentRecord, n: Node) -> bool {
    ||| s.a == n && wet_center(lakes, s.a) && !wet_center(lakes, s.b)
    ||| s.b == n && wet_center(lakes, s.b) && !wet_center(lakes, s.a)
}

/// A node pins a reach where no or several segments end, where none or several
/// start, and where one meets a lake; a node that one segment runs into and
/// one leaves, away from any shore, pins none.
pub proof fn reaches_are_pinned_at_branches_and_shores(
    segs: Seq<SegmentRecord>,
    lakes: Seq<LakeRecord>,
    n: Node,
    i: int,
    j: int,
)
    requires
        0 <= i < segs.len(),
        0 <= j < segs.len(),
    ensures
        (forall|s: int| 0 <= s < segs.len() ==> (#[trigger] segs[s]).b != n) ==> pinned(segs, lakes, n),
        (forall|s: int| 0 <= s < segs.len() ==> (#[trigger] segs[s]).a != n) ==> pinned(segs, lakes, n),
        i != j && segs[i].b == n && segs[j].b == n ==> pinned(segs, lakes, n),
        i != j && segs[i].a == n && segs[j].a == n ==> pinned(segs, lakes, n),
        meets_lake_at(lakes, segs[i], n) ==> pinned(segs, lakes, n),
        segs[i].b == n && (forall|s: int|
            0 <= s < segs.len() && s != i ==> (#[trigger] segs[s]).b != n) && segs[j].a == n && (forall|
            s: int,
        |
            0 <= s < segs.len() && s != j ==> (#[trigger] segs[s]).a != n) && (forall|s: int|
            0 <= s < segs.len() ==> !meets_lake_at(lakes, #[trigger] segs[s], n)) ==> !pinned(
            segs,
            lakes,
            n,
        ),
{
    let k = segs.len() as int;
    lemma_counts(segs, n, k);
    lemma_single(segs, n, k, i);
    lemma_single(segs, n, k, j);
    assert forall|s: int| 0 <= s < segs.len() implies (meets_lake_at(lakes, #[trigger] segs[s], n)
        <==> crosses(lakes, segs[s]) && shore_node(lakes, segs[s]) == n) by {
        lemma_wet(lakes, segs[s].a);
        lemma_wet(lakes, segs[s].b);
    }
    if meets_lake_at(lakes, segs[i], n) {
        assert(crosses(lakes, segs[i]) && shore_node(lakes, segs[i]) == n);
        assert(on_shore(segs, lakes, n, k));
    }
}

proof fn lemma_wet(lakes: Seq<LakeRecord>, n: Node)
    ensures
        in_lake(lakes, n, lakes.len() as int) <==> wet_center(lakes, n),
{
    if wet_center(lakes, n) {
        let c = choose|c: int|
            0 <= c < lakes.len() && (#[trigger] lakes[c]).center == n && !(0x3FC0_0000 < lakes[c].flags <= 0x7F80_0000);
        crate::rivers_file::flags_tell_lakes_apart(lakes[c]);
        assert(!lakes[c].is_rim() && lakes[c].center == n);
    }
    if in_lake(lakes, n, lakes.len() as int) {
        let c = choose|c: int|
            0 <= c < lakes.len() && !(#[trigger] lakes[c]).is_rim() && lakes[c].center == n;
        crate::rivers_file::flags_tell_lakes_apart(lakes[c]);
        assert(lakes[c].center == n && !(0x3FC0_0000 < lakes[c].flags <= 0x7F80_0000));
    }
}

/// A segment is continued by the first that starts where it ends, unless that
/// node is a pin.
pub proof fn segments_are_continued_past_plain_nodes(
    segs: Seq<SegmentRecord>,
    lakes: Seq<LakeRecord>,
    i: int,
    s: int,
)
    requires
        0 <= i < segs.len(),
        0 <= s < segs.len(),
        segs.len() <= usize::MAX,
    ensures
        pinned(segs, lakes, segs[i].b) ==> continues(segs, lakes, i) is None,
        !pinned(segs, lakes, segs[i].b) ==> continues(segs, lakes, i) is Some,
        continues(segs, lakes, i) matches Some(j) ==> segs[j as int].a == segs[i].b && (s < j
            ==> segs[s].a != segs[i].b),
{
    let k = segs.len() as int;
    lemma_first_out(segs, segs[i].b, k);
    lemma_counts(segs, segs[i].b, k);
    lemma_no_earlier(segs, segs[i].b, k, s);
    if !pinned(segs, lakes, segs[i].b) {
        assert(count_out(segs, segs[i].b, k) == 1);
        let o = choose|o: int| 0 <= o < segs.len() && (#[trigger] segs[o]).a == segs[i].b;
        lemma_no_earlier(segs, segs[i].b, k, o);
    }
}

proof fn lemma_no_earlier(segs: Seq<SegmentRecord>, n: Node, k: int, s: int)
    requires
        0 <= s < segs.len(),
        0 <= k <= segs.len(),
        segs.len() <= usize::MAX,
    ensures
        first_out(segs, n, k) matches Some(j) && s < j ==> segs[s].a != n,
        first_out(segs, n, k) is None && s < k ==> segs[s].a != n,
    decreases k,
{
    if k > 0 {
        lemma_no_earlier(segs, n, k - 1, s);
        lemma_first_out(segs, n, k - 1);
    }
}

/// Segments that follow one another by their links.
pub open spec fn runs_on(next: Seq<Option<usize>>, c: Seq<usize>) -> bool {
    &&& c.len() > 0
    &&& forall|k: int| 0 <= k < c.len() ==> (#[trigger] c[k]) < next.len()
    &&& forall|k: int| 0 <= k < c.len() - 1 ==> next[(#[trigger] c[k]) as int] == Some(c[k + 1])
}

/// What continues the last segment of a reach belongs to that reach or to one
/// before it.
pub open spec fn ends_there(next: Seq<Option<usize>>, chains: Seq<Seq<usize>>, r: int) -> bool {
    next[chains[r].last() as int] matches Some(j) ==> exists|q: int|
        0 <= q <= r && (#[trigger] chains[q]).contains(j)
}

pub open spec fn whole_runs(next: Seq<Option<usize>>, chains: Seq<Seq<usize>>) -> bool {
    forall|r: int|
        0 <= r < chains.len() ==> runs_on(next, #[trigger] chains[r]) && ends_there(next, chains, r)
}

proof fn lemma_chain_ends(next: Seq<Option<usize>>, assigned: Seq<bool>, i: usize)
    requires
        next.len() == assigned.len(),
        links_ok(next),
        i < assigned.len(),
        !assigned[i as int],
    ensures
        chain(next, assigned, i).len() > 0,
        next[chain(next, assigned, i).last() as int] matches Some(j) ==> j < assigned.len() && (
        assigned[j as int] || chain(next, assigned, i).contains(j)),
    decreases open_count(assigned),
{
    lemma_assign_one(assigned, i as int);
    let c = chain(next, assigned, i);
    if let Some(j) = next[i as int] {
        let later = assigned.update(i as int, true);
        let rest = chain(next, later, j);
        assert(c == seq![i] + rest);
        assert(c[0] == i);
        if later[j as int] {
            assert(rest.len() == 0);
            assert(c.last() == i);
            if j == i {
                assert(c.contains(i));
            }
        } else {
            lemma_chain_ends(next, later, j);
            assert(c.last() == rest.last());
            if let Some(e) = next[rest.last() as int] {
                if rest.contains(e) {
                    let k = choose|k: int| 0 <= k < rest.len() && rest[k] == e;
                    assert(c[k + 1] == e);
                }
            }
        }
    } else {
        assert(c == seq![i]);
    }
}

proof fn lemma_traced_whole(next: Seq<Option<usize>>, t: Tracing, i: usize)
    requires
        disjoint(t),
        whole_runs(next, t.chains),
        links_ok(next),
        next.len() == t.assigned.len(),
        i < t.assigned.len(),
        t.assigned.len() <= usize::MAX,
    ensures
        whole_runs(next, traced(next, t, i).chains),
        traced(next, t, i).chains.len() >= t.chains.len(),
        forall|r: int|
            0 <= r < t.chains.len() ==> #[trigger] traced(next, t, i).chains[r] == t.chains[r],
        !t.assigned[i as int] ==> traced(next, t, i).chains.len() == t.chains.len() + 1 && traced(
            next,
            t,
            i,
        ).chains.last()[0] == i,
{
    if !t.assigned[i as int] {
        let c = chain(next, t.assigned, i);
        let u = traced(next, t, i);
        let last = t.chains.len() as int;
        chains_follow_links(next, t.assigned, i);
        lemma_chain_ends(next, t.assigned, i);
        assert forall|r: int| 0 <= r < u.chains.len() implies runs_on(next, #[trigger] u.chains[r])
            && ends_there(next, u.chains, r) by {
            if r < last {
                assert(u.chains[r] == t.chains[r]);
                assert(ends_there(next, t.chains, r));
                if let Some(j) = next[t.chains[r].last() as int] {
                    let q = choose|q: int| 0 <= q <= r && (#[trigger] t.chains[q]).contains(j);
                    assert(u.chains[q].contains(j));
                }
            } else {
                assert(u.chains[r] == c);
                if let Some(j) = next[c.last() as int] {
                    if t.assigned[j as int] {
                        assert(in_reach(t.chains, j));
                        let q = choose|q: int|
                            0 <= q < t.chains.len() && (#[trigger] t.chains[q]).contains(j);
                        assert(u.chains[q].contains(j));
                    } else {
                        assert(u.chains[last].contains(j));
                    }
                }
            }
        }
    }
}

/// No segment is continued by a start.
pub open spec fn starts_follow_nothing(starts: Seq<bool>, next: Seq<Option<usize>>) -> bool {
    forall|k: int|
        0 <= k < next.len() ==> ((#[trigger] next[k]) matches Some(j) ==> !starts[j as int])
}

/// A reach begins with a segment.
pub open spec fn begins(chains: Seq<Seq<usize>>, i: usize) -> bool {
    exists|r: int| 0 <= r < chains.len() && (#[trigger] chains[r])[0] == i
}

proof fn lemma_pinned_pass_whole(starts: Seq<bool>, next: Seq<Option<usize>>, k: int)
    requires
        0 <= k <= next.len(),
        next.len() <= usize::MAX,
        starts.len() == next.len(),
        links_ok(next),
    ensures
        ({
            let t = pinned_pass(starts, next, untouched(next.len()), k);
            &&& whole_runs(next, t.chains)
            &&& starts_follow_nothing(starts, next) ==> forall|i: usize|
                i < k && starts[i as int] ==> #[trigger] begins(t.chains, i)
        }),
    decreases k,
{
    lemma_pinned_pass_disjoint(starts, next, k);
    if k > 0 {
        lemma_pinned_pass_disjoint(starts, next, k - 1);
        lemma_pinned_pass_whole(starts, next, k - 1);
        let before = pinned_pass(starts, next, untouched(next.len()), k - 1);
        let here = (k - 1) as usize;
        let t = pinned_pass(starts, next, untouched(next.len()), k);
        if starts[k - 1] {
            lemma_traced_whole(next, before, here);
            if starts_follow_nothing(starts, next) {
                assert forall|i: usize| i < k && starts[i as int] implies #[trigger] begins(
                    t.chains,
                    i,
                ) by {
                    if i < k - 1 {
                        assert(begins(before.chains, i));
                        let r = choose|r: int|
                            0 <= r < before.chains.len() && (#[trigger] before.chains[r])[0] == i;
                        assert(t.chains[r][0] == i);
                    } else if before.assigned[here as int] {
                        assert(in_reach(before.chains, here));
                        let r = choose|r: int|
                            0 <= r < before.chains.len() && (#[trigger] before.chains[r]).contains(
                                here,
                            );
                        let c = before.chains[r];
                        let m = choose|m: int| 0 <= m < c.len() && c[m] == here;
                        assert(runs_on(next, c));
                        if m > 0 {
                            assert(next[c[m - 1] as int] == Some(c[m]));
                        }
                        assert(t.chains[r][0] == here);
                    } else {
                        assert(t.chains[t.chains.len() - 1][0] == here);
                    }
                }
            }
        }
    }
}

proof fn lemma_rest_pass_whole(next: Seq<Option<usize>>, t: Tracing, k: int)
    requires
        0 <= k <= next.len(),
        next.len() <= usize::MAX,
        disjoint(t),
        t.assigned.len() == next.len(),
        links_ok(next),
        whole_runs(next, t.chains),
    ensures
        whole_runs(next, rest_pass(next, t, k).chains),
        rest_pass(next, t, k).chains.len() >= t.chains.len(),
        forall|r: int|
            0 <= r < t.chains.len() ==> #[trigger] rest_pass(next, t, k).chains[r] == t.chains[r],
    decreases k,
{
    if k > 0 {
        lemma_rest_pass_whole(next, t, k - 1);
        lemma_rest_pass_disjoint(next, t, k - 1);
        lemma_traced_whole(next, rest_pass(next, t, k - 1), (k - 1) as usize);
    }
}

/// A reach runs from segment to segment along the links, and stops only where
/// nothing continues it or where what does is already in a reach.
pub proof fn reaches_run_as_far_as_they_can(
    starts: Seq<bool>,
    next: Seq<Option<usize>>,
    r: int,
    k: int,
)
    requires
        next.len() <= usize::MAX,
        starts.len() == next.len(),
        links_ok(next),
        0 <= r < all_reaches(starts, next).len(),
        0 <= k < all_reaches(starts, next)[r].len(),
    ensures
        ({
            let chains = all_reaches(starts, next);
            let c = chains[r];
            &&& k + 1 < c.len() ==> next[c[k] as int] == Some(c[k + 1])
            &&& k + 1 == c.len() ==> (next[c[k] as int] matches Some(j) ==> exists|q: int|
                0 <= q <= r && (#[trigger] chains[q]).contains(j))
        }),
{
    let n = next.len() as int;
    lemma_pinned_pass_whole(starts, next, n);
    lemma_pinned_pass_disjoint(starts, next, n);
    let half = pinned_pass(starts, next, untouched(next.len()), n);
    lemma_rest_pass_whole(next, half, n);
    let chains = all_reaches(starts, next);
    assert(runs_on(next, chains[r]) && ends_there(next, chains, r));
}

/// Where no segment is continued by a pinned start, every pinned start begins
/// a reach.
pub proof fn pinned_starts_begin_reaches(starts: Seq<bool>, next: Seq<Option<usize>>, i: usize)
    requires
        next.len() <= usize::MAX,
        starts.len() == next.len(),
        links_ok(next),
        starts_follow_nothing(starts, next),
        i < next.len(),
        starts[i as int],
    ensures
        begins(all_reaches(starts, next), i),
{
    let n = next.len() as int;
    lemma_pinned_pass_whole(starts, next, n);
    lemma_pinned_pass_disjoint(starts, next, n);
    let half = pinned_pass(starts, next, untouched(next.len()), n);
    lemma_rest_pass_whole(next, half, n);
    assert(begins(half.chains, i));
    let r = choose|r: int| 0 <= r < half.chains.len() && (#[trigger] half.chains[r])[0] == i;
    assert(all_reaches(starts, next)[r][0] == i);
}

/// The links of a river file continue no segment by a pinned start.
pub proof fn pinned_starts_continue_nothing(segs: Seq<SegmentRecord>, lakes: Seq<LakeRecord>, i: int)
    requires
        0 <= i < segs.len(),
        segs.len() <= usize::MAX,
    ensures
        continues(segs, lakes, i) matches Some(j) ==> !pinned(segs, lakes, segs[j as int].a),
{
    continuations_join_ends(segs, lakes, i);
}

} // verus!
