//! River courses: which segments a place feels, which of them it belongs to,
//! and where falls and braids lie.

use vstd::prelude::*;
use crate::measure::{at_most, below, first_least, is_at_most, is_below, nearest, number, Measure};

verus! {

/// How far a river's influence reaches (3.5 km).
pub const INFLUENCE: Measure = 0x400C_0000_0000_0000;

/// How far from its straight course a river may still reach a place: its
/// influence, its widest meander and its bank's wobble together.
pub const COURSE_REACH: Measure = 0x4010_8B43_9581_0625;

/// The weakest fall (0.08).
pub const FALL_SITE_MIN_STRENGTH: Measure = 0x3FB4_7AE1_47AE_147B;

/// Braids need at least this flow (2200).
pub const ISLAND_MIN_FLOW: Measure = 0x40A1_3000_0000_0000;

/// Braids need a grade below this (0.0009).
pub const ISLAND_MAX_GRADIENT: Measure = 0x3F4D_7DBF_487F_CB92;

/// A listed segment as seen from a place.
#[derive(Clone, Copy)]
pub struct SegmentSight {
    /// Distance to the straight course.
    pub straight: Measure,
    /// Distance to the meandering course.
    pub dist: Measure,
}

/// A place feels a segment, unless it is known to be out of its reach or out
/// of its influence.
pub open spec fn felt(s: SegmentSight) -> bool {
    !below(COURSE_REACH, s.straight) && !at_most(INFLUENCE, s.dist)
}

pub open spec fn felt_keys(sights: Seq<SegmentSight>) -> Seq<Option<Measure>> {
    Seq::new(
        sights.len(),
        |i: int|
            if felt(sights[i]) {
                Some(sights[i].dist)
            } else {
                None
            },
    )
}

/// The first `n` segments that a place feels, in order.
pub open spec fn felt_list(sights: Seq<SegmentSight>, n: int) -> Seq<usize>
    decreases n,
{
    if n <= 0 {
        Seq::empty()
    } else if felt(sights[n - 1]) {
        felt_list(sights, n - 1).push((n - 1) as usize)
    } else {
        felt_list(sights, n - 1)
    }
}

/// The rivers at a place.
pub struct RiverPick {
    /// The segment that the place belongs to.
    pub winner: usize,
    /// The segments whose levels blend there.
    pub sharing: Vec<usize>,
}

/// The rivers at a place: it belongs to the nearest segment that it feels,
/// earliest on a tie, and the levels of all that it feels blend there.
pub fn river_near(sights: &Vec<SegmentSight>) -> (r: Option<RiverPick>)
    ensures
        r is None <==> forall|i: int| 0 <= i < sights@.len() ==> !felt(#[trigger] sights@[i]),
        r matches Some(pick) ==> {
            &&& first_least(felt_keys(sights@), pick.winner as int)
            &&& pick.sharing@ == felt_list(sights@, sights@.len() as int)
        },
{
    let mut keys: Vec<Option<Measure>> = Vec::new();
    let mut sharing: Vec<usize> = Vec::new();
    let mut i: usize = 0;
    while i < sights.len()
        invariant
            i <= sights@.len(),
            keys@ =~= felt_keys(sights@).take(i as int),
            sharing@ == felt_list(sights@, i as int),
        decreases sights@.len() - i,
    {
        let s = sights[i];
        if !is_below(COURSE_REACH, s.straight) && !is_at_most(INFLUENCE, s.dist) {
            keys.push(Some(s.dist));
            sharing.push(i);
        } else {
            keys.push(None);
        }
        i += 1;
    }
    assert(keys@ =~= felt_keys(sights@));
    match nearest(&keys) {
        None => {
            assert forall|k: int| 0 <= k < sights@.len() implies !felt(#[trigger] sights@[k]) by {
                assert(keys@[k] is None);
            }
            None
        },
        Some(winner) => {
            assert(keys@[winner as int] is Some);
            assert(felt(sights@[winner as int]));
            Some(RiverPick { winner, sharing })
        },
    }
}

/// A fall's strength: none without length or drop, none below the least.
pub open spec fn kept_strength(length: Measure, drop: Measure, strength: Measure) -> Measure {
    if at_most(length, 0) || at_most(drop, 0) || !at_most(FALL_SITE_MIN_STRENGTH, strength) {
        0
    } else {
        strength
    }
}

/// A fall's strength: none without length or drop, none below the least.
pub fn fall_strength(length: Measure, drop: Measure, strength: Measure) -> (r: Measure)
    ensures
        r == kept_strength(length, drop, strength),
{
    if is_at_most(length, 0) || is_at_most(drop, 0) || !is_at_most(FALL_SITE_MIN_STRENGTH, strength) {
        0
    } else {
        strength
    }
}

/// The segments that are falls, in order.
pub open spec fn falls(strengths: Seq<Measure>, n: int) -> Seq<usize>
    decreases n,
{
    if n <= 0 {
        Seq::empty()
    } else if !at_most(strengths[n - 1], 0) {
        falls(strengths, n - 1).push((n - 1) as usize)
    } else {
        falls(strengths, n - 1)
    }
}

/// The segments that are falls, in order.
pub fn fall_sites(strengths: &Vec<Measure>) -> (out: Vec<usize>)
    ensures
        out@ == falls(strengths@, strengths@.len() as int),
{
    let mut out: Vec<usize> = Vec::new();
    let mut i: usize = 0;
    while i < strengths.len()
        invariant
            i <= strengths@.len(),
            out@ == falls(strengths@, i as int),
        decreases strengths@.len() - i,
    {
        if !is_at_most(strengths[i], 0) {
            out.push(i);
        }
        i += 1;
    }
    out
}

/// The law that gives a segment's water level at a point of its course.
#[derive(Clone, Copy, PartialEq, Eq, Structural, Debug)]
pub enum LevelLaw {
    /// The stored level of its upper end.
    Upper,
    /// The stored level of its lower end.
    Lower,
    /// An even grade between the two.
    Grade,
    /// A grade with part of the drop gathered in a fall.
    Fall,
}

/// One, the end of a course.
pub const COURSE_END: Measure = 0x3FF0_0000_0000_0000;

pub open spec fn law_at(at: Measure, fall: Measure, drop: Measure) -> LevelLaw {
    if at_most(at, 0) {
        LevelLaw::Upper
    } else if at_most(COURSE_END, at) {
        LevelLaw::Lower
    } else if at_most(fall, 0) || at_most(drop, 0) {
        LevelLaw::Grade
    } else {
        LevelLaw::Fall
    }
}

/// The law that gives a segment's water level at a point of its course.
pub fn level_law(at: Measure, fall: Measure, drop: Measure) -> (r: LevelLaw)
    ensures
        r == law_at(at, fall, drop),
{
    if is_at_most(at, 0) {
        LevelLaw::Upper
    } else if is_at_most(COURSE_END, at) {
        LevelLaw::Lower
    } else if is_at_most(fall, 0) || is_at_most(drop, 0) {
        LevelLaw::Grade
    } else {
        LevelLaw::Fall
    }
}

/// A segment braids: not weak, not steep, and drawn by its chance.
pub fn braids(flow: Measure, gradient: Measure, draw: Measure, chance: Measure) -> (r: bool)
    ensures
        r == (!below(flow, ISLAND_MIN_FLOW) && !at_most(ISLAND_MAX_GRADIENT, gradient) && below(
            draw,
            chance,
        )),
{
    !is_below(flow, ISLAND_MIN_FLOW) && !is_at_most(ISLAND_MAX_GRADIENT, gradient) && is_below(draw, chance)
}

/// A course keeps the stored levels of its ends exactly, falls or not.
pub proof fn courses_keep_their_ends(fall: Measure, drop: Measure)
    ensures
        law_at(0, fall, drop) == LevelLaw::Upper,
        law_at(COURSE_END, fall, drop) == LevelLaw::Lower,
{
}

/// A segment without a fall's strength has no fall in its level.
pub proof fn weak_falls_leave_the_grade(at: Measure, length: Measure, drop: Measure, strength: Measure)
    requires
        at_most(length, 0) || at_most(drop, 0) || !at_most(FALL_SITE_MIN_STRENGTH, strength),
    ensures
        law_at(at, kept_strength(length, drop, strength), drop) != LevelLaw::Fall,
{
}

proof fn lemma_felt_list(sights: Seq<SegmentSight>, n: int, i: usize)
    requires
        0 <= n <= sights.len(),
        n <= usize::MAX,
    ensures
        felt_list(sights, n).contains(i) <==> i < n && felt(sights[i as int]),
    decreases n,
{
    if n > 0 {
        lemma_felt_list(sights, n - 1, i);
        let last = (n - 1) as usize;
        let head = felt_list(sights, n - 1);
        if felt(sights[n - 1]) {
            let all = head.push(last);
            if head.contains(i) {
                let k = choose|k: int| 0 <= k < head.len() && head[k] == i;
                assert(all[k] == i);
            }
            if all.contains(i) && i != last {
                let k = choose|k: int| 0 <= k < all.len() && all[k] == i;
                assert(head[k] == i);
            }
            assert(all[head.len() as int] == last);
        }
    }
}

/// Every segment that a place feels shares its level there, the winner among
/// them, and no other does.
pub proof fn felt_segments_share_the_level(sights: Seq<SegmentSight>, i: usize)
    requires
        i < sights.len() <= usize::MAX,
    ensures
        felt_list(sights, sights.len() as int).contains(i) <==> felt(sights[i as int]),
        first_least(felt_keys(sights), i as int) ==> felt(sights[i as int]),
{
    lemma_felt_list(sights, sights.len() as int, i);
}

/// A place feels a segment whose straight course lies within its reach and
/// whose own course lies within three and a half kilometres.
pub proof fn near_segments_are_felt(s: SegmentSight)
    ensures
        below(s.dist, 0x400C_0000_0000_0000) && at_most(s.straight, 0x4010_8B43_9581_0625) ==> felt(s),
        at_most(0x400C_0000_0000_0000, s.dist) ==> !felt(s),
        below(0x4010_8B43_9581_0625, s.straight) ==> !felt(s),
{
}

/// A place belongs to the nearest segment that it feels: the winner is felt,
/// and no felt segment at a known distance is nearer, nor as near and listed
/// earlier.
pub proof fn places_belong_to_their_nearest_river(sights: Seq<SegmentSight>, winner: int, other: int)
    requires
        first_least(felt_keys(sights), winner),
        0 <= other < sights.len(),
        felt(sights[other]),
        number(sights[winner].dist),
        number(sights[other].dist),
    ensures
        felt(sights[winner]),
        sights[winner].dist <= sights[other].dist,
        other < winner ==> sights[winner].dist < sights[other].dist,
{
    assert(felt_keys(sights)[winner] is Some);
    assert(felt_keys(sights)[other] is Some);
}

/// A fall keeps its strength where it has length and drop and is at least the
/// weakest fall; otherwise it has none.
pub proof fn falls_keep_their_strength(length: Measure, drop: Measure, strength: Measure)
    ensures
        below(0, length) && below(0, drop) && at_most(0x3FB4_7AE1_47AE_147B, strength) ==> kept_strength(
            length,
            drop,
            strength,
        ) == strength,
        at_most(length, 0) || at_most(drop, 0) || below(strength, 0x3FB4_7AE1_47AE_147B) ==> kept_strength(
            length,
            drop,
            strength,
        ) == 0,
{
}

/// The falls are the segments with strength, in order.
pub proof fn falls_are_the_strong_segments(strengths: Seq<Measure>, n: int, i: usize)
    requires
        0 <= n <= strengths.len(),
        n <= usize::MAX,
    ensures
        falls(strengths, n).contains(i) <==> i < n && !at_most(strengths[i as int], 0),
        forall|a: int, b: int|
            0 <= a < b < falls(strengths, n).len() ==> (#[trigger] falls(strengths, n)[a]) < (
            #[trigger] falls(strengths, n)[b]),
        forall|a: int| 0 <= a < falls(strengths, n).len() ==> (#[trigger] falls(strengths, n)[a]) < n,
    decreases n,
{
    if n > 0 {
        falls_are_the_strong_segments(strengths, n - 1, i);
        let head = falls(strengths, n - 1);
        if !at_most(strengths[n - 1], 0) {
            crate::order::push_contains(head, (n - 1) as usize);
        }
    }
}

/// A segment's level: its upper end's up to its start, its lower end's from
/// its end on, and between them a grade, with a fall where it has both a fall
/// and a drop.
pub proof fn levels_follow_their_law(at: Measure, fall: Measure, drop: Measure)
    ensures
        at_most(at, 0) ==> law_at(at, fall, drop) == LevelLaw::Upper,
        at_most(0x3FF0_0000_0000_0000, at) ==> law_at(at, fall, drop) == LevelLaw::Lower,
        below(0, at) && below(at, 0x3FF0_0000_0000_0000) && (at_most(fall, 0) || at_most(drop, 0))
            ==> law_at(at, fall, drop) == LevelLaw::Grade,
        below(0, at) && below(at, 0x3FF0_0000_0000_0000) && below(0, fall) && below(0, drop) ==> law_at(
            at,
            fall,
            drop,
        ) == LevelLaw::Fall,
{
}

} // verus!
