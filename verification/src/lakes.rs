//! Which lake owns a place, and how the place lies to that lake's water.
//!
//! Lakes are baked as cells. Dry cells around a lake form its rim and carry
//! their own elevation as their level. A place belongs to its nearest true
//! lake cell; the rim decides how far that lake's water may reach.

use vstd::prelude::*;
use crate::measure::{at_most, below, first_least, greater, is_at_most, is_below, least, least_of, least_with};
use crate::measure::{lesser, most, nearest, number, Measure, INFINITE};

verus! {

/// A listed cell as seen from a place.
#[derive(Clone, Copy)]
pub struct NearbyCell {
    /// Distance to the place.
    pub dist: Measure,
    pub rim: bool,
    pub salt: bool,
    /// The stored level.
    pub level: u32,
}

/// The nearest cells of each sort.
#[derive(Clone, Copy, PartialEq, Eq, Structural, Debug)]
pub struct NearestCells {
    pub lake: usize,
    pub rim: Option<usize>,
    pub any: usize,
}

/// A listed cell measured against the winning lake cell.
#[derive(Clone, Copy)]
pub struct Relation {
    /// Distance to the bisector between the two cells.
    pub boundary: Measure,
    pub level: Measure,
    /// Its level and the dam tolerance.
    pub raised: Measure,
    /// Distance past its shore band, at least zero.
    pub band_past: Measure,
    /// Distance past its own flood frontier, at least zero.
    pub member_past: Measure,
}

/// The place measured against the winning lake cell.
#[derive(Clone, Copy)]
pub struct Standing {
    /// The winner's level.
    pub level: Measure,
    /// Distance to the winner.
    pub dist: Measure,
    /// How far the winner is searched for.
    pub search: Measure,
    /// How far its flood reaches.
    pub reach: Measure,
    /// The width of its shore bands.
    pub band: Measure,
    /// `dist` less `past`.
    pub near_dist: Measure,
    /// How much farther the winner is than the nearest cell, at least zero.
    pub past: Measure,
    /// Distance past the flood reach, at least zero.
    pub reach_past: Measure,
    /// Distance inside the flood reach.
    pub reach_margin: Measure,
    /// Distance inside the nearest cell's shore band.
    pub band_margin: Measure,
    /// `past` with its sign changed.
    pub past_negated: Measure,
}

impl Relation {
    /// Its level is above the winner's.
    pub open spec fn higher(self, at: Standing) -> bool {
        below(at.level, self.level)
    }

    /// Its level reaches the winner's within the dam tolerance.
    pub open spec fn dam(self, at: Standing) -> bool {
        at_most(at.level, self.raised)
    }

    /// Its level is not known to fall short of the winner's.
    pub open spec fn holds(self, at: Standing) -> bool {
        !below(self.raised, at.level)
    }

    /// Distances are numbers and not negative.
    pub open spec fn wf(self) -> bool {
        &&& 0 <= self.boundary <= INFINITE
        &&& 0 <= self.band_past <= INFINITE
        &&& 0 <= self.member_past <= INFINITE
    }
}

impl Standing {
    /// Distances past a line are not negative, and every distance is a number.
    pub open spec fn wf(self) -> bool {
        &&& 0 <= self.past <= INFINITE
        &&& 0 <= self.reach_past <= INFINITE
        &&& number(self.reach_margin)
        &&& number(self.band_margin)
        &&& number(self.past_negated) && self.past_negated <= 0
    }
}

/// How a place lies to the lake that owns it.
#[derive(Clone, Copy, PartialEq, Eq, Structural, Debug)]
pub struct LakeHit {
    /// The winning cell.
    pub lake: usize,
    pub boundary_dist: Measure,
    pub in_lake_voronoi: bool,
    pub past_boundary: Measure,
    pub apron_past: Measure,
    pub flood_edge_margin: Measure,
    pub competing_lake_boundary: Measure,
    /// The nearest competing lake of a higher level.
    pub higher_competing: Option<usize>,
    pub higher_competing_boundary: Measure,
    pub rim_is_dam: bool,
    /// The place lies within the flood reach.
    pub in_reach: bool,
    /// The place lies within a shore band's width of the nearest cell.
    pub in_band: bool,
}

/// Distances of the cells of one sort.
pub open spec fn lake_keys(cells: Seq<NearbyCell>) -> Seq<Option<Measure>> {
    Seq::new(
        cells.len(),
        |i: int|
            if cells[i].rim {
                None
            } else {
                Some(cells[i].dist)
            },
    )
}

pub open spec fn rim_keys(cells: Seq<NearbyCell>) -> Seq<Option<Measure>> {
    Seq::new(
        cells.len(),
        |i: int|
            if cells[i].rim {
                Some(cells[i].dist)
            } else {
                None
            },
    )
}

/// Distances of the cells of either sort that lie at a finite distance.
pub open spec fn all_keys(cells: Seq<NearbyCell>) -> Seq<Option<Measure>> {
    Seq::new(
        cells.len(),
        |i: int|
            if below(cells[i].dist, INFINITE) {
                Some(cells[i].dist)
            } else {
                None
            },
    )
}

/// `a` names the nearest cell of either sort: the winner `l` where no cell
/// lies at a finite distance.
pub open spec fn nearest_of_all(cells: Seq<NearbyCell>, l: int, a: int) -> bool {
    ||| first_least(all_keys(cells), a)
    ||| a == l && forall|i: int| 0 <= i < cells.len() ==> (#[trigger] all_keys(cells)[i]) is None
}

/// `near` names the nearest cell of each sort.
pub open spec fn sighted(cells: Seq<NearbyCell>, near: NearestCells) -> bool {
    &&& first_least(lake_keys(cells), near.lake as int)
    &&& nearest_of_all(cells, near.lake as int, near.any as int)
    &&& match near.rim {
        None => forall|i: int| 0 <= i < cells.len() ==> !(#[trigger] cells[i]).rim,
        Some(r) => first_least(rim_keys(cells), r as int),
    }
}

/// The nearest lake cell, rim cell and cell of either kind. Nothing where no
/// lake cell is listed.
pub fn nearest_cells(cells: &Vec<NearbyCell>) -> (r: Option<NearestCells>)
    ensures
        r is None <==> forall|i: int| 0 <= i < cells@.len() ==> (#[trigger] cells@[i]).rim,
        r matches Some(near) ==> sighted(cells@, near),
{
    let mut lakes: Vec<Option<Measure>> = Vec::new();
    let mut rims: Vec<Option<Measure>> = Vec::new();
    let mut all: Vec<Option<Measure>> = Vec::new();
    let mut i: usize = 0;
    while i < cells.len()
        invariant
            i <= cells@.len(),
            lakes@ == lake_keys(cells@.take(i as int)),
            rims@ == rim_keys(cells@.take(i as int)),
            all@ == all_keys(cells@.take(i as int)),
        decreases cells@.len() - i,
    {
        let c = cells[i];
        if c.rim {
            lakes.push(None);
            rims.push(Some(c.dist));
        } else {
            lakes.push(Some(c.dist));
            rims.push(None);
        }
        if is_below(c.dist, INFINITE) {
            all.push(Some(c.dist));
        } else {
            all.push(None);
        }
        i += 1;
        assert(lakes@ =~= lake_keys(cells@.take(i as int)));
        assert(rims@ =~= rim_keys(cells@.take(i as int)));
        assert(all@ =~= all_keys(cells@.take(i as int)));
    }
    proof {
        assert(cells@.take(cells@.len() as int) =~= cells@);
    }
    let lake = nearest(&lakes);
    let rim = nearest(&rims);
    let any = nearest(&all);
    match lake {
        Some(l) => {
            proof {
                assert(lake_keys(cells@)[l as int] is Some);
                if rim is None {
                    assert forall|k: int| 0 <= k < cells@.len() implies !(#[trigger] cells@[k]).rim by {
                        assert(rims@[k] is None);
                    }
                }
            }
            let nearest_any: usize = match any {
                Some(a) => a,
                None => l,
            };
            Some(NearestCells { lake: l, rim, any: nearest_any })
        },
        None => {
            proof {
                assert forall|k: int| 0 <= k < cells@.len() implies (#[trigger] cells@[k]).rim by {
                    assert(lakes@[k] is None);
                }
            }
            None
        },
    }
}

/// Cell `i` is a lake cell of another lake than the winner's.
pub open spec fn competes(cells: Seq<NearbyCell>, w: int, i: int) -> bool {
    !cells[i].rim && !same_lake(cells, w, i)
}

/// Cells of one lake share its level and its salt.
pub open spec fn same_lake(cells: Seq<NearbyCell>, w: int, i: int) -> bool {
    cells[i].salt == cells[w].salt && cells[i].level == cells[w].level
}

pub open spec fn competitor_keys(cells: Seq<NearbyCell>, w: int, rel: Seq<Relation>) -> Seq<
    Option<Measure>,
> {
    Seq::new(
        cells.len(),
        |i: int|
            if competes(cells, w, i) {
                Some(rel[i].boundary)
            } else {
                None
            },
    )
}

/// Boundaries of competing lakes that stand higher. One at an infinite
/// distance does not count.
pub open spec fn higher_keys(
    cells: Seq<NearbyCell>,
    w: int,
    rel: Seq<Relation>,
    at: Standing,
) -> Seq<Option<Measure>> {
    Seq::new(
        cells.len(),
        |i: int|
            if competes(cells, w, i) && rel[i].higher(at) && below(rel[i].boundary, INFINITE) {
                Some(rel[i].boundary)
            } else {
                None
            },
    )
}

/// Distances past the shore bands of the rims that hold the winner's water.
pub open spec fn band_keys(cells: Seq<NearbyCell>, rel: Seq<Relation>, at: Standing) -> Seq<
    Option<Measure>,
> {
    Seq::new(
        cells.len(),
        |i: int|
            if cells[i].rim && rel[i].holds(at) {
                Some(rel[i].band_past)
            } else {
                None
            },
    )
}

/// Distances past the flood frontiers of the winner's own lake.
pub open spec fn member_keys(cells: Seq<NearbyCell>, w: int, rel: Seq<Relation>) -> Seq<
    Option<Measure>,
> {
    Seq::new(
        cells.len(),
        |i: int|
            if !cells[i].rim && same_lake(cells, w, i) {
                Some(rel[i].member_past)
            } else {
                None
            },
    )
}

pub open spec fn in_territory(cells: Seq<NearbyCell>, near: NearestCells) -> bool {
    !cells[near.any as int].rim
}

pub open spec fn past_boundary(cells: Seq<NearbyCell>, near: NearestCells, at: Standing) -> Measure {
    if in_territory(cells, near) {
        0
    } else {
        at.past
    }
}

pub open spec fn dammed(
    cells: Seq<NearbyCell>,
    near: NearestCells,
    rel: Seq<Relation>,
    at: Standing,
) -> bool {
    in_territory(cells, near) || rel[near.any as int].dam(at)
}

/// Distance past the nearest flood frontier.
///
/// The flood region is the territory and the dam bands together, cut off at
/// the flood reach: a place is past it by the larger of the two violations.
/// A member cell of the same lake may bring the frontier closer again.
pub open spec fn apron_past(
    cells: Seq<NearbyCell>,
    near: NearestCells,
    rel: Seq<Relation>,
    at: Standing,
) -> Measure {
    let outside = !in_territory(cells, near);
    let start = past_boundary(cells, near, at);
    let banded = if outside && below(0, start) {
        least_with(band_keys(cells, rel, at), start)
    } else {
        start
    };
    let reached = greater(banded, at.reach_past);
    if outside && dammed(cells, near, rel, at) && below(0, reached) {
        least_with(member_keys(cells, near.lake as int, rel), reached)
    } else {
        reached
    }
}

pub open spec fn boundary_dist(near: NearestCells, rel: Seq<Relation>) -> Measure {
    match near.rim {
        None => INFINITE,
        Some(r) => rel[r as int].boundary,
    }
}

/// Distance inward from the nearest flood frontier, at least zero.
pub open spec fn edge_margin(
    cells: Seq<NearbyCell>,
    near: NearestCells,
    rel: Seq<Relation>,
    at: Standing,
) -> Measure {
    let union = if in_territory(cells, near) {
        boundary_dist(near, rel)
    } else if dammed(cells, near, rel, at) {
        at.band_margin
    } else {
        at.past_negated
    };
    greater(
        lesser(
            lesser(at.reach_margin, union),
            least_with(competitor_keys(cells, near.lake as int, rel), INFINITE),
        ),
        0,
    )
}

/// The hit that a place makes.
pub open spec fn is_hit(
    hit: LakeHit,
    cells: Seq<NearbyCell>,
    near: NearestCells,
    rel: Seq<Relation>,
    at: Standing,
) -> bool {
    let w = near.lake as int;
    &&& hit.lake == near.lake
    &&& hit.boundary_dist == boundary_dist(near, rel)
    &&& hit.in_lake_voronoi == in_territory(cells, near)
    &&& hit.past_boundary == past_boundary(cells, near, at)
    &&& hit.apron_past == apron_past(cells, near, rel, at)
    &&& hit.flood_edge_margin == edge_margin(cells, near, rel, at)
    &&& hit.competing_lake_boundary == least_with(competitor_keys(cells, w, rel), INFINITE)
    &&& hit.rim_is_dam == dammed(cells, near, rel, at)
    &&& hit.in_reach == below(at.dist, at.reach)
    &&& hit.in_band == below(at.near_dist, at.band)
    &&& match hit.higher_competing {
        None => {
            &&& hit.higher_competing_boundary == INFINITE
            &&& forall|i: int|
                0 <= i < cells.len() ==> (#[trigger] higher_keys(cells, w, rel, at)[i]) is None
        },
        Some(i) => {
            &&& first_least(higher_keys(cells, w, rel, at), i as int)
            &&& hit.higher_competing_boundary == rel[i as int].boundary
        },
    }
}

fn gather_keys(cells: &Vec<NearbyCell>, w: usize, rel: &Vec<Relation>, at: &Standing) -> (r: (
    Vec<Option<Measure>>,
    Vec<Option<Measure>>,
    Vec<Option<Measure>>,
    Vec<Option<Measure>>,
))
    requires
        w < cells@.len(),
        rel@.len() == cells@.len(),
    ensures
        r.0@ == competitor_keys(cells@, w as int, rel@),
        r.1@ == higher_keys(cells@, w as int, rel@, *at),
        r.2@ == band_keys(cells@, rel@, *at),
        r.3@ == member_keys(cells@, w as int, rel@),
{
    let mut competitors: Vec<Option<Measure>> = Vec::new();
    let mut higher: Vec<Option<Measure>> = Vec::new();
    let mut bands: Vec<Option<Measure>> = Vec::new();
    let mut members: Vec<Option<Measure>> = Vec::new();
    let own = cells[w];
    let mut i: usize = 0;
    while i < cells.len()
        invariant
            i <= cells@.len(),
            w < cells@.len(),
            rel@.len() == cells@.len(),
            own == cells@[w as int],
            competitors@ =~= competitor_keys(cells@, w as int, rel@).take(i as int),
            higher@ =~= higher_keys(cells@, w as int, rel@, *at).take(i as int),
            bands@ =~= band_keys(cells@, rel@, *at).take(i as int),
            members@ =~= member_keys(cells@, w as int, rel@).take(i as int),
        decreases cells@.len() - i,
    {
        let c = cells[i];
        let r = rel[i];
        let same: bool = c.salt == own.salt && c.level == own.level;
        if c.rim {
            competitors.push(None);
            higher.push(None);
            bands.push(
                if is_below(r.raised, at.level) {
                    None
                } else {
                    Some(r.band_past)
                },
            );
            members.push(None);
        } else {
            bands.push(None);
            if same {
                competitors.push(None);
                higher.push(None);
                members.push(Some(r.member_past));
            } else {
                competitors.push(Some(r.boundary));
                higher.push(
                    if is_below(at.level, r.level) && is_below(r.boundary, INFINITE) {
                        Some(r.boundary)
                    } else {
                        None
                    },
                );
                members.push(None);
            }
        }
        i += 1;
    }
    (competitors, higher, bands, members)
}

/// The lake at a place: nothing beyond the winner's search reach, else how
/// the place lies to it.
pub fn lake_at(cells: &Vec<NearbyCell>, near: NearestCells, rel: &Vec<Relation>, at: Standing) -> (r:
    Option<LakeHit>)
    requires
        sighted(cells@, near),
        rel@.len() == cells@.len(),
    ensures
        r is Some <==> below(at.dist, at.search),
        r matches Some(hit) ==> is_hit(hit, cells@, near, rel@, at),
{
    if !is_below(at.dist, at.search) {
        return None;
    }
    proof {
        assert(lake_keys(cells@)[near.lake as int] is Some);
        if let Some(r) = near.rim {
            assert(rim_keys(cells@)[r as int] is Some);
        }
    }
    let (competitors, higher, bands, members) = gather_keys(cells, near.lake, rel, &at);
    let inside: bool = !cells[near.any].rim;
    let boundary: Measure = match near.rim {
        None => INFINITE,
        Some(r) => rel[r].boundary,
    };
    let competing: Measure = least_of(&competitors, INFINITE);
    let higher_competing = nearest(&higher);
    let higher_boundary: Measure = match higher_competing {
        None => INFINITE,
        Some(i) => rel[i].boundary,
    };
    let past: Measure = if inside {
        0
    } else {
        at.past
    };
    let dam: bool = inside || is_at_most(at.level, rel[near.any].raised);
    let mut apron: Measure = past;
    if !inside && is_below(0, apron) {
        apron = least_of(&bands, apron);
    }
    apron = most(apron, at.reach_past);
    if !inside && dam && is_below(0, apron) {
        apron = least_of(&members, apron);
    }
    let union: Measure = if inside {
        boundary
    } else if dam {
        at.band_margin
    } else {
        at.past_negated
    };
    let margin: Measure = most(least(least(at.reach_margin, union), competing), 0);
    Some(
        LakeHit {
            lake: near.lake,
            boundary_dist: boundary,
            in_lake_voronoi: inside,
            past_boundary: past,
            apron_past: apron,
            flood_edge_margin: margin,
            competing_lake_boundary: competing,
            higher_competing,
            higher_competing_boundary: higher_boundary,
            rim_is_dam: dam,
            in_reach: is_below(at.dist, at.reach),
            in_band: is_below(at.near_dist, at.band),
        },
    )
}

/// The geometric half of the flood rule: within the flood reach, in the
/// lake's own territory or in the shore band of a dam.
pub open spec fn eligible(hit: LakeHit) -> bool {
    hit.in_reach && (hit.in_lake_voronoi || (hit.in_band && hit.rim_is_dam))
}

impl LakeHit {
    /// The place may be flooded.
    pub fn flood_eligible(&self) -> (r: bool)
        ensures
            r == eligible(*self),
    {
        self.in_reach && (self.in_lake_voronoi || (self.in_band && self.rim_is_dam))
    }
}

/// A place whose nearest cell is a rim that does not reach the lake's level
/// is never flooded.
pub proof fn low_rims_stop_the_flood(
    hit: LakeHit,
    cells: Seq<NearbyCell>,
    near: NearestCells,
    rel: Seq<Relation>,
    at: Standing,
)
    requires
        sighted(cells, near),
        is_hit(hit, cells, near, rel, at),
        cells[near.any as int].rim,
        !rel[near.any as int].dam(at),
    ensures
        !eligible(hit),
{
}

/// Within the reach, a lake's own territory is always eligible, and lies past
/// no boundary.
pub proof fn territory_floods(
    hit: LakeHit,
    cells: Seq<NearbyCell>,
    near: NearestCells,
    rel: Seq<Relation>,
    at: Standing,
)
    requires
        sighted(cells, near),
        is_hit(hit, cells, near, rel, at),
        !cells[near.any as int].rim,
    ensures
        eligible(hit) == below(at.dist, at.reach),
        hit.past_boundary == 0,
        at.reach_past == 0 ==> hit.apron_past == 0,
{
}

/// Where the nearest cell of all is a lake cell, it is the winner, unless the
/// winner's distance is no number.
pub proof fn the_nearest_lake_wins(cells: Seq<NearbyCell>, near: NearestCells)
    requires
        sighted(cells, near),
        number(cells[near.lake as int].dist),
        !cells[near.any as int].rim,
    ensures
        near.any == near.lake,
{
    let (a, l) = (near.any as int, near.lake as int);
    if first_least(all_keys(cells), a) {
        assert(all_keys(cells)[a] is Some);
        assert(lake_keys(cells)[a] is Some && lake_keys(cells)[l] is Some);
        assert(all_keys(cells)[l] is Some);
    }
}

/// A place is never farther past the frontier than its own lake's nearest
/// frontier says.
pub proof fn aprons_see_every_member(
    hit: LakeHit,
    cells: Seq<NearbyCell>,
    near: NearestCells,
    rel: Seq<Relation>,
    at: Standing,
    i: int,
)
    requires
        sighted(cells, near),
        is_hit(hit, cells, near, rel, at),
        cells[near.any as int].rim,
        hit.rim_is_dam,
        0 <= i < cells.len(),
        !cells[i].rim,
        same_lake(cells, near.lake as int, i),
        at.wf(),
        rel[i].wf(),
    ensures
        hit.apron_past <= rel[i].member_past,
{
    let start = past_boundary(cells, near, at);
    crate::measure::least_is_a_bound(band_keys(cells, rel, at), start);
    let banded = if start > 0 {
        least_with(band_keys(cells, rel, at), start)
    } else {
        start
    };
    crate::measure::least_is_a_bound(
        member_keys(cells, near.lake as int, rel),
        greater(banded, at.reach_past),
    );
    assert(member_keys(cells, near.lake as int, rel)[i] is Some);
}

/// The distances of a place agree: its margin in the reach, or in the band
/// around the nearest rim, is positive just where it lies inside, and it is
/// then past neither.
pub open spec fn consistent(
    cells: Seq<NearbyCell>,
    near: NearestCells,
    rel: Seq<Relation>,
    at: Standing,
) -> bool {
    let rim = cells[near.any as int].rim;
    let in_band = below(at.near_dist, at.band);
    &&& below(at.dist, at.reach) <==> at.reach_margin > 0
    &&& below(at.dist, at.reach) ==> at.reach_past == 0
    &&& rim ==> (in_band <==> at.band_margin > 0)
    &&& rim && in_band ==> rel[near.any as int].band_past == 0
}

/// Entries that are not negative have a smallest that is not.
proof fn lemma_least_from_zero(keys: Seq<Option<Measure>>, start: Measure)
    requires
        0 <= start,
        forall|i: int| 0 <= i < keys.len() && (#[trigger] keys[i]) is Some ==> 0 <= keys[i]->0,
    ensures
        0 <= least_with(keys, start),
{
    crate::measure::least_is_attained(keys, start);
}

/// No distance of a hit is negative.
pub proof fn distances_are_not_negative(
    hit: LakeHit,
    cells: Seq<NearbyCell>,
    near: NearestCells,
    rel: Seq<Relation>,
    at: Standing,
)
    requires
        sighted(cells, near),
        is_hit(hit, cells, near, rel, at),
        rel.len() == cells.len(),
        forall|i: int| 0 <= i < rel.len() ==> (#[trigger] rel[i]).wf(),
        at.wf(),
    ensures
        0 <= hit.boundary_dist,
        0 <= hit.past_boundary,
        0 <= hit.apron_past,
        0 <= hit.flood_edge_margin,
        0 <= hit.competing_lake_boundary,
        0 <= hit.higher_competing_boundary,
{
    let w = near.lake as int;
    let start = past_boundary(cells, near, at);
    lemma_least_from_zero(competitor_keys(cells, w, rel), INFINITE);
    lemma_least_from_zero(band_keys(cells, rel, at), start);
    let banded = if !in_territory(cells, near) && start > 0 {
        least_with(band_keys(cells, rel, at), start)
    } else {
        start
    };
    lemma_least_from_zero(member_keys(cells, w, rel), greater(banded, at.reach_past));
    if let Some(r) = near.rim {
        assert(rim_keys(cells)[r as int] is Some);
    }
    if let Some(i) = hit.higher_competing {
        assert(higher_keys(cells, w, rel, at)[i as int] is Some);
    }
}

/// A place that may be flooded lies past no frontier: its apron starts at
/// zero.
pub proof fn floods_start_no_apron(
    hit: LakeHit,
    cells: Seq<NearbyCell>,
    near: NearestCells,
    rel: Seq<Relation>,
    at: Standing,
)
    requires
        sighted(cells, near),
        is_hit(hit, cells, near, rel, at),
        rel.len() == cells.len(),
        forall|i: int| 0 <= i < rel.len() ==> (#[trigger] rel[i]).wf(),
        at.wf(),
        consistent(cells, near, rel, at),
        eligible(hit),
    ensures
        hit.apron_past == 0,
{
    let start = past_boundary(cells, near, at);
    if !in_territory(cells, near) && start > 0 {
        let any = near.any as int;
        if first_least(all_keys(cells), any) {
            assert(all_keys(cells)[any] is Some);
        } else {
            assert(lake_keys(cells)[near.lake as int] is Some);
        }
        crate::measure::least_is_a_bound(band_keys(cells, rel, at), start);
        lemma_least_from_zero(band_keys(cells, rel, at), start);
        assert(band_keys(cells, rel, at)[any] == Some(rel[any].band_past));
    }
}

/// A place inside the flood's edge may be flooded.
pub proof fn margins_lie_in_the_flood(
    hit: LakeHit,
    cells: Seq<NearbyCell>,
    near: NearestCells,
    rel: Seq<Relation>,
    at: Standing,
)
    requires
        sighted(cells, near),
        is_hit(hit, cells, near, rel, at),
        rel.len() == cells.len(),
        forall|i: int| 0 <= i < rel.len() ==> (#[trigger] rel[i]).wf(),
        at.wf(),
        consistent(cells, near, rel, at),
        hit.flood_edge_margin > 0,
    ensures
        eligible(hit),
{
    crate::measure::least_is_a_bound(competitor_keys(cells, near.lake as int, rel), INFINITE);
    if let Some(r) = near.rim {
        assert(rim_keys(cells)[r as int] is Some);
    }
}

/// How a place lies to its lake. It is the nearest lake cell's. It lies in the
/// lake's own territory where the nearest cell of all is a lake cell, past no
/// boundary; else it is past by as much as the lake is farther than that cell.
/// Its boundary is the nearest rim's, infinitely far where there is none. A rim
/// dams the lake where its raised level reaches the lake's.
pub proof fn hits_tell_how_a_place_lies(
    hit: LakeHit,
    cells: Seq<NearbyCell>,
    near: NearestCells,
    rel: Seq<Relation>,
    at: Standing,
)
    requires
        is_hit(hit, cells, near, rel, at),
    ensures
        hit.lake == near.lake,
        hit.in_lake_voronoi <==> !cells[near.any as int].rim,
        hit.in_lake_voronoi ==> hit.past_boundary == 0 && hit.rim_is_dam,
        !hit.in_lake_voronoi ==> hit.past_boundary == at.past && (hit.rim_is_dam <==> at_most(
            at.level,
            rel[near.any as int].raised,
        )),
        near.rim is None ==> hit.boundary_dist == INFINITE,
        near.rim matches Some(r) ==> hit.boundary_dist == rel[r as int].boundary,
        hit.in_reach <==> below(at.dist, at.reach),
        hit.in_band <==> below(at.near_dist, at.band),
        eligible(hit) <==> hit.in_reach && (hit.in_lake_voronoi || hit.in_band && hit.rim_is_dam),
{
}

/// The nearest lake cell, rim and cell of all are just that: no lake cell, or
/// rim, at a known distance is nearer than the one named; no cell at a finite
/// distance is nearer than the nearest of all.
pub proof fn nearest_cells_are_nearest(cells: Seq<NearbyCell>, near: NearestCells, i: int)
    requires
        sighted(cells, near),
        0 <= i < cells.len(),
        0 <= cells[i].dist < INFINITE,
        number(cells[near.lake as int].dist),
    ensures
        !cells[near.lake as int].rim,
        !cells[i].rim ==> cells[near.lake as int].dist <= cells[i].dist,
        near.rim matches Some(r) ==> cells[r as int].rim && (cells[i].rim && number(cells[r as int].dist)
            ==> cells[r as int].dist <= cells[i].dist),
        cells[i].rim ==> near.rim is Some,
        cells[near.any as int].dist <= cells[i].dist,
{
    let l = near.lake as int;
    assert(lake_keys(cells)[l] is Some);
    assert(all_keys(cells)[i] is Some);
    if !cells[i].rim {
        assert(lake_keys(cells)[i] is Some);
    } else {
        assert(rim_keys(cells)[i] is Some);
    }
    if let Some(r) = near.rim {
        assert(rim_keys(cells)[r as int] is Some);
    }
    assert(first_least(all_keys(cells), near.any as int));
    assert(all_keys(cells)[near.any as int] is Some);
}

/// The nearest competing lake: no lake cell of another level or salt has a
/// nearer boundary, and one has this one, or there is none within any
/// distance. The higher one names a competing cell above the lake's level, with
/// its boundary, the nearest such.
pub proof fn competing_lakes_are_the_nearest(
    hit: LakeHit,
    cells: Seq<NearbyCell>,
    near: NearestCells,
    rel: Seq<Relation>,
    at: Standing,
    i: int,
)
    requires
        is_hit(hit, cells, near, rel, at),
        rel.len() == cells.len(),
        forall|k: int| 0 <= k < rel.len() ==> (#[trigger] rel[k]).wf(),
        0 <= i < cells.len(),
    ensures
        ({
            let w = cells[near.lake as int];
            let other = !cells[i].rim && (cells[i].salt != w.salt || cells[i].level != w.level);
            &&& other ==> hit.competing_lake_boundary <= rel[i].boundary
            &&& other && below(at.level, rel[i].level) ==> hit.higher_competing_boundary
                <= rel[i].boundary
            &&& hit.competing_lake_boundary == INFINITE || exists|k: int|
                0 <= k < cells.len() && !(#[trigger] cells[k]).rim && (cells[k].salt != w.salt
                    || cells[k].level != w.level) && hit.competing_lake_boundary == rel[k].boundary
            &&& hit.higher_competing is None ==> hit.higher_competing_boundary == INFINITE
            &&& hit.higher_competing matches Some(k) ==> !cells[k as int].rim && below(
                at.level,
                rel[k as int].level,
            ) && hit.higher_competing_boundary == rel[k as int].boundary
        }),
{
    let w = near.lake as int;
    let keys = competitor_keys(cells, w, rel);
    let high = higher_keys(cells, w, rel, at);
    crate::measure::least_is_a_bound(keys, INFINITE);
    crate::measure::least_is_attained(keys, INFINITE);
    assert(rel[i].wf());
    if competes(cells, w, i) {
        assert(keys[i] == Some(rel[i].boundary));
        if below(at.level, rel[i].level) && rel[i].boundary < INFINITE {
            assert(high[i] == Some(rel[i].boundary));
        }
    }
    if let Some(k) = hit.higher_competing {
        assert(high[k as int] is Some);
        assert(rel[k as int].wf());
        assert(number(high[k as int]->0));
    }
    if hit.competing_lake_boundary != INFINITE {
        let k = choose|k: int| 0 <= k < keys.len() && (#[trigger] keys[k]) == Some(least_with(keys, INFINITE));
        assert(!cells[k].rim);
    }
}

/// How far a place lies past the flood. In the lake's territory, as far as past
/// its reach. Outside, no farther past than the boundary, or the band of a rim
/// that holds the water, and the reach together; and where the nearest rim is
/// no dam, no less than past the reach. It is one of these distances, or that
/// past a cell of the same lake.
pub proof fn aprons_measure_the_nearest_frontier(
    hit: LakeHit,
    cells: Seq<NearbyCell>,
    near: NearestCells,
    rel: Seq<Relation>,
    at: Standing,
    i: int,
)
    requires
        is_hit(hit, cells, near, rel, at),
        rel.len() == cells.len(),
        forall|k: int| 0 <= k < rel.len() ==> (#[trigger] rel[k]).wf(),
        at.wf(),
        0 <= i < cells.len(),
    ensures
        hit.in_lake_voronoi ==> hit.apron_past == at.reach_past,
        !hit.in_lake_voronoi ==> hit.apron_past <= at.past || hit.apron_past <= at.reach_past,
        !hit.in_lake_voronoi && cells[i].rim && !below(rel[i].raised, at.level) ==> hit.apron_past
            <= rel[i].band_past || hit.apron_past <= at.reach_past,
        !hit.rim_is_dam ==> hit.apron_past >= at.reach_past,
        hit.apron_past == at.reach_past || hit.apron_past == at.past || (exists|k: int|
            0 <= k < cells.len() && (#[trigger] cells[k]).rim && !below(rel[k].raised, at.level)
                && hit.apron_past == rel[k].band_past) || (hit.rim_is_dam && exists|k: int|
            0 <= k < cells.len() && !(#[trigger] cells[k]).rim && same_lake(cells, near.lake as int, k)
                && hit.apron_past == rel[k].member_past),
{
    let w = near.lake as int;
    let bands = band_keys(cells, rel, at);
    let members = member_keys(cells, w, rel);
    let start = past_boundary(cells, near, at);
    crate::measure::least_is_a_bound(bands, start);
    crate::measure::least_is_attained(bands, start);
    lemma_least_from_zero(bands, start);
    let banded = if !in_territory(cells, near) && start > 0 {
        least_with(bands, start)
    } else {
        start
    };
    let reached = greater(banded, at.reach_past);
    crate::measure::least_is_a_bound(members, reached);
    crate::measure::least_is_attained(members, reached);
    assert(rel[i].wf());
    if cells[i].rim && !below(rel[i].raised, at.level) {
        assert(bands[i] == Some(rel[i].band_past));
    }
    if banded != start {
        let k = choose|k: int| 0 <= k < bands.len() && (#[trigger] bands[k]) == Some(banded);
        assert(cells[k].rim);
    }
    if hit.apron_past != reached {
        let k = choose|k: int| 0 <= k < members.len() && (#[trigger] members[k]) == Some(hit.apron_past);
        assert(!cells[k].rim);
    }
}

/// How far a place lies inside the flood: not farther than inside the reach,
/// than from any competing lake, and than from the edge of the territory it
/// lies in, or of the band where a dam lets the water through; it is one of
/// these distances, or none.
pub proof fn margins_measure_the_nearest_edge(
    hit: LakeHit,
    cells: Seq<NearbyCell>,
    near: NearestCells,
    rel: Seq<Relation>,
    at: Standing,
)
    requires
        is_hit(hit, cells, near, rel, at),
        rel.len() == cells.len(),
        forall|k: int| 0 <= k < rel.len() ==> (#[trigger] rel[k]).wf(),
        at.wf(),
        number(hit.boundary_dist),
    ensures
        ({
            let m = hit.flood_edge_margin;
            let edge = if hit.in_lake_voronoi {
                hit.boundary_dist
            } else if hit.rim_is_dam {
                at.band_margin
            } else {
                at.past_negated
            };
            &&& m >= 0
            &&& m > 0 ==> m <= at.reach_margin && m <= edge && m <= hit.competing_lake_boundary
            &&& m == 0 || m == at.reach_margin || m == edge || m == hit.competing_lake_boundary
            &&& at.reach_margin > 0 && edge > 0 && hit.competing_lake_boundary > 0 ==> m > 0
        }),
{
    crate::measure::least_is_a_bound(competitor_keys(cells, near.lake as int, rel), INFINITE);
}

/// Cells of one lake share level and salt; a lake cell of any other level or
/// salt competes, and a rim never does.
pub proof fn other_lakes_compete(cells: Seq<NearbyCell>, w: int, i: int)
    ensures
        same_lake(cells, w, i) <==> cells[i].level == cells[w].level && cells[i].salt == cells[w].salt,
        cells[i].rim ==> !competes(cells, w, i),
        !cells[i].rim ==> (competes(cells, w, i) <==> cells[i].level != cells[w].level || cells[i].salt
            != cells[w].salt),
{
}

} // verus!
