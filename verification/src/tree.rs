//! Trees: which columns grow one, how tall its trunk is, and which blocks it
//! fills.

use vstd::prelude::*;
use vstd::arithmetic::div_mod::lemma_fundamental_div_mod_converse;
use std::sync::Arc;
use crate::body::{MainBlock, SeasonalPlanet, StructuralSeason};
use crate::column::{ColCtx, DRY};
use crate::material::Mat;
use crate::forest::{every_signal_grows_some, forest_span, grown, reach, stretch};
use crate::forest::{stronger_signals_grow_denser, thinner};
use crate::measure::{at_most, is_at_most, INFINITE, Measure, NEG_INFINITE};

verus! {

/// A tree species.
#[derive(Clone, Copy, PartialEq, Eq, Structural, Debug)]
pub enum TreeKind {
    Conifer,
    Broadleaf,
    Jungle,
    Acacia,
    Shrub,
}

/// The densest forest, in trees per ten thousand columns.
pub const MAX_TREE_DENSITY: u32 = 110;

/// Species and density (trees per ten thousand columns) of a Koppen class;
/// deserts, ice caps and the ocean grow none.
pub open spec fn class_flora(koppen: u8) -> Option<(TreeKind, u32)> {
    if koppen <= 1 {
        Some((TreeKind::Jungle, 110))
    } else if koppen == 2 {
        Some((TreeKind::Acacia, 12))
    } else if koppen == 5 {
        Some((TreeKind::Acacia, 5))
    } else if koppen == 6 {
        Some((TreeKind::Shrub, 15))
    } else if 7 <= koppen <= 9 {
        Some((TreeKind::Broadleaf, 25))
    } else if 10 <= koppen <= 15 || 20 <= koppen <= 21 || 24 <= koppen <= 25 {
        Some((TreeKind::Broadleaf, 50))
    } else if 16 <= koppen <= 19 {
        Some((TreeKind::Conifer, 30))
    } else if 22 <= koppen <= 23 || 26 <= koppen <= 27 {
        Some((TreeKind::Conifer, 70))
    } else if koppen == 28 {
        Some((TreeKind::Shrub, 20))
    } else {
        None
    }
}

pub fn tree_kind_density(koppen: u8) -> (r: Option<(TreeKind, u32)>)
    ensures
        r == class_flora(koppen),
{
    match koppen {
        0 | 1 => Some((TreeKind::Jungle, 110)),
        2 => Some((TreeKind::Acacia, 12)),
        5 => Some((TreeKind::Acacia, 5)),
        6 => Some((TreeKind::Shrub, 15)),
        7 | 8 | 9 => Some((TreeKind::Broadleaf, 25)),
        10..=15 | 20 | 21 | 24 | 25 => Some((TreeKind::Broadleaf, 50)),
        16..=19 => Some((TreeKind::Conifer, 30)),
        22 | 23 | 26 | 27 => Some((TreeKind::Conifer, 70)),
        28 => Some((TreeKind::Shrub, 20)),
        _ => None,
    }
}

/// A tree density: a table entry in trees per ten thousand columns, or the
/// continuous forest curve at the column.
#[derive(Clone, Copy, PartialEq, Eq, Structural, Debug)]
pub enum Density {
    PerTenThousand(u32),
    ForestCurve,
}

/// The outcome of comparing the continuous fields at a column.
#[derive(Clone, Copy)]
pub struct ForestSignal {
    /// The forest signature is present at all.
    pub wooded: bool,
    /// The forest curve's density at the column is at most the class's own.
    pub curve_at_most_class: bool,
    /// Colder than 5 degrees.
    pub cool: bool,
    /// Warmer than 20 degrees.
    pub hot: bool,
    /// Warmer than 16 degrees.
    pub warm: bool,
    /// More than 1400 mm of rain a year.
    pub rainy: bool,
    /// Less than 1400 mm of rain a year.
    pub arid: bool,
}

/// A forest signal above this is a forest (0.0001).
pub const WOODED: Measure = 0x3F1A_36E2_EB1C_432D;

/// Below this it is cool (5 degrees).
pub const COOL: Measure = 0x4014_0000_0000_0000;

/// Above this it is hot (20 degrees).
pub const HOT: Measure = 0x4034_0000_0000_0000;

/// Above this it is warm (16 degrees).
pub const WARM: Measure = 0x4030_0000_0000_0000;

/// The rain between arid and rainy climates (1400 mm a year).
pub const RAINY: Measure = 0x4095_E000_0000_0000;

/// What the continuous fields say: the forest signal, the temperature and the
/// rain of a column.
pub open spec fn signal_of(forest: int, temp: int, rain: int, curve_at_most_class: bool) -> ForestSignal {
    ForestSignal {
        wooded: WOODED < forest <= INFINITE,
        curve_at_most_class,
        cool: NEG_INFINITE <= temp < COOL,
        hot: HOT < temp <= INFINITE,
        warm: WARM < temp <= INFINITE,
        rainy: RAINY < rain <= INFINITE,
        arid: NEG_INFINITE <= rain < RAINY,
    }
}

/// What the continuous fields say: the forest signal, the temperature and the
/// rain of a column.
pub fn forest_signal(forest: Measure, temp: Measure, rain: Measure, curve_at_most_class: bool) -> (r:
    ForestSignal)
    ensures
        r == signal_of(forest as int, temp as int, rain as int, curve_at_most_class),
{
    ForestSignal {
        wooded: WOODED < forest && forest <= INFINITE,
        curve_at_most_class,
        cool: NEG_INFINITE <= temp && temp < COOL,
        hot: HOT < temp && temp <= INFINITE,
        warm: WARM < temp && temp <= INFINITE,
        rainy: RAINY < rain && rain <= INFINITE,
        arid: NEG_INFINITE <= rain && rain < RAINY,
    }
}

/// The species that continuous climate alone would grow.
pub open spec fn climate_species(f: ForestSignal) -> TreeKind {
    if f.cool {
        TreeKind::Conifer
    } else if f.hot && f.rainy {
        TreeKind::Jungle
    } else if f.warm && f.arid {
        TreeKind::Acacia
    } else {
        TreeKind::Broadleaf
    }
}

/// Species and density on the surface the ground shows. Only grass grows
/// trees. Without a forest signal the class keeps its own sparse flora; with
/// one, the sparse classes keep theirs while it is the denser, established
/// trees keep their species, and climate supplies a species where the class
/// has none or only shrubs.
pub open spec fn biome_flora(koppen: u8, block: MainBlock, f: ForestSignal) -> Option<
    (TreeKind, Density),
> {
    if block != MainBlock::Grass {
        None
    } else if !f.wooded {
        match class_flora(koppen) {
            Some((kind, d)) => Some((kind, Density::PerTenThousand(d))),
            None => None,
        }
    } else if (koppen == 5 || koppen == 6 || koppen == 28) && f.curve_at_most_class {
        let (kind, d) = class_flora(koppen)->0;
        Some((kind, Density::PerTenThousand(d)))
    } else {
        match class_flora(koppen) {
            Some((kind, _)) if kind != TreeKind::Shrub => Some((kind, Density::ForestCurve)),
            _ => Some((climate_species(f), Density::ForestCurve)),
        }
    }
}

pub fn tree_biome_profile(koppen: u8, main_block: MainBlock, f: &ForestSignal) -> (r: Option<
    (TreeKind, Density),
>)
    ensures
        r == biome_flora(koppen, main_block, *f),
{
    if main_block != MainBlock::Grass {
        return None;
    }
    let inherited: Option<(TreeKind, u32)> = tree_kind_density(koppen);
    if f.wooded {
        if koppen == 5 || koppen == 6 || koppen == 28 {
            if let Some((kind, d)) = inherited {
                if f.curve_at_most_class {
                    return Some((kind, Density::PerTenThousand(d)));
                }
            }
        }
        let climate_kind: TreeKind = if f.cool {
            TreeKind::Conifer
        } else if f.hot && f.rainy {
            TreeKind::Jungle
        } else if f.warm && f.arid {
            TreeKind::Acacia
        } else {
            TreeKind::Broadleaf
        };
        let kind: TreeKind = match inherited {
            Some((TreeKind::Shrub, _)) | None => climate_kind,
            Some((kind, _)) => kind,
        };
        return Some((kind, Density::ForestCurve));
    }
    match inherited {
        Some((kind, d)) => Some((kind, Density::PerTenThousand(d))),
        None => None,
    }
}

/// Only grass grows trees, whatever the class and the forest signal. On grass
/// with a signal, a class of established broadleaves and a class without trees
/// grow the same broadleaf forest where the climate favours broadleaves.
pub proof fn forests_follow_the_surface(wooded: u8, barren: u8, block: MainBlock, f: ForestSignal)
    ensures
        block != MainBlock::Grass ==> biome_flora(wooded, block, f) is None && biome_flora(
            barren,
            block,
            f,
        ) is None,
        block == MainBlock::Grass && f.wooded && climate_species(f) == TreeKind::Broadleaf
            && class_flora(barren) is None && (class_flora(wooded) matches Some((
            TreeKind::Broadleaf,
            _,
        ))) ==> biome_flora(wooded, block, f) == Some((TreeKind::Broadleaf, Density::ForestCurve))
            && biome_flora(barren, block, f) == biome_flora(wooded, block, f),
{
}

/// Forests thicken with their signal: where broadleaves grow, on grass of a
/// broadleaf class and of a class without trees alike, the stronger of two
/// signals grows the same species more densely, up to the densest forest.
pub proof fn forests_thicken_with_their_signal(
    koppen: u8,
    low: int,
    high: int,
    temp: int,
    rain: int,
    thin: bool,
    thick: bool,
)
    requires
        WOODED < low < high <= forest_span(5).to,
        class_flora(koppen) matches Some((kind, _)) ==> kind == TreeKind::Broadleaf,
        climate_species(signal_of(low, temp, rain, thin)) == TreeKind::Broadleaf,
    ensures
        ({
            let forest = Some((TreeKind::Broadleaf, Density::ForestCurve));
            &&& biome_flora(koppen, MainBlock::Grass, signal_of(low, temp, rain, thin)) == forest
            &&& biome_flora(koppen, MainBlock::Grass, signal_of(high, temp, rain, thick)) == forest
            &&& 0 < grown(low)
            &&& thinner(low, high)
            &&& grown(high) <= MAX_TREE_DENSITY * reach(stretch(high))
        }),
{
    stronger_signals_grow_denser(low, high);
    every_signal_grows_some(low);
    every_signal_grows_some(high);
}

/// Trunk height for a height draw `h_var` of 0, 1 or 2.
pub open spec fn trunk_height(kind: TreeKind, h_var: int) -> int {
    match kind {
        TreeKind::Conifer => 4 + h_var,
        TreeKind::Broadleaf => 3 + h_var,
        TreeKind::Jungle => 6 + h_var,
        TreeKind::Acacia => 3 + if h_var < 1 {
            h_var
        } else {
            1
        },
        TreeKind::Shrub => 0,
    }
}

/// Trunk height of a winning column, from its height draw in three equal
/// parts.
pub fn tree_trunk(kind: TreeKind, h_var: i64) -> (r: i64)
    requires
        0 <= h_var <= 2,
    ensures
        r == trunk_height(kind, h_var as int),
        0 <= r <= 8,
{
    match kind {
        TreeKind::Conifer => 4 + h_var,
        TreeKind::Broadleaf => 3 + h_var,
        TreeKind::Jungle => 6 + h_var,
        TreeKind::Acacia => 3 + if h_var < 1 {
            h_var
        } else {
            1
        },
        TreeKind::Shrub => 0,
    }
}

/// The species standing on a column seen by itself: dry, natural, unbroken
/// ground off every beach, on the right side of the treeline, that won its
/// lottery.
pub open spec fn stands_if(c: ColCtx, won: bool) -> Option<TreeKind> {
    if c.water != DRY || c.lake_level_band || c.carved || c.ground != c.ground0 || c.top()
        != c.ground || c.beach || c.climate is None {
        None
    } else {
        match c.tree {
            Some(kind) => if (c.above_treeline && kind != TreeKind::Shrub) || c.too_cold || !won {
                None
            } else {
                Some(kind)
            },
            None => None,
        }
    }
}

/// The species standing on a column, by the lottery that the column records.
pub open spec fn stands(c: ColCtx) -> Option<TreeKind> {
    stands_if(c, c.tree_ticket)
}

/// A tree and its trunk height.
pub open spec fn with_trunk(kind: Option<TreeKind>, h_var: int) -> Option<(TreeKind, i64)> {
    match kind {
        Some(k) => Some((k, trunk_height(k, h_var) as i64)),
        None => None,
    }
}

fn standing_tree(c: &ColCtx, won: bool, h_var: i64) -> (r: Option<(TreeKind, i64)>)
    requires
        c.wf(),
        0 <= h_var <= 2,
    ensures
        r == with_trunk(stands_if(*c, won), h_var as int),
{
    if c.has_water() || c.water != DRY || c.lake_level_band || c.carved || c.ground != c.ground0
        || c.top_solid() != c.ground || c.beach {
        return None;
    }
    if c.climate.is_none() {
        return None;
    }
    match c.tree {
        None => None,
        Some(kind) => {
            if c.above_treeline && kind != TreeKind::Shrub {
                return None;
            }
            if c.too_cold {
                return None;
            }
            if !won {
                return None;
            }
            Some((kind, tree_trunk(kind, h_var)))
        },
    }
}

/// The tree on a column whose density is scaled, as where one column stands
/// for several: `lot` is the column's ticket, `density` the scaled density
/// that it is drawn against.
pub fn tree_at_scaled(c: &ColCtx, lot: Measure, density: Measure, h_var: i64) -> (r: Option<
    (TreeKind, i64),
>)
    requires
        c.wf(),
        0 <= h_var <= 2,
    ensures
        r == with_trunk(stands_if(*c, !at_most(density, lot)), h_var as int),
{
    standing_tree(c, !is_at_most(density, lot), h_var)
}

/// The single-column tree lottery shared by voxel trees and distant
/// impostors.
pub fn tree_at(c: &ColCtx, h_var: i64) -> (r: Option<(TreeKind, i64)>)
    requires
        c.wf(),
        0 <= h_var <= 2,
    ensures
        r == with_trunk(stands(*c), h_var as int),
{
    standing_tree(c, c.tree_ticket, h_var)
}

/// A higher density keeps every tree.
pub proof fn denser_stands_keep_their_trees(c: ColCtx, lot: Measure, density: Measure, denser: Measure)
    requires
        at_most(density, denser),
        stands_if(c, !at_most(density, lot)) is Some,
    ensures
        stands_if(c, !at_most(denser, lot)) == stands_if(c, !at_most(density, lot)),
{
}

pub open spec fn abs_diff(a: int, b: int) -> int {
    if a >= b {
        a - b
    } else {
        b - a
    }
}

/// The ground under a canopy is close to level, and no gully touches it.
pub open spec fn level_footprint(c: ColCtx, probes: Seq<ColCtx>) -> bool {
    !c.carved && forall|k: int|
        0 <= k < probes.len() ==> !(#[trigger] probes[k]).carved && abs_diff(
            c.ground0 as int,
            probes[k].ground0 as int,
        ) <= 2
}

/// The species standing on a column among its footprint probes.
pub open spec fn rooted(c: ColCtx, probes: Seq<ColCtx>) -> Option<TreeKind> {
    if level_footprint(c, probes) {
        stands(c)
    } else {
        None
    }
}

/// The tree standing at a column, with the slope, gully and cave-mouth
/// rejections that meshing and physics share. `probes` are the columns at the
/// probe offsets, in order.
pub fn tree_here(c: &ColCtx, probes: &[ColCtx; 8], h_var: i64) -> (r: Option<(TreeKind, i64)>)
    requires
        c.wf(),
        forall|k: int| 0 <= k < 8 ==> (#[trigger] probes@[k]).wf(),
        0 <= h_var <= 2,
    ensures
        r == with_trunk(rooted(*c, probes@), h_var as int),
{
    if c.ground != c.ground0 {
        return None;
    }
    let mut relief: i64 = 0;
    let mut carved_near: bool = c.carved;
    let mut k: usize = 0;
    while k < 8
        invariant
            k <= 8,
            c.wf(),
            forall|j: int| 0 <= j < 8 ==> (#[trigger] probes@[j]).wf(),
            carved_near == (c.carved || exists|j: int| 0 <= j < k && (#[trigger] probes@[j]).carved),
            relief > 2 <==> exists|j: int|
                0 <= j < k && abs_diff(c.ground0 as int, (#[trigger] probes@[j]).ground0 as int)
                    > 2,
        decreases 8 - k,
    {
        let nb: &ColCtx = &probes[k];
        let d: i64 = if c.ground0 >= nb.ground0 {
            c.ground0 - nb.ground0
        } else {
            nb.ground0 - c.ground0
        };
        assert(d == abs_diff(c.ground0 as int, probes@[k as int].ground0 as int));
        if d > relief {
            relief = d;
        }
        carved_near = carved_near || nb.carved;
        k += 1;
    }
    if relief > 2 || carved_near || c.top_solid() != c.ground {
        return None;
    }
    tree_at(c, h_var)
}

/// The offset of a footprint probe from its trunk.
pub open spec fn probe(k: int) -> (int, int) {
    if k == 0 {
        (2, 0)
    } else if k == 1 {
        (-2, 0)
    } else if k == 2 {
        (0, 2)
    } else if k == 3 {
        (0, -2)
    } else if k == 4 {
        (1, 1)
    } else if k == 5 {
        (-1, -1)
    } else if k == 6 {
        (1, -1)
    } else {
        (-1, 1)
    }
}

/// The columns of a planet by extended lattice index and season.
pub type Columns = spec_fn(int, int, StructuralSeason) -> ColCtx;

/// The tree at a column of a planet in its annual average, among its probes.
pub open spec fn annual_tree(columns: Columns, i: int, j: int, h_var: int) -> Option<(TreeKind, i64)> {
    let annual = StructuralSeason::spec_annual();
    let probes = Seq::new(8, |k: int| columns(i + probe(k).0, j + probe(k).1, annual));
    with_trunk(rooted(columns(i, j, annual), probes), h_var)
}

/// `column` reads the columns of a planet.
pub open spec fn reads<F: Fn(i64, i64, StructuralSeason) -> ColCtx>(column: F, columns: Columns) -> bool {
    forall|i: i64, j: i64, season: StructuralSeason, c: ColCtx| #[trigger]
        column.ensures((i, j, season), c) ==> c == columns(i as int, j as int, season)
}

impl<P> SeasonalPlanet<P> {
    /// The tree at a column, by the planet's columns.
    pub open spec fn grows(self, columns: Columns, i: int, j: int, h_var: int) -> Option<(TreeKind, i64)> {
        annual_tree(columns, i, j, h_var)
    }

    /// The tree at a column. `column` gives the planet's column at an extended
    /// lattice index in a season; trees are read from the annual average,
    /// whatever the planet's own season.
    pub fn tree_at_column<F: Fn(i64, i64, StructuralSeason) -> ColCtx>(
        &self,
        ci: u64,
        cj: u64,
        column: F,
        h_var: i64,
    ) -> (r: Option<(TreeKind, i64)>)
        requires
            ci < i64::MAX - 2,
            cj < i64::MAX - 2,
            0 <= h_var <= 2,
            forall|i: i64, j: i64, season: StructuralSeason| #[trigger]
                column.requires((i, j, season)),
            forall|i: i64, j: i64, season: StructuralSeason, c: ColCtx| #[trigger]
                column.ensures((i, j, season), c) ==> c.wf(),
        ensures
            forall|columns: Columns| #[trigger]
                reads(column, columns) ==> r == self.grows(columns, ci as int, cj as int, h_var as int),
    {
        let (i, j): (i64, i64) = (ci as i64, cj as i64);
        let annual: StructuralSeason = StructuralSeason::annual();
        let c: ColCtx = column(i, j, annual);
        let probes: [ColCtx; 8] = [
            column(i + 2, j, annual),
            column(i - 2, j, annual),
            column(i, j + 2, annual),
            column(i, j - 2, annual),
            column(i + 1, j + 1, annual),
            column(i - 1, j - 1, annual),
            column(i + 1, j - 1, annual),
            column(i - 1, j + 1, annual),
        ];
        let r = tree_here(&c, &probes, h_var);
        proof {
            assert forall|columns: Columns| #[trigger] reads(column, columns) implies r == self.grows(
                columns,
                i as int,
                j as int,
                h_var as int,
            ) by {
                let seen = Seq::new(
                    8,
                    |k: int| columns(i + probe(k).0, j + probe(k).1, StructuralSeason::spec_annual()),
                );
                assert(probes@ =~= seen);
            }
        }
        r
    }
}

/// A seasonal planet grows the trees of the annual planet, in every season.
pub proof fn seasons_share_their_trees<P>(
    planet: Arc<P>,
    first: StructuralSeason,
    second: StructuralSeason,
    columns: Columns,
    i: int,
    j: int,
    h_var: int,
)
    ensures
        ({
            let a = SeasonalPlanet { planet, season: first };
            let b = SeasonalPlanet { planet, season: second };
            a.grows(columns, i, j, h_var) == b.grows(columns, i, j, h_var) && a.grows(
                columns,
                i,
                j,
                h_var,
            ) == annual_tree(columns, i, j, h_var)
        }),
{
}

/// Editing a column chops its tree.
pub proof fn edited_columns_grow_nothing(c: ColCtx, probes: Seq<ColCtx>)
    requires
        c.ground != c.ground0,
    ensures
        rooted(c, probes) is None,
{
}

/// Trees do not depend on the season: columns that differ only in what a
/// season changes (freezing, the climate's surface block, salt) carry the
/// same tree.
pub proof fn trees_ignore_the_season(
    a: ColCtx,
    b: ColCtx,
    probes_a: Seq<ColCtx>,
    probes_b: Seq<ColCtx>,
)
    requires
        b == (ColCtx {
            frozen: b.frozen,
            climate: b.climate,
            salt: b.salt,
            lake_shore: b.lake_shore,
            rim_flush_water: b.rim_flush_water,
            ..a
        }),
        a.climate is Some == b.climate is Some,
        probes_a.len() == probes_b.len(),
        forall|k: int|
            0 <= k < probes_a.len() ==> (#[trigger] probes_a[k]).ground0 == probes_b[k].ground0
                && probes_a[k].carved == probes_b[k].carved,
    ensures
        rooted(a, probes_a) == rooted(b, probes_b),
{
    lemma_same_top(a, b, a.ground as int);
    if level_footprint(a, probes_a) {
        assert forall|k: int| 0 <= k < probes_b.len() implies !(#[trigger] probes_b[k]).carved
            && abs_diff(b.ground0 as int, probes_b[k].ground0 as int) <= 2 by {
            assert(!probes_a[k].carved);
        }
    }
    if level_footprint(b, probes_b) {
        assert forall|k: int| 0 <= k < probes_a.len() implies !(#[trigger] probes_a[k]).carved
            && abs_diff(a.ground0 as int, probes_a[k].ground0 as int) <= 2 by {
            assert(!probes_b[k].carved);
        }
    }
}

proof fn lemma_same_top(a: ColCtx, b: ColCtx, z: int)
    requires
        a.ground == b.ground,
        a.ground0 == b.ground0,
        a.cave_bits == b.cave_bits,
    ensures
        a.top_from(z) == b.top_from(z),
    decreases z - (a.ground0 - crate::column::CAVE_DEPTH),
{
    if z <= a.ground0 - crate::column::CAVE_DEPTH || a.solid_at(z) {
    } else {
        lemma_same_top(a, b, z - 1);
    }
}

// ---------------------------------------------------------------- tree shapes

/// Trunks stay within this magnitude, so that cell counts fit a block number.
pub const TRUNK_LIMIT: i64 = 0x0001_0000_0000_0000;

/// One tree block: offset from the anchor's ground, and material.
pub type TreeCell = (i64, i64, i64, Mat);

pub open spec fn int_abs(x: int) -> int {
    if x < 0 {
        -x
    } else {
        x
    }
}

/// The raggedness bit of a canopy cell.
pub open spec fn ragged(rnd: u64, dx: int, dy: int) -> int {
    if (rnd >> (((dx + 2) * 5 + dy + 2) as u64)) & 1u64 != 0 {
        1
    } else {
        0
    }
}

/// The leaf material of a species.
pub open spec fn leaf_mat(kind: TreeKind) -> Mat {
    match kind {
        TreeKind::Conifer => Mat::LeavesConifer,
        TreeKind::Broadleaf => Mat::LeavesBroad,
        TreeKind::Jungle => Mat::LeavesJungle,
        TreeKind::Acacia => Mat::LeavesAcacia,
        TreeKind::Shrub => Mat::Shrub,
    }
}

/// Is the cell at this offset part of the canopy?
///
/// Conifers are stacked diamonds narrowing to a two-block tip; broadleaf and
/// jungle crowns are three square layers around the trunk top with ragged
/// corners, and a cap; acacias are one flat disc; shrubs are up to three
/// blocks on the ground.
pub open spec fn in_canopy(kind: TreeKind, trunk: int, rnd: u64, dx: int, dy: int, dz: int) -> bool {
    let span = int_abs(dx) + int_abs(dy);
    match kind {
        TreeKind::Shrub => dz == 1 && ((dx == 0 && dy == 0) || (dx == 1 && dy == 0 && rnd & 1u64
            == 0) || (dx == 0 && dy == 1 && rnd & 2u64 == 0)),
        TreeKind::Conifer => {
            ||| span > 0 && 2 <= dz <= trunk + 1 && span <= 2 && span <= (trunk + 2 - dz) / 2
            ||| span == 0 && (dz == trunk + 1 || dz == trunk + 2)
        },
        TreeKind::Broadleaf | TreeKind::Jungle => {
            let r: int = if dz > trunk {
                1
            } else {
                2
            };
            ||| trunk - 1 <= dz <= trunk + 1 && int_abs(dx) <= r && int_abs(dy) <= r && span <= r + 1
                - ragged(rnd, dx, dy)
            ||| span == 0 && dz == trunk + 2
        },
        TreeKind::Acacia => dz == trunk + 1 && int_abs(dx) <= 2 && int_abs(dy) <= 2 && span <= 3,
    }
}

/// The lowest and the number of layers that a canopy can occupy.
pub open spec fn canopy_layers(kind: TreeKind, trunk: int) -> (int, int) {
    match kind {
        TreeKind::Shrub => (1, 1),
        TreeKind::Conifer => if trunk < 1 {
            (trunk + 1, 2)
        } else {
            (2, trunk + 1)
        },
        TreeKind::Broadleaf | TreeKind::Jungle => (trunk - 1, 4),
        TreeKind::Acacia => (trunk + 1, 1),
    }
}

/// The offset of the `k`-th place of a layer. Layers are walked column by
/// column, shrubs row by row.
pub open spec fn layer_place(kind: TreeKind, k: int) -> (int, int) {
    let (a, b) = ((k % 25) / 5 - 2, k % 5 - 2);
    if kind == TreeKind::Shrub {
        (b, a)
    } else {
        (a, b)
    }
}

/// The first `n` places of the box around a canopy, layer by layer, that are
/// part of it.
pub open spec fn canopy(kind: TreeKind, trunk: int, rnd: u64, n: int) -> Seq<TreeCell>
    decreases n,
{
    if n <= 0 {
        Seq::empty()
    } else {
        let k = n - 1;
        let dz = canopy_layers(kind, trunk).0 + k / 25;
        let (dx, dy) = layer_place(kind, k);
        let rest = canopy(kind, trunk, rnd, k);
        if in_canopy(kind, trunk, rnd, dx, dy, dz) {
            rest.push((dx as i64, dy as i64, dz as i64, leaf_mat(kind)))
        } else {
            rest
        }
    }
}

/// The trunk's blocks, bottom up.
pub open spec fn trunk_cells(trunk: int) -> Seq<TreeCell> {
    Seq::new(
        if trunk > 0 {
            trunk as nat
        } else {
            0
        },
        |k: int| (0i64, 0i64, (k + 1) as i64, Mat::Log),
    )
}

/// All blocks of a tree: its canopy, then its trunk, which wins where the two
/// overlap.
pub open spec fn cells(kind: TreeKind, trunk: int, rnd: u64) -> Seq<TreeCell> {
    canopy(kind, trunk, rnd, 25 * canopy_layers(kind, trunk).1) + trunk_cells(trunk)
}

fn iabs(x: i64) -> (r: i64)
    requires
        -1000 <= x <= 1000,
    ensures
        r == int_abs(x as int),
{
    if x < 0 {
        -x
    } else {
        x
    }
}

fn canopy_has(kind: TreeKind, trunk: i64, rnd: u64, dx: i64, dy: i64, dz: i64) -> (r: bool)
    requires
        -TRUNK_LIMIT <= trunk <= TRUNK_LIMIT,
        -2 <= dx <= 2,
        -2 <= dy <= 2,
        -2 * TRUNK_LIMIT <= dz <= 2 * TRUNK_LIMIT,
    ensures
        r == in_canopy(kind, trunk as int, rnd, dx as int, dy as int, dz as int),
{
    let span: i64 = iabs(dx) + iabs(dy);
    match kind {
        TreeKind::Shrub => dz == 1 && ((dx == 0 && dy == 0) || (dx == 1 && dy == 0 && rnd & 1 == 0)
            || (dx == 0 && dy == 1 && rnd & 2 == 0)),
        TreeKind::Conifer => if span == 0 {
            dz == trunk + 1 || dz == trunk + 2
        } else {
            2 <= dz && dz <= trunk + 1 && span <= 2 && span <= (trunk + 2 - dz) / 2
        },
        TreeKind::Broadleaf | TreeKind::Jungle => {
            let r: i64 = if dz > trunk {
                1
            } else {
                2
            };
            let bit: i64 = if (rnd >> (((dx + 2) * 5 + dy + 2) as u64)) & 1 != 0 {
                1
            } else {
                0
            };
            (trunk - 1 <= dz && dz <= trunk + 1 && iabs(dx) <= r && iabs(dy) <= r && span <= r + 1
                - bit) || (span == 0 && dz == trunk + 2)
        },
        TreeKind::Acacia => dz == trunk + 1 && iabs(dx) <= 2 && iabs(dy) <= 2 && span <= 3,
    }
}

/// The full-block cells of a tree, relative to its anchor column's ground.
/// `rnd` roughens the crown.
pub fn tree_cells(kind: TreeKind, trunk: i64, rnd: u64) -> (r: Vec<TreeCell>)
    requires
        -TRUNK_LIMIT <= trunk <= TRUNK_LIMIT,
    ensures
        r@ == cells(kind, trunk as int, rnd),
{
    let mat: Mat = match kind {
        TreeKind::Conifer => Mat::LeavesConifer,
        TreeKind::Broadleaf => Mat::LeavesBroad,
        TreeKind::Jungle => Mat::LeavesJungle,
        TreeKind::Acacia => Mat::LeavesAcacia,
        TreeKind::Shrub => Mat::Shrub,
    };
    let (base, layers): (i64, i64) = match kind {
        TreeKind::Shrub => (1, 1),
        TreeKind::Conifer => if trunk < 1 {
            (trunk + 1, 2)
        } else {
            (2, trunk + 1)
        },
        TreeKind::Broadleaf | TreeKind::Jungle => (trunk - 1, 4),
        TreeKind::Acacia => (trunk + 1, 1),
    };
    let mut out: Vec<TreeCell> = Vec::new();
    let n: i64 = 25 * layers;
    let mut k: i64 = 0;
    while k < n
        invariant
            -TRUNK_LIMIT <= trunk <= TRUNK_LIMIT,
            (base as int, layers as int) == canopy_layers(kind, trunk as int),
            mat == leaf_mat(kind),
            n == 25 * layers,
            0 <= k <= n,
            out@ == canopy(kind, trunk as int, rnd, k as int),
        decreases n - k,
    {
        let dz: i64 = base + k / 25;
        let a: i64 = (k % 25) / 5 - 2;
        let b: i64 = k % 5 - 2;
        let (dx, dy): (i64, i64) = match kind {
            TreeKind::Shrub => (b, a),
            _ => (a, b),
        };
        if canopy_has(kind, trunk, rnd, dx, dy, dz) {
            out.push((dx, dy, dz, mat));
        }
        k += 1;
    }
    let ghost crown = out@;
    let mut z: i64 = 1;
    while z <= trunk
        invariant
            1 <= z,
            z <= trunk + 1 || (trunk < 0 && z == 1),
            trunk <= TRUNK_LIMIT,
            out@ == crown + trunk_cells(z - 1),
        decreases trunk + 1 - z,
    {
        out.push((0, 0, z, Mat::Log));
        assert(out@ =~= crown + trunk_cells(z as int));
        z += 1;
    }
    assert(trunk_cells(trunk as int) =~= trunk_cells(z - 1));
    out
}

proof fn lemma_canopy(kind: TreeKind, trunk: int, rnd: u64, n: int)
    requires
        -TRUNK_LIMIT <= trunk <= TRUNK_LIMIT,
        n <= 25 * canopy_layers(kind, trunk).1,
    ensures
        forall|i: int|
            0 <= i < canopy(kind, trunk, rnd, n).len() ==> {
                let c = #[trigger] canopy(kind, trunk, rnd, n)[i];
                &&& -2 <= c.0 <= 2
                &&& -2 <= c.1 <= 2
                &&& in_canopy(kind, trunk, rnd, c.0 as int, c.1 as int, c.2 as int)
                &&& c.3 == leaf_mat(kind)
            },
    decreases n,
{
    if n > 0 {
        lemma_canopy(kind, trunk, rnd, n - 1);
        let k = n - 1;
        assert(0 <= k % 25 < 25 && 0 <= k % 5 < 5);
        assert(0 <= k / 25 < canopy_layers(kind, trunk).1);
    }
}

proof fn lemma_canopy_complete(kind: TreeKind, trunk: int, rnd: u64, n: int, k: int)
    requires
        -TRUNK_LIMIT <= trunk <= TRUNK_LIMIT,
        0 <= k < n <= 25 * canopy_layers(kind, trunk).1,
    ensures
        ({
            let dz = canopy_layers(kind, trunk).0 + k / 25;
            let (dx, dy) = layer_place(kind, k);
            in_canopy(kind, trunk, rnd, dx, dy, dz) ==> canopy(kind, trunk, rnd, n).contains(
                (dx as i64, dy as i64, dz as i64, leaf_mat(kind)),
            )
        }),
    decreases n,
{
    let dz = canopy_layers(kind, trunk).0 + k / 25;
    let (dx, dy) = layer_place(kind, k);
    let cell = (dx as i64, dy as i64, dz as i64, leaf_mat(kind));
    let all = canopy(kind, trunk, rnd, n);
    let rest = canopy(kind, trunk, rnd, n - 1);
    if in_canopy(kind, trunk, rnd, dx, dy, dz) {
        if k == n - 1 {
            assert(all[all.len() - 1] == cell);
        } else {
            lemma_canopy_complete(kind, trunk, rnd, n - 1, k);
            let i = choose|i: int| 0 <= i < rest.len() && rest[i] == cell;
            assert(all[i] == cell);
        }
    }
}

/// A tree's blocks stay within two columns of its trunk, and its blocks are
/// leaves of its species where the canopy says so, and trunk.
pub proof fn tree_stays_within_canopy_radius(kind: TreeKind, trunk: int, rnd: u64, i: int)
    requires
        -TRUNK_LIMIT <= trunk <= TRUNK_LIMIT,
        0 <= i < cells(kind, trunk, rnd).len(),
    ensures
        ({
            let c = cells(kind, trunk, rnd)[i];
            &&& -2 <= c.0 <= 2
            &&& -2 <= c.1 <= 2
            &&& (c.3 == leaf_mat(kind) && in_canopy(
                kind,
                trunk,
                rnd,
                c.0 as int,
                c.1 as int,
                c.2 as int,
            )) || (c == (0i64, 0i64, c.2, Mat::Log) && 1 <= c.2 <= trunk)
        }),
{
    lemma_canopy(kind, trunk, rnd, 25 * canopy_layers(kind, trunk).1);
}

proof fn lemma_in_box(kind: TreeKind, trunk: int, rnd: u64, dx: int, dy: int, dz: int)
    requires
        in_canopy(kind, trunk, rnd, dx, dy, dz),
    ensures
        -2 <= dx <= 2,
        -2 <= dy <= 2,
        canopy_layers(kind, trunk).0 <= dz < canopy_layers(kind, trunk).0 + canopy_layers(
            kind,
            trunk,
        ).1,
{
}

proof fn lemma_box_place(layer: int, dx: int, dy: int)
    requires
        -2 <= dx <= 2,
        -2 <= dy <= 2,
    ensures
        ({
            let k = 25 * layer + 5 * (dx + 2) + (dy + 2);
            &&& k / 25 == layer
            &&& (k % 25) / 5 == dx + 2
            &&& k % 5 == dy + 2
        }),
{
    let place = 5 * (dx + 2) + (dy + 2);
    let k = 25 * layer + place;
    lemma_fundamental_div_mod_converse(k, 25, layer, place);
    lemma_fundamental_div_mod_converse(place, 5, dx + 2, dy + 2);
    lemma_fundamental_div_mod_converse(k, 5, 5 * layer + dx + 2, dy + 2);
}

/// Every place that the canopy of a species names is one of its blocks, and
/// so is every block of its trunk.
pub proof fn tree_is_complete(kind: TreeKind, trunk: int, rnd: u64, dx: int, dy: int, dz: int)
    requires
        -TRUNK_LIMIT <= trunk <= TRUNK_LIMIT,
    ensures
        in_canopy(kind, trunk, rnd, dx, dy, dz) ==> cells(kind, trunk, rnd).contains(
            (dx as i64, dy as i64, dz as i64, leaf_mat(kind)),
        ),
        1 <= dz <= trunk ==> cells(kind, trunk, rnd).contains((0i64, 0i64, dz as i64, Mat::Log)),
{
    let (base, layers) = canopy_layers(kind, trunk);
    let crown = canopy(kind, trunk, rnd, 25 * layers);
    let all = cells(kind, trunk, rnd);
    if in_canopy(kind, trunk, rnd, dx, dy, dz) {
        lemma_in_box(kind, trunk, rnd, dx, dy, dz);
        let (a, b) = if kind == TreeKind::Shrub {
            (dy, dx)
        } else {
            (dx, dy)
        };
        let k = 25 * (dz - base) + 5 * (a + 2) + (b + 2);
        lemma_box_place(dz - base, a, b);
        lemma_canopy_complete(kind, trunk, rnd, 25 * layers, k);
        let cell = (dx as i64, dy as i64, dz as i64, leaf_mat(kind));
        let i = choose|i: int| 0 <= i < crown.len() && crown[i] == cell;
        assert(all[i] == cell);
    }
    if 1 <= dz <= trunk {
        assert(all[crown.len() + dz - 1] == (0i64, 0i64, dz as i64, Mat::Log));
    }
}

/// The crown of a broadleaf or jungle tree: at the two heights around the top
/// of the trunk a square of five by five without its four corners, above them
/// a square of three by three, and one block on top. The blocks next to the
/// missing corners, and the corners of the small square, are leaves where
/// their random bit is clear; every other block of the squares always is. The
/// logs fill the trunk from the ground to its top. Nothing else is a block.
pub proof fn broadleaf_crowns_are_round(kind: TreeKind, trunk: int, rnd: u64, dx: i64, dy: i64, dz: i64)
    requires
        kind == TreeKind::Broadleaf || kind == TreeKind::Jungle,
        -TRUNK_LIMIT <= trunk <= TRUNK_LIMIT,
    ensures
        ({
            let leaf = cells(kind, trunk, rnd).contains(
                (dx, dy, dz, if kind == TreeKind::Broadleaf {
                    Mat::LeavesBroad
                } else {
                    Mat::LeavesJungle
                }),
            );
            let ax = if dx < 0 {
                -dx as int
            } else {
                dx as int
            };
            let ay = if dy < 0 {
                -dy as int
            } else {
                dy as int
            };
            let clear = (rnd >> ((5 * (dx + 2) + (dy + 2)) as u64)) & 1u64 == 0;
            &&& dz == trunk - 1 || dz == trunk ==> {
                &&& ax <= 2 && ay <= 2 && ax + ay <= 2 ==> leaf
                &&& ax <= 2 && ay <= 2 && ax + ay == 3 ==> (leaf <==> clear)
                &&& ax > 2 || ay > 2 || ax + ay > 3 ==> !leaf
            }
            &&& dz == trunk + 1 ==> {
                &&& ax + ay <= 1 ==> leaf
                &&& ax == 1 && ay == 1 ==> (leaf <==> clear)
                &&& ax > 1 || ay > 1 ==> !leaf
            }
            &&& dz == trunk + 2 ==> (leaf <==> dx == 0 && dy == 0)
            &&& dz < trunk - 1 || dz > trunk + 2 ==> !leaf
        }),
{
    let mat = leaf_mat(kind);
    lemma_leaf_iff(kind, trunk, rnd, dx, dy, dz);
    assert(((dx + 2) * 5 + dy + 2) as u64 == (5 * (dx + 2) + (dy + 2)) as u64);
}

/// A block of leaves is one of the tree's exactly where its canopy says so.
proof fn lemma_leaf_iff(kind: TreeKind, trunk: int, rnd: u64, dx: i64, dy: i64, dz: i64)
    requires
        -TRUNK_LIMIT <= trunk <= TRUNK_LIMIT,
    ensures
        cells(kind, trunk, rnd).contains((dx, dy, dz, leaf_mat(kind))) <==> in_canopy(
            kind,
            trunk,
            rnd,
            dx as int,
            dy as int,
            dz as int,
        ),
{
    let cell = (dx, dy, dz, leaf_mat(kind));
    let all = cells(kind, trunk, rnd);
    tree_is_complete(kind, trunk, rnd, dx as int, dy as int, dz as int);
    if all.contains(cell) {
        let i = choose|i: int| 0 <= i < all.len() && all[i] == cell;
        tree_stays_within_canopy_radius(kind, trunk, rnd, i);
    }
}

/// A conifer is a cone: around the trunk, from the second block up, leaves
/// reach two columns out where the tip is at least four layers above, one
/// column out where it is two or three above, and nowhere else; the two blocks
/// over the trunk are its tip.
pub proof fn conifers_are_cones(trunk: int, rnd: u64, dx: i64, dy: i64, dz: i64)
    requires
        -TRUNK_LIMIT <= trunk <= TRUNK_LIMIT,
    ensures
        ({
            let leaf = cells(TreeKind::Conifer, trunk, rnd).contains(
                (dx, dy, dz, Mat::LeavesConifer),
            );
            let ax = if dx < 0 {
                -dx as int
            } else {
                dx as int
            };
            let ay = if dy < 0 {
                -dy as int
            } else {
                dy as int
            };
            let tip = trunk + 2;
            &&& ax + ay == 0 ==> (leaf <==> dz == tip - 1 || dz == tip)
            &&& ax + ay == 1 ==> (leaf <==> 2 <= dz <= tip - 2)
            &&& ax + ay == 2 ==> (leaf <==> 2 <= dz <= tip - 4)
            &&& ax + ay > 2 ==> !leaf
        }),
{
    lemma_leaf_iff(TreeKind::Conifer, trunk, rnd, dx, dy, dz);
}

/// An acacia is one flat layer over its trunk, five columns wide without the
/// corners. A shrub is a block on the ground and, where their random bits are
/// clear, one beside it on either axis.
pub proof fn acacias_are_flat_and_shrubs_low(trunk: int, rnd: u64, dx: i64, dy: i64, dz: i64)
    requires
        -TRUNK_LIMIT <= trunk <= TRUNK_LIMIT,
    ensures
        cells(TreeKind::Acacia, trunk, rnd).contains((dx, dy, dz, Mat::LeavesAcacia)) <==> dz == trunk
            + 1 && -2 <= dx <= 2 && -2 <= dy <= 2 && !((dx == 2 || dx == -2) && (dy == 2 || dy == -2)),
        dz != 1 ==> !cells(TreeKind::Shrub, trunk, rnd).contains((dx, dy, dz, Mat::Shrub)),
        cells(TreeKind::Shrub, trunk, rnd).contains((0i64, 0i64, 1i64, Mat::Shrub)),
        cells(TreeKind::Shrub, trunk, rnd).contains((1i64, 0i64, 1i64, Mat::Shrub)) <==> rnd & 1u64 == 0,
        cells(TreeKind::Shrub, trunk, rnd).contains((0i64, 1i64, 1i64, Mat::Shrub)) <==> rnd & 2u64 == 0,
        dx < 0 || dy < 0 || dx + dy > 1 ==> !cells(TreeKind::Shrub, trunk, rnd).contains(
            (dx, dy, dz, Mat::Shrub),
        ),
{
    lemma_leaf_iff(TreeKind::Acacia, trunk, rnd, dx, dy, dz);
    lemma_leaf_iff(TreeKind::Shrub, trunk, rnd, dx, dy, dz);
    lemma_leaf_iff(TreeKind::Shrub, trunk, rnd, 0, 0, 1);
    lemma_leaf_iff(TreeKind::Shrub, trunk, rnd, 1, 0, 1);
    lemma_leaf_iff(TreeKind::Shrub, trunk, rnd, 0, 1, 1);
}

/// Every tree has its trunk: a log at each height from the ground to the top
/// of the trunk, in its own column, and no log anywhere else. Every other
/// block is a leaf of its species.
pub proof fn trees_have_their_trunks(kind: TreeKind, trunk: int, rnd: u64, cell: TreeCell)
    requires
        -TRUNK_LIMIT <= trunk <= TRUNK_LIMIT,
    ensures
        cell.3 == Mat::Log ==> (cells(kind, trunk, rnd).contains(cell) <==> cell.0 == 0 && cell.1 == 0
            && 1 <= cell.2 <= trunk),
        cells(kind, trunk, rnd).contains(cell) && cell.3 != Mat::Log ==> cell.3 == (match kind {
            TreeKind::Conifer => Mat::LeavesConifer,
            TreeKind::Broadleaf => Mat::LeavesBroad,
            TreeKind::Jungle => Mat::LeavesJungle,
            TreeKind::Acacia => Mat::LeavesAcacia,
            TreeKind::Shrub => Mat::Shrub,
        }),
{
    let all = cells(kind, trunk, rnd);
    tree_is_complete(kind, trunk, rnd, 0, 0, cell.2 as int);
    if all.contains(cell) {
        let i = choose|i: int| 0 <= i < all.len() && all[i] == cell;
        tree_stays_within_canopy_radius(kind, trunk, rnd, i);
    }
}

/// The number of a cell's place in the box around its canopy.
spec fn place_of(kind: TreeKind, trunk: int, c: TreeCell) -> int {
    let (a, b) = if kind == TreeKind::Shrub {
        (c.1, c.0)
    } else {
        (c.0, c.1)
    };
    25 * (c.2 - canopy_layers(kind, trunk).0) + 5 * (a + 2) + (b + 2)
}

proof fn lemma_places_ascend(kind: TreeKind, trunk: int, rnd: u64, n: int)
    requires
        -TRUNK_LIMIT <= trunk <= TRUNK_LIMIT,
        n <= 25 * canopy_layers(kind, trunk).1,
    ensures
        forall|i: int|
            0 <= i < canopy(kind, trunk, rnd, n).len() ==> place_of(
                kind,
                trunk,
                #[trigger] canopy(kind, trunk, rnd, n)[i],
            ) < n,
        forall|h: int, i: int|
            0 <= h < i < canopy(kind, trunk, rnd, n).len() ==> place_of(
                kind,
                trunk,
                #[trigger] canopy(kind, trunk, rnd, n)[h],
            ) < place_of(kind, trunk, #[trigger] canopy(kind, trunk, rnd, n)[i]),
    decreases n,
{
    if n > 0 {
        let k = n - 1;
        lemma_places_ascend(kind, trunk, rnd, k);
        let all = canopy(kind, trunk, rnd, n);
        let rest = canopy(kind, trunk, rnd, k);
        assert(0 <= k % 25 < 25 && 0 <= k % 5 < 5);
        assert(0 <= k / 25 < canopy_layers(kind, trunk).1);
        assert(k == 25 * (k / 25) + k % 25);
        assert((k % 25) % 5 == k % 5);
        assert(k % 25 == 5 * ((k % 25) / 5) + k % 5);
        if all.len() > rest.len() {
            assert(place_of(kind, trunk, all[all.len() - 1]) == k);
        }
        assert forall|i: int| 0 <= i < rest.len() implies #[trigger] all[i] == rest[i] by {}
    }
}

/// No block of leaves is listed twice, and none of the trunk.
pub proof fn trees_list_their_blocks_once(kind: TreeKind, trunk: int, rnd: u64, h: int, i: int)
    requires
        -TRUNK_LIMIT <= trunk <= TRUNK_LIMIT,
        0 <= h < i < cells(kind, trunk, rnd).len(),
    ensures
        cells(kind, trunk, rnd)[h] != cells(kind, trunk, rnd)[i],
{
    let n = 25 * canopy_layers(kind, trunk).1;
    let crown = canopy(kind, trunk, rnd, n);
    lemma_canopy(kind, trunk, rnd, n);
    if i < crown.len() {
        lemma_places_ascend(kind, trunk, rnd, n);
        assert(cells(kind, trunk, rnd)[h] == crown[h] && cells(kind, trunk, rnd)[i] == crown[i]);
        assert(place_of(kind, trunk, crown[h]) < place_of(kind, trunk, crown[i]));
    } else {
        let z = i - crown.len();
        assert(cells(kind, trunk, rnd)[i] == trunk_cells(trunk)[z]);
        if h < crown.len() {
            assert(cells(kind, trunk, rnd)[h] == crown[h]);
            assert(leaf_mat(kind) != Mat::Log);
        } else {
            assert(cells(kind, trunk, rnd)[h] == trunk_cells(trunk)[h - crown.len()]);
        }
    }
}

/// Trunks: a shrub has none, a broadleaf's is three blocks and as many more as
/// it draws, a conifer's is one taller and a jungle tree's three taller than a
/// broadleaf's of the same draw; an acacia's is three or four.
pub proof fn trunks_follow_their_draw(draw: int)
    requires
        0 <= draw <= 2,
    ensures
        trunk_height(TreeKind::Shrub, draw) == 0,
        trunk_height(TreeKind::Broadleaf, draw) == 3 + draw,
        trunk_height(TreeKind::Conifer, draw) == trunk_height(TreeKind::Broadleaf, draw) + 1,
        trunk_height(TreeKind::Jungle, draw) == trunk_height(TreeKind::Broadleaf, draw) + 3,
        trunk_height(TreeKind::Acacia, draw) == (if draw == 0 {
            3int
        } else {
            4
        }),
{
}

/// Where a tree stands: on dry, natural, unbroken ground with a climate, off
/// the beaches, off lakes' shore bands and off carved gullies, where it is warm
/// enough for the species and the column won. Each of these is needed, and
/// together they suffice; the species is the column's.
pub proof fn trees_stand_on_good_ground(c: ColCtx, won: bool)
    ensures
        stands_if(c, won) is Some ==> stands_if(c, won) == c.tree,
        c.water != i64::MIN ==> stands_if(c, won) is None,
        c.ground != c.ground0 || c.top() != c.ground ==> stands_if(c, won) is None,
        c.beach || c.carved || c.lake_level_band ==> stands_if(c, won) is None,
        c.climate is None || c.tree is None || !won || c.too_cold ==> stands_if(c, won) is None,
        c.above_treeline && c.tree != Some(TreeKind::Shrub) ==> stands_if(c, won) is None,
        c.water == i64::MIN && c.ground == c.ground0 && c.top() == c.ground && !c.beach && !c.carved
            && !c.lake_level_band && c.climate is Some && won && !c.too_cold && (!c.above_treeline
            || c.tree == Some(TreeKind::Shrub)) ==> stands_if(c, won) == c.tree,
        stands(c) == stands_if(c, c.tree_ticket),
{
}

/// A tree is rooted where it stands and where the ground around it is level:
/// no probe of its footprint lies more than two blocks higher or lower, or is
/// carved. Trees have their species' trunk.
pub proof fn trees_root_on_level_ground(c: ColCtx, probes: Seq<ColCtx>, k: int, h_var: int)
    requires
        0 <= k < probes.len(),
    ensures
        probes[k].carved ==> rooted(c, probes) is None,
        probes[k].ground0 > c.ground0 + 2 || probes[k].ground0 < c.ground0 - 2 ==> rooted(c, probes) is None,
        rooted(c, probes) is Some ==> rooted(c, probes) == stands(c),
        (forall|i: int|
            0 <= i < probes.len() ==> !(#[trigger] probes[i]).carved && c.ground0 - 2
                <= probes[i].ground0 <= c.ground0 + 2) ==> rooted(c, probes) == stands(c),
        with_trunk(rooted(c, probes), h_var) is Some <==> rooted(c, probes) is Some,
        with_trunk(rooted(c, probes), h_var) matches Some((kind, trunk)) ==> rooted(c, probes) == Some(kind)
            && trunk == trunk_height(kind, h_var) as i64,
{
    if rooted(c, probes) is Some {
        assert(!probes[k].carved && abs_diff(c.ground0 as int, probes[k].ground0 as int) <= 2);
    }
    if stands(c) is Some && forall|i: int|
        0 <= i < probes.len() ==> !(#[trigger] probes[i]).carved && c.ground0 - 2 <= probes[i].ground0
            <= c.ground0 + 2 {
        assert(!c.carved);
        assert(level_footprint(c, probes));
    }
}

/// The footprint is the eight columns two steps from the trunk.
pub proof fn footprints_are_two_steps_wide(dx: int, dy: int)
    ensures
        (exists|k: int| 0 <= k < 8 && #[trigger] probe(k) == (dx, dy)) <==> int_abs(dx) + int_abs(dy) == 2,
{
    if int_abs(dx) + int_abs(dy) == 2 {
        assert(probe(0) == (2int, 0int) && probe(1) == (-2int, 0int));
        assert(probe(2) == (0int, 2int) && probe(3) == (0int, -2int));
        assert(probe(4) == (1int, 1int) && probe(5) == (-1int, -1int));
        assert(probe(6) == (1int, -1int) && probe(7) == (-1int, 1int));
    }
}

/// A planet's tree is the annual one: its trunk column and its eight probes
/// are read in the annual average.
pub proof fn planets_grow_annual_trees(columns: Columns, other: Columns, i: int, j: int, h_var: int)
    requires
        forall|x: int, y: int|
            (#[trigger] columns(x, y, StructuralSeason::spec_annual())) == other(
                x,
                y,
                StructuralSeason::spec_annual(),
            ) || int_abs(x - i) + int_abs(y - j) > 2,
    ensures
        annual_tree(columns, i, j, h_var) == annual_tree(other, i, j, h_var),
        annual_tree(columns, i, j, h_var) matches Some((kind, _)) ==> stands(
            columns(i, j, StructuralSeason::spec_annual()),
        ) == Some(kind),
{
    let annual = StructuralSeason::spec_annual();
    let a = Seq::new(8, |k: int| columns(i + probe(k).0, j + probe(k).1, annual));
    let b = Seq::new(8, |k: int| other(i + probe(k).0, j + probe(k).1, annual));
    assert(columns(i, j, annual) == other(i, j, annual));
    assert(a =~= b) by {
        assert forall|k: int| 0 <= k < 8 implies a[k] == b[k] by {
            let (x, y) = (i + probe(k).0, j + probe(k).1);
            assert(columns(x, y, annual) == other(x, y, annual));
        }
    }
}

/// Climate classes and their trees. Rain forests grow jungle, savannas and hot
/// steppes acacias, cold steppes and tundra shrubs; the mild and humid classes
/// grow broadleaves and the classes with cold summers or dry cold winters
/// conifers. Deserts, ice caps and the ocean grow nothing.
pub proof fn climates_grow_their_trees(koppen: u8)
    ensures
        class_flora(koppen) is None <==> koppen == 3 || koppen == 4 || koppen > 28,
        (class_flora(koppen) matches Some((TreeKind::Jungle, _))) <==> koppen < 2,
        (class_flora(koppen) matches Some((TreeKind::Acacia, _))) <==> koppen == 2 || koppen == 5,
        (class_flora(koppen) matches Some((TreeKind::Shrub, _))) <==> koppen == 6 || koppen == 28,
        (class_flora(koppen) matches Some((TreeKind::Conifer, _))) <==> koppen == 16 || koppen == 17
            || koppen == 18 || koppen == 19 || koppen == 22 || koppen == 23 || koppen == 26 || koppen
            == 27,
        class_flora(koppen) matches Some((kind, density)) ==> {
            &&& kind == TreeKind::Jungle ==> density == 110
            &&& kind == TreeKind::Acacia ==> density == (if koppen == 2 {
                12int
            } else {
                5
            })
            &&& kind == TreeKind::Shrub ==> density == (if koppen == 6 {
                15int
            } else {
                20
            })
            &&& kind == TreeKind::Broadleaf ==> density == (if koppen < 10 {
                25int
            } else {
                50
            })
            &&& kind == TreeKind::Conifer ==> density == (if koppen < 20 {
                30int
            } else {
                70
            })
        },
{
}

/// What grows on grass. Without a forest signal, the class's own trees at
/// their own density. With one, a forest of the class's trees; where the class
/// has none or only shrubs, of the species that the climate favours; but
/// steppes and tundra keep their own sparse flora where it is the denser.
pub proof fn grass_grows_its_trees(koppen: u8, f: ForestSignal)
    ensures
        ({
            let own = class_flora(koppen);
            let grown = biome_flora(koppen, MainBlock::Grass, f);
            let sparse = koppen == 5 || koppen == 6 || koppen == 28;
            &&& !f.wooded && own is None ==> grown is None
            &&& !f.wooded ==> (own matches Some((kind, d)) ==> grown == Some(
                (kind, Density::PerTenThousand(d)),
            ))
            &&& f.wooded && sparse && f.curve_at_most_class ==> (own matches Some((kind, d)) && grown
                == Some((kind, Density::PerTenThousand(d))))
            &&& f.wooded && !(sparse && f.curve_at_most_class) ==> grown == Some(
                (
                    match own {
                        Some((TreeKind::Shrub, _)) | None => climate_species(f),
                        Some((kind, _)) => kind,
                    },
                    Density::ForestCurve,
                ),
            )
            &&& f.cool ==> climate_species(f) == TreeKind::Conifer
            &&& !f.cool && f.hot && f.rainy ==> climate_species(f) == TreeKind::Jungle
            &&& !f.cool && !(f.hot && f.rainy) && f.warm && f.arid ==> climate_species(f)
                == TreeKind::Acacia
            &&& !f.cool && !(f.hot && f.rainy) && !(f.warm && f.arid) ==> climate_species(f)
                == TreeKind::Broadleaf
        }),
{
}

/// The thresholds of the climate: 5, 16 and 20 degrees, 1400 millimetres of
/// rain, and a forest signal of one in ten thousand, each met by numbers only.
pub proof fn climates_have_their_thresholds(forest: int, temp: int, rain: int, denser: bool)
    ensures
        ({
            let f = signal_of(forest, temp, rain, denser);
            &&& f.wooded <==> 0x3F1A_36E2_EB1C_432D < forest <= INFINITE
            &&& f.cool <==> NEG_INFINITE <= temp < 0x4014_0000_0000_0000
            &&& f.warm <==> 0x4030_0000_0000_0000 < temp <= INFINITE
            &&& f.hot <==> 0x4034_0000_0000_0000 < temp <= INFINITE
            &&& f.rainy <==> 0x4095_E000_0000_0000 < rain <= INFINITE
            &&& f.arid <==> NEG_INFINITE <= rain < 0x4095_E000_0000_0000
            &&& f.curve_at_most_class == denser
            &&& f.hot ==> f.warm && !f.cool
            &&& !(f.rainy && f.arid)
        }),
{
}

} // verus!
