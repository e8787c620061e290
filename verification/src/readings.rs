//! What a column's rules read of the terrain sampled there: each comparison of
//! continuous fields, made on their measures.
//!
//! Sums and differences of fields arrive as measures of their own, and the
//! block of a height beside its measure.

use vstd::prelude::*;
use crate::body::MainBlock;
use crate::column::{sample_block_ok, ColumnSample, CreekProbe, DRY, SAMPLE_LIMIT};
use crate::hydrology::finite;
use crate::measure::{at_most, below, is_at_most, is_below, Measure, INFINITE, NEG_INFINITE};
use crate::tree::TreeKind;

verus! {

/// Creeks are narrower than this on either side (0.0015 km).
pub const CREEK_HALF_WIDTH: Measure = 0x3F58_9374_BC6A_7EFA;

/// Regions above this have caves (-0.05).
pub const CAVE_REGION: Measure = -0x3FA9_9999_9999_999A;

/// Ground below this may touch the sea's water table (0.02 km).
pub const COASTAL_GROUND: Measure = 0x3F94_7AE1_47AE_147B;

/// Places with more ocean around them lie on the coast (one half).
pub const COASTAL_OCEAN: Measure = 0x3FE0_0000_0000_0000;

/// Deeper carving than this marks a column (0.001 km).
pub const MARKED_CARVE: Measure = 0x3F50_624D_D2F1_A9FC;

/// A river stands clearly above a lake by more than this (0.002 km).
pub const CLEAR_RISE: Measure = 0x3F60_624D_D2F1_A9FC;

/// The vegetation band above a lake (0.0015 km).
pub const LAKE_BAND: Measure = 0x3F58_9374_BC6A_7EFA;

/// Trees stop below this temperature (-6).
pub const TREE_MIN_TEMP: Measure = -0x4018_0000_0000_0000;

/// Even shrubs stop below this temperature (-11).
pub const SHRUB_MIN_TEMP: Measure = -0x4026_0000_0000_0000;

/// The terrain at one probe, as far as a creek is concerned.
#[derive(Clone, Copy)]
pub struct CreekFields {
    pub ground: Measure,
    pub water: Measure,
    /// Distance to the nearest river.
    pub dist: Measure,
    /// That river's half width.
    pub half: Measure,
    /// The half width and a metre more.
    pub reach: Measure,
    pub frozen: bool,
    pub sea: bool,
    pub lake: bool,
}

impl CreekProbe {
    pub open spec fn of(f: CreekFields) -> Self {
        CreekProbe {
            wet: below(f.ground, f.water),
            frozen: f.frozen,
            narrow: below(0, f.half) && below(f.half, CREEK_HALF_WIDTH),
            inside: below(f.dist, f.half),
            near: below(f.dist, f.reach),
            sea: f.sea,
            lake: f.lake,
        }
    }

    /// What a probe of the terrain says about a creek.
    pub fn read(f: &CreekFields) -> (p: Self)
        ensures
            p == Self::of(*f),
    {
        CreekProbe {
            wet: is_below(f.ground, f.water),
            frozen: f.frozen,
            narrow: is_below(0, f.half) && is_below(f.half, CREEK_HALF_WIDTH),
            inside: is_below(f.dist, f.half),
            near: is_below(f.dist, f.reach),
            sea: f.sea,
            lake: f.lake,
        }
    }
}

/// The terrain sampled at one column.
#[derive(Clone, Copy)]
pub struct ColumnFields {
    pub ground: Measure,
    pub ground_block: i64,
    pub water: Measure,
    pub water_block: i64,
    /// A creek film covers the block.
    pub creek_film: bool,
    /// The noise that has caves or not.
    pub region: Measure,
    /// Bit `k` set: the block `k` below the ground lies inside a cave tube.
    pub cave_tubes: u32,
    pub river_level: Measure,
    pub river_block: i64,
    pub river_dist: Measure,
    /// How far the river's water table reaches.
    pub river_reach: Measure,
    pub lake_level: Measure,
    pub lake_block: i64,
    /// Up to which ground the lake's water table reaches.
    pub lake_reach: Measure,
    /// The ground above the lake level.
    pub above_lake: Measure,
    /// The river level above the lake level.
    pub river_above_lake: Measure,
    /// The baked elevation.
    pub elevation: Measure,
    pub ocean: Measure,
    pub climate: MainBlock,
    pub frozen: bool,
    pub carve: Measure,
    pub salt: bool,
    pub sea: bool,
    pub lake_shoal: bool,
    /// The share of shore columns that are sand, and this column's draw.
    pub shore_share: Measure,
    pub shore_draw: Measure,
    pub beach: bool,
    /// Species the climate grows here, if any, its density and the column's
    /// draw.
    pub tree: Option<TreeKind>,
    pub density: Measure,
    pub tree_draw: Measure,
    pub temp: Measure,
}

fn is_finite(m: Measure) -> (r: bool)
    ensures
        r == finite(m),
{
    NEG_INFINITE < m && m < INFINITE
}

fn block_fits(z: i64) -> (r: bool)
    ensures
        r == sample_block_ok(z as int),
{
    -SAMPLE_LIMIT < z && z < SAMPLE_LIMIT
}

/// The column lies in a region that has caves at all.
pub fn has_cave_region(region: Measure) -> (r: bool)
    ensures
        r == below(CAVE_REGION, region),
{
    is_below(CAVE_REGION, region)
}

impl ColumnSample {
    pub open spec fn of(f: ColumnFields) -> Self {
        ColumnSample {
            ground0: f.ground_block,
            water: if below(f.ground, f.water) {
                f.water_block
            } else {
                DRY
            },
            creek_film: f.creek_film,
            cave_region: below(CAVE_REGION, f.region),
            cave_tubes: f.cave_tubes,
            river_table: if finite(f.river_level) && below(f.river_dist, f.river_reach) {
                Some(f.river_block)
            } else {
                None
            },
            lake_table: if finite(f.lake_level) && below(f.ground, f.lake_reach) {
                Some(f.lake_block)
            } else {
                None
            },
            sea_table: !f.sea && below(f.elevation, COASTAL_GROUND) && below(COASTAL_OCEAN, f.ocean),
            climate: f.climate,
            frozen: f.frozen,
            carved: below(MARKED_CARVE, f.carve),
            salt: f.salt,
            sea: f.sea,
            lake_shoal: f.lake_shoal,
            lake_shore: below(f.shore_draw, f.shore_share),
            beach: f.beach,
            lake_known: finite(f.lake_level),
            river_known: finite(f.river_level),
            river_over_lake: below(CLEAR_RISE, f.river_above_lake),
            lake_band: finite(f.lake_level) && at_most(f.lake_level, f.ground) && at_most(
                f.above_lake,
                LAKE_BAND,
            ),
            tree: f.tree,
            above_treeline: below(f.temp, TREE_MIN_TEMP),
            too_cold: below(f.temp, SHRUB_MIN_TEMP),
            tree_ticket: f.tree is Some && !at_most(f.density, f.tree_draw),
        }
    }

    /// What a column's rules read of the terrain.
    pub fn read(f: &ColumnFields) -> (s: Self)
        ensures
            s == Self::of(*f),
    {
        let lake_known: bool = is_finite(f.lake_level);
        let river_known: bool = is_finite(f.river_level);
        ColumnSample {
            ground0: f.ground_block,
            water: if is_below(f.ground, f.water) {
                f.water_block
            } else {
                DRY
            },
            creek_film: f.creek_film,
            cave_region: has_cave_region(f.region),
            cave_tubes: f.cave_tubes,
            river_table: if river_known && is_below(f.river_dist, f.river_reach) {
                Some(f.river_block)
            } else {
                None
            },
            lake_table: if lake_known && is_below(f.ground, f.lake_reach) {
                Some(f.lake_block)
            } else {
                None
            },
            sea_table: !f.sea && is_below(f.elevation, COASTAL_GROUND) && is_below(
                COASTAL_OCEAN,
                f.ocean,
            ),
            climate: f.climate,
            frozen: f.frozen,
            carved: is_below(MARKED_CARVE, f.carve),
            salt: f.salt,
            sea: f.sea,
            lake_shoal: f.lake_shoal,
            lake_shore: is_below(f.shore_draw, f.shore_share),
            beach: f.beach,
            lake_known,
            river_known,
            river_over_lake: is_below(CLEAR_RISE, f.river_above_lake),
            lake_band: lake_known && is_at_most(f.lake_level, f.ground) && is_at_most(
                f.above_lake,
                LAKE_BAND,
            ),
            tree: f.tree,
            above_treeline: is_below(f.temp, TREE_MIN_TEMP),
            too_cold: is_below(f.temp, SHRUB_MIN_TEMP),
            tree_ticket: f.tree.is_some() && !is_at_most(f.density, f.tree_draw),
        }
    }

    /// Every block of the sample is in range.
    pub fn fits(&self) -> (r: bool)
        ensures
            r == self.wf(),
    {
        block_fits(self.ground0) && (self.water == DRY || block_fits(self.water)) && match self.river_table {
            None => true,
            Some(t) => block_fits(t),
        } && match self.lake_table {
            None => true,
            Some(t) => block_fits(t),
        }
    }
}

/// Too cold for shrubs is above the treeline.
pub proof fn the_cold_lies_above_the_treeline(f: ColumnFields)
    requires
        ColumnSample::of(f).too_cold,
    ensures
        ColumnSample::of(f).above_treeline,
{
}

/// A probe inside a creek is near it, where the reach is no less than the half
/// width.
pub proof fn insides_are_near(f: CreekFields)
    requires
        at_most(f.half, f.reach),
        CreekProbe::of(f).inside,
    ensures
        CreekProbe::of(f).near,
{
}

/// A probe is wet where water stands over its ground, narrow where the river
/// has some width but less than a metre and a half on either side, inside
/// within that width and near within the reach given. What is no number is
/// none of these.
pub proof fn probes_read_their_creek(f: CreekFields)
    ensures
        ({
            let p = CreekProbe::of(f);
            &&& p.wet <==> below(f.ground, f.water)
            &&& p.narrow <==> below(0, f.half) && below(f.half, 0x3F58_9374_BC6A_7EFA)
            &&& p.inside <==> below(f.dist, f.half)
            &&& p.near <==> below(f.dist, f.reach)
            &&& p.frozen == f.frozen && p.sea == f.sea && p.lake == f.lake
        }),
{
}

/// What a column reads of heights and water: its natural block; its water's
/// block where water stands over the ground; a river's table within its reach
/// and a lake's below its own, where their levels are known; and the sea's on
/// low ground beside more than half an ocean.
pub proof fn columns_read_their_water(f: ColumnFields)
    ensures
        ({
            let s = ColumnSample::of(f);
            &&& s.ground0 == f.ground_block
            &&& below(f.ground, f.water) ==> s.water == f.water_block
            &&& !below(f.ground, f.water) ==> s.water == i64::MIN
            &&& s.river_known <==> NEG_INFINITE < f.river_level < INFINITE
            &&& s.lake_known <==> NEG_INFINITE < f.lake_level < INFINITE
            &&& s.river_table is Some <==> s.river_known && below(f.river_dist, f.river_reach)
            &&& s.lake_table is Some <==> s.lake_known && below(f.ground, f.lake_reach)
            &&& s.river_table matches Some(t) ==> t == f.river_block
            &&& s.lake_table matches Some(t) ==> t == f.lake_block
            &&& s.sea_table <==> !f.sea && below(f.elevation, 0x3F94_7AE1_47AE_147B) && below(
                0x3FE0_0000_0000_0000,
                f.ocean,
            )
            &&& s.river_over_lake <==> below(0x3F60_624D_D2F1_A9FC, f.river_above_lake)
            &&& s.lake_band <==> s.lake_known && at_most(f.lake_level, f.ground) && at_most(
                f.above_lake,
                0x3F58_9374_BC6A_7EFA,
            )
        }),
{
}

/// What a column reads of its surface, caves and trees: each flag its own, caves
/// in regions above a twentieth below zero, marks of carving deeper than a
/// metre, shore sand where the draw is below the share, no trees below six
/// degrees of frost nor shrubs below eleven, and a tree where the draw does not
/// reach the density.
pub proof fn columns_read_their_surface(f: ColumnFields)
    ensures
        ({
            let s = ColumnSample::of(f);
            &&& s.creek_film == f.creek_film && s.cave_tubes == f.cave_tubes && s.climate == f.climate
            &&& s.frozen == f.frozen && s.salt == f.salt && s.sea == f.sea
            &&& s.lake_shoal == f.lake_shoal && s.beach == f.beach && s.tree == f.tree
            &&& s.cave_region <==> below((-0x3FA9_9999_9999_999A) as i64, f.region)
            &&& s.carved <==> below(0x3F50_624D_D2F1_A9FC, f.carve)
            &&& s.lake_shore <==> below(f.shore_draw, f.shore_share)
            &&& s.above_treeline <==> below(f.temp, (-0x4018_0000_0000_0000) as i64)
            &&& s.too_cold <==> below(f.temp, (-0x4026_0000_0000_0000) as i64)
            &&& s.tree_ticket <==> f.tree is Some && !at_most(f.density, f.tree_draw)
        }),
{
}

} // verus!
