//! One voxel column: its solid blocks, caves, water and ice.
//!
//! Heights are block numbers; a block `z` spans the metre below its top. The
//! sampled fields that lead to a column arrive as plain values in
//! [`ColumnSample`].

use vstd::prelude::*;
use crate::body::{MainBlock, MoonMaterial};
use crate::edits::{ColumnKey, Edits, spec_delta};
use crate::tree::TreeKind;

verus! {

/// How far below the natural surface cave carving is evaluated (blocks).
pub const CAVE_DEPTH: i64 = 26;

/// Marks a column without open water, or without a cave water table.
pub const DRY: i64 = i64::MIN;

/// Block numbers stay within this magnitude, far beyond any terrain, so that
/// sums and differences of two of them fit a block number again.
pub const BLOCK_LIMIT: i64 = 0x1000_0000_0000_0000;

pub open spec fn block_ok(z: int) -> bool {
    -BLOCK_LIMIT <= z <= BLOCK_LIMIT
}

/// Everything generation knows about one column, independent of neighbours.
#[derive(Clone, Copy)]
pub struct ColCtx {
    /// Top solid block, including player edits.
    pub ground: i64,
    /// Natural terrain top, before player edits. Caves and strata anchor here.
    pub ground0: i64,
    /// Open water surface block, or `DRY`.
    pub water: i64,
    /// Water whose surface is presented at a nearby lower lake plane.
    pub rim_flush_water: bool,
    /// Bit `k` set: the block at `ground0 - k` is carved out.
    pub cave_bits: u32,
    /// Water table of flooded caves, or `DRY`.
    pub cave_water: i64,
    /// Climate surface block; absent on bodies without climate.
    pub climate: Option<MainBlock>,
    /// Lunar surface family; absent on Neisor.
    pub lunar: Option<MoonMaterial>,
    pub frozen: bool,
    /// River or pond carving touched this column.
    pub carved: bool,
    /// Water here belongs to a salt lake.
    pub salt: bool,
    /// True ocean, not merely ground below sea level.
    pub sea: bool,
    /// Dry ground raised flush with a lake plane.
    pub lake_shoal: bool,
    /// The lake-shore dither picked sand for this column.
    pub lake_shore: bool,
    /// The coastal dither picked beach sand for this column.
    pub beach: bool,
    /// Vegetation keeps off the ground just above a lake.
    pub lake_level_band: bool,
    /// Species the climate grows here, if any.
    pub tree: Option<TreeKind>,
    /// Colder than the treeline.
    pub above_treeline: bool,
    /// Too cold even for shrubs.
    pub too_cold: bool,
    /// The column won the placement lottery against its density.
    pub tree_ticket: bool,
}

impl ColCtx {
    /// Every block number of the column is in range, and a cave water table
    /// never stands above the natural ground.
    pub open spec fn wf(self) -> bool {
        &&& block_ok(self.ground as int)
        &&& block_ok(self.ground0 as int)
        &&& self.water == DRY || block_ok(self.water as int)
        &&& self.cave_water == DRY || (block_ok(self.cave_water as int) && self.cave_water
            <= self.ground0)
    }

    /// Block `z` lies in the cave band and is carved out.
    pub open spec fn carved_at(self, z: int) -> bool {
        let k = self.ground0 - z;
        0 <= k < CAVE_DEPTH && (self.cave_bits >> (k as u32)) & 1u32 != 0
    }

    /// Block `z` is solid: at or below the ground, and not a carved block.
    pub open spec fn solid_at(self, z: int) -> bool {
        z <= self.ground && !self.carved_at(z)
    }

    /// The first solid block at or below `z`, seen from `z` downwards.
    pub open spec fn top_from(self, z: int) -> int
        decreases z - (self.ground0 - CAVE_DEPTH),
    {
        if z <= self.ground0 - CAVE_DEPTH || self.solid_at(z) {
            z
        } else {
            self.top_from(z - 1)
        }
    }

    /// The highest solid block.
    pub open spec fn top(self) -> int {
        self.top_from(self.ground as int)
    }

    /// The column holds open water above its solid blocks.
    pub open spec fn wet(self) -> bool {
        self.water != DRY && self.water > self.top()
    }

    /// Block `z` is a carved or dug void filled by the cave water table.
    pub open spec fn flooded_at(self, z: int) -> bool {
        self.cave_water != DRY && z <= self.cave_water && !self.solid_at(z)
    }

    /// The surface block of a frozen water sheet.
    pub open spec fn ice(self) -> Option<i64> {
        if self.wet() && self.frozen {
            Some(self.water)
        } else {
            None
        }
    }

    /// The surface block of a frozen cave pool.
    pub open spec fn cave_ice(self) -> Option<i64> {
        if self.frozen && self.cave_water != DRY {
            Some(self.cave_water)
        } else {
            None
        }
    }

    /// Is block `z` solid? (Below the cave band everything is solid.)
    pub fn filled(&self, z: i64) -> (r: bool)
        requires
            self.wf(),
        ensures
            r == self.solid_at(z as int),
    {
        if z > self.ground {
            return false;
        }
        if z > self.ground0 {
            return true;
        }
        if z > self.ground0 - CAVE_DEPTH {
            let k: u32 = (self.ground0 - z) as u32;
            (self.cave_bits >> k) & 1 == 0
        } else {
            true
        }
    }

    /// Highest solid block; cave breaches lower it.
    pub fn top_solid(&self) -> (r: i64)
        requires
            self.wf(),
        ensures
            r == self.top(),
            -BLOCK_LIMIT - CAVE_DEPTH <= r <= self.ground,
    {
        let z_min: i64 = self.ground0 - CAVE_DEPTH;
        let mut z: i64 = self.ground;
        while z > z_min && !self.filled(z)
            invariant
                self.wf(),
                z_min == self.ground0 - CAVE_DEPTH,
                z <= self.ground,
                z == self.ground || z >= z_min,
                self.top() == self.top_from(z as int),
            decreases z - z_min,
        {
            z -= 1;
        }
        z
    }

    pub fn has_water(&self) -> (r: bool)
        requires
            self.wf(),
        ensures
            r == self.wet(),
    {
        self.water != DRY && self.water > self.top_solid()
    }

    /// Is block `z` a flooded-cave water cell?
    pub fn cave_flooded(&self, z: i64) -> (r: bool)
        requires
            self.wf(),
        ensures
            r == self.flooded_at(z as int),
    {
        self.cave_water != DRY && z <= self.cave_water && !self.filled(z)
    }

    /// The walkable ice sheet of a frozen open-water column.
    pub fn frozen_ice(&self) -> (r: Option<i64>)
        requires
            self.wf(),
        ensures
            r == self.ice(),
    {
        if self.has_water() && self.frozen {
            Some(self.water)
        } else {
            None
        }
    }

    pub fn frozen_cave_ice(&self) -> (r: Option<i64>)
        ensures
            r == self.cave_ice(),
    {
        if self.frozen && self.cave_water != DRY {
            Some(self.cave_water)
        } else {
            None
        }
    }

    /// The highest block a player can stand on: solid ground, or the ice
    /// sheet above it.
    pub fn walkable_top(&self) -> (r: i64)
        requires
            self.wf(),
        ensures
            r == self.walkable(),
    {
        match self.frozen_ice() {
            Some(w) => w,
            None => self.top_solid(),
        }
    }

    pub open spec fn walkable(self) -> int {
        match self.ice() {
            Some(w) => w as int,
            None => self.top(),
        }
    }
}

/// The highest solid block is solid, and no block above it is.
pub proof fn top_is_highest_solid(c: ColCtx)
    ensures
        c.solid_at(c.top()),
        forall|z: int| z > c.top() ==> !c.solid_at(z),
{
    lemma_top_from(c, c.ground as int);
}

proof fn lemma_top_from(c: ColCtx, z: int)
    requires
        z <= c.ground,
    ensures
        c.top_from(z) <= z,
        c.solid_at(c.top_from(z)),
        forall|y: int| c.top_from(z) < y <= z ==> !c.solid_at(y),
    decreases z - (c.ground0 - CAVE_DEPTH),
{
    if z <= c.ground0 - CAVE_DEPTH || c.solid_at(z) {
    } else {
        lemma_top_from(c, z - 1);
    }
}

/// The lower of `water` and the tops of the dry columns among `nbs`.
pub open spec fn shore_level(water: int, nbs: Seq<ColCtx>) -> int
    decreases nbs.len(),
{
    if nbs.len() == 0 {
        water
    } else {
        let rest = shore_level(water, nbs.drop_last());
        let nb = nbs.last();
        if !nb.wet() && nb.top() < rest {
            nb.top()
        } else {
            rest
        }
    }
}

/// The block whose top a column's open water is drawn at, among its eight
/// neighbours `nbs`.
pub open spec fn render_top(c: ColCtx, nbs: Seq<ColCtx>) -> int {
    if c.frozen {
        c.water as int
    } else {
        let w = shore_level(c.water as int, nbs);
        if w > c.top() {
            w
        } else {
            c.top() + 1
        }
    }
}

/// The block whose top the water surface is drawn at: liquid water meets dry
/// shore neighbours flush but never sinks to its own bed, and frozen sheets
/// never move.
pub fn water_render_top(cc: &ColCtx, nbs8: &[ColCtx; 8]) -> (r: i64)
    requires
        cc.wf(),
        forall|k: int| 0 <= k < 8 ==> (#[trigger] nbs8@[k]).wf(),
    ensures
        r == render_top(*cc, nbs8@),
        cc.water != DRY ==> -BLOCK_LIMIT - CAVE_DEPTH <= r <= BLOCK_LIMIT + 1,
{
    let mut we: i64 = cc.water;
    if cc.frozen {
        return we;
    }
    let mut k: usize = 0;
    while k < 8
        invariant
            k <= 8,
            cc.wf(),
            forall|k: int| 0 <= k < 8 ==> (#[trigger] nbs8@[k]).wf(),
            we == shore_level(cc.water as int, nbs8@.take(k as int)),
            we <= cc.water,
        decreases 8 - k,
    {
        assert(nbs8@.take(k as int + 1).drop_last() =~= nbs8@.take(k as int));
        let nb: &ColCtx = &nbs8[k];
        if !nb.has_water() && nb.top_solid() < we {
            we = nb.top_solid();
        }
        k += 1;
    }
    assert(nbs8@.take(8) =~= nbs8@);
    let bed: i64 = cc.top_solid();
    if we > bed {
        we
    } else {
        bed + 1
    }
}

proof fn lemma_shore_level(water: int, nbs: Seq<ColCtx>)
    ensures
        shore_level(water, nbs) <= water,
        forall|k: int|
            0 <= k < nbs.len() && !(#[trigger] nbs[k]).wet() ==> shore_level(water, nbs)
                <= nbs[k].top(),
        shore_level(water, nbs) == water || exists|k: int|
            0 <= k < nbs.len() && !(#[trigger] nbs[k]).wet() && shore_level(water, nbs)
                == nbs[k].top(),
    decreases nbs.len(),
{
    if nbs.len() > 0 {
        let s = nbs.drop_last();
        lemma_shore_level(water, s);
        assert forall|k: int| 0 <= k < nbs.len() && !(#[trigger] nbs[k]).wet() implies shore_level(
            water,
            nbs,
        ) <= nbs[k].top() by {
            if k < s.len() {
                assert(s[k] == nbs[k]);
            }
        }
        let nb = nbs.last();
        if !nb.wet() && nb.top() < shore_level(water, s) {
            assert(nbs[nbs.len() - 1] == nb);
        } else if shore_level(water, s) != water {
            let k = choose|k: int|
                0 <= k < s.len() && !(#[trigger] s[k]).wet() && shore_level(water, s) == s[k].top();
            assert(nbs[k] == s[k]);
        }
    }
}

/// Drawn liquid water of a wet column stands above its bed, never above its
/// own level, and never above a dry neighbour's top unless the bed itself
/// reaches that high.
pub proof fn drawn_water_meets_the_shore(c: ColCtx, nbs: Seq<ColCtx>)
    requires
        c.wet(),
    ensures
        c.top() < render_top(c, nbs) <= c.water,
        !c.frozen ==> forall|k: int|
            0 <= k < nbs.len() && !(#[trigger] nbs[k]).wet() ==> render_top(c, nbs)
                <= nbs[k].top() || render_top(c, nbs) == c.top() + 1,
{
    lemma_shore_level(c.water as int, nbs);
}

/// What blocks a body at block `z`: solid ground, a tree trunk of the given
/// height, or an ice sheet.
pub open spec fn blocks_at(c: ColCtx, trunk: Option<i64>, z: int) -> bool {
    ||| c.solid_at(z)
    ||| (trunk matches Some(t) && c.ground < z <= c.ground + t)
    ||| sheet(c) matches Some(w) && z == w
}

/// The ice sheet of a column: open water's first, else its cave pool's.
pub open spec fn sheet(c: ColCtx) -> Option<i64> {
    if c.ice() is Some {
        c.ice()
    } else {
        c.cave_ice()
    }
}

fn ice_sheet(c: &ColCtx) -> (r: Option<i64>)
    requires
        c.wf(),
    ensures
        r == sheet(*c),
        r matches Some(w) ==> block_ok(w as int),
{
    match c.frozen_ice() {
        Some(w) => Some(w),
        None => c.frozen_cave_ice(),
    }
}

fn blocked(c: &ColCtx, trunk: Option<i64>, ice: Option<i64>, z: i64) -> (r: bool)
    requires
        c.wf(),
        trunk matches Some(t) ==> 0 <= t <= BLOCK_LIMIT,
        ice == sheet(*c),
    ensures
        r == blocks_at(*c, trunk, z as int),
{
    if c.filled(z) {
        return true;
    }
    if let Some(t) = trunk {
        if z > c.ground && z <= c.ground + t {
            return true;
        }
    }
    if let Some(w) = ice {
        if z == w {
            return true;
        }
    }
    false
}

/// The highest block that can block anything.
fn reach_top(c: &ColCtx, trunk: Option<i64>, ice: Option<i64>) -> (r: i64)
    requires
        c.wf(),
        trunk matches Some(t) ==> 0 <= t <= BLOCK_LIMIT,
        ice == sheet(*c),
        ice matches Some(w) ==> block_ok(w as int),
    ensures
        c.ground <= r <= 2 * BLOCK_LIMIT,
        forall|z: int| z > r ==> !blocks_at(*c, trunk, z),
{
    let mut r: i64 = c.ground;
    if let Some(t) = trunk {
        r = c.ground + t;
    }
    if let Some(w) = ice {
        if w > r {
            r = w;
        }
    }
    r
}

/// The highest blocking block at or below `from`, searched down to just under
/// the cave band; where none blocks, that lower end. The physics query for
/// gravity, landing and stepping up. `trunk` is the height of a solid trunk
/// standing on the column.
pub fn support_below(c: &ColCtx, trunk: Option<i64>, from: i64) -> (r: i64)
    requires
        c.wf(),
        trunk matches Some(t) ==> 0 <= t <= BLOCK_LIMIT,
    ensures
        r >= c.ground - CAVE_DEPTH - 1,
        forall|z: int| r < z <= from ==> !blocks_at(*c, trunk, z),
        r == c.ground - CAVE_DEPTH - 1 || (r <= from && blocks_at(*c, trunk, r as int)),
{
    let ice: Option<i64> = ice_sheet(c);
    let cap: i64 = reach_top(c, trunk, ice);
    let z_min: i64 = c.ground - CAVE_DEPTH - 1;
    let mut z: i64 = if from < cap {
        from
    } else {
        cap
    };
    while z >= z_min
        invariant
            c.wf(),
            trunk matches Some(t) ==> 0 <= t <= BLOCK_LIMIT,
            ice == sheet(*c),
            z_min == c.ground - CAVE_DEPTH - 1,
            z <= from,
            forall|y: int| z < y <= from ==> !blocks_at(*c, trunk, y),
        decreases z - z_min + 1,
    {
        if blocked(c, trunk, ice, z) {
            return z;
        }
        z -= 1;
    }
    z_min
}

/// The top of the free space above `from`: one below the lowest blocking
/// block at or above `from`, searched from the bottom of the cave band; `None`
/// under open sky.
pub fn ceiling_above(c: &ColCtx, trunk: Option<i64>, from: i64) -> (r: Option<i64>)
    requires
        c.wf(),
        trunk matches Some(t) ==> 0 <= t <= BLOCK_LIMIT,
    ensures
        match r {
            Some(b) => {
                &&& b + 1 >= from && b + 1 >= c.ground - CAVE_DEPTH
                &&& blocks_at(*c, trunk, b + 1)
                &&& forall|z: int|
                    from <= z < b + 1 && z >= c.ground - CAVE_DEPTH ==> !blocks_at(*c, trunk, z)
            },
            None => forall|z: int|
                from <= z && z >= c.ground - CAVE_DEPTH ==> !blocks_at(*c, trunk, z),
        },
{
    let ice: Option<i64> = ice_sheet(c);
    let z_top: i64 = reach_top(c, trunk, ice);
    let low: i64 = c.ground - CAVE_DEPTH;
    let mut z: i64 = if from > low {
        from
    } else {
        low
    };
    let ghost first = z;
    while z <= z_top
        invariant
            c.wf(),
            trunk matches Some(t) ==> 0 <= t <= BLOCK_LIMIT,
            ice == sheet(*c),
            z_top <= 2 * BLOCK_LIMIT,
            -BLOCK_LIMIT - CAVE_DEPTH <= first <= z,
            first >= from && first >= c.ground - CAVE_DEPTH,
            first == from || first == c.ground - CAVE_DEPTH,
            forall|y: int| first <= y < z ==> !blocks_at(*c, trunk, y),
        decreases z_top - z + 1,
    {
        if blocked(c, trunk, ice, z) {
            return Some((z - 1) as i64);
        }
        z += 1;
    }
    None
}

/// Where a column's liquid surface is.
#[derive(Clone, Copy, PartialEq, Eq, Structural, Debug)]
pub enum WaterSurface {
    /// No liquid.
    Dry,
    /// Open water whose surface is the block's top.
    Open(i64),
    /// Open water presented at the lake plane it hands off to.
    Analog,
    /// A flooded cave with its table at the block's top; it surrounds
    /// what is at or below that table.
    Pool(i64),
}

/// The liquid surface of a column. Frozen water is ice, not liquid.
pub open spec fn liquid_surface(c: ColCtx) -> WaterSurface {
    if c.wet() && !c.frozen {
        if c.rim_flush_water {
            WaterSurface::Analog
        } else {
            WaterSurface::Open(c.water)
        }
    } else if c.cave_water != DRY && !c.frozen {
        WaterSurface::Pool(c.cave_water)
    } else {
        WaterSurface::Dry
    }
}

/// The liquid surface of a column. Frozen water is ice, not liquid.
pub fn water_surface(c: &ColCtx) -> (r: WaterSurface)
    requires
        c.wf(),
    ensures
        r == liquid_surface(*c),
{
    if c.has_water() && c.frozen_ice().is_none() {
        if c.rim_flush_water {
            return WaterSurface::Analog;
        }
        return WaterSurface::Open(c.water);
    }
    if c.cave_water != DRY && c.frozen_cave_ice().is_none() {
        return WaterSurface::Pool(c.cave_water);
    }
    WaterSurface::Dry
}

/// What one probe of the terrain says about a creek. Distances are compared
/// where the terrain is sampled.
#[derive(Clone, Copy)]
pub struct CreekProbe {
    /// Water stands above the terrain here.
    pub wet: bool,
    pub frozen: bool,
    /// The nearest river is a creek: wider than nothing, narrower than a
    /// block and a half on either side.
    pub narrow: bool,
    /// The probe lies inside the creek's half width.
    pub inside: bool,
    /// The probe lies within a metre of the creek's half width.
    pub near: bool,
    pub sea: bool,
    pub lake: bool,
}

impl CreekProbe {
    /// The probe itself shows a film of creek water.
    pub open spec fn film(self) -> bool {
        self.wet && !self.frozen && self.narrow && self.inside && !self.sea && !self.lake
    }

    /// A creek may cross the block beside the probe.
    pub open spec fn may_cross(self) -> bool {
        !self.frozen && self.narrow && self.near
    }

    pub fn shows_film(&self) -> (r: bool)
        ensures
            r == self.film(),
    {
        self.wet && !self.frozen && self.narrow && self.inside && !self.sea && !self.lake
    }

    pub fn needs_subcells(&self) -> (r: bool)
        ensures
            r == (!self.film() && self.may_cross()),
    {
        !self.shows_film() && !self.frozen && self.narrow && self.near
    }
}

/// A block carries a creek film when its centre shows one, or when a creek may
/// cross it and one of its sub-cell probes shows one.
pub open spec fn film_somewhere(center: CreekProbe, subcells: Seq<CreekProbe>) -> bool {
    center.film() || (center.may_cross() && exists|k: int|
        0 <= k < subcells.len() && (#[trigger] subcells[k]).film())
}

pub fn creek_film(center: &CreekProbe, subcells: &Vec<CreekProbe>) -> (r: bool)
    ensures
        r == film_somewhere(*center, subcells@),
{
    if center.shows_film() {
        return true;
    }
    if !center.needs_subcells() {
        return false;
    }
    let mut k: usize = 0;
    while k < subcells.len()
        invariant
            k <= subcells@.len(),
            center.may_cross(),
            !center.film(),
            forall|j: int| 0 <= j < k ==> !(#[trigger] subcells@[j]).film(),
        decreases subcells@.len() - k,
    {
        if subcells[k].shows_film() {
            return true;
        }
        k += 1;
    }
    false
}

/// The sampled terrain of one column, quantized to blocks. Continuous fields
/// enter as the outcome of the comparison that uses them.
#[derive(Clone, Copy)]
pub struct ColumnSample {
    /// Block of the natural terrain top.
    pub ground0: i64,
    /// Block of the water surface where water stands above the terrain, else
    /// `DRY`.
    pub water: i64,
    /// A creek film covers the block.
    pub creek_film: bool,
    /// The column lies in a region that has caves at all.
    pub cave_region: bool,
    /// Bit `k` set: the block at `ground0 - k` lies inside a cave tube.
    pub cave_tubes: u32,
    /// Block of the river level, within the river's bank influence.
    pub river_table: Option<i64>,
    /// Block of the lake's spill level, within its shore band.
    pub lake_table: Option<i64>,
    /// On the coast, beside the ocean.
    pub sea_table: bool,
    pub climate: MainBlock,
    pub frozen: bool,
    pub carved: bool,
    pub salt: bool,
    pub sea: bool,
    pub lake_shoal: bool,
    pub lake_shore: bool,
    pub beach: bool,
    /// A lake level is known here.
    pub lake_known: bool,
    /// A river level is known here.
    pub river_known: bool,
    /// The river level stands clearly above the lake level.
    pub river_over_lake: bool,
    /// The terrain lies within the vegetation band just above the lake level.
    pub lake_band: bool,
    pub tree: Option<TreeKind>,
    pub above_treeline: bool,
    pub too_cold: bool,
    pub tree_ticket: bool,
}

/// Half the block range, so that an edit on top of a sampled level stays in
/// range.
pub const SAMPLE_LIMIT: i64 = 0x0800_0000_0000_0000;

pub open spec fn sample_block_ok(z: int) -> bool {
    -SAMPLE_LIMIT < z < SAMPLE_LIMIT
}

impl ColumnSample {
    pub open spec fn wf(self) -> bool {
        &&& sample_block_ok(self.ground0 as int)
        &&& self.water == DRY || sample_block_ok(self.water as int)
        &&& self.river_table matches Some(t) ==> sample_block_ok(t as int)
        &&& self.lake_table matches Some(t) ==> sample_block_ok(t as int)
    }

    /// The top solid block after an edit. A block placed on water targets the
    /// visible surface, not the bed.
    pub open spec fn edited_ground(self, edit: int) -> int {
        if edit > 0 && self.water > self.ground0 {
            self.water + edit
        } else {
            self.ground0 + edit
        }
    }

    /// The water surface after the creek rule: a film on untouched dry ground
    /// stands one block above it.
    pub open spec fn settled_water(self, edit: int) -> int {
        let ground = self.edited_ground(edit);
        if self.creek_film && self.water <= ground && ground == self.ground0 {
            ground + 1
        } else {
            self.water as int
        }
    }

    /// Caves are carved in dry land only, and keep off the shore.
    pub open spec fn has_caves(self, edit: int) -> bool {
        self.settled_water(edit) == DRY && self.ground0 > 4 && self.cave_region
    }

    /// The cave tubes that carve: the band below the surface, whose cap stays
    /// solid on a shoal.
    pub open spec fn carving(self, edit: int) -> u32 {
        if !self.has_caves(edit) {
            0u32
        } else if self.lake_shoal {
            self.cave_tubes & 0x03FF_FFFEu32
        } else {
            self.cave_tubes & 0x03FF_FFFFu32
        }
    }

    /// The highest water table that reaches the column.
    pub open spec fn table(self) -> Option<int> {
        let river: Option<int> = match self.river_table {
            Some(t) => Some(t as int),
            None => None,
        };
        let lake: Option<int> = match self.lake_table {
            Some(t) => Some(t as int),
            None => None,
        };
        let sea: Option<int> = if self.sea_table {
            Some(0int)
        } else {
            None
        };
        higher(higher(river, lake), sea)
    }

    /// The cave water table: the highest table that is not above the surface
    /// and that some carved block lies at or below.
    pub open spec fn flood(self, edit: int) -> i64 {
        match self.table() {
            Some(t) => if t <= self.ground0 && reaches(self.carving(edit), self.ground0 as int, t) {
                t as i64
            } else {
                DRY
            },
            None => DRY,
        }
    }

    /// The column that a sample and an edit make.
    pub open spec fn column(self, edit: int) -> ColCtx {
        ColCtx {
            ground: self.edited_ground(edit) as i64,
            ground0: self.ground0,
            water: self.settled_water(edit) as i64,
            rim_flush_water: !self.frozen && self.water != DRY && self.lake_known
                && self.river_known && self.river_over_lake,
            cave_bits: self.carving(edit),
            cave_water: self.flood(edit),
            climate: Some(self.climate),
            lunar: None,
            frozen: self.frozen,
            carved: self.carved,
            salt: self.salt,
            sea: self.sea,
            lake_shoal: self.lake_shoal,
            lake_shore: self.lake_shore,
            beach: self.beach,
            lake_level_band: self.lake_known && self.lake_band,
            tree: self.tree,
            above_treeline: self.above_treeline,
            too_cold: self.too_cold,
            tree_ticket: self.tree_ticket,
        }
    }
}

pub open spec fn higher(a: Option<int>, b: Option<int>) -> Option<int> {
    match (a, b) {
        (Some(x), Some(y)) => Some(
            if x >= y {
                x
            } else {
                y
            },
        ),
        (Some(x), None) => Some(x),
        (None, other) => other,
    }
}

/// Some carved block of the band lies at or below the table.
pub open spec fn reaches(bits: u32, ground0: int, table: int) -> bool {
    exists|k: u32| #![trigger bits >> k] k < CAVE_DEPTH && (bits >> k) & 1u32 != 0 && ground0 - k
        <= table
}

fn higher_table(a: Option<i64>, b: Option<i64>) -> (r: Option<i64>)
    ensures
        opt_int(r) == higher(opt_int(a), opt_int(b)),
        r == a || r == b,
{
    match (a, b) {
        (Some(x), Some(y)) => if x >= y {
            Some(x)
        } else {
            Some(y)
        },
        (Some(x), None) => Some(x),
        (None, other) => other,
    }
}

spec fn opt_int(a: Option<i64>) -> Option<int> {
    match a {
        Some(x) => Some(x as int),
        None => None,
    }
}

fn table_reaches(bits: u32, ground0: i64, table: i64) -> (r: bool)
    requires
        sample_block_ok(ground0 as int),
    ensures
        r == reaches(bits, ground0 as int, table as int),
{
    let mut k: u32 = 0;
    while k < 26
        invariant
            k <= 26,
            sample_block_ok(ground0 as int),
            forall|j: u32| #![trigger bits >> j] j < k ==> !((bits >> j) & 1u32 != 0 && ground0 - j
                <= table),
        decreases 26 - k,
    {
        if (bits >> k) & 1 != 0 && ground0 - k as i64 <= table {
            return true;
        }
        k += 1;
    }
    false
}

/// Generate one Neisor column from its sample and the player's edits: solid
/// top, water, caves, flooded caves.
pub fn col_ctx_at_season(edits: &Edits, key: ColumnKey, s: &ColumnSample) -> (c: ColCtx)
    requires
        s.wf(),
        sample_block_ok(spec_delta(edits@, key) as int),
    ensures
        c == s.column(spec_delta(edits@, key) as int),
        c.wf(),
{
    let edit: i64 = edits.delta(key);
    let mut water: i64 = s.water;
    let ground: i64 = if edit > 0 && water > s.ground0 {
        water + edit
    } else {
        s.ground0 + edit
    };
    if s.creek_film && water <= ground && ground == s.ground0 {
        water = ground + 1;
    }
    let mut cave_bits: u32 = 0;
    if water == DRY && s.ground0 > 4 && s.cave_region {
        cave_bits = if s.lake_shoal {
            s.cave_tubes & 0x03FF_FFFE
        } else {
            s.cave_tubes & 0x03FF_FFFF
        };
    }
    let mut cave_water: i64 = DRY;
    if cave_bits != 0 {
        let sea: Option<i64> = if s.sea_table {
            Some(0i64)
        } else {
            None
        };
        let table: Option<i64> = higher_table(higher_table(s.river_table, s.lake_table), sea);
        if let Some(wt) = table {
            if wt <= s.ground0 && table_reaches(cave_bits, s.ground0, wt) {
                cave_water = wt;
            }
        }
    } else {
        assert(forall|k: u32| #![trigger 0u32 >> k] k < CAVE_DEPTH ==> (0u32 >> k) & 1u32 == 0)
            by {
            assert(forall|k: u32| k < 26 ==> (0u32 >> k) & 1u32 == 0) by (bit_vector);
        }
        assert(forall|t: int| !reaches(0u32, s.ground0 as int, t));
    }
    ColCtx {
        ground,
        ground0: s.ground0,
        water,
        rim_flush_water: !s.frozen && s.water != DRY && s.lake_known && s.river_known
            && s.river_over_lake,
        cave_bits,
        cave_water,
        climate: Some(s.climate),
        lunar: None,
        frozen: s.frozen,
        carved: s.carved,
        salt: s.salt,
        sea: s.sea,
        lake_shoal: s.lake_shoal,
        lake_shore: s.lake_shore,
        beach: s.beach,
        lake_level_band: s.lake_known && s.lake_band,
        tree: s.tree,
        above_treeline: s.above_treeline,
        too_cold: s.too_cold,
        tree_ticket: s.tree_ticket,
    }
}

/// A lunar column: dry, without caves, climate or trees.
pub open spec fn lunar_column(ground0: int, material: MoonMaterial, edit: int) -> ColCtx {
    ColCtx {
        ground: (ground0 + edit) as i64,
        ground0: ground0 as i64,
        water: DRY,
        rim_flush_water: false,
        cave_bits: 0,
        cave_water: DRY,
        climate: None,
        lunar: Some(material),
        frozen: false,
        carved: false,
        salt: false,
        sea: false,
        lake_shoal: false,
        lake_shore: false,
        beach: false,
        lake_level_band: false,
        tree: None,
        above_treeline: false,
        too_cold: false,
        tree_ticket: false,
    }
}

/// Generate one lunar column from its sampled height block and material.
pub fn lunar_col_ctx_from_sample(
    edits: &Edits,
    key: ColumnKey,
    ground0: i64,
    material: MoonMaterial,
) -> (c: ColCtx)
    requires
        sample_block_ok(ground0 as int),
        sample_block_ok(spec_delta(edits@, key) as int),
    ensures
        c == lunar_column(ground0 as int, material, spec_delta(edits@, key) as int),
        c.wf(),
{
    ColCtx {
        ground: ground0 + edits.delta(key),
        ground0,
        water: DRY,
        rim_flush_water: false,
        cave_bits: 0,
        cave_water: DRY,
        climate: None,
        lunar: Some(material),
        frozen: false,
        carved: false,
        salt: false,
        sea: false,
        lake_shoal: false,
        lake_shore: false,
        beach: false,
        lake_level_band: false,
        tree: None,
        above_treeline: false,
        too_cold: false,
        tree_ticket: false,
    }
}

/// A block placed on open water wins over the water class in every season:
/// the column then has no open water and no ice, and its top is the placed
/// block above the old surface.
pub proof fn placed_block_overrides_water(s: ColumnSample, edit: int)
    requires
        s.wf(),
        s.water > s.ground0,
        0 < edit,
        sample_block_ok(edit),
    ensures
        s.column(edit).ground == s.water + edit,
        s.column(edit).top() == s.water + edit,
        !s.column(edit).wet(),
        s.column(edit).ice() is None,
{
    let c = s.column(edit);
    assert(c.solid_at(c.ground as int));
}

/// Caves and flooded caves exist only in columns without open water.
pub proof fn caves_keep_off_open_water(s: ColumnSample, edit: int)
    requires
        s.wf(),
        sample_block_ok(edit),
        s.column(edit).water != DRY,
    ensures
        s.column(edit).cave_bits == 0,
        s.column(edit).cave_water == DRY,
{
    let c = s.column(edit);
    assert(forall|k: u32| #![trigger 0u32 >> k] k < CAVE_DEPTH ==> (0u32 >> k) & 1u32 == 0) by {
        assert(forall|k: u32| k < 26 ==> (0u32 >> k) & 1u32 == 0) by (bit_vector);
    }
}

/// A flooded cave has its table at or below the natural surface, and some
/// carved block of the column lies at or below the table.
pub proof fn cave_table_lies_underground(s: ColumnSample, edit: int)
    requires
        s.wf(),
        sample_block_ok(edit),
        s.column(edit).cave_water != DRY,
    ensures
        s.column(edit).cave_water <= s.ground0,
        exists|z: int|
            z <= s.column(edit).cave_water && #[trigger] s.column(edit).carved_at(z),
{
    let c = s.column(edit);
    let t = s.table()->0;
    let k = choose|k: u32|
        #![trigger c.cave_bits >> k]
        k < CAVE_DEPTH && (c.cave_bits >> k) & 1u32 != 0 && s.ground0 - k <= t;
    let z = s.ground0 - k;
    assert((s.ground0 - z) as u32 == k);
    assert(c.carved_at(z));
}

/// The cap of a shoal stays solid whatever cave tubes pass under it.
pub proof fn shoal_cap_is_solid(s: ColumnSample, edit: int)
    requires
        s.wf(),
        s.lake_shoal,
        sample_block_ok(edit),
    ensures
        !s.column(edit).carved_at(s.ground0 as int),
{
    let bits = s.cave_tubes;
    assert(((bits & 0x03FF_FFFEu32) >> 0u32) & 1u32 == 0) by (bit_vector);
    assert((0u32 >> 0u32) & 1u32 == 0) by (bit_vector);
}

/// Without an edit the ground is the natural ground.
pub proof fn untouched_column_keeps_natural_ground(s: ColumnSample)
    requires
        s.wf(),
    ensures
        s.column(0).ground == s.ground0,
{
}

/// A block is solid where it lies at or below the ground, unless a cave took
/// it: nothing above the ground is solid, no block more than 25 below the
/// natural surface is ever carved, and in between a block is missing exactly
/// where its cave bit is set.
pub proof fn caves_are_the_only_gaps(c: ColCtx, z: int)
    ensures
        z > c.ground ==> !c.solid_at(z),
        z <= c.ground && (z > c.ground0 || z <= c.ground0 - 26) ==> c.solid_at(z),
        z <= c.ground && c.ground0 - 26 < z <= c.ground0 ==> (c.solid_at(z) <==> (c.cave_bits >> (
        (c.ground0 - z) as u32)) & 1u32 == 0),
{
}

/// A column holds open water where its water block lies above everything
/// solid; dry columns never do.
pub proof fn open_water_has_nothing_solid_above(c: ColCtx)
    ensures
        c.water == i64::MIN ==> !c.wet(),
        c.water != i64::MIN ==> (c.wet() <==> forall|z: int| z >= c.water ==> !#[trigger] c.solid_at(z)),
{
    top_is_highest_solid(c);
    if c.water != i64::MIN && !c.wet() {
        assert(c.solid_at(c.top()));
    }
}

/// Cave water fills the gaps at or below its table, and nothing else.
pub proof fn cave_water_fills_gaps(c: ColCtx, z: int)
    ensures
        c.cave_water == i64::MIN ==> !c.flooded_at(z),
        c.solid_at(z) ==> !c.flooded_at(z),
        z > c.cave_water ==> !c.flooded_at(z),
        c.cave_water != i64::MIN && z <= c.cave_water && !c.solid_at(z) ==> c.flooded_at(z),
{
}

/// A player stands on the ice of frozen open water, else on the highest solid
/// block. Liquid water carries nobody.
pub proof fn players_stand_on_ice_or_ground(c: ColCtx)
    ensures
        c.wet() && c.frozen ==> c.walkable() == c.water && c.ice() == Some(c.water),
        !c.wet() || !c.frozen ==> c.ice() is None && c.solid_at(c.walkable()) && forall|z: int|
            z > c.walkable() ==> !#[trigger] c.solid_at(z),
        c.cave_ice() is Some <==> c.frozen && c.cave_water != i64::MIN,
        c.cave_ice() matches Some(w) ==> w == c.cave_water,
{
    top_is_highest_solid(c);
}

/// Frozen water is drawn at its own level. Liquid water is drawn as high as
/// its own level and the dry columns around it allow: no level that lies above
/// the bed, and below neither the water nor any dry neighbour's top, is above
/// it; and it is drawn at its own level, at a dry neighbour's top, or just
/// over its bed.
pub proof fn water_is_drawn_as_high_as_its_shores_allow(c: ColCtx, nbs: Seq<ColCtx>, level: int)
    requires
        c.wet(),
    ensures
        c.frozen ==> render_top(c, nbs) == c.water,
        c.top() < level <= c.water && (forall|k: int|
            0 <= k < nbs.len() && !(#[trigger] nbs[k]).wet() ==> level <= nbs[k].top()) ==> level
            <= render_top(c, nbs),
        render_top(c, nbs) == c.water || render_top(c, nbs) == c.top() + 1 || exists|k: int|
            0 <= k < nbs.len() && !(#[trigger] nbs[k]).wet() && render_top(c, nbs) == nbs[k].top(),
{
    lemma_shore_level(c.water as int, nbs);
}

/// A body is stopped by solid blocks, by a trunk standing on the ground, and
/// by a sheet of ice on open water, or on a cave pool where there is no open
/// water's; by nothing else.
pub proof fn bodies_are_stopped(c: ColCtx, trunk: Option<i64>, z: int)
    ensures
        c.solid_at(z) ==> blocks_at(c, trunk, z),
        trunk matches Some(t) && c.ground < z <= c.ground + t ==> blocks_at(c, trunk, z),
        c.frozen && c.wet() && z == c.water ==> blocks_at(c, trunk, z),
        c.frozen && !c.wet() && c.cave_water != i64::MIN && z == c.cave_water ==> blocks_at(c, trunk, z),
        blocks_at(c, trunk, z) && !c.solid_at(z) && (trunk is None || z <= c.ground || z > c.ground
            + trunk->0) ==> c.frozen && (z == c.water || z == c.cave_water),
        blocks_at(c, None, z) && !c.solid_at(z) && c.wet() ==> z == c.water,
{
}

/// Digging and building move the ground by as many blocks as were dug or
/// built, measured from the natural ground; the first block placed on open
/// water goes on top of the water.
pub proof fn edits_move_the_ground(s: ColumnSample, edit: int)
    requires
        s.wf(),
        sample_block_ok(edit),
        sample_block_ok(edit + 1),
    ensures
        s.column(0).ground == s.ground0,
        edit != 0 ==> s.column(edit + 1).ground == s.column(edit).ground + 1,
        s.column(-1).ground == s.ground0 - 1,
        s.water <= s.ground0 ==> s.column(1).ground == s.ground0 + 1,
        s.water > s.ground0 ==> s.column(1).ground == s.water + 1,
        s.column(edit).ground0 == s.ground0,
{
}

/// A column keeps the water of its sample, whatever is dug or built. Only a
/// creek's film adds some: one block over ground that nobody touched and that
/// no water covers.
pub proof fn columns_keep_their_water(s: ColumnSample, edit: int)
    requires
        s.wf(),
        sample_block_ok(edit),
    ensures
        s.water > s.ground0 ==> s.column(edit).water == s.water,
        !s.creek_film ==> s.column(edit).water == s.water,
        edit != 0 && s.water <= s.ground0 ==> s.column(edit).water == s.water,
        s.creek_film && edit == 0 && s.water <= s.ground0 ==> s.column(edit).water == s.ground0 + 1,
{
}

/// Cave tubes carve dry land of a cave region: in a column without open water
/// whose ground lies above block 4, the block `k` below the natural surface is
/// missing if and only if bit `k` of the tubes is set, for `k` up to 25; the
/// cap of a shoal stays. Elsewhere nothing is carved.
pub proof fn tubes_carve_dry_cave_regions(s: ColumnSample, edit: int, k: int)
    requires
        s.wf(),
        sample_block_ok(edit),
        0 <= k < 26,
    ensures
        ({
            let dry = s.water == i64::MIN && (!s.creek_film || edit != 0);
            let carved = (s.column(edit).cave_bits >> (k as u32)) & 1u32 != 0;
            let tube = (s.cave_tubes >> (k as u32)) & 1u32 != 0;
            &&& dry && s.ground0 > 4 && s.cave_region && (k > 0 || !s.lake_shoal) ==> (carved <==> tube)
            &&& !dry || s.ground0 <= 4 || !s.cave_region || (k == 0 && s.lake_shoal) ==> !carved
            &&& carved && s.ground0 - k <= s.column(edit).ground ==> !s.column(edit).solid_at(
                s.ground0 - k,
            )
            &&& !carved && s.ground0 - k <= s.column(edit).ground ==> s.column(edit).solid_at(
                s.ground0 - k,
            )
        }),
{
    let bits = s.cave_tubes;
    let j = k as u32;
    assert(((bits & 0x03FF_FFFFu32) >> j) & 1u32 == (bits >> j) & 1u32) by (bit_vector)
        requires
            j < 26,
    ;
    assert(((bits & 0x03FF_FFFEu32) >> j) & 1u32 == (if j == 0 {
        0
    } else {
        (bits >> j) & 1u32
    })) by (bit_vector)
        requires
            j < 26,
    ;
    assert((0u32 >> j) & 1u32 == 0) by (bit_vector);
}

/// `t` is a water table that reaches the column: the river's, the lake's, or
/// the sea's at block zero.
pub open spec fn is_table(s: ColumnSample, t: int) -> bool {
    ||| s.river_table matches Some(r) && t == r
    ||| s.lake_table matches Some(l) && t == l
    ||| s.sea_table && t == 0
}

/// Caves flood to the highest water table that reaches the column, where it
/// is not above the natural surface and some carved block lies at or below
/// it; otherwise they are dry.
pub proof fn caves_flood_to_the_highest_table(s: ColumnSample, edit: int, t: int, k: u32)
    requires
        s.wf(),
        sample_block_ok(edit),
    ensures
        ({
            let c = s.column(edit);
            let highest = is_table(s, t) && forall|u: int| #[trigger] is_table(s, u) ==> u <= t;
            let reached = k < 26 && (c.cave_bits >> k) & 1u32 != 0 && s.ground0 - k <= t;
            &&& highest && reached && t <= s.ground0 ==> c.cave_water == t
            &&& highest && t > s.ground0 ==> c.cave_water == i64::MIN
            &&& highest && c.cave_water != i64::MIN ==> c.cave_water == t
            &&& !s.sea_table && s.river_table is None && s.lake_table is None ==> c.cave_water == i64::MIN
            &&& c.cave_bits == 0 ==> c.cave_water == i64::MIN
        }),
{
    let c = s.column(edit);
    assert(forall|k: u32| #![trigger 0u32 >> k] k < CAVE_DEPTH ==> (0u32 >> k) & 1u32 == 0) by {
        assert(forall|k: u32| k < 26 ==> (0u32 >> k) & 1u32 == 0) by (bit_vector);
    }
    if let Some(r) = s.river_table {
        assert(is_table(s, r as int));
    }
    if let Some(l) = s.lake_table {
        assert(is_table(s, l as int));
    }
    if s.sea_table {
        assert(is_table(s, 0));
    }
    if s.table() is Some {
        let top = s.table()->0;
        assert(is_table(s, top));
    }
}

/// What the sample says of the surface and its trees is the column's, and a
/// river's water meets a lake's plane where liquid water stands and the river
/// lies over the lake.
pub proof fn columns_keep_their_surface(s: ColumnSample, edit: int)
    requires
        s.wf(),
        sample_block_ok(edit),
    ensures
        ({
            let c = s.column(edit);
            &&& c.climate == Some(s.climate) && c.lunar is None
            &&& c.frozen == s.frozen && c.carved == s.carved && c.salt == s.salt && c.sea == s.sea
            &&& c.lake_shoal == s.lake_shoal && c.lake_shore == s.lake_shore && c.beach == s.beach
            &&& c.tree == s.tree && c.tree_ticket == s.tree_ticket
            &&& c.above_treeline == s.above_treeline && c.too_cold == s.too_cold
            &&& c.lake_level_band == (s.lake_known && s.lake_band)
            &&& s.frozen || s.water == i64::MIN || !s.lake_known || !s.river_known
                || !s.river_over_lake <==> !c.rim_flush_water
        }),
{
}

/// The moon is dry and bare: its ground is the sampled one moved by the edit,
/// of the sampled material, without water, caves, climate or trees.
pub proof fn the_moon_is_bare(ground0: int, material: MoonMaterial, edit: int, z: int)
    requires
        sample_block_ok(ground0),
        sample_block_ok(edit),
    ensures
        ({
            let c = lunar_column(ground0, material, edit);
            &&& c.ground0 == ground0 && c.ground == ground0 + edit
            &&& c.lunar == Some(material) && c.climate is None && c.tree is None
            &&& c.solid_at(z) <==> z <= ground0 + edit
            &&& !c.wet() && !c.flooded_at(z) && c.ice() is None && c.cave_ice() is None
        }),
{
    let k = (ground0 - z) as u32;
    assert((0u32 >> k) & 1u32 == 0) by (bit_vector);
}

/// A probe shows a creek's film where liquid water of a creek stands: inside
/// its half width, not at sea and not in a lake. A block carries a film where
/// its middle shows one, or where a liquid creek comes near its middle and one
/// of its other probes shows one.
pub proof fn films_lie_where_creeks_run(center: CreekProbe, subcells: Seq<CreekProbe>, k: int)
    ensures
        center.film() ==> center.wet && center.narrow && center.inside && !center.frozen
            && !center.sea && !center.lake,
        center.wet && center.narrow && center.inside && !center.frozen && !center.sea
            && !center.lake ==> center.film(),
        center.film() ==> film_somewhere(center, subcells),
        0 <= k < subcells.len() && subcells[k].film() && !center.frozen && center.narrow
            && center.near ==> film_somewhere(center, subcells),
        film_somewhere(center, subcells) && !center.film() ==> !center.frozen && center.narrow
            && center.near && exists|m: int|
            0 <= m < subcells.len() && (#[trigger] subcells[m]).film(),
{
}

/// Swimmers find liquid only: open water at its own block or, where it meets
/// a lake's plane, at that plane; else a cave pool at its table. Ice is no
/// liquid, and a column without either kind of water is dry.
pub proof fn only_liquid_is_swum_in(c: ColCtx)
    ensures
        c.frozen ==> liquid_surface(c) == WaterSurface::Dry,
        !c.wet() && c.cave_water == i64::MIN ==> liquid_surface(c) == WaterSurface::Dry,
        c.wet() && !c.frozen && c.rim_flush_water ==> liquid_surface(c) == WaterSurface::Analog,
        c.wet() && !c.frozen && !c.rim_flush_water ==> liquid_surface(c) == WaterSurface::Open(c.water),
        !c.wet() && !c.frozen && c.cave_water != i64::MIN ==> liquid_surface(c) == WaterSurface::Pool(
            c.cave_water,
        ),
{
}

} // verus!
