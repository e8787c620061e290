//! The water of one terrain sample. The relief is measured elsewhere; here
//! stand the rules that turn it into sea, river, lake, pond or dry ground, in
//! the order in which they apply. All heights are measures in kilometres.

use vstd::prelude::*;
use crate::measure::{at_most, below, greater, is_at_most, is_below, least, lesser, most, number};
use crate::measure::{Measure, INFINITE, NEG_INFINITE};

verus! {

/// One half: of the water mask, of a river's perch.
pub const HALF: Measure = 0x3FE0_0000_0000_0000;

/// A tenth of a kilometre under the sea.
pub const DEEP: Measure = -0x3FB9_9999_9999_999A;

/// The share of ocean that keeps deep water wet (0.35).
pub const OCEAN_SIDE: Measure = 0x3FD6_6666_6666_6666;

/// The share of ocean that makes land coastal (0.02).
pub const COASTAL: Measure = 0x3F94_7AE1_47AE_147B;

/// The lowest coastal land (0.002).
pub const COAST_FLOOR: Measure = 0x3F60_624D_D2F1_A9FC;

/// The lowest inland basin (-9).
pub const BASIN_FLOOR: Measure = -0x4022_0000_0000_0000;

/// The near-field sea floor (-0.006).
pub const SEA_FLOOR: Measure = -0x3F78_9374_BC6A_7EFA;

/// Lakes colder than this are frozen (-4).
pub const FREEZING: Measure = -0x4010_0000_0000_0000;

/// A carve deeper than this belongs to its river (0.0005).
pub const CARVED: Measure = 0x3F40_624D_D2F1_A9FC;

/// Ponds need more rain than this (550).
pub const POND_RAIN: Measure = 0x4081_3000_0000_0000;

/// Ponds need calmer ground than this (0.45).
pub const POND_ROUGH: Measure = 0x3FDC_CCCC_CCCC_CCCD;

/// Ponds need higher ground than this (0.03).
pub const POND_GROUND: Measure = 0x3F9E_B851_EB85_1EB8;

/// Ponds need less relief than this (0.13).
pub const POND_RELIEF: Measure = 0x3FC0_A3D7_0A3D_70A4;

/// Ponds lie where their noise is below this (-0.5).
pub const POND_MASK: Measure = -0x3FE0_0000_0000_0000;

/// Ponds lie outside every valley (0.999).
pub const OPEN_GROUND: Measure = 0x3FEF_F7CE_D916_872B;

/// Coarse tiles carry fewer octaves than this and show no ponds.
pub const POND_OCTAVES: u32 = 8;

/// Below sea level, and on the ocean's side of the coastline: by the sharp
/// mask, or by depth where the coast is near.
pub open spec fn sea(elevation: Measure, mask: Measure, ocean: Measure) -> bool {
    at_most(elevation, 0) && (at_most(HALF, mask) || (at_most(elevation, DEEP) && below(
        OCEAN_SIDE,
        ocean,
    )))
}

pub fn is_sea(elevation: Measure, mask: Measure, ocean: Measure) -> (r: bool)
    ensures
        r == sea(elevation, mask, ocean),
{
    is_at_most(elevation, 0) && (is_at_most(HALF, mask) || (is_at_most(elevation, DEEP) && is_below(
        OCEAN_SIDE,
        ocean,
    )))
}

/// Relief never digs deeper: coastal land stays above the waterline, inland
/// basins keep their depth.
pub fn land_floor(ocean: Measure) -> (r: Measure)
    ensures
        r == (if below(COASTAL, ocean) {
            COAST_FLOOR
        } else {
            BASIN_FLOOR
        }),
{
    if is_below(COASTAL, ocean) {
        COAST_FLOOR
    } else {
        BASIN_FLOOR
    }
}

/// A river as a sample sees it.
#[derive(Clone, Copy, PartialEq, Eq, Structural, Debug)]
pub struct Course {
    /// Distance to the course.
    pub dist: Measure,
    /// Half the channel's width; zero where no river is near.
    pub half: Measure,
    /// The outer edge of the banks.
    pub edge: Measure,
    /// The outer edge of the bays.
    pub bay: Measure,
    /// The water level.
    pub level: Measure,
    /// How far the level hangs above the ground, from none to full.
    pub perch: Measure,
}

/// Where a sample lies across a river.
#[derive(Clone, Copy, PartialEq, Eq, Structural, Debug)]
pub enum Zone {
    /// In the channel.
    Bed,
    /// In the carved banks.
    Bank,
    /// Beside the banks, where dips are the river's own.
    Bay,
    /// Past the bays, where the ground holds the water.
    Apron,
    /// Out of the river's hands.
    Away,
}

pub open spec fn finite(m: Measure) -> bool {
    NEG_INFINITE < m < INFINITE
}

impl Course {
    pub open spec fn spec_zone(self) -> Zone {
        if !below(0, self.half) {
            Zone::Away
        } else if below(self.dist, self.edge) {
            if below(self.dist, self.half) {
                Zone::Bed
            } else {
                Zone::Bank
            }
        } else if finite(self.level) && below(self.perch, HALF) {
            if below(self.dist, self.bay) {
                Zone::Bay
            } else {
                Zone::Apron
            }
        } else {
            Zone::Away
        }
    }

    pub fn zone(&self) -> (z: Zone)
        ensures
            z == self.spec_zone(),
    {
        if !is_below(0, self.half) {
            Zone::Away
        } else if is_below(self.dist, self.edge) {
            if is_below(self.dist, self.half) {
                Zone::Bed
            } else {
                Zone::Bank
            }
        } else if NEG_INFINITE < self.level && self.level < INFINITE && is_below(self.perch, HALF) {
            if is_below(self.dist, self.bay) {
                Zone::Bay
            } else {
                Zone::Apron
            }
        } else {
            Zone::Away
        }
    }

    /// The river keeps its own water under a lake: it has clearly descended
    /// below the lake (`lowered` is the lake's level less a margin), and the
    /// sample lies in its strip or in ground that it carved.
    pub open spec fn owned(self, lowered: Measure, strip: Measure, carve: Measure) -> bool {
        &&& below(0, self.half)
        &&& finite(self.level)
        &&& below(self.level, lowered)
        &&& below(self.dist, strip) || below(CARVED, carve)
    }

    pub fn owns(&self, lowered: Measure, strip: Measure, carve: Measure) -> (r: bool)
        ensures
            r == self.owned(lowered, strip, carve),
    {
        is_below(0, self.half) && NEG_INFINITE < self.level && self.level < INFINITE && is_below(
            self.level,
            lowered,
        ) && (is_below(self.dist, strip) || is_below(CARVED, carve))
    }
}

/// A sample on its way to its final water.
#[derive(Clone, Copy, PartialEq, Eq, Structural, Debug)]
pub struct Wetting {
    pub ground: Measure,
    /// The ground that river decisions read at every level of detail.
    pub reference: Measure,
    /// The water surface; negative infinity where dry.
    pub water: Measure,
    /// How much was dug away.
    pub carve: Measure,
    pub sea: bool,
    pub lake: bool,
    pub salt: bool,
    /// The ground is a lake's shore apron.
    pub apron: bool,
}

/// A lake that may flood the sample.
#[derive(Clone, Copy, PartialEq, Eq, Structural, Debug)]
pub struct Flood {
    pub level: Measure,
    pub salt: bool,
}

/// The part of a pond that a sample belongs to.
#[derive(Clone, Copy, PartialEq, Eq, Structural, Debug)]
pub enum PondPart {
    Pool,
    Shore,
    Outside,
}

pub open spec fn raised(w: Wetting, floor: Measure) -> Wetting {
    if below(w.ground, floor) {
        Wetting { ground: floor, reference: greater(w.reference, floor), ..w }
    } else {
        w
    }
}

pub open spec fn aproned(w: Wetting, flooded: bool, temp: Measure, floor: Option<Measure>) -> Wetting {
    match floor {
        Some(f) if !flooded && at_most(FREEZING, temp) && below(w.ground, f) => Wetting {
            apron: true,
            ..raised(w, f)
        },
        _ => w,
    }
}

pub open spec fn dug(w: Wetting, zone: Zone, bed: Measure, carve: Measure) -> Wetting {
    if zone == Zone::Bed || zone == Zone::Bank {
        Wetting { ground: lesser(bed, w.ground), carve, ..w }
    } else {
        w
    }
}

pub open spec fn channelled(
    w: Wetting,
    c: Course,
    zone: Zone,
    level_block: i64,
    ground_block: i64,
) -> Wetting {
    if below(c.perch, HALF) && level_block > ground_block {
        match zone {
            Zone::Bed | Zone::Bank => Wetting { water: c.level, ..w },
            Zone::Bay => Wetting { water: greater(w.water, c.level), ..w },
            _ => w,
        }
    } else {
        w
    }
}

pub open spec fn banked(w: Wetting, zone: Zone, floor: Measure) -> Wetting {
    if zone == Zone::Apron {
        raised(w, floor)
    } else {
        w
    }
}

pub open spec fn flooded_by(w: Wetting, f: Flood, submerged: bool, owned: bool) -> Wetting {
    if submerged && !owned {
        Wetting { water: greater(w.water, f.level), lake: true, salt: f.salt, ..w }
    } else {
        w
    }
}

pub open spec fn benched(w: Wetting, bench: Measure, within: bool) -> Wetting {
    if at_most(w.water, w.ground) && below(w.ground, bench) && within {
        Wetting { ground: bench, ..w }
    } else {
        w
    }
}

pub open spec fn pooled(w: Wetting, level: Measure, brim: Measure) -> Wetting {
    if below(w.ground, level) && at_most(level, brim) {
        Wetting { water: greater(w.water, level), ..w }
    } else {
        w
    }
}

pub open spec fn pond_shored(w: Wetting, floor: Measure) -> Wetting {
    if below(w.ground, floor) {
        Wetting { ground: floor, ..w }
    } else {
        w
    }
}

impl Wetting {
    /// A sea sample: a shallow near-field floor under the water of height
    /// zero.
    pub fn at_sea(elevation: Measure) -> (w: Self)
        ensures
            w.ground == greater(elevation, SEA_FLOOR),
            w.water == 0,
            w.sea && !w.lake && !w.salt && !w.apron,
            w.carve == 0,
            w.reference == elevation,
    {
        Wetting {
            ground: most(elevation, SEA_FLOOR),
            reference: elevation,
            water: 0,
            carve: 0,
            sea: true,
            lake: false,
            salt: false,
            apron: false,
        }
    }

    /// Dry land.
    pub fn on_land(ground: Measure, reference: Measure) -> (w: Self)
        ensures
            w.ground == ground,
            w.reference == reference,
            w.water == NEG_INFINITE,
            w.carve == 0,
            !w.sea && !w.lake && !w.salt && !w.apron,
    {
        Wetting {
            ground,
            reference,
            water: NEG_INFINITE,
            carve: 0,
            sea: false,
            lake: false,
            salt: false,
            apron: false,
        }
    }

    fn raise(&mut self, floor: Measure)
        ensures
            *final(self) == raised(*old(self), floor),
    {
        if is_below(self.ground, floor) {
            self.ground = floor;
            self.reference = most(self.reference, floor);
        }
    }

    /// Just outside a liquid lake's flood, the ground is held up to the
    /// lake's bank.
    pub fn shore_apron(&mut self, flooded: bool, temp: Measure, floor: Option<Measure>)
        ensures
            *final(self) == aproned(*old(self), flooded, temp, floor),
    {
        if let Some(f) = floor {
            if !flooded && is_at_most(FREEZING, temp) && is_below(self.ground, f) {
                self.raise(f);
                self.apron = true;
            }
        }
    }

    /// Cut a river's bed or bank. The cut never raises the ground.
    pub fn carve_channel(&mut self, zone: Zone, bed: Measure, carve: Measure)
        ensures
            *final(self) == dug(*old(self), zone, bed, carve),
    {
        match zone {
            Zone::Bed | Zone::Bank => {
                self.ground = least(bed, self.ground);
                self.carve = carve;
            },
            _ => {},
        }
    }

    /// Let the river in where its level stands a block above the ground.
    pub fn fill_channel(&mut self, c: &Course, zone: Zone, level_block: i64, ground_block: i64)
        ensures
            *final(self) == channelled(*old(self), *c, zone, level_block, ground_block),
    {
        if is_below(c.perch, HALF) && level_block > ground_block {
            match zone {
                Zone::Bed | Zone::Bank => {
                    self.water = c.level;
                },
                Zone::Bay => {
                    self.water = most(self.water, c.level);
                },
                _ => {},
            }
        }
    }

    /// Hold the ground past a river's bays up to its bank.
    pub fn river_apron(&mut self, zone: Zone, floor: Measure)
        ensures
            *final(self) == banked(*old(self), zone, floor),
    {
        if let Zone::Apron = zone {
            self.raise(floor);
        }
    }

    /// Fill to a lake's level, unless a descending river keeps the place.
    pub fn flood(&mut self, f: Flood, submerged: bool, owned: bool)
        ensures
            *final(self) == flooded_by(*old(self), f, submerged, owned),
    {
        if submerged && !owned {
            self.water = most(self.water, f.level);
            self.lake = true;
            self.salt = f.salt;
        }
    }

    /// Dig a pond's basin.
    pub fn dig_pond(&mut self, ground: Measure, carve: Measure)
        ensures
            *final(self) == (Wetting { ground, carve, ..*old(self) }),
    {
        self.ground = ground;
        self.carve = carve;
    }

    /// Fill moderate dips with ground to just under the pool. Ground under
    /// water is left alone.
    pub fn bench_pond(&mut self, bench: Measure, within: bool)
        ensures
            *final(self) == benched(*old(self), bench, within),
    {
        if is_at_most(self.water, self.ground) && is_below(self.ground, bench) && within {
            self.ground = bench;
        }
    }

    /// Fill a pond, never above the natural ground.
    pub fn fill_pond(&mut self, level: Measure, brim: Measure)
        ensures
            *final(self) == pooled(*old(self), level, brim),
    {
        if is_below(self.ground, level) && is_at_most(level, brim) {
            self.water = most(self.water, level);
        }
    }

    /// Hold the ground around a pond up to its bank.
    pub fn pond_apron(&mut self, floor: Measure)
        ensures
            *final(self) == pond_shored(*old(self), floor),
    {
        if is_below(self.ground, floor) {
            self.ground = floor;
        }
    }

    pub open spec fn wet(self) -> bool {
        below(self.ground, self.water)
    }

    /// The water covers the ground.
    pub fn has_water(&self) -> (r: bool)
        ensures
            r == self.wet(),
    {
        is_below(self.ground, self.water)
    }

    /// The height that a coarse tile draws: the water over seas and lakes.
    pub fn render_h(&self) -> (r: Measure)
        ensures
            r == (if self.sea || self.lake {
                greater(self.ground, self.water)
            } else {
                self.ground
            }),
    {
        if self.sea || self.lake {
            most(self.ground, self.water)
        } else {
            self.ground
        }
    }
}

/// What a pond reads of its place.
#[derive(Clone, Copy)]
pub struct PondSite {
    pub octaves: u32,
    pub rain: Measure,
    pub rough: Measure,
    pub elevation: Measure,
    pub relief: Measure,
    /// The place may be flooded by a lake.
    pub flooded: bool,
    /// The place lies on a lake's shore apron.
    pub apron: bool,
    /// The coarse ground is level.
    pub level: bool,
}

impl PondSite {
    pub open spec fn spec_allowed(self) -> bool {
        &&& self.octaves >= POND_OCTAVES
        &&& below(POND_RAIN, self.rain)
        &&& below(self.rough, POND_ROUGH)
        &&& below(POND_GROUND, self.elevation)
        &&& below(self.relief, POND_RELIEF)
        &&& !self.flooded
        &&& !self.apron
        &&& self.level
    }

    /// Ponds may lie here: near, in wet, calm, level lowland, in no lake's
    /// hands.
    pub fn allowed(&self) -> (r: bool)
        ensures
            r == self.spec_allowed(),
    {
        self.octaves >= POND_OCTAVES && is_below(POND_RAIN, self.rain) && is_below(
            self.rough,
            POND_ROUGH,
        ) && is_below(POND_GROUND, self.elevation) && is_below(self.relief, POND_RELIEF)
            && !self.flooded && !self.apron && self.level
    }
}

/// Pool inside the mask on open ground; else shore where no river has carved
/// and none is near.
pub fn pond_part(mask: Measure, valley: Measure, carve: Measure, dist: Measure, strip: Measure) -> (r:
    PondPart)
    ensures
        r == (if below(mask, POND_MASK) && at_most(OPEN_GROUND, valley) {
            PondPart::Pool
        } else if at_most(carve, 0) && below(strip, dist) {
            PondPart::Shore
        } else {
            PondPart::Outside
        }),
{
    if is_below(mask, POND_MASK) && is_at_most(OPEN_GROUND, valley) {
        PondPart::Pool
    } else if is_at_most(carve, 0) && is_below(strip, dist) {
        PondPart::Shore
    } else {
        PondPart::Outside
    }
}

/// The sea covers its floor: no sea sample rises above its water.
pub proof fn seas_cover_their_floor(elevation: Measure, mask: Measure, ocean: Measure)
    requires
        sea(elevation, mask, ocean),
    ensures
        greater(elevation, SEA_FLOOR) <= 0,
{
}

/// Aprons and benches only raise the ground, and never touch the water.
pub proof fn banks_only_raise(
    w: Wetting,
    flooded: bool,
    temp: Measure,
    floor: Option<Measure>,
    zone: Zone,
    height: Measure,
    within: bool,
)
    ensures
        aproned(w, flooded, temp, floor).ground >= w.ground,
        aproned(w, flooded, temp, floor).water == w.water,
        banked(w, zone, height).ground >= w.ground,
        banked(w, zone, height).water == w.water,
        benched(w, height, within).ground >= w.ground,
        benched(w, height, within).water == w.water,
        pond_shored(w, height).ground >= w.ground,
        pond_shored(w, height).water == w.water,
{
}

/// Carving only lowers the ground.
pub proof fn carving_only_lowers(w: Wetting, zone: Zone, bed: Measure, carve: Measure)
    requires
        number(w.ground),
    ensures
        dug(w, zone, bed, carve).ground <= w.ground,
        dug(w, zone, bed, carve).water == w.water,
{
}

/// Lakes and ponds never lower water that is already there; a channel never
/// lowers water either where none stood before.
pub proof fn filling_never_drains(
    w: Wetting,
    f: Flood,
    submerged: bool,
    owned: bool,
    level: Measure,
    brim: Measure,
    c: Course,
    zone: Zone,
    level_block: i64,
    ground_block: i64,
)
    requires
        number(w.water),
    ensures
        flooded_by(w, f, submerged, owned).water >= w.water,
        pooled(w, level, brim).water >= w.water,
        w.water == NEG_INFINITE && c.level >= NEG_INFINITE ==> channelled(
            w,
            c,
            zone,
            level_block,
            ground_block,
        ).water >= w.water,
{
}

/// Ponds stay out of lakes: no pond lies where a lake may flood or on a
/// lake's shore apron, and a pond's bench never rises through standing water.
pub proof fn ponds_keep_off_lakes(site: PondSite, w: Wetting, bench: Measure, within: bool)
    ensures
        site.flooded || site.apron ==> !site.spec_allowed(),
        w.wet() ==> benched(w, bench, within) == w,
{
}

/// Dry washes stay dry: a river that hangs above its ground brings no water
/// and holds up no bank.
pub proof fn perched_rivers_stay_dry(
    w: Wetting,
    c: Course,
    level_block: i64,
    ground_block: i64,
    floor: Measure,
)
    requires
        !below(c.perch, HALF),
    ensures
        channelled(w, c, c.spec_zone(), level_block, ground_block).water == w.water,
        banked(w, c.spec_zone(), floor) == w,
{
}

/// A bed or bank a block below its river's level carries the river's water,
/// at the river's level.
pub proof fn carved_beds_are_filled(w: Wetting, c: Course, level_block: i64, ground_block: i64)
    requires
        below(0, c.half),
        below(c.dist, c.edge),
        below(c.perch, HALF),
        level_block > ground_block,
    ensures
        channelled(w, c, c.spec_zone(), level_block, ground_block).water == c.level,
{
}

/// A lake never covers a river that has clearly descended below it.
pub proof fn outlets_keep_their_water(
    w: Wetting,
    c: Course,
    f: Flood,
    submerged: bool,
    lowered: Measure,
    strip: Measure,
)
    requires
        c.owned(lowered, strip, w.carve),
    ensures
        flooded_by(w, f, submerged, c.owned(lowered, strip, w.carve)) == w,
{
}

/// Where the sea is: nowhere above its level; below it wherever the water mask
/// says at least half, and where the ground is a tenth of a kilometre deep and
/// more than 35 parts in a hundred of the surroundings are ocean. Sinking ground
/// stays sea.
pub proof fn the_sea_lies_below_its_level(elevation: Measure, mask: Measure, ocean: Measure, lower: Measure)
    ensures
        below(0, elevation) ==> !sea(elevation, mask, ocean),
        at_most(elevation, 0) && at_most(0x3FE0_0000_0000_0000, mask) ==> sea(elevation, mask, ocean),
        at_most(elevation, (-0x3FB9_9999_9999_999A) as i64) && below(0x3FD6_6666_6666_6666, ocean) ==> sea(
            elevation,
            mask,
            ocean,
        ),
        below(mask, 0x3FE0_0000_0000_0000) && (below((-0x3FB9_9999_9999_999A) as i64, elevation) || at_most(
            ocean,
            0x3FD6_6666_6666_6666,
        )) ==> !sea(elevation, mask, ocean),
        at_most(lower, elevation) && sea(elevation, mask, ocean) ==> sea(lower, mask, ocean),
{
}

/// How a river divides the ground across it: the channel out to half its
/// width, its banks out to their edge, and past them, where the river is known
/// and does not hang above the ground, bays and then aprons. Without a channel
/// there is nothing of it.
pub proof fn rivers_have_their_zones(c: Course)
    ensures
        !below(0, c.half) ==> c.spec_zone() == Zone::Away,
        below(0, c.half) && below(c.dist, c.half) && below(c.dist, c.edge) ==> c.spec_zone() == Zone::Bed,
        below(0, c.half) && !below(c.dist, c.half) && below(c.dist, c.edge) ==> c.spec_zone() == Zone::Bank,
        below(0, c.half) && !below(c.dist, c.edge) ==> {
            let held = NEG_INFINITE < c.level < INFINITE && below(c.perch, 0x3FE0_0000_0000_0000);
            &&& held && below(c.dist, c.bay) ==> c.spec_zone() == Zone::Bay
            &&& held && !below(c.dist, c.bay) ==> c.spec_zone() == Zone::Apron
            &&& !held ==> c.spec_zone() == Zone::Away
        },
{
}

/// A river keeps its water under a lake exactly where it has a channel and a
/// known level below the lowered lake, and the place lies in its strip or was
/// carved by more than half a metre.
pub proof fn descended_rivers_keep_their_water(c: Course, lowered: Measure, strip: Measure, carve: Measure)
    ensures
        c.owned(lowered, strip, carve) ==> below(0, c.half) && below(c.level, lowered) && c.level
            != NEG_INFINITE,
        below(0, c.half) && NEG_INFINITE < c.level < INFINITE && below(c.level, lowered) && (below(
            c.dist,
            strip,
        ) || below(0x3F40_624D_D2F1_A9FC, carve)) ==> c.owned(lowered, strip, carve),
        !below(c.dist, strip) && !below(0x3F40_624D_D2F1_A9FC, carve) ==> !c.owned(lowered, strip, carve),
{
}

/// Lower ground is raised to a bank: to the bank's height, and the ground that
/// rivers read at least as high. Higher ground, and everything else, stays.
pub proof fn banks_raise_lower_ground(w: Wetting, floor: Measure)
    ensures
        below(w.ground, floor) ==> raised(w, floor).ground == floor && raised(w, floor).reference
            == greater(w.reference, floor),
        !below(w.ground, floor) ==> raised(w, floor) == w,
        raised(w, floor) == (Wetting {
            ground: raised(w, floor).ground,
            reference: raised(w, floor).reference,
            ..w
        }),
        pond_shored(w, floor) == (Wetting { ground: raised(w, floor).ground, ..w }),
{
}

/// A lake's shore is held up outside its flood, in climates of at least four
/// degrees below freezing, where a bank is near and the ground lies below it;
/// only such ground becomes an apron.
pub proof fn liquid_lakes_hold_their_shores(w: Wetting, flooded: bool, temp: Measure, floor: Option<Measure>)
    ensures
        ({
            let due = !flooded && at_most((-0x4010_0000_0000_0000) as i64, temp) && floor is Some && below(
                w.ground,
                floor->0,
            );
            &&& due ==> aproned(w, flooded, temp, floor) == (Wetting {
                apron: true,
                ground: floor->0,
                reference: greater(w.reference, floor->0),
                ..w
            })
            &&& !due ==> aproned(w, flooded, temp, floor) == w
        }),
{
}

/// A river cuts its bed and banks: the ground there is the lower of what it
/// was and the bed, and the cut is recorded. Elsewhere it cuts nothing.
pub proof fn rivers_cut_their_channels(w: Wetting, zone: Zone, bed: Measure, carve: Measure)
    ensures
        zone is Bed || zone is Bank ==> dug(w, zone, bed, carve) == (Wetting {
            ground: lesser(bed, w.ground),
            carve,
            ..w
        }),
        !(zone is Bed) && !(zone is Bank) ==> dug(w, zone, bed, carve) == w,
{
}

/// A river that does not hang above the ground fills what lies a block below
/// its level: its channel and banks to its level, its bays at least to it;
/// nothing past them.
pub proof fn rivers_fill_their_channels(
    w: Wetting,
    c: Course,
    zone: Zone,
    level_block: i64,
    ground_block: i64,
)
    ensures
        ({
            let after = channelled(w, c, zone, level_block, ground_block);
            let flows = below(c.perch, 0x3FE0_0000_0000_0000) && level_block > ground_block;
            &&& flows && (zone is Bed || zone is Bank) ==> after.water == c.level
            &&& flows && zone is Bay ==> after.water == greater(w.water, c.level)
            &&& !flows || zone is Apron || zone is Away ==> after == w
            &&& after == (Wetting { water: after.water, ..w })
        }),
{
}

/// Past its bays a river holds the ground up to its bank, and nowhere else.
pub proof fn rivers_hold_their_banks(w: Wetting, zone: Zone, floor: Measure)
    ensures
        zone is Apron ==> banked(w, zone, floor) == raised(w, floor),
        !(zone is Apron) ==> banked(w, zone, floor) == w,
{
}

/// A lake covers what it drowns, at least to its level, as its own water and
/// with its salt, unless a river keeps the place. It changes nothing else.
pub proof fn lakes_cover_what_they_drown(w: Wetting, f: Flood, submerged: bool, owned: bool)
    ensures
        submerged && !owned ==> flooded_by(w, f, submerged, owned) == (Wetting {
            water: greater(w.water, f.level),
            lake: true,
            salt: f.salt,
            ..w
        }),
        !submerged || owned ==> flooded_by(w, f, submerged, owned) == w,
{
}

/// Ponds: dry ground below the bench is filled up to it where the dip allows;
/// the pool stands over lower ground, at least at its level, where that is not
/// above the brim. Nothing else changes.
pub proof fn ponds_bench_and_fill(w: Wetting, bench: Measure, within: bool, level: Measure, brim: Measure)
    ensures
        within && at_most(w.water, w.ground) && below(w.ground, bench) ==> benched(w, bench, within)
            == (Wetting { ground: bench, ..w }),
        !within || !at_most(w.water, w.ground) || !below(w.ground, bench) ==> benched(w, bench, within)
            == w,
        below(w.ground, level) && at_most(level, brim) ==> pooled(w, level, brim) == (Wetting {
            water: greater(w.water, level),
            ..w
        }),
        !below(w.ground, level) || !at_most(level, brim) ==> pooled(w, level, brim) == w,
{
}

/// Ponds lie in wet, calm lowland: in the finest detail, with more than 550
/// millimetres of rain, roughness below 0.45, ground above 30 metres and relief
/// below 130 metres, level, and in no lake's hands. Each is needed, and
/// together they suffice.
pub proof fn ponds_need_calm_wet_lowland(p: PondSite)
    ensures
        p.spec_allowed() ==> p.octaves >= 8 && p.level && !p.flooded && !p.apron,
        p.spec_allowed() ==> below(0x4081_3000_0000_0000, p.rain) && below(p.rough, 0x3FDC_CCCC_CCCC_CCCD),
        p.spec_allowed() ==> below(0x3F9E_B851_EB85_1EB8, p.elevation) && below(
            p.relief,
            0x3FC0_A3D7_0A3D_70A4,
        ),
        p.octaves >= 8 && p.level && !p.flooded && !p.apron && below(0x4081_3000_0000_0000, p.rain)
            && below(p.rough, 0x3FDC_CCCC_CCCC_CCCD) && below(0x3F9E_B851_EB85_1EB8, p.elevation) && below(
            p.relief,
            0x3FC0_A3D7_0A3D_70A4,
        ) ==> p.spec_allowed(),
{
}

/// A place is wet where its water stands over its ground.
pub proof fn water_over_ground_is_wet(w: Wetting)
    ensures
        w.wet() <==> below(w.ground, w.water),
        w.water == NEG_INFINITE ==> !w.wet(),
{
}

} // verus!
