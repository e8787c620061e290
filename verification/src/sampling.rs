//! One terrain sample from its facts to its water: which rule applies when.
//!
//! Heights that depend on the ground as it stands are measured on demand; the
//! rules and their order are settled here.

use vstd::prelude::*;
use crate::hydrology::{
    aproned, banked, benched, channelled, dug, flooded_by, is_sea, pond_part, pond_shored, pooled,
    sea, Course, Flood, PondPart, PondSite, Wetting, Zone, SEA_FLOOR, POND_MASK, OPEN_GROUND,
};
use crate::measure::{at_most, below, greater, number, Measure, NEG_INFINITE};

verus! {

/// A lake whose flood may reach the sample.
#[derive(Clone, Copy, PartialEq, Eq, Structural, Debug)]
pub struct Lake {
    pub flood: Flood,
    /// Below this level a river has clearly descended from the lake.
    pub lowered: Measure,
}

/// What ponds read of a sample.
#[derive(Clone, Copy, PartialEq, Eq, Structural, Debug)]
pub struct PondFacts {
    pub octaves: u32,
    pub rain: Measure,
    pub rough: Measure,
    pub relief: Measure,
    /// The coarse ground is level.
    pub level: bool,
    pub mask: Measure,
    /// How open the ground is around rivers.
    pub valley: Measure,
    /// The surface of a pool here.
    pub pool: Measure,
    /// The ground just under that surface.
    pub bench: Measure,
    /// The bank that holds a pool beside the sample.
    pub bank: Measure,
}

/// What is known of a sample before its water is settled.
#[derive(Clone, Copy, PartialEq, Eq, Structural, Debug)]
pub struct Site {
    pub elevation: Measure,
    /// The sharp water mask, and the share of ocean.
    pub mask: Measure,
    pub ocean: Measure,
    pub temp: Measure,
    /// The ground with its detail, and the ground that rivers read.
    pub relief: Measure,
    pub reference: Measure,
    pub lake: Option<Lake>,
    /// The bank of the nearest lake, where one is near.
    pub shore: Option<Measure>,
    pub pond: PondFacts,
}

/// A river measured against the ground.
#[derive(Clone, Copy, PartialEq, Eq, Structural, Debug)]
pub struct Cut {
    pub course: Course,
    /// The bed or bank that the river cuts here.
    pub bed: Measure,
    /// What is dug away with it.
    pub carve: Measure,
    /// The block of the water level.
    pub level_block: i64,
    /// The bank past the bays.
    pub apron: Measure,
    /// The strip that the river keeps under a lake.
    pub strip: Measure,
}

/// A pond's basin dug into the ground.
#[derive(Clone, Copy, PartialEq, Eq, Structural, Debug)]
pub struct Basin {
    pub ground: Measure,
    pub carve: Measure,
}

/// A pond measured against the ground in its basin.
#[derive(Clone, Copy, PartialEq, Eq, Structural, Debug)]
pub struct Rim {
    /// The dip is shallow enough to be filled with ground.
    pub within: bool,
    /// The natural ground, above which no pool stands.
    pub brim: Measure,
}

/// How heights are measured against the ground.
pub struct Measuring {
    pub cut: spec_fn(Wetting) -> Cut,
    pub block: spec_fn(Measure) -> i64,
    pub drowned: spec_fn(Measure) -> bool,
    pub basin: spec_fn(Wetting) -> Basin,
    pub rim: spec_fn(Measure) -> Rim,
}

/// The sample is sea.
pub open spec fn at_sea(s: Site) -> bool {
    sea(s.elevation, s.mask, s.ocean)
}

pub open spec fn sea_bed(elevation: Measure) -> Wetting {
    Wetting {
        ground: greater(elevation, SEA_FLOOR),
        reference: elevation,
        water: 0,
        carve: 0,
        sea: true,
        lake: false,
        salt: false,
        apron: false,
    }
}

pub open spec fn dry_land(ground: Measure, reference: Measure) -> Wetting {
    Wetting {
        ground,
        reference,
        water: NEG_INFINITE,
        carve: 0,
        sea: false,
        lake: false,
        salt: false,
        apron: false,
    }
}

/// Land with its lake shore.
pub open spec fn shored(s: Site) -> Wetting {
    aproned(dry_land(s.relief, s.reference), s.lake is Some, s.temp, s.shore)
}

/// Land with its river.
pub open spec fn rivered(w: Wetting, c: Cut, block: spec_fn(Measure) -> i64) -> Wetting {
    let zone = c.course.spec_zone();
    let cut = dug(w, zone, c.bed, c.carve);
    banked(channelled(cut, c.course, zone, c.level_block, block(cut.ground)), zone, c.apron)
}

/// Land with its lake.
pub open spec fn laked(
    w: Wetting,
    c: Cut,
    lake: Option<Lake>,
    drowned: spec_fn(Measure) -> bool,
) -> Wetting {
    match lake {
        None => w,
        Some(l) => flooded_by(
            w,
            l.flood,
            drowned(w.ground),
            c.course.owned(l.lowered, c.strip, w.carve),
        ),
    }
}

pub open spec fn pond_site(s: Site, apron: bool) -> PondSite {
    PondSite {
        octaves: s.pond.octaves,
        rain: s.pond.rain,
        rough: s.pond.rough,
        elevation: s.elevation,
        relief: s.pond.relief,
        flooded: s.lake is Some,
        apron,
        level: s.pond.level,
    }
}

/// The part of a pond that a sample belongs to.
pub open spec fn pond_at(s: Site, w: Wetting, c: Cut) -> PondPart {
    if !pond_site(s, w.apron).spec_allowed() {
        PondPart::Outside
    } else if below(s.pond.mask, POND_MASK) && at_most(OPEN_GROUND, s.pond.valley) {
        PondPart::Pool
    } else if at_most(w.carve, 0) && below(c.strip, c.course.dist) {
        PondPart::Shore
    } else {
        PondPart::Outside
    }
}

/// Land with its pond.
pub open spec fn ponded(s: Site, w: Wetting, c: Cut, ms: Measuring) -> Wetting {
    match pond_at(s, w, c) {
        PondPart::Pool => {
            let b = (ms.basin)(w);
            let dug = Wetting { ground: b.ground, carve: b.carve, ..w };
            let level = benched(dug, s.pond.bench, (ms.rim)(dug.ground).within);
            pooled(level, s.pond.pool, (ms.rim)(level.ground).brim)
        },
        PondPart::Shore => pond_shored(w, s.pond.bank),
        PondPart::Outside => w,
    }
}

/// A sample's ground and water: sea, else land with its shore, then its river,
/// then its lake, then its pond.
pub open spec fn settled(s: Site, ms: Measuring) -> Wetting {
    if at_sea(s) {
        sea_bed(s.elevation)
    } else {
        let land = shored(s);
        let c = (ms.cut)(land);
        let wet = laked(rivered(land, c, ms.block), c, s.lake, ms.drowned);
        ponded(s, wet, c, ms)
    }
}

/// The functions measure as `ms` says.
pub open spec fn measured_by<
    C: Fn(Wetting) -> Cut,
    B: Fn(Measure) -> i64,
    D: Fn(Measure) -> bool,
    P: Fn(Wetting) -> Basin,
    R: Fn(Measure) -> Rim,
>(cut: C, block: B, drowned: D, basin: P, rim: R, ms: Measuring) -> bool {
    &&& forall|w: Wetting, r: Cut| #[trigger] cut.ensures((w,), r) ==> r == (ms.cut)(w)
    &&& forall|m: Measure, r: i64| #[trigger] block.ensures((m,), r) ==> r == (ms.block)(m)
    &&& forall|m: Measure, r: bool| #[trigger] drowned.ensures((m,), r) ==> r == (ms.drowned)(m)
    &&& forall|w: Wetting, r: Basin| #[trigger] basin.ensures((w,), r) ==> r == (ms.basin)(w)
    &&& forall|m: Measure, r: Rim| #[trigger] rim.ensures((m,), r) ==> r == (ms.rim)(m)
}

/// Settle a sample's ground and water. `cut` measures the river against the
/// land, `block` numbers the block of a ground, `drowned` tells whether the
/// lake clearly stands over a ground, `basin` digs a pond and `rim` measures
/// it.
pub fn sample<
    C: Fn(Wetting) -> Cut,
    B: Fn(Measure) -> i64,
    D: Fn(Measure) -> bool,
    P: Fn(Wetting) -> Basin,
    R: Fn(Measure) -> Rim,
>(s: &Site, cut: C, block: B, drowned: D, basin: P, rim: R) -> (w: Wetting)
    requires
        forall|w: Wetting| #[trigger] cut.requires((w,)),
        forall|m: Measure| #[trigger] block.requires((m,)),
        forall|m: Measure| #[trigger] drowned.requires((m,)),
        forall|w: Wetting| #[trigger] basin.requires((w,)),
        forall|m: Measure| #[trigger] rim.requires((m,)),
    ensures
        forall|ms: Measuring| #[trigger]
            measured_by(cut, block, drowned, basin, rim, ms) ==> w == settled(*s, ms),
{
    if is_sea(s.elevation, s.mask, s.ocean) {
        return Wetting::at_sea(s.elevation);
    }
    let mut w: Wetting = Wetting::on_land(s.relief, s.reference);
    w.shore_apron(s.lake.is_some(), s.temp, s.shore);
    let c: Cut = cut(w);
    let zone: Zone = c.course.zone();
    w.carve_channel(zone, c.bed, c.carve);
    let ground_block: i64 = block(w.ground);
    w.fill_channel(&c.course, zone, c.level_block, ground_block);
    w.river_apron(zone, c.apron);
    if let Some(l) = s.lake {
        let under: bool = drowned(w.ground);
        let owned: bool = c.course.owns(l.lowered, c.strip, w.carve);
        w.flood(l.flood, under, owned);
    }
    let site: PondSite = PondSite {
        octaves: s.pond.octaves,
        rain: s.pond.rain,
        rough: s.pond.rough,
        elevation: s.elevation,
        relief: s.pond.relief,
        flooded: s.lake.is_some(),
        apron: w.apron,
        level: s.pond.level,
    };
    if site.allowed() {
        match pond_part(s.pond.mask, s.pond.valley, w.carve, c.course.dist, c.strip) {
            PondPart::Pool => {
                let b: Basin = basin(w);
                w.dig_pond(b.ground, b.carve);
                let before: Rim = rim(w.ground);
                w.bench_pond(s.pond.bench, before.within);
                let after: Rim = rim(w.ground);
                w.fill_pond(s.pond.pool, after.brim);
            },
            PondPart::Shore => {
                w.pond_apron(s.pond.bank);
            },
            PondPart::Outside => {},
        }
    }
    w
}

/// A sea sample is flat water over a floor that no river, lake or pond
/// touches.
pub proof fn seas_stay_seas(s: Site, ms: Measuring)
    requires
        at_sea(s),
    ensures
        settled(s, ms).sea,
        !settled(s, ms).lake,
        settled(s, ms).water == 0,
        settled(s, ms).ground <= 0,
        settled(s, ms).carve == 0,
{
}

/// Land is sea nowhere; a sample is a lake's only within that lake's flood,
/// and the lake's water and salt are that lake's.
pub proof fn lake_samples_lie_in_a_flood(s: Site, ms: Measuring)
    requires
        s.lake matches Some(l) ==> number(l.flood.level),
    ensures
        settled(s, ms).sea == at_sea(s),
        settled(s, ms).lake ==> {
            &&& s.lake is Some
            &&& settled(s, ms).salt == s.lake->0.flood.salt
            &&& settled(s, ms).water >= s.lake->0.flood.level
        },
{
}

/// Within a lake's flood there are no ponds.
pub proof fn floods_have_no_ponds(s: Site, ms: Measuring)
    requires
        !at_sea(s),
        s.lake is Some,
    ensures
        ({
            let land = shored(s);
            let c = (ms.cut)(land);
            settled(s, ms) == laked(rivered(land, c, ms.block), c, s.lake, ms.drowned)
        }),
{
}

/// Land away from rivers, lakes and ponds keeps its relief and stays dry.
pub proof fn plain_land_keeps_its_relief(s: Site, ms: Measuring)
    requires
        !at_sea(s),
        s.lake is None,
        s.shore is None,
        !below(0, (ms.cut)(shored(s)).course.half),
        pond_at(s, shored(s), (ms.cut)(shored(s))) == PondPart::Outside,
    ensures
        settled(s, ms) == dry_land(s.relief, s.reference),
{
}

/// Ground sinks below its relief only in a river's channel and in a pond.
pub proof fn only_channels_and_ponds_sink(s: Site, ms: Measuring)
    requires
        !at_sea(s),
        !((ms.cut)(shored(s)).course.spec_zone() is Bed),
        !((ms.cut)(shored(s)).course.spec_zone() is Bank),
        !below(s.pond.mask, POND_MASK),
    ensures
        settled(s, ms).ground >= s.relief,
        settled(s, ms).carve == 0,
{
}

/// Sea samples: water at height zero over a floor no deeper than six metres.
/// Land starts dry, on its relief, and is nobody's water.
pub proof fn samples_start_as_sea_or_land(s: Site, ms: Measuring)
    ensures
        at_sea(s) ==> settled(s, ms) == (Wetting {
            ground: greater(s.elevation, (-0x3F78_9374_BC6A_7EFA) as i64),
            reference: s.elevation,
            water: 0,
            carve: 0,
            sea: true,
            lake: false,
            salt: false,
            apron: false,
        }),
        ({
            let w = dry_land(s.relief, s.reference);
            &&& w.ground == s.relief && w.reference == s.reference && w.water == NEG_INFINITE
            &&& w.carve == 0 && !w.sea && !w.lake && !w.salt && !w.apron
        }),
        at_sea(s) <==> sea(s.elevation, s.mask, s.ocean),
{
}

/// The shore comes first: land outside a lake's flood is held up to the lake's
/// bank before its river is measured.
pub proof fn shores_come_before_rivers(s: Site)
    ensures
        ({
            let land = dry_land(s.relief, s.reference);
            let held = s.lake is None && at_most((-0x4010_0000_0000_0000) as i64, s.temp) && s.shore is Some && below(
                s.relief,
                s.shore->0,
            );
            &&& !held ==> shored(s) == land
            &&& held ==> shored(s).ground == s.shore->0 && shored(s).apron && !shored(s).wet()
        }),
{
}

/// Then the river: in its channel and banks the ground is cut to the bed and,
/// where the cut ground lies a block below the level and the river does not
/// hang, stands under the river's water. Past its bays its bank is held up. Out
/// of its hands nothing changes.
pub proof fn rivers_come_after_shores(w: Wetting, c: Cut, block: spec_fn(Measure) -> i64)
    ensures
        ({
            let after = rivered(w, c, block);
            let zone = c.course.spec_zone();
            let bed = crate::measure::lesser(c.bed, w.ground);
            let hangs = !below(c.course.perch, 0x3FE0_0000_0000_0000);
            &&& zone is Away ==> after == w
            &&& zone is Bed || zone is Bank ==> after.ground == bed && after.carve == c.carve
            &&& (zone is Bed || zone is Bank) && !hangs && c.level_block > block(bed) ==> after.water
                == c.course.level
            &&& (zone is Bed || zone is Bank) && (hangs || c.level_block <= block(bed)) ==> after.water
                == w.water
            &&& zone is Bay ==> after.ground == w.ground && after.carve == w.carve
            &&& zone is Bay && !hangs && c.level_block > block(w.ground) ==> after.water == greater(
                w.water,
                c.course.level,
            )
            &&& zone is Apron ==> after.water == w.water && after.carve == w.carve && after.ground == (if below(
                w.ground,
                c.apron,
            ) {
                c.apron
            } else {
                w.ground
            })
            &&& after.sea == w.sea && after.lake == w.lake && after.salt == w.salt && after.apron == w.apron
        }),
{
}

/// Then the lake: where it drowns the ground that the river left, and the
/// river does not keep its water there, the sample is the lake's, at least at
/// the lake's level; otherwise the lake changes nothing.
pub proof fn lakes_come_after_rivers(s: Site, ms: Measuring)
    requires
        !at_sea(s),
        s.lake is Some,
    ensures
        ({
            let c = (ms.cut)(shored(s));
            let w = rivered(shored(s), c, ms.block);
            let lake = s.lake->0;
            let taken = (ms.drowned)(w.ground) && !c.course.owned(lake.lowered, c.strip, w.carve);
            &&& taken ==> settled(s, ms).lake && settled(s, ms).salt == lake.flood.salt && settled(
                s,
                ms,
            ).water == greater(w.water, lake.flood.level) && settled(s, ms).ground == w.ground
            &&& !taken ==> settled(s, ms) == w
        }),
{
}

/// Last the pond, on land that no lake may flood: inside the mask, on ground
/// that is open, a basin is dug, benched and filled; on shores that no river
/// carved or runs near, the ground is held up to the bank; elsewhere there is
/// no pond.
pub proof fn ponds_come_last(s: Site, ms: Measuring)
    requires
        !at_sea(s),
        s.lake is None,
    ensures
        ({
            let c = (ms.cut)(shored(s));
            let w = rivered(shored(s), c, ms.block);
            let allowed = pond_site(s, w.apron).spec_allowed();
            let inside = below(s.pond.mask, (-0x3FE0_0000_0000_0000) as i64) && at_most(
                0x3FEF_F7CE_D916_872B,
                s.pond.valley,
            );
            let clear = at_most(w.carve, 0) && below(c.strip, c.course.dist);
            let after = settled(s, ms);
            &&& !allowed || (!inside && !clear) ==> after == w
            &&& allowed && !inside && clear ==> after == (Wetting {
                ground: if below(w.ground, s.pond.bank) {
                    s.pond.bank
                } else {
                    w.ground
                },
                ..w
            })
            &&& allowed && inside ==> {
                let b = (ms.basin)(w);
                let benches = at_most(w.water, b.ground) && below(b.ground, s.pond.bench) && (ms.rim)(
                    b.ground,
                ).within;
                let ground = if benches {
                    s.pond.bench
                } else {
                    b.ground
                };
                &&& after.ground == ground && after.carve == b.carve
                &&& below(ground, s.pond.pool) && at_most(s.pond.pool, (ms.rim)(ground).brim)
                    ==> after.water == greater(w.water, s.pond.pool)
                &&& !below(ground, s.pond.pool) || !at_most(s.pond.pool, (ms.rim)(ground).brim)
                    ==> after.water == w.water
            }
        }),
{
}

/// A pond reads its place: the sample's detail, climate and relief, whether a
/// lake may flood it, and whether it is a lake's shore.
pub proof fn ponds_read_their_place(s: Site, apron: bool)
    ensures
        ({
            let p = pond_site(s, apron);
            &&& p.octaves == s.pond.octaves && p.rain == s.pond.rain && p.rough == s.pond.rough
            &&& p.elevation == s.elevation && p.relief == s.pond.relief && p.level == s.pond.level
            &&& p.flooded == (s.lake is Some) && p.apron == apron
        }),
{
}

} // verus!
