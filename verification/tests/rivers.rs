//! Rivers and lakes: the file, the reaches, the index, the courses and the
//! water of a sample.

use triangulum::buckets::{Buckets, Rect};
use triangulum::courses::{
    braids, fall_sites, fall_strength, level_law, river_near, LevelLaw, SegmentSight,
};
use triangulum::hash::{river_bits, splitmix64, torch_phase, wind_bits};
use triangulum::hydrology::{
    is_sea, land_floor, pond_part, Course, Flood, PondPart, PondSite, Wetting, Zone,
};
use triangulum::lakes::{lake_at, nearest_cells, NearbyCell, Relation, Standing};
use triangulum::measure::{measure, stored, INFINITE, NEG_INFINITE};
use triangulum::reaches::{build_reaches, link_segments};
use triangulum::rivers_file::{parse_rivers, LakeRecord, Node, RiverFault, SegmentRecord};
use triangulum::sampling::{sample, Basin, Cut, Lake, PondFacts, Rim, Site};

fn m(x: f64) -> i64 {
    measure(x.to_bits())
}

#[test]
fn mixers_match_their_published_values() {
    // the first outputs of the generator seeded with zero
    assert_eq!(splitmix64(0), 0xE220_A839_7B1D_CDAF);
    assert_eq!(splitmix64(0x9E37_79B9_7F4A_7C15), 0x6E78_9E6A_A1B9_65F4);
    assert_ne!(river_bits(1, 2, 3, 4), river_bits(1, 2, 3, 5));
    assert_ne!(wind_bits(1, 2, 3, 1), wind_bits(1, 2, 3, 2));
    assert_ne!(torch_phase(0, 1, 2), torch_phase(0, 2, 1));
}

fn node(x: f32, y: f32, z: f32) -> Node {
    Node { x: x.to_bits(), y: y.to_bits(), z: z.to_bits() }
}

fn segment(a: Node, b: Node) -> SegmentRecord {
    SegmentRecord { a, b, flow_log: 3.0f32.to_bits(), level_a: 0, level_b: 0 }
}

#[test]
fn river_files_are_read_whole() {
    let mut raw = b"RIV1".to_vec();
    raw.extend_from_slice(&1u32.to_le_bytes());
    raw.extend_from_slice(&2u32.to_le_bytes());
    for v in [1.0f32, 0.0, 0.0, 0.0, 1.0, 0.0, 3.5, 0.25, 0.125] {
        raw.extend_from_slice(&v.to_le_bytes());
    }
    for flags in [1.0f32, 2.0] {
        for v in [0.0f32, 0.0, 1.0, 15.0, 0.5, flags] {
            raw.extend_from_slice(&v.to_le_bytes());
        }
    }
    let file = parse_rivers(&raw).unwrap();
    assert_eq!(file.segments.len(), 1);
    assert_eq!(file.segments[0].b, node(0.0, 1.0, 0.0));
    assert_eq!(f32::from_bits(file.segments[0].level_b), 0.125);
    assert_eq!(file.lakes.len(), 2);
    assert!(file.lakes[0].salt() && !file.lakes[0].rim());
    assert!(!file.lakes[1].salt() && file.lakes[1].rim());
    assert_eq!(f32::from_bits(file.lakes[1].radius), 15.0);

    assert!(matches!(parse_rivers(b"RIV1"), Err(RiverFault::BadHeader)));
    assert!(matches!(parse_rivers(b"RIV2\0\0\0\0\0\0\0\0"), Err(RiverFault::BadHeader)));
    raw.push(0);
    assert!(matches!(parse_rivers(&raw), Err(RiverFault::SizeMismatch)));
    assert_eq!(RiverFault::BadHeader.message(), "bad rivers.bin header");
    assert_eq!(
        RiverFault::SizeMismatch.message(),
        "rivers.bin size mismatch - rerun scripts/bake_rivers.py"
    );
}

#[test]
fn reaches_run_from_junction_to_junction() {
    let p: Vec<Node> = (0..6).map(|i| node(i as f32, 0.0, 1.0)).collect();
    // 0 -> 1 -> 2, joined at 2 by 4 -> 2, then 2 -> 3
    let segs = vec![
        segment(p[0], p[1]),
        segment(p[1], p[2]),
        segment(p[4], p[2]),
        segment(p[2], p[3]),
    ];
    let links = link_segments(&segs, &vec![]);
    assert_eq!(links.next, vec![Some(1), None, None, None]);
    assert_eq!(build_reaches(&links), vec![vec![0, 1], vec![2], vec![3]]);
    // a lake cell at 1 pins the shore where the river enters it
    let lake = LakeRecord { center: p[1], radius: 0, level: 0, flags: 0 };
    let links = link_segments(&segs, &vec![lake]);
    assert_eq!(build_reaches(&links), vec![vec![0], vec![1], vec![2], vec![3]]);
    // a closed ring is still walked once
    let ring = vec![segment(p[0], p[1]), segment(p[1], p[2]), segment(p[2], p[0])];
    let chains = build_reaches(&link_segments(&ring, &vec![]));
    assert_eq!(chains, vec![vec![0, 1, 2]]);
}

#[test]
fn buckets_list_what_reaches_them() {
    let mut b = Buckets::empty();
    b.insert(Rect { face: 2, x0: 126, x1: 127, y0: 3, y1: 4 }, 9);
    b.insert(Rect { face: 2, x0: 127, x1: 127, y0: 4, y1: 4 }, 5);
    b.insert(Rect { face: 2, x0: 128, x1: 127, y0: 4, y1: 4 }, 7);
    assert_eq!(b.lookup(2, 126, 3), &vec![9]);
    assert_eq!(b.lookup(2, 127, 4), &vec![9, 5]);
    assert_eq!(b.lookup(2, 500, 4), &vec![9, 5]);
    assert!(b.lookup(2, 125, 3).is_empty());
    assert!(b.lookup(3, 126, 3).is_empty());
}

fn cell(dist: f64, rim: bool, level: f32) -> NearbyCell {
    NearbyCell { dist: m(dist), rim, salt: false, level: level.to_bits() }
}

fn relation(boundary: f64, level: f64, band: f64, member: f64) -> Relation {
    Relation {
        boundary: m(boundary),
        level: m(level),
        raised: m(level + 0.03),
        band_past: m(band),
        member_past: m(member),
    }
}

fn standing(past: f64, reach_past: f64, reach_margin: f64, band: f64) -> Standing {
    Standing {
        level: m(0.5),
        dist: m(5.0),
        search: m(34.0),
        reach: m(5.0 + reach_margin),
        band: m(3.0 + band),
        near_dist: m(3.0),
        past: m(past),
        reach_past: m(reach_past),
        reach_margin: m(reach_margin),
        band_margin: m(band),
        past_negated: m(-past),
    }
}

#[test]
fn lakes_own_their_territory() {
    let cells = vec![cell(9.0, true, 0.5), cell(4.0, false, 0.5), cell(7.0, false, 0.9), cell(12.0, false, 0.5)];
    let near = nearest_cells(&cells).unwrap();
    assert_eq!((near.lake, near.rim, near.any), (1, Some(0), 1));
    let rel = vec![
        relation(2.5, 0.5, 0.0, 0.0),
        relation(0.0, 0.5, 0.0, 0.0),
        relation(1.5, 0.9, 0.0, 0.0),
        relation(9.0, 0.5, 0.0, 0.0),
    ];
    let hit = lake_at(&cells, near, &rel, standing(0.0, 0.0, 30.0, 1.0)).unwrap();
    assert!(hit.in_lake_voronoi && hit.rim_is_dam);
    assert_eq!(hit.boundary_dist, m(2.5));
    assert_eq!(hit.past_boundary, 0);
    assert_eq!(hit.apron_past, 0);
    assert_eq!(hit.competing_lake_boundary, m(1.5));
    assert_eq!(hit.higher_competing, Some(2));
    assert_eq!(hit.flood_edge_margin, m(1.5));
    assert!(hit.flood_eligible());
    let mut far = standing(0.0, 1.0, -1.0, 1.0);
    let out = lake_at(&cells, near, &rel, far).unwrap();
    assert!(!out.flood_eligible());
    assert_eq!(out.apron_past, m(1.0));
    far.search = far.dist;
    assert!(lake_at(&cells, near, &rel, far).is_none());
    far.search = m(f64::NAN);
    assert!(lake_at(&cells, near, &rel, far).is_none());
    far.search = m(-f64::NAN);
    assert!(lake_at(&cells, near, &rel, far).is_none());
}

#[test]
fn rims_dam_or_stop_the_flood() {
    let cells = vec![cell(3.0, true, 0.2), cell(5.0, false, 0.5), cell(8.0, false, 0.5)];
    let near = nearest_cells(&cells).unwrap();
    assert_eq!((near.lake, near.any), (1, 0));
    let at = standing(2.0, 0.0, 30.0, 4.0);
    let mut rel = vec![
        relation(1.0, 0.48, 0.75, 0.0),
        relation(0.0, 0.5, 0.0, 1.25),
        relation(9.0, 0.5, 0.0, 0.5),
    ];
    let dammed = lake_at(&cells, near, &rel, at).unwrap();
    assert!(!dammed.in_lake_voronoi && dammed.rim_is_dam);
    // the same lake's other cell brings the frontier closer than the band
    assert_eq!(dammed.apron_past, m(0.5));
    assert_eq!(dammed.flood_edge_margin, m(1.0).max(m(4.0)));
    assert!(dammed.flood_eligible());
    let outside = lake_at(&cells, near, &rel, standing(2.0, 0.0, 30.0, -0.5)).unwrap();
    assert!(!outside.flood_eligible());
    rel[0] = relation(1.0, 0.2, 0.75, 0.0);
    let open = lake_at(&cells, near, &rel, at).unwrap();
    assert!(!open.rim_is_dam);
    assert_eq!(open.apron_past, m(2.0));
    assert_eq!(open.flood_edge_margin, 0);
    assert!(!open.flood_eligible());
    assert_eq!(open.competing_lake_boundary, INFINITE);
    assert!(nearest_cells(&vec![cell(1.0, true, 0.0)]).is_none());
    assert!(nearest_cells(&vec![]).is_none());
}

#[test]
fn flooded_places_have_no_apron_and_positive_margins_flood() {
    let cells = vec![cell(3.0, true, 0.5), cell(5.0, false, 0.5)];
    let near = nearest_cells(&cells).unwrap();
    let rel = vec![relation(1.0, 0.5, 0.0, 0.0), relation(0.0, 0.5, 0.0, 1.25)];
    let hit = lake_at(&cells, near, &rel, standing(2.0, 0.0, 30.0, 4.0)).unwrap();
    assert!(hit.flood_eligible());
    assert_eq!(hit.apron_past, 0);
    assert!(hit.flood_edge_margin > 0);
    assert!(hit.past_boundary == m(2.0) && hit.boundary_dist == m(1.0));
}

#[test]
fn distances_that_are_no_numbers_are_not_compared() {
    for nan in [f64::NAN, -f64::NAN] {
        // the first lake cell cannot be beaten where its distance is no number
        let cells = vec![cell(nan, false, 0.5), cell(4.0, false, 0.5), cell(9.0, true, 0.5)];
        let near = nearest_cells(&cells).unwrap();
        assert_eq!((near.lake, near.rim, near.any), (0, Some(2), 1));
        // a later one never wins
        let cells = vec![cell(4.0, false, 0.5), cell(nan, false, 0.5), cell(nan, true, 0.5)];
        let near = nearest_cells(&cells).unwrap();
        assert_eq!((near.lake, near.rim, near.any), (0, Some(2), 0));
        let see = |straight: f64, dist: f64| SegmentSight { straight: m(straight), dist: m(dist) };
        let pick = river_near(&vec![see(1.0, 3.0), see(nan, 2.0), see(1.0, nan)]).unwrap();
        assert_eq!(pick.winner, 1);
        assert_eq!(pick.sharing, vec![0, 1, 2]);
        assert_eq!(fall_strength(m(1.0), m(1.0), m(nan)), 0);
        assert_eq!(fall_strength(m(nan), m(nan), m(1.0)), m(1.0));
        assert_eq!(fall_sites(&vec![m(nan), m(0.0), m(1.0)]), vec![0, 2]);
        assert_eq!(level_law(m(nan), m(1.0), m(1.0)), LevelLaw::Fall);
        assert_eq!(level_law(m(0.5), m(nan), m(1.0)), LevelLaw::Fall);
        assert!(braids(m(nan), m(nan), m(0.1), m(0.2)));
        assert!(!braids(m(1.0e9), m(0.0), m(nan), m(0.2)));
    }
}

#[test]
fn places_belong_to_the_nearest_river_they_feel() {
    let see = |straight: f64, dist: f64| SegmentSight { straight: m(straight), dist: m(dist) };
    let pick = river_near(&vec![see(1.0, 3.0), see(5.0, 0.1), see(2.0, 2.5), see(4.0, 3.5), see(0.0, 2.5)]);
    let pick = pick.unwrap();
    assert_eq!(pick.winner, 2);
    assert_eq!(pick.sharing, vec![0, 2, 4]);
    assert!(river_near(&vec![see(9.0, 9.0)]).is_none());
    assert!(river_near(&vec![]).is_none());
}

#[test]
fn falls_need_length_drop_and_strength() {
    assert_eq!(fall_strength(m(20.0), m(0.22), m(0.9)), m(0.9));
    assert_eq!(fall_strength(m(20.0), m(0.22), m(0.079)), 0);
    assert_eq!(fall_strength(m(20.0), m(0.0), m(0.9)), 0);
    assert_eq!(fall_strength(m(0.0), m(0.22), m(0.9)), 0);
    assert_eq!(fall_sites(&vec![0, m(0.5), 0, m(0.08)]), vec![1, 3]);
    assert_eq!(level_law(m(0.0), m(0.9), m(0.2)), LevelLaw::Upper);
    assert_eq!(level_law(m(1.0), m(0.9), m(0.2)), LevelLaw::Lower);
    assert_eq!(level_law(m(0.5), m(0.0), m(0.2)), LevelLaw::Grade);
    assert_eq!(level_law(m(0.5), m(0.9), m(0.2)), LevelLaw::Fall);
    assert!(braids(m(2_200.0), m(0.0008), m(0.1), m(0.2)));
    assert!(!braids(m(2_199.0), m(0.0008), m(0.1), m(0.2)));
    assert!(!braids(m(2_200.0), m(0.0009), m(0.1), m(0.2)));
    assert!(!braids(m(2_200.0), m(0.0008), m(0.2), m(0.2)));
}

#[test]
fn the_sea_lies_on_its_side_of_the_coast() {
    assert!(is_sea(m(-0.01), m(0.5), m(0.0)));
    assert!(!is_sea(m(-0.01), m(0.49), m(0.9)));
    assert!(is_sea(m(-0.1), m(0.0), m(0.36)));
    assert!(!is_sea(m(-0.1), m(0.0), m(0.35)));
    assert!(!is_sea(m(0.001), m(1.0), m(1.0)));
    assert_eq!(land_floor(m(0.03)), m(0.002));
    assert_eq!(land_floor(m(0.02)), m(-9.0));
    let w = Wetting::at_sea(m(-2.0));
    assert_eq!((w.ground, w.water, w.sea), (m(-0.006), 0, true));
    assert!(w.has_water());
    assert_eq!(w.render_h(), 0);
}

#[test]
fn rivers_carve_and_fill_their_zones() {
    let course = Course {
        dist: m(0.01),
        half: m(0.05),
        edge: m(0.2),
        bay: m(0.4),
        level: m(1.0),
        perch: m(0.0),
    };
    let at = |dist: f64| Course { dist: m(dist), ..course };
    assert_eq!(course.zone(), Zone::Bed);
    assert_eq!(at(0.05).zone(), Zone::Bank);
    assert_eq!(at(0.2).zone(), Zone::Bay);
    assert_eq!(at(0.4).zone(), Zone::Apron);
    assert_eq!(Course { half: 0, ..course }.zone(), Zone::Away);
    assert_eq!(Course { perch: m(0.5), ..at(0.3) }.zone(), Zone::Away);
    assert_eq!(Course { level: NEG_INFINITE, ..at(0.3) }.zone(), Zone::Away);

    let mut w = Wetting::on_land(m(1.2), m(1.2));
    assert!(!w.has_water());
    w.carve_channel(Zone::Bed, m(0.99), m(0.21));
    assert_eq!((w.ground, w.carve), (m(0.99), m(0.21)));
    w.fill_channel(&course, Zone::Bed, 1000, 990);
    assert_eq!(w.water, m(1.0));
    assert!(w.has_water());
    // rivers keep their ground in coarse drawings
    assert_eq!(w.render_h(), m(0.99));
    let mut dry = Wetting::on_land(m(0.9), m(0.9));
    dry.fill_channel(&Course { perch: m(0.5), ..course }, Zone::Bed, 1000, 900);
    assert!(!dry.has_water());
    dry.river_apron(Zone::Apron, m(0.95));
    assert_eq!((dry.ground, dry.reference), (m(0.95), m(0.95)));
    dry.river_apron(Zone::Bay, m(5.0));
    assert_eq!(dry.ground, m(0.95));
}

#[test]
fn lakes_flood_and_hold_their_shores() {
    let mut w = Wetting::on_land(m(1.0), m(1.0));
    w.shore_apron(false, m(-4.0), Some(m(1.1)));
    assert!(w.apron);
    assert_eq!(w.ground, m(1.1));
    let mut cold = Wetting::on_land(m(1.0), m(1.0));
    cold.shore_apron(false, m(-4.5), Some(m(1.1)));
    cold.shore_apron(true, m(9.0), Some(m(1.1)));
    cold.shore_apron(false, m(9.0), None);
    assert_eq!(cold.ground, m(1.0));
    let flood = Flood { level: m(1.3), salt: true };
    cold.flood(flood, false, false);
    assert!(!cold.lake);
    cold.flood(flood, true, true);
    assert!(!cold.lake);
    cold.flood(flood, true, false);
    assert!(cold.lake && cold.salt);
    assert_eq!(cold.render_h(), m(1.3));
    let outlet = Course {
        dist: m(0.1),
        half: m(0.2),
        edge: 0,
        bay: 0,
        level: m(1.0),
        perch: 0,
    };
    assert!(outlet.owns(m(1.292), m(0.3), 0));
    assert!(!outlet.owns(m(1.0), m(0.3), 0));
    assert!(!outlet.owns(m(1.292), m(0.1), m(0.0005)));
    assert!(outlet.owns(m(1.292), m(0.1), m(0.0006)));
}

#[test]
fn ponds_lie_in_calm_wet_lowland() {
    let site = PondSite {
        octaves: 8,
        rain: m(551.0),
        rough: m(0.44),
        elevation: m(0.031),
        relief: m(0.129),
        flooded: false,
        apron: false,
        level: true,
    };
    assert!(site.allowed());
    assert!(!PondSite { octaves: 7, ..site }.allowed());
    assert!(!PondSite { rain: m(550.0), ..site }.allowed());
    assert!(!PondSite { rough: m(0.45), ..site }.allowed());
    assert!(!PondSite { elevation: m(0.03), ..site }.allowed());
    assert!(!PondSite { relief: m(0.13), ..site }.allowed());
    assert!(!PondSite { flooded: true, ..site }.allowed());
    assert!(!PondSite { apron: true, ..site }.allowed());
    assert!(!PondSite { level: false, ..site }.allowed());
    assert_eq!(pond_part(m(-0.51), m(1.0), 0, m(1.0), 0), PondPart::Pool);
    assert_eq!(pond_part(m(-0.5), m(1.0), 0, m(1.0), 0), PondPart::Shore);
    assert_eq!(pond_part(m(-0.51), m(0.9), 0, m(1.0), m(1.0)), PondPart::Outside);
    assert_eq!(pond_part(m(0.0), m(1.0), m(0.1), m(1.0), 0), PondPart::Outside);

    let mut w = Wetting::on_land(m(0.5), m(0.5));
    w.dig_pond(m(0.49), m(0.01));
    w.bench_pond(m(0.495), false);
    assert_eq!(w.ground, m(0.49));
    w.bench_pond(m(0.495), true);
    assert_eq!(w.ground, m(0.495));
    w.fill_pond(m(0.498), m(0.497));
    assert!(!w.has_water());
    w.fill_pond(m(0.498), m(0.5));
    assert_eq!(w.water, m(0.498));
    // ground under water is never benched
    let wet = w;
    w.bench_pond(m(0.6), true);
    assert!(w == wet);
    w.pond_apron(m(0.7));
    assert_eq!(w.ground, m(0.7));
}

#[test]
fn water_rules_ignore_what_is_no_number() {
    for nan in [f64::NAN, -f64::NAN] {
        assert!(!is_sea(m(nan), m(1.0), 0));
        assert!(!is_sea(m(-1.0), m(nan), m(nan)));
        assert_eq!(land_floor(m(nan)), land_floor(m(0.0)));
        let course = Course { dist: m(nan), half: m(0.2), edge: m(1.0), bay: m(2.0), level: m(1.0), perch: 0 };
        assert_eq!(course.zone(), Zone::Apron);
        assert_eq!(Course { half: m(nan), ..course }.zone(), Zone::Away);
        assert!(!course.owns(m(nan), m(0.3), m(1.0)));
        let mut w = Wetting::on_land(m(1.0), m(1.0));
        w.shore_apron(false, m(nan), Some(m(2.0)));
        w.shore_apron(false, m(9.0), Some(m(nan)));
        w.river_apron(Zone::Apron, m(nan));
        w.pond_apron(m(nan));
        w.bench_pond(m(nan), true);
        w.fill_pond(m(nan), m(2.0));
        assert_eq!(w.ground, m(1.0));
        assert!(!w.has_water());
        // a bed that is no number carves nothing
        w.carve_channel(Zone::Bed, m(nan), m(0.2));
        assert_eq!(w.ground, m(1.0));
        assert_eq!(pond_part(m(nan), m(1.0), m(nan), m(1.0), 0), PondPart::Outside);
    }
}

fn quiet_land() -> Site {
    Site {
        elevation: m(0.5),
        mask: 0,
        ocean: 0,
        temp: m(10.0),
        relief: m(0.52),
        reference: m(0.51),
        lake: None,
        shore: None,
        pond: PondFacts {
            octaves: 12,
            rain: m(900.0),
            rough: m(0.1),
            relief: m(0.1),
            level: true,
            mask: m(0.3),
            valley: m(1.0),
            pool: m(0.4982),
            bench: m(0.4967),
            bank: m(0.4),
        },
    }
}

fn no_river() -> Cut {
    Cut {
        course: Course {
            dist: INFINITE,
            half: 0,
            edge: 0,
            bay: 0,
            level: NEG_INFINITE,
            perch: 0,
        },
        bed: 0,
        carve: 0,
        level_block: i64::MIN,
        apron: 0,
        strip: 0,
    }
}

fn blocks(ground: i64) -> i64 {
    (f64::from_bits(stored(ground)) * 1000.0).floor() as i64
}

fn settle(site: &Site, cut: Cut, level: f64) -> Wetting {
    let at = |ground: i64| f64::from_bits(stored(ground));
    sample(
        site,
        |_| cut,
        blocks,
        |ground| level > at(ground) + 0.0005,
        |w| Basin { ground: m(at(w.ground) - 0.03), carve: m(0.03) },
        |ground| Rim { within: 0.4967 - at(ground) <= 0.15, brim: m(at(ground) + 0.032) },
    )
}

#[test]
fn samples_follow_the_rules_in_order() {
    let land = quiet_land();
    let dry = settle(&land, no_river(), 0.0);
    assert_eq!((dry.ground, dry.water, dry.carve), (m(0.52), NEG_INFINITE, 0));

    let sea = Site { elevation: m(-0.2), mask: m(0.9), ..land };
    let w = settle(&sea, no_river(), 9.0);
    assert_eq!((w.ground, w.water, w.sea, w.lake), (m(-0.006), 0, true, false));

    let river = Cut {
        course: Course {
            dist: m(0.01),
            half: m(0.02),
            edge: m(0.05),
            bay: m(0.1),
            level: m(0.505),
            perch: 0,
        },
        bed: m(0.5),
        carve: m(0.02),
        level_block: 505,
        apron: m(0.4),
        strip: m(0.03),
    };
    let w = settle(&land, river, 0.0);
    assert_eq!((w.ground, w.water, w.carve, w.lake), (m(0.5), m(0.505), m(0.02), false));

    let flood = Flood { level: m(0.53), salt: false };
    let lake = Lake { flood, lowered: m(0.522) };
    let w = settle(&Site { lake: Some(lake), ..land }, no_river(), 0.53);
    assert_eq!((w.ground, w.water, w.lake), (m(0.52), m(0.53), true));
    // a descending outlet keeps its own water
    let w = settle(&Site { lake: Some(lake), ..land }, river, 0.53);
    assert_eq!((w.water, w.lake), (m(0.505), false));

    // a shore apron keeps ponds off
    let pond = PondFacts { mask: m(-0.6), ..land.pond };
    let shore = Site { shore: Some(m(0.53)), pond, ..land };
    let w = settle(&shore, no_river(), 0.0);
    assert_eq!((w.ground, w.apron, w.carve), (m(0.53), true, 0));

    let w = settle(&Site { pond, ..land }, no_river(), 0.0);
    assert_eq!((w.ground, w.water, w.carve), (m(0.4967), m(0.4982), m(0.03)));
    let beside = PondFacts { bank: m(0.525), ..land.pond };
    let w = settle(&Site { pond: beside, ..land }, no_river(), 0.0);
    assert_eq!((w.ground, w.water), (m(0.525), NEG_INFINITE));
}
