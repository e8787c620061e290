//! Columns, edits, materials, trees, chunks and their meshes.

use triangulum::body::{
    columns_per_face_for_body, BodyId, MainBlock, MoonMaterial, SeasonalPlanet, StructuralSeason, CHUNK,
    COLUMNS_PER_FACE, LUNAR_COLUMNS_PER_FACE,
};
use triangulum::chunk::{
    canonical_column, canonical_column_body, chunks_touching_column, chunks_touching_column_body,
    select_chunks, ChunkKey,
};
use triangulum::chunk_mesh::{mesh_terrain, Shape};
use triangulum::column::{
    ceiling_above, col_ctx_at_season, creek_film, lunar_col_ctx_from_sample, support_below,
    water_render_top, water_surface, ColCtx, ColumnSample, CreekProbe, WaterSurface, DRY,
};
use triangulum::edits::{BodyEdits, Edits};
use triangulum::foliage::{build_chunk, mesh_trees, plant_forest};
use triangulum::forest::forest_density_span;
use triangulum::grid::Grid;
use triangulum::material::{lunar_surface_mat, mat_at, mat_main_block, sub_mat, surface_mat, Mat};
use triangulum::measure::{measure, stored};
use triangulum::readings::{has_cave_region, ColumnFields, CreekFields};
use triangulum::tree::{
    forest_signal, tree_at, tree_at_scaled, tree_biome_profile, tree_cells, tree_here, tree_kind_density,
    tree_trunk, Density, ForestSignal, TreeKind,
};

fn m(x: f64) -> i64 {
    measure(x.to_bits())
}

fn sample() -> ColumnSample {
    ColumnSample {
        ground0: 100,
        water: DRY,
        creek_film: false,
        cave_region: false,
        cave_tubes: 0,
        river_table: None,
        lake_table: None,
        sea_table: false,
        climate: MainBlock::Grass,
        frozen: false,
        carved: false,
        salt: false,
        sea: false,
        lake_shoal: false,
        lake_shore: false,
        beach: false,
        lake_known: false,
        river_known: false,
        river_over_lake: false,
        lake_band: false,
        tree: Some(TreeKind::Broadleaf),
        above_treeline: false,
        too_cold: false,
        tree_ticket: true,
    }
}

fn column(s: &ColumnSample) -> ColCtx {
    col_ctx_at_season(&Edits::new(), (0, 5, 5), s)
}

fn edited(s: &ColumnSample, delta: i64) -> ColCtx {
    let mut edits = Edits::new();
    edits.insert((0, 5, 5), delta);
    col_ctx_at_season(&edits, (0, 5, 5), s)
}

#[test]
fn edit_keys_are_separated_per_body() {
    let key = (0u8, 12u64, 34u64);
    let mut edits = BodyEdits::default();
    edits.for_body_mut(BodyId::Sun).insert(key, 7);
    edits.for_body_mut(BodyId::Neisor).insert(key, -1);
    edits.for_body_mut(BodyId::Moon).insert(key, 3);
    assert_eq!(edits.for_body(BodyId::Sun).get(&key), Some(&7));
    assert_eq!(edits.for_body(BodyId::Neisor).get(&key), Some(&-1));
    assert_eq!(edits.for_body(BodyId::Moon).get(&key), Some(&3));
    let none = vec![(0u8, 0u64, 0u64); 81];
    assert_ne!(
        chunks_touching_column_body(BodyId::Neisor, key.0, key.1, key.2, &none)[0],
        chunks_touching_column_body(BodyId::Moon, key.0, key.1, key.2, &none)[0]
    );
}

#[test]
fn edits_remember_the_last_value() {
    let mut e = Edits::new();
    assert_eq!(e.delta((1, 2, 3)), 0);
    e.insert((1, 2, 3), 4);
    e.insert((0, 9, 9), -2);
    e.insert((1, 2, 3), 5);
    assert_eq!(e.len(), 2);
    assert_eq!(e.delta((1, 2, 3)), 5);
    assert_eq!(e.get(&(0, 9, 9)), Some(&-2));
    assert_eq!(e.get(&(0, 9, 8)), None);
    let bodies = BodyEdits::from_neisor(e.clone());
    assert_eq!(bodies.for_body(BodyId::Neisor).len(), 2);
    assert_eq!(bodies.for_body(BodyId::Moon).len(), 0);
    assert_eq!(bodies.for_body(BodyId::Sun).len(), 0);
}

#[test]
fn lattices_hold_whole_chunks() {
    assert_eq!(LUNAR_COLUMNS_PER_FACE, 2_700_000);
    assert_eq!(LUNAR_COLUMNS_PER_FACE % CHUNK, 0);
    assert_eq!(COLUMNS_PER_FACE % CHUNK, 0);
    assert_eq!(columns_per_face_for_body(BodyId::Moon), 2_700_000);
    assert_eq!(columns_per_face_for_body(BodyId::Neisor), 10_000_000);
    let planet = std::sync::Arc::new(41u8);
    let seasonal = SeasonalPlanet::new(planet, StructuralSeason { enabled: true, bucket: 3 });
    assert_eq!((*seasonal.planet, seasonal.season.bucket), (41, 3));
}

/// What the column's forest signal says of a class and a climate.
fn signal(koppen: u8, forest: f64, temp: f64, precip: f64) -> ForestSignal {
    let m = |x: f64| measure(x.to_bits());
    let thin = tree_kind_density(koppen).map_or(false, |(_, d)| curve(forest) <= d as f64 / 10_000.0);
    forest_signal(m(forest), m(temp), m(precip), thin)
}

fn curve(forest: f64) -> f64 {
    let s = forest_density_span(measure(forest.to_bits()));
    let (from, to) = (f64::from_bits(stored(s.from)), f64::from_bits(stored(s.to)));
    let (y0, y1) = (s.sparse as f64 / 10_000.0, s.dense as f64 / 10_000.0);
    y0 + (y1 - y0) * ((forest - from) / (to - from))
}

fn profile(koppen: u8, block: MainBlock, forest: f64, temp: f64, precip: f64) -> Option<(TreeKind, f64)> {
    tree_biome_profile(koppen, block, &signal(koppen, forest, temp, precip)).map(|(kind, d)| {
        (
            kind,
            match d {
                Density::PerTenThousand(n) => n as f64 / 10_000.0,
                Density::ForestCurve => curve(forest),
            },
        )
    })
}

#[test]
fn tree_profile_follows_shared_surface_not_nearest_class() {
    let wooded = profile(13, MainBlock::Grass, 0.5, 15.0, 1_000.0)
        .expect("grass forest should grow trees");
    let sentinel_patch = profile(255, MainBlock::Grass, 0.5, 15.0, 1_000.0)
        .expect("a dithered grass island must not inherit sentinel barrenness");
    assert_eq!(wooded.0, sentinel_patch.0);
    assert!((wooded.1 - sentinel_patch.1).abs() < f64::EPSILON);
    assert!(
        profile(13, MainBlock::Sand, 0.5, 15.0, 1_000.0).is_none(),
        "a dithered sand island must not inherit forest eligibility"
    );
}

#[test]
fn tree_density_is_continuous_in_warped_forest_signal() {
    let densities: Vec<f64> = [0.15, 0.30, 0.50, 0.60, 0.85]
        .into_iter()
        .map(|forest| profile(13, MainBlock::Grass, forest, 12.0, 1_000.0).unwrap().1)
        .collect();
    assert!(densities.windows(2).all(|w| w[0] < w[1]), "{densities:?}");
    assert!((densities[4] - 0.0110).abs() < 0.000_1);
    // True zero-forest steppe/tundra retains its established sparse flora.
    assert_eq!(
        profile(6, MainBlock::Grass, 0.0, 2.0, 300.0),
        Some((TreeKind::Shrub, 0.0015))
    );
}

#[test]
fn placed_blocks_override_frozen_water() {
    let mut s = sample();
    s.water = 105;
    s.frozen = true;
    let natural = column(&s);
    assert!(natural.has_water() && natural.frozen);
    assert_eq!(natural.frozen_ice(), Some(105));
    let built = edited(&s, 1);
    assert_eq!(built.ground, natural.water + 1);
    assert!(!built.has_water());
    assert_eq!(built.frozen_ice(), None);
}

#[test]
fn digging_lowers_the_ground() {
    let c = edited(&sample(), -3);
    assert_eq!((c.ground, c.ground0), (97, 100));
    assert!(c.filled(97) && !c.filled(98));
    assert_eq!(c.top_solid(), 97);
    assert_eq!(c.walkable_top(), 97);
}

#[test]
fn liquids_surround_and_ice_carries() {
    let mut s = sample();
    s.water = 103;
    let lake = column(&s);
    assert_eq!(water_surface(&lake), WaterSurface::Open(103));
    assert_eq!(lake.walkable_top(), 100);
    s.frozen = true;
    let ice = column(&s);
    assert_eq!(water_surface(&ice), WaterSurface::Dry);
    assert_eq!(ice.walkable_top(), 103);
    assert_eq!(support_below(&ice, None, 110), 103);
    assert_eq!(support_below(&lake, None, 110), 100);
    assert_eq!(support_below(&column(&sample()), Some(4), 110), 104);
    assert_eq!(ceiling_above(&column(&sample()), None, 101), None);
}

#[test]
fn water_meets_a_dry_shore() {
    let mut s = sample();
    s.water = 105;
    let lake = column(&s);
    let mut low = sample();
    low.ground0 = 102;
    let shore = column(&low);
    let mut around = [lake; 8];
    assert_eq!(water_render_top(&lake, &around), 105);
    around[3] = shore;
    assert_eq!(water_render_top(&lake, &around), 102);
    low.ground0 = 60;
    around[4] = column(&low);
    assert_eq!(water_render_top(&lake, &around), 101);
}

#[test]
fn creeks_film_narrow_channels() {
    let dry = CreekProbe {
        wet: false,
        frozen: false,
        narrow: true,
        inside: false,
        near: true,
        sea: false,
        lake: false,
    };
    assert!(!creek_film(&dry, &vec![]));
    let wet = CreekProbe { wet: true, inside: true, ..dry };
    assert!(creek_film(&wet, &vec![]));
    assert!(creek_film(&dry, &vec![dry, wet]));
    assert!(!creek_film(&CreekProbe { frozen: true, ..wet }, &vec![]));
}

fn creek_fields() -> CreekFields {
    CreekFields {
        ground: m(0.1),
        water: m(0.1002),
        dist: m(0.0005),
        half: m(0.001),
        reach: m(0.002),
        frozen: false,
        sea: false,
        lake: false,
    }
}

#[test]
fn creek_probes_read_their_fields() {
    let f = creek_fields();
    let p = CreekProbe::read(&f);
    assert!(p.wet && p.narrow && p.inside && p.near && p.shows_film());
    let beside = CreekProbe::read(&CreekFields { dist: m(0.001), ..f });
    assert!(!beside.inside && beside.near && beside.needs_subcells());
    assert!(!CreekProbe::read(&CreekFields { dist: m(0.002), ..f }).near);
    assert!(!CreekProbe::read(&CreekFields { half: m(0.0015), ..f }).narrow);
    assert!(!CreekProbe::read(&CreekFields { half: m(0.0), ..f }).narrow);
    assert!(!CreekProbe::read(&CreekFields { water: m(0.1), ..f }).wet);
    assert!(!CreekProbe::read(&CreekFields { frozen: true, ..f }).shows_film());
    for nan in [f64::NAN, -f64::NAN] {
        let p = CreekProbe::read(&CreekFields { dist: m(nan), water: m(nan), ..f });
        assert!(!p.wet && !p.inside && !p.near && p.narrow);
        assert!(!CreekProbe::read(&CreekFields { half: m(nan), ..f }).narrow);
    }
}

fn column_fields() -> ColumnFields {
    ColumnFields {
        ground: m(0.1),
        ground_block: 100,
        water: m(f64::NEG_INFINITY),
        water_block: i64::MIN,
        creek_film: false,
        region: m(0.0),
        cave_tubes: 6,
        river_level: m(f64::NEG_INFINITY),
        river_block: i64::MIN,
        river_dist: m(f64::INFINITY),
        river_reach: m(0.05),
        lake_level: m(f64::NEG_INFINITY),
        lake_block: i64::MIN,
        lake_reach: m(f64::NEG_INFINITY),
        above_lake: m(f64::INFINITY),
        river_above_lake: m(f64::NAN),
        elevation: m(0.1),
        ocean: m(0.0),
        climate: MainBlock::Grass,
        frozen: false,
        carve: m(0.0),
        salt: false,
        sea: false,
        lake_shoal: false,
        shore_share: m(0.0),
        shore_draw: m(0.5),
        beach: false,
        tree: Some(TreeKind::Conifer),
        density: m(0.01),
        tree_draw: m(0.009),
        temp: m(10.0),
    }
}

#[test]
fn columns_read_their_fields() {
    let f = column_fields();
    let s = ColumnSample::read(&f);
    assert!(s.fits());
    assert_eq!((s.ground0, s.water, s.cave_tubes), (100, DRY, 6));
    assert!(s.cave_region && s.tree_ticket && s.tree == Some(TreeKind::Conifer));
    assert!(s.river_table.is_none() && s.lake_table.is_none() && !s.sea_table);
    assert!(!s.carved && !s.lake_shore && !s.lake_known && !s.river_known && !s.lake_band);
    assert!(!s.above_treeline && !s.too_cold && !s.river_over_lake);

    let wet = ColumnFields { water: m(0.103), water_block: 103, carve: m(0.0011), ..f };
    let s = ColumnSample::read(&wet);
    assert_eq!(s.water, 103);
    assert!(s.carved);
    assert!(!ColumnSample::read(&ColumnFields { carve: m(0.001), ..f }).carved);

    let shores = ColumnFields {
        river_level: m(0.2),
        river_block: 200,
        river_dist: m(0.04),
        lake_level: m(0.0995),
        lake_block: 99,
        lake_reach: m(0.1095),
        above_lake: m(0.0005),
        river_above_lake: m(0.1005),
        shore_share: m(0.6),
        ..f
    };
    let s = ColumnSample::read(&shores);
    assert_eq!((s.river_table, s.lake_table), (Some(200), Some(99)));
    assert!(s.lake_known && s.river_known && s.river_over_lake && s.lake_band && s.lake_shore);
    let s = ColumnSample::read(&ColumnFields { river_dist: m(0.05), above_lake: m(0.0016), ..shores });
    assert!(s.river_table.is_none() && !s.lake_band);
    assert!(!ColumnSample::read(&ColumnFields { river_block: i64::MAX, ..shores }).fits());

    let coast = ColumnFields { elevation: m(0.019), ocean: m(0.51), ..f };
    assert!(ColumnSample::read(&coast).sea_table);
    assert!(!ColumnSample::read(&ColumnFields { sea: true, ..coast }).sea_table);
    assert!(!ColumnSample::read(&ColumnFields { ocean: m(0.5), ..coast }).sea_table);

    assert!(has_cave_region(m(-0.049)) && !has_cave_region(m(-0.05)));
    assert!(!ColumnSample::read(&ColumnFields { region: m(-0.05), ..f }).cave_region);
    let cold = ColumnSample::read(&ColumnFields { temp: m(-6.5), ..f });
    assert!(cold.above_treeline && !cold.too_cold);
    assert!(ColumnSample::read(&ColumnFields { temp: m(-11.5), ..f }).too_cold);
    assert!(!ColumnSample::read(&ColumnFields { tree_draw: m(0.01), ..f }).tree_ticket);
    assert!(!ColumnSample::read(&ColumnFields { tree: None, ..f }).tree_ticket);
    for nan in [f64::NAN, -f64::NAN] {
        let s = ColumnSample::read(&ColumnFields { water: m(nan), temp: m(nan), density: m(nan), ..f });
        assert!(s.water == DRY && !s.above_treeline && s.tree_ticket);
        assert!(!has_cave_region(m(nan)));
    }
}

#[test]
fn moon_columns_are_bare() {
    let c = lunar_col_ctx_from_sample(&Edits::new(), (0, 1, 1), 42, MoonMaterial::Maria);
    assert_eq!((c.ground, c.ground0, c.water, c.cave_bits), (42, 42, DRY, 0));
    assert!(c.climate.is_none());
    assert_eq!(c.lunar, Some(MoonMaterial::Maria));
    assert_eq!(lunar_surface_mat(MoonMaterial::Ray), Mat::RegolithRay);
}

#[test]
fn materials_follow_the_surface() {
    let c = column(&sample());
    assert_eq!(surface_mat(&c, 0, MainBlock::Grass), Mat::Grass);
    assert_eq!(mat_at(&c, c.ground, Mat::Grass), Mat::Grass);
    assert_eq!(sub_mat(Mat::Grass), Mat::Dirt);
    assert_eq!(mat_main_block(Mat::Sand, MainBlock::Grass), MainBlock::Sand);
    assert_eq!(mat_main_block(Mat::Stone, MainBlock::Snow), MainBlock::Snow);
}

#[test]
fn trees_keep_off_edits_and_ignore_the_season() {
    let c = column(&sample());
    let around = [c; 8];
    let trunk = tree_trunk(TreeKind::Broadleaf, 1);
    assert_eq!(tree_at(&c, 1), Some((TreeKind::Broadleaf, trunk)));
    assert_eq!(tree_here(&c, &around, 1), Some((TreeKind::Broadleaf, trunk)));
    let mut winter = sample();
    winter.frozen = true;
    winter.climate = MainBlock::Snow;
    assert_eq!(tree_here(&column(&winter), &around, 1), tree_here(&c, &around, 1));
    assert_eq!(tree_at(&edited(&sample(), 1), 1), None);
    let mut steep = around;
    let mut high = sample();
    high.ground0 = 140;
    steep[0] = column(&high);
    assert_eq!(tree_here(&c, &steep, 1), None);
}

#[test]
fn trees_are_trunk_and_canopy() {
    let cells = tree_cells(TreeKind::Conifer, 6, 0);
    for z in 1..=6 {
        assert!(cells.contains(&(0, 0, z, Mat::Log)));
    }
    assert!(cells.iter().all(|c| c.0.abs() <= 2 && c.1.abs() <= 2));
    assert!(cells.iter().any(|c| c.3 == Mat::LeavesConifer));
    assert_eq!(
        tree_cells(TreeKind::Shrub, 0, 0),
        vec![(0, 0, 1, Mat::Shrub), (1, 0, 1, Mat::Shrub), (0, 1, 1, Mat::Shrub)]
    );
    assert_eq!(tree_cells(TreeKind::Shrub, 0, 3), vec![(0, 0, 1, Mat::Shrub)]);
    let acacia = tree_cells(TreeKind::Acacia, 1, 0);
    assert_eq!(acacia[0], (-2, -1, 2, Mat::LeavesAcacia));
    assert_eq!(acacia.len(), 21 + 1);
}

#[test]
fn columns_off_a_face_belong_to_its_neighbour() {
    let across = (3u8, 7u64, 8u64);
    assert_eq!(canonical_column(0, 5, 6, across), (0, 5, 6));
    assert_eq!(canonical_column(0, -1, 6, across), across);
    assert_eq!(canonical_column(0, 5, 10_000_000, across), across);
    assert_eq!(canonical_column_body(BodyId::Moon, 0, 5, 2_700_000, across), across);
    assert_eq!(canonical_column_body(BodyId::Moon, 0, 5, 2_699_999, across), (0, 5, 2_699_999));
}

#[test]
fn edits_remesh_every_chunk_that_sees_them() {
    let inner = chunks_touching_column(0, 48, 48, &vec![]);
    assert_eq!(inner, vec![ChunkKey { body: BodyId::Neisor, face: 0, cx: 1, cy: 1 }]);
    let corner = chunks_touching_column(0, 64, 64, &vec![]);
    let mut seen: Vec<(u64, u64)> = corner.iter().map(|k| (k.cx, k.cy)).collect();
    assert_eq!(seen[0], (2, 2));
    seen.sort();
    assert_eq!(seen, vec![(1, 1), (1, 2), (2, 1), (2, 2)]);
}

#[test]
fn chunks_come_nearest_first() {
    let picked = select_chunks(
        BodyId::Neisor,
        &vec![((0, 0, 0), 9), ((0, 40, 0), 1), ((0, 1, 1), 0), ((1, 40, 70), 4)],
    );
    let at: Vec<(u8, u64, u64)> = picked.iter().map(|k| (k.face, k.cx, k.cy)).collect();
    assert_eq!(at, vec![(0, 1, 0), (1, 1, 2), (0, 0, 0)]);
}

fn meadow() -> Grid {
    let mut s = sample();
    s.tree_ticket = false;
    Grid { cols: vec![column(&s); 1600] }
}

#[test]
fn flat_ground_shows_only_its_tops() {
    let faces = mesh_terrain(&meadow(), &vec![true; 4096]);
    assert_eq!(faces.len(), 1024);
    for f in &faces {
        assert!(matches!(f.shape, Shape::Top { z: 100, mat: Mat::Grass, depth: 0, .. }));
    }
}

#[test]
fn a_raised_column_shows_its_walls() {
    let mut g = meadow();
    let mut s = sample();
    s.ground0 = 102;
    // the column at (10, 10) of the chunk, four columns of margin around it
    g.cols[14 * 40 + 14] = column(&s);
    let faces = mesh_terrain(&g, &vec![true; 4096]);
    let walls = faces
        .iter()
        .filter(|f| matches!(f.shape, Shape::Wall { lo, hi, .. } if lo >= 101 && hi <= 102))
        .count();
    assert!(walls >= 4);
    assert!(faces.iter().any(|f| matches!(f.shape, Shape::Top { z: 102, .. })));
}

#[test]
fn chunks_hold_terrain_trees_and_torches() {
    let mut g = meadow();
    g.cols[20 * 40 + 20] = column(&sample());
    let draws = vec![(1i64, 0u64); 36 * 36];
    let key = ChunkKey { body: BodyId::Neisor, face: 0, cx: 3, cy: 4 };
    let torch = (0u8, 3 * 32 + 5, 4 * 32 + 6);
    let elsewhere = (0u8, 0u64, 0u64);
    let mesh = build_chunk(&g, &vec![true; 4096], &draws, key, &vec![torch, elsewhere]);
    assert_eq!(mesh.torches.len(), 1);
    assert_eq!((mesh.torches[0].i, mesh.torches[0].j, mesh.torches[0].top), (5, 6, 100));
    assert!(mesh.leaves.iter().any(|f| f.mat == Mat::Log));
    assert!(mesh.leaves.iter().any(|f| f.mat == Mat::LeavesBroad));
    let forest = plant_forest(&g, &draws);
    assert_eq!(mesh_trees(&g, &forest).len(), mesh.leaves.len());
    let bare = build_chunk(&meadow(), &vec![true; 4096], &draws, key, &vec![]);
    assert!(bare.leaves.is_empty() && bare.torches.is_empty());
}

#[test]
fn scaled_densities_only_add_trees() {
    let c = column(&sample());
    let m = |x: f64| triangulum::measure::measure(x.to_bits());
    let trunk = tree_trunk(TreeKind::Broadleaf, 2);
    let ticket = m(0.02);
    assert_eq!(tree_at_scaled(&c, ticket, m(0.005), 2), None);
    assert_eq!(tree_at_scaled(&c, ticket, m(0.02), 2), None);
    assert_eq!(tree_at_scaled(&c, ticket, m(0.005 * 16.0), 2), Some((TreeKind::Broadleaf, trunk)));
    assert_eq!(tree_at_scaled(&edited(&sample(), 1), ticket, m(1.0), 2), None);
    for nan in [f64::NAN, -f64::NAN] {
        assert_eq!(tree_at_scaled(&c, ticket, m(nan), 2), Some((TreeKind::Broadleaf, trunk)));
    }
}

#[test]
fn seasonal_planets_grow_the_annual_trees() {
    let planet = std::sync::Arc::new(());
    // trees by column; a season freezes everything, as far as it is asked
    let at = |i: i64, j: i64, season: StructuralSeason| {
        let mut s = sample();
        s.frozen = season.enabled;
        if season.enabled {
            s.ground0 += 7 * (i + j).rem_euclid(3);
        }
        column(&s)
    };
    let mut grown = Vec::new();
    for bucket in [0, 3] {
        let seasonal =
            SeasonalPlanet::new(planet.clone(), StructuralSeason { enabled: true, bucket });
        grown.push(seasonal.tree_at_column(5, 5, at, 1));
    }
    let c = column(&sample());
    assert_eq!(grown[0], tree_here(&c, &[c; 8], 1));
    assert!(grown[0].is_some());
    assert_eq!(grown[0], grown[1]);
    // the probes lie two columns and one diagonal step away
    let seasonal = SeasonalPlanet::new(planet, StructuralSeason::annual());
    for (di, dj) in [(2, 0), (-2, 0), (0, 2), (0, -2), (1, 1), (-1, -1), (1, -1), (-1, 1)] {
        let gully = |i: i64, j: i64, _: StructuralSeason| {
            let mut s = sample();
            if (i, j) == (5 + di, 5 + dj) {
                s.ground0 += 3;
            }
            column(&s)
        };
        assert_eq!(seasonal.tree_at_column(5, 5, gully, 1), None);
    }
    let elsewhere = |i: i64, j: i64, _: StructuralSeason| {
        let mut s = sample();
        if (i, j) == (7, 6) {
            s.ground0 += 3;
        }
        column(&s)
    };
    assert!(seasonal.tree_at_column(5, 5, elsewhere, 1).is_some());
}

#[test]
fn forests_thicken_and_keep_to_grass() {
    for koppen in [13, 255] {
        let mut last = 0.0;
        for forest in [0.001, 0.1, 0.2, 0.35, 0.45, 0.55, 0.7, 0.85] {
            let (kind, density) = profile(koppen, MainBlock::Grass, forest, 15.0, 1_000.0).unwrap();
            assert_eq!(kind, TreeKind::Broadleaf);
            assert!(density > last && density <= 0.0110 + 1e-12);
            last = density;
            for bare in [MainBlock::Sand, MainBlock::Snow] {
                assert_eq!(profile(koppen, bare, forest, 15.0, 1_000.0), None);
            }
        }
    }
    assert_eq!(profile(255, MainBlock::Grass, 0.0001, 15.0, 1_000.0), None);
}
