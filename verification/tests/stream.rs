//! Tiles, chunks, caches, frames and captures.

use triangulum::body::BodyId;
use triangulum::cache::{mesh_rule, moon_rule, Residents, MESH_BUDGET};
use triangulum::capture::{bytes_per_row, strip_rows, usable_size, Action, Phase, Settle, Streams};
use triangulum::chunk::ChunkKey;
use triangulum::chunk_stream::ChunkStream;
use triangulum::frame::{assign_slots, ease, layer_seed, record_sample, DrawKey};
use triangulum::table::Table;
use triangulum::tile::{
    impostor_cap, impostor_stride, keep_every, octave_count, select_tiles, Sight, TileKey,
};
use triangulum::tile_mesh::{
    border, impostor_columns, impostor_drawn, kept_impostors, parent_cell, roots, shores, sphere_indices,
    tile_indices, vertex_paint, wet_paint, Paint, WetPaint,
};
use triangulum::ranking::{nearest_lights, slow_frame};
use triangulum::tile_frame::{Motion, Stage, TileFrame};
use triangulum::tile_stream::{forecasts, live_budget, unbuilt, Forecast, Refresh, TileStream};
use triangulum::measure::{measure, NEG_INFINITE};
use triangulum::tree::TreeKind;

fn m(x: f64) -> i64 {
    measure(x.to_bits())
}

fn tile(level: u8, ix: u16, iy: u16) -> TileKey {
    TileKey { face: 0, level, ix, iy, deep: false }
}

fn chunk(cx: u64) -> ChunkKey {
    ChunkKey { body: BodyId::Neisor, face: 0, cx, cy: 0 }
}

#[test]
fn tables_keep_one_value_per_key() {
    let mut t: Table<u8> = Table::new();
    assert!(t.is_empty());
    t.insert(5, 1);
    t.insert(2, 2);
    t.insert(5, 3);
    assert_eq!((t.len(), t.get(5), t.get(2), t.get(9)), (2, Some(3), Some(2), None));
    assert_eq!(t.entry(0), (2, 2));
    t.remove(2);
    t.remove(77);
    assert!(t.contains(5) && !t.contains(2));
    t.clear();
    assert!(t.is_empty());
}

#[test]
fn tiles_are_split_where_they_are_coarse() {
    let far = |_: TileKey| Sight { hidden: false, coarse: false, near: false };
    assert_eq!(select_tiles(far).len(), 6);
    let hidden = |_: TileKey| Sight { hidden: true, coarse: true, near: true };
    assert!(select_tiles(hidden).is_empty());
    let split = |k: TileKey| Sight { hidden: false, coarse: k.face == 0 && k.level == 0, near: false };
    assert_eq!(select_tiles(split).len(), 9);
    let k = tile(3, 5, 6);
    assert_eq!(k.parent(), tile(2, 2, 3));
    assert_eq!(tile(2, 2, 3).child(1, 0), k);
    assert_ne!(k.code(), k.parent().code());
}

#[test]
fn octaves_and_impostors_follow_the_level() {
    let counts: Vec<u32> = (0..=15).map(octave_count).collect();
    assert_eq!(counts, vec![0, 0, 0, 0, 0, 0, 0, 1, 2, 3, 4, 5, 6, 7, 8, 8]);
    assert_eq!((impostor_stride(12), impostor_stride(11), impostor_stride(10)), (4, 8, 0));
    assert_eq!((impostor_cap(12), impostor_cap(11)), (2600, 1400));
    assert_eq!((keep_every(2600, 2600), keep_every(2601, 2600), keep_every(0, 2600)), (1, 2, 1));
    let (kept, every) = kept_impostors(3000, 11);
    assert_eq!((every, kept.len(), kept[1], kept[999]), (3, 1000, 3, 2997));
    assert!(kept_impostors(0, 12).0.is_empty());
    assert_eq!(
        impostor_columns(10, 18, 7, 12, 4),
        vec![(10, 7), (10, 11), (14, 7), (14, 11), (18, 7), (18, 11)]
    );
    assert!(impostor_columns(5, 4, 0, 9, 4).is_empty());
    assert!(impostor_drawn(m(0.001), m(0.2), Some(TreeKind::Conifer), m(0.01)));
    assert!(!impostor_drawn(m(0.001), m(0.2), Some(TreeKind::Shrub), m(0.01)));
    assert!(!impostor_drawn(m(0.02), m(0.2), Some(TreeKind::Conifer), m(0.01)));
    assert!(!impostor_drawn(m(0.001), m(0.2), None, m(0.01)));
    assert!(roots(false, m(0.010), m(0.0005), m(-6.0)));
    assert!(!roots(true, m(0.010), m(0.0), m(5.0)));
    assert!(!roots(false, m(0.0099), m(0.0), m(5.0)));
    assert!(!roots(false, m(0.5), m(0.0006), m(5.0)));
    assert!(!roots(false, m(0.5), m(0.0), m(-6.1)));
    for nan in [f64::NAN, -f64::NAN] {
        assert!(roots(false, m(nan), m(nan), m(nan)));
        assert!(impostor_drawn(m(nan), m(0.2), Some(TreeKind::Conifer), m(0.01)));
        assert!(impostor_drawn(m(0.001), m(nan), Some(TreeKind::Conifer), m(nan)));
        assert_eq!(shores(false, true, m(0.4), m(nan)).1, false);
    }
}

#[test]
fn tile_triangles_tile_the_grid_and_hang_a_skirt() {
    let indices = tile_indices();
    assert_eq!(indices.len(), 32 * 32 * 6 + 4 * 32 * 6);
    assert_eq!(&indices[0..6], &[0, 1, 33, 1, 34, 33]);
    assert_eq!(&indices[6138..6144], &[1054, 1055, 1087, 1055, 1088, 1087]);
    assert_eq!(&indices[6144..6150], &[0, 1, 1089, 1, 1090, 1089]);
    assert!(indices.iter().all(|i| *i < 1221));
    let hem = border();
    assert_eq!((hem.len(), hem[0], hem[33], hem[66], hem[99]), (132, 0, 1056, 0, 32));
    assert_eq!(hem[131], 1088);
    let sphere = sphere_indices();
    assert_eq!(sphere.len(), 32 * 64 * 6);
    assert_eq!(&sphere[0..6], &[0, 65, 1, 1, 65, 66]);
    assert_eq!(sphere.iter().max(), Some(&2144));
}

#[test]
fn coarser_vertices_lie_on_the_finer_grid() {
    let c = parent_cell(4, 6);
    assert_eq!((c.corners[0], c.between_columns, c.between_rows), (3 * 17 + 2, false, false));
    let c = parent_cell(5, 6);
    assert_eq!((c.corners[0], c.corners[1], c.between_columns), (53, 54, true));
    let c = parent_cell(32, 32);
    assert_eq!(c.corners, [288, 288, 288, 288]);
}

#[test]
fn vertices_show_water_ice_or_ground() {
    assert_eq!(vertex_paint(true, false, m(-4.5)), Paint::Frost);
    assert_eq!(vertex_paint(false, true, m(-4.0)), Paint::Water);
    assert_eq!(vertex_paint(false, false, m(-40.0)), Paint::Ground);
    assert_eq!(wet_paint(true, true, false, true), WetPaint::Bare);
    assert_eq!(wet_paint(true, false, false, true), WetPaint::Sharp(true));
    assert_eq!(wet_paint(false, false, false, true), WetPaint::Feathered);
    assert_eq!(shores(false, true, NEG_INFINITE, m(9.0)), (true, false));
    assert_eq!(shores(false, false, m(0.5), m(9.0)), (false, true));
    assert_eq!(shores(false, false, m(0.5), m(-9.0)), (false, false));
}

#[test]
fn tiles_stream_in_behind_their_parents() {
    let mut s = TileStream::new();
    let parent = tile(2, 0, 0);
    let kids: Vec<TileKey> = vec![parent.child(0, 0), parent.child(1, 0)];
    // nothing to stand in for them: build now
    let (later, now) = s.split_missing(&kids, false);
    assert!(later.is_empty());
    assert_eq!(now, kids);
    s.built(parent, 1000, 3, 1, false);
    let (later, now) = s.split_missing(&kids, false);
    assert!(now.is_empty());
    assert_eq!(later.len(), 2);
    // asked once
    assert!(s.split_missing(&kids, false).0.is_empty());
    // captures never wait
    assert_eq!(s.split_missing(&kids, true).1, kids);
    let (k, epoch) = later[0];
    assert!(!s.land(k, epoch + 1000, 3, 3, 10, 2));
    assert!(s.land(k, epoch, 3, 3, 10, 2));
    assert!(!s.land(k, epoch, 3, 3, 10, 2));
    let r = s.resolve(&kids);
    assert_eq!(r.draw, vec![parent]);
    assert!(r.build.is_empty());
    let (k, epoch) = later[1];
    assert!(s.land(k, epoch, 3, 3, 10, 2));
    assert_eq!(s.resolve(&kids).draw, kids);
    assert!(!s.deferred(&kids, 3));
    assert!(s.deferred(&kids, 4));
    assert_eq!(s.stale(&kids, 4), kids);
    match s.refresh_stale(&kids, 4, false) {
        Refresh::Later(list) => assert_eq!(list.len(), 2),
        Refresh::Now(_) => panic!("a live frame waits for nothing"),
    }
    match s.refresh_stale(&kids, 4, true) {
        Refresh::Now(list) => assert_eq!(list, kids),
        Refresh::Later(_) => panic!("a capture waits"),
    }
}

#[test]
fn edited_chunks_are_rebuilt_behind_their_old_mesh() {
    let mut s = ChunkStream::new();
    let keys = vec![chunk(1), chunk(2)];
    let (requests, missing) = s.queue(&keys, 0);
    assert_eq!((requests.len(), &missing), (2, &keys));
    assert!(s.drawable(&keys).is_empty());
    for (k, epoch) in &requests {
        assert!(s.land(*k, *epoch, 0, 100, 1));
    }
    assert_eq!(s.drawable(&keys), keys);
    assert!(!s.deferred(&keys, 0));
    // an edit keeps the old mesh on the screen and asks for a new one
    s.invalidate_chunks(&vec![chunk(1)]);
    assert_eq!(s.drawable(&keys), keys);
    let (again, _) = s.queue(&keys, 0);
    assert_eq!(again.len(), 1);
    assert!(s.deferred(&keys, 0));
    let (k, old) = again[0];
    // a second edit orphans the build in flight
    s.invalidate_chunks(&vec![chunk(1)]);
    let (fresh, _) = s.queue(&keys, 0);
    assert!(!s.land(k, old, 0, 100, 2));
    assert!(s.land(fresh[0].0, fresh[0].1, 0, 100, 2));
    s.replace_world();
    assert!(s.drawable(&keys).is_empty());
}

#[test]
fn caches_keep_recent_meshes() {
    let mut r = Residents::new();
    for k in 0..8u64 {
        r.upload(k, MESH_BUDGET / 4, 0, k);
        r.touch(k, k);
    }
    // every mesh was drawn within the protected window
    r.enforce(mesh_rule(10, false));
    assert!(r.contains(7));
    let mut settled = Residents::new();
    for k in 0..8u64 {
        settled.upload(k, MESH_BUDGET / 4, 0, k);
        settled.touch(k, k);
    }
    settled.enforce(mesh_rule(1000, true));
    assert!(settled.contains(7) && !settled.contains(0));
    let mut moon = Residents::new();
    moon.upload(1, u64::MAX / 4, 0, 5);
    moon.touch(1, 5);
    moon.enforce(moon_rule(5));
    assert!(moon.contains(1));
    let mut crowd = Residents::new();
    for k in 0..3u64 {
        crowd.upload(k, 1, 0, 0);
        crowd.touch(k, k * 100);
    }
    crowd.forget_old(2, 250);
    assert!(!crowd.contains(0) && !crowd.contains(1) && crowd.contains(2));
    assert_eq!(crowd.get(2).map(|m| m.last_used), Some(200));
}

#[test]
fn slots_go_to_chunks_first() {
    let mut lunar = chunk(5);
    lunar.body = BodyId::Moon;
    let d = assign_slots(&vec![chunk(1), lunar], &vec![tile(0, 0, 0)], &vec![tile(1, 0, 0)]);
    assert_eq!(d.terrain, vec![DrawKey::Chunk(chunk(1)), DrawKey::Tile(tile(0, 0, 0))]);
    assert_eq!(d.moon, vec![tile(1, 0, 0)]);
    assert_eq!(d.lunar, vec![lunar]);
    assert_eq!((ease(10, 10, false), ease(19, 10, false), ease(28, 10, false)), (18, 9, 0));
    assert_eq!(ease(10, 10, true), 0);
    let mut window: Vec<u32> = (0..240).collect();
    record_sample(&mut window, 999);
    assert_eq!((window.len(), window[0], window[239]), (240, 1, 999));
    assert_eq!(layer_seed(0, 1), 0x9E37_79B1);
    assert_eq!(layer_seed(-1, 0), 0u32.wrapping_sub(0x9E37_79B1));
}

#[test]
fn captures_settle_before_they_finish() {
    let busy = Streams { chunks_pending: true, tiles_pending: false, deferred: true };
    let idle = Streams { chunks_pending: false, tiles_pending: false, deferred: false };
    let mut s = Settle::new(false);
    assert_eq!(s.decide(busy), Action::AwaitChunk);
    s.chunk_arrived(true);
    let tiles = Streams { chunks_pending: false, tiles_pending: true, deferred: true };
    let mut a = s.decide(tiles);
    if a == Action::TrimChunks {
        a = s.decide(tiles);
    }
    assert_eq!(a, Action::AwaitTile);
    s.tile_arrived();
    assert_eq!(s.decide(idle), Action::Redraw);
    s.redrawn();
    assert_eq!(s.decide(idle), Action::Finish);
    assert_eq!(s.phase, Phase::Done);
    let mut stuck = Settle::new(false);
    assert_eq!(stuck.decide(busy), Action::AwaitChunk);
    stuck.stalled();
    assert_eq!(stuck.decide(busy), Action::GiveUp);
}

#[test]
fn stalled_captures_trim_what_landed() {
    let busy = Streams { chunks_pending: true, tiles_pending: false, deferred: true };
    let mut s = Settle::new(false);
    assert_eq!(s.decide(busy), Action::AwaitChunk);
    assert!(!s.chunk_arrived(true));
    assert_eq!(s.decide(busy), Action::AwaitChunk);
    s.stalled();
    assert_eq!(s.decide(busy), Action::TrimChunks);
    assert_eq!(s.decide(busy), Action::GiveUp);
    // a rejected chunk leaves nothing to trim
    let mut rejected = Settle::new(false);
    assert_eq!(rejected.decide(busy), Action::AwaitChunk);
    assert!(!rejected.chunk_arrived(false));
    rejected.stalled();
    assert_eq!(rejected.decide(busy), Action::GiveUp);
}

#[test]
fn captured_rows_lose_their_padding() {
    assert_eq!((bytes_per_row(1), bytes_per_row(64), bytes_per_row(65)), (256, 256, 512));
    let mut data = vec![0u8; 512];
    data[0..4].copy_from_slice(&[1, 2, 3, 4]);
    data[256..260].copy_from_slice(&[5, 6, 7, 8]);
    assert_eq!(strip_rows(&data, 1, 2, false), vec![1, 2, 3, 255, 5, 6, 7, 255]);
    assert_eq!(strip_rows(&data, 1, 2, true), vec![3, 2, 1, 255, 7, 6, 5, 255]);
    assert!(usable_size(1, 1) && !usable_size(0, 5) && !usable_size(5, 0));
}

#[test]
fn the_nearest_torches_light_the_scene() {
    let dists: Vec<i64> = (0..20).map(|k| m((20 - k) as f64)).collect();
    let lit = nearest_lights(&dists);
    let expected: Vec<usize> = (4..20).rev().collect();
    assert_eq!(lit, expected);
    assert_eq!(nearest_lights(&vec![7, 3, 7, 1]), vec![3, 1, 0, 2]);
    assert!(nearest_lights(&vec![]).is_empty());
}

#[test]
fn slow_frames_begin_at_the_ninety_fifth_of_a_hundred() {
    let few: Vec<i64> = (0..29).map(|k| m(k as f64)).collect();
    assert_eq!(slow_frame(&few), None);
    let window: Vec<i64> = (0..240).map(|k| m(240.0 - k as f64)).collect();
    assert_eq!(slow_frame(&window), Some(11));
    let steady: Vec<i64> = (0..30).map(|_| m(16.7)).collect();
    assert_eq!(slow_frame(&steady), Some(28));
}

#[test]
fn a_sinking_camera_looks_down_first() {
    assert_eq!(forecasts(m(-0.01)), [Forecast::Near, Forecast::Far, Forecast::Above]);
    assert_eq!(forecasts(m(0.0)), [Forecast::Above, Forecast::Near, Forecast::Far]);
    assert_eq!(live_budget(m(0.005)), 4);
    assert_eq!(live_budget(m(0.006)), 8);
    for nan in [f64::NAN, -f64::NAN] {
        assert_eq!(forecasts(m(nan)), [Forecast::Above, Forecast::Near, Forecast::Far]);
        assert_eq!(live_budget(m(nan)), 4);
    }
}

fn run_frame(s: &mut TileStream, keys: &Vec<TileKey>, frame: &mut TileFrame) -> (Vec<TileKey>, usize) {
    let mut asked = 0;
    let ahead = vec![tile(3, 4, 4), tile(3, 5, 5), tile(3, 6, 6)];
    loop {
        let work = frame.step(s, keys, 7, &ahead);
        asked += work.spawn.len();
        for k in work.build {
            s.built(k, 100, 7, 1, work.forget);
        }
        if let Some(draw) = work.draw {
            return (draw, asked);
        }
    }
}

#[test]
fn frames_build_what_nothing_stands_in_for() {
    let mut s = TileStream::new();
    let keys = vec![tile(2, 0, 0), tile(2, 1, 0)];
    let motion = Some(Motion { delta: m(-0.2), moved: m(0.2) });
    let mut frame = TileFrame::new(false, motion);
    assert_eq!((frame.budget, frame.order[0]), (8, Forecast::Near));
    let (draw, asked) = run_frame(&mut s, &keys, &mut frame);
    assert_eq!(draw, keys);
    // three forecast tiles once, and the one parent
    assert_eq!((asked, frame.spent, frame.stage, frame.deferred), (4, 4, Stage::Done, false));
    // a finer view draws the parent until its children land
    let kids = vec![keys[0].child(0, 0), keys[0].child(1, 1)];
    let mut frame = TileFrame::new(false, None);
    let (draw, asked) = run_frame(&mut s, &kids, &mut frame);
    assert_eq!(draw, vec![keys[0]]);
    assert_eq!((asked, frame.deferred), (2, true));
    // a capture waits for nothing and looks nowhere
    let mut frame = TileFrame::new(true, motion);
    let (draw, asked) = run_frame(&mut s, &kids, &mut frame);
    assert_eq!(draw, kids);
    assert_eq!((asked, frame.spent, frame.deferred), (0, 0, false));
}

#[test]
fn only_tiles_without_a_mesh_are_unbuilt() {
    let mut meshes = Residents::new();
    let keys = vec![tile(2, 0, 1), tile(2, 3, 1), tile(1, 0, 0)];
    assert_eq!(unbuilt(&meshes, &keys), keys);
    meshes.upload(keys[1].code(), 10, 0, 1);
    assert_eq!(unbuilt(&meshes, &keys), vec![keys[0], keys[2]]);
}
