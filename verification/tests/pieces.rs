//! Measures, text, pictures, contours, the overlay, the synoptic map, the
//! clock, the look and the forest curve.

use triangulum::body::BodyId;
use triangulum::avatar::{drawn_avatars, glyph_rows, in_sight, label_pixels, quad_corners, quad_room};
use triangulum::clock::{
    accepted_rate, accepted_time, day_time_settable, effective_day_len, seasonal_ground, sun_aim, SunAim,
};
use triangulum::contours::{has_relief, is_index, land_extent, nice_step, ElevationField, Stroke};
use triangulum::forest::forest_density_span;
use triangulum::measure::{
    is_at_most, is_below, is_number, least, least_of, measure, most, nearest, stored, INFINITE, NEG_INFINITE,
};
use triangulum::narrowing::narrow_share;
use triangulum::overlay::{buffer_size, needs_buffer, pack, scissor, IndexRange, OverlayMesh, Scissor};
use triangulum::picture::{
    blend_map_pixel, decode_photo_scaled, picture_of, png_dims_and_rgba, shrink, stamp_disc, write_png,
    CaptureFault, Frame, Picture, PictureFault, Pixel, PngColor,
};
use triangulum::raycast::{raycast_column, RayStep};
use triangulum::synoptic::{desired_source, MapWork, SynopticMap, SynopticSource};
use triangulum::text::{
    begins_with, finishes_with, grab, is_blank, push_decimal, same_text, split_words, trim,
};

fn m(x: f64) -> i64 {
    measure(x.to_bits())
}

#[test]
fn measures_order_as_values_do() {
    let values = [f64::NEG_INFINITY, -4.0, -1e-300, 0.0, 1e-300, 0.5, 1.0, 1e9, f64::INFINITY];
    for pair in values.windows(2) {
        assert!(m(pair[0]) < m(pair[1]));
    }
    assert_eq!(m(-0.0), m(0.0));
    assert_eq!(m(f64::INFINITY), INFINITE);
    assert_eq!(m(f64::NEG_INFINITY), NEG_INFINITE);
    for v in values {
        assert_eq!(f64::from_bits(stored(m(v))), v);
    }
}

#[test]
fn nearest_takes_the_earliest_of_the_smallest() {
    assert_eq!(nearest(&vec![None, Some(4), Some(2), Some(2)]), Some(2));
    assert_eq!(nearest(&vec![None, None]), None);
    assert_eq!(least_of(&vec![None, Some(4), Some(9)], 6), 4);
    assert_eq!(least_of(&vec![Some(9)], 6), 6);
    for nan in [f64::NAN, -f64::NAN] {
        let n = m(nan);
        assert!(!is_number(n) && is_number(INFINITE) && is_number(NEG_INFINITE));
        assert!(!is_below(n, m(1.0)) && !is_below(m(1.0), n));
        assert!(!is_at_most(n, n) && is_at_most(m(1.0), m(1.0)));
        assert_eq!((least(n, m(2.0)), least(m(2.0), n), least(n, n)), (m(2.0), m(2.0), n));
        assert_eq!((most(n, m(2.0)), most(m(2.0), n)), (m(2.0), m(2.0)));
        assert_eq!(least_of(&vec![Some(n), None, Some(m(3.0))], m(4.0)), m(3.0));
        assert_eq!(nearest(&vec![None, Some(n), Some(m(1.0))]), Some(1));
        assert_eq!(nearest(&vec![Some(m(2.0)), Some(n), Some(m(1.0))]), Some(2));
    }
}

#[test]
fn words_are_parted_by_any_white_space() {
    assert_eq!(split_words("  a\u{2003}bc\n\u{a0}d "), vec!["a", "bc", "d"]);
    assert_eq!(split_words(" \t"), Vec::<String>::new());
    assert_eq!(trim(" \u{3000}x y\u{85}"), "x y");
    assert_eq!(trim("   "), "");
    assert!(is_blank("") && is_blank(" \r") && !is_blank(" ."));
    for c in 0..0x3100u32 {
        if let Some(c) = char::from_u32(c) {
            assert_eq!(is_blank(&c.to_string()), c.is_whitespace());
        }
    }
}

#[test]
fn text_is_cut_at_the_first_mark() {
    assert_eq!(grab("a_k1_k2u3", "_k", "u").as_deref(), Some("1"));
    assert_eq!(grab("a_k1u2", "_k", "u").as_deref(), Some("1"));
    assert_eq!(grab("a_k12", "_k", "u").as_deref(), Some("12"));
    assert_eq!(grab("abc", "_k", "u"), None);
    assert_eq!(grab("", "_k", "u"), None);
    assert!(begins_with("shot_1", "shot_") && !begins_with("sho", "shot_"));
    assert!(finishes_with("a.png", ".png") && !finishes_with("png", ".png"));
    assert!(same_text("walk", "walk") && !same_text("walk", "Walk") && !same_text("a", "ab"));
    let mut s = String::from("n=");
    push_decimal(&mut s, 90210);
    push_decimal(&mut s, 0);
    assert_eq!(s, "n=902100");
}

#[test]
fn captures_come_back_from_their_files() {
    let pixels: Vec<u8> = vec![10, 20, 30, 255, 40, 50, 60, 255, 200, 100, 50, 128, 9, 9, 9, 0];
    let data = write_png(2, 2, &pixels).unwrap();
    assert_eq!(&data[1..4], b"PNG");
    let p = png_dims_and_rgba(&data).unwrap();
    assert_eq!((p.width, p.height), (2, 2));
    assert_eq!(p.pixels[0], Pixel { r: 10, g: 20, b: 30, a: 255 });
    assert_eq!(p.pixels[1], Pixel { r: 40, g: 50, b: 60, a: 255 });
    // colour is scaled by the opacity
    assert_eq!(p.pixels[2], Pixel { r: 100, g: 50, b: 25, a: 128 });
    assert_eq!(p.pixels[3], Pixel { r: 0, g: 0, b: 0, a: 0 });
}

#[test]
fn captures_of_the_wrong_size_are_refused() {
    assert_eq!(write_png(2, 2, &[0u8; 15]).unwrap_err(), CaptureFault::WrongSize);
    assert_eq!(write_png(0, 3, &[]).unwrap_err(), CaptureFault::Refused);
    assert_eq!(write_png(u32::MAX, u32::MAX, &[]).unwrap_err(), CaptureFault::WrongSize);
}

#[test]
fn files_that_are_no_pictures_are_refused() {
    assert_eq!(png_dims_and_rgba(b"not a png").err(), Some(PictureFault::Undecodable));
    assert!(decode_photo_scaled(b"", 4).is_none());
    let gray = Frame { width: 2, height: 1, color: PngColor::Grayscale, bytes: vec![7, 8] };
    let p = picture_of(&gray).unwrap();
    assert_eq!(p.pixels, vec![Pixel { r: 7, g: 7, b: 7, a: 255 }, Pixel { r: 8, g: 8, b: 8, a: 255 }]);
    let rgb = Frame { width: 1, height: 1, color: PngColor::Rgb, bytes: vec![1, 2, 3] };
    assert_eq!(picture_of(&rgb).unwrap().pixels[0], Pixel { r: 1, g: 2, b: 3, a: 255 });
    let indexed = Frame { width: 9, height: 9, color: PngColor::Indexed, bytes: vec![] };
    assert_eq!(
        picture_of(&indexed).err(),
        Some(PictureFault::UnsupportedColor(PngColor::Indexed))
    );
}

#[test]
fn one_bit_pictures_are_too_narrow() {
    let mut data = Vec::new();
    {
        let mut enc = png::Encoder::new(&mut data, 16, 1);
        enc.set_color(png::ColorType::Grayscale);
        enc.set_depth(png::BitDepth::One);
        enc.write_header().unwrap().write_image_data(&[0xAA, 0x55]).unwrap();
    }
    assert_eq!(png_dims_and_rgba(&data).err(), Some(PictureFault::Narrow));
}

#[test]
fn wide_photos_are_thinned() {
    let mut pixels = Vec::new();
    for y in 0..4u8 {
        for x in 0..5u8 {
            pixels.extend_from_slice(&[x, y, 0, 255]);
        }
    }
    let data = write_png(5, 4, &pixels).unwrap();
    let small = decode_photo_scaled(&data, 2).unwrap();
    assert_eq!((small.width, small.height), (1, 1));
    let small = decode_photo_scaled(&data, 3).unwrap();
    assert_eq!((small.width, small.height), (2, 2));
    let at: Vec<(u8, u8)> = small.pixels.iter().map(|p| (p.r, p.g)).collect();
    assert_eq!(at, vec![(0, 0), (2, 0), (0, 2), (2, 2)]);
    assert_eq!(decode_photo_scaled(&data, 5).unwrap().width, 5);
    let p = Picture { width: 1, height: 1, pixels: vec![Pixel { r: 1, g: 2, b: 3, a: 4 }] };
    assert_eq!(shrink(p, 1).pixels[0].a, 4);
}

#[test]
fn colours_are_laid_on_once() {
    let blank = |w: usize, h: usize| Picture {
        width: w,
        height: h,
        pixels: vec![Pixel { r: 100, g: 100, b: 100, a: 255 }; w * h],
    };
    let ink = Pixel { r: 255, g: 0, b: 200, a: 128 };
    let mut image = blank(3, 3);
    blend_map_pixel(&mut image, 1, 2, ink);
    blend_map_pixel(&mut image, -1, 0, ink);
    blend_map_pixel(&mut image, 0, 3, ink);
    let a = 128.0f32 / 255.0;
    let mix = |d: f32, s: f32| (d * (1.0 - a) + s * a).round() as u8;
    for (k, p) in image.pixels.iter().enumerate() {
        if k == 7 {
            let want = Pixel { r: mix(100.0, 255.0), g: mix(100.0, 0.0), b: mix(100.0, 200.0), a: 255 };
            assert_eq!(*p, want);
        } else {
            assert_eq!(p.r, 100);
        }
    }
    // every opacity rounds as the real-valued mix does
    for s in 0..=255u32 {
        let a = s as f32 / 255.0;
        for d in [0u8, 1, 77, 128, 254, 255] {
            for o in [0u8, 3, 99, 200, 255] {
                let mut one = Picture { width: 1, height: 1, pixels: vec![Pixel { r: d, g: d, b: d, a: 255 }] };
                blend_map_pixel(&mut one, 0, 0, Pixel { r: o, g: o, b: o, a: s as u8 });
                assert_eq!(one.pixels[0].r, (d as f32 * (1.0 - a) + o as f32 * a).round() as u8);
            }
        }
    }
    let mut image = blank(5, 5);
    stamp_disc(&mut image, 2, 2, 1, ink);
    let touched: Vec<usize> =
        image.pixels.iter().enumerate().filter(|(_, p)| p.r != 100).map(|(k, _)| k).collect();
    assert_eq!(touched, vec![7, 11, 12, 13, 17]);
    stamp_disc(&mut image, 0, 0, -1, ink);
    assert_eq!(image.pixels[0].r, 100);
}

#[test]
fn inks_are_scaled_by_their_opacity() {
    let faint = triangulum::picture::ink(200, 100, 0, 51);
    assert_eq!((faint.r, faint.g, faint.b, faint.a), (40, 20, 0, 51));
    assert_eq!(triangulum::picture::ink(9, 8, 7, 255), Pixel { r: 9, g: 8, b: 7, a: 255 });
    assert_eq!(triangulum::picture::ink(9, 8, 7, 0), Pixel { r: 0, g: 0, b: 0, a: 0 });
}

/// The spacing of contour lines for a range of heights in view.
fn contour_interval_km(range: f64) -> f64 {
    if !has_relief(m(range)) {
        return 0.0;
    }
    let raw = (range / 12.0).max(0.002);
    let mag = 10f64.powf(raw.log10().floor());
    nice_step(m(raw / mag)) as f64 * mag
}

#[test]
fn contour_interval_snaps_nice_and_rejects_flat_views() {
    // nothing to contour: all-sea view (range is -inf), flat land, junk
    assert_eq!(contour_interval_km(f64::NEG_INFINITY), 0.0);
    assert_eq!(contour_interval_km(0.0), 0.0);
    assert_eq!(contour_interval_km(f64::NAN), 0.0);
    // planet-scale relief (~4.5 km in view): 500 m minors / 2 km index
    assert!((contour_interval_km(4.5) - 0.5).abs() < 1e-12);
    // a lowland valley with 300 m of relief tightens to 20 m lines
    assert!((contour_interval_km(0.3) - 0.02).abs() < 1e-12);
    // micro-relief never collapses below the 2 m raster-noise floor
    assert!(contour_interval_km(1e-4) >= 0.002);
    // zooming out (larger range) never tightens the interval
    let mut last = 0.0f64;
    for range in [0.01, 0.1, 0.5, 1.0, 2.0, 4.0, 8.0] {
        let step = contour_interval_km(range);
        assert!(step >= last, "interval shrank at range {range}: {step} < {last}");
        last = step;
    }
}

#[test]
fn contours_cross_between_bands() {
    let f = ElevationField {
        w: 3,
        h: 2,
        levels: vec![3, 4, 4, 3, 3, -8],
        sea: vec![false, false, false, false, true, false],
        contoured: true,
    };
    assert_eq!(f.stroke(0, 0), Stroke::Index);
    // the sea below is no crossing
    assert_eq!(f.stroke(1, 0), Stroke::Unmarked);
    assert_eq!(f.stroke(2, 0), Stroke::Index);
    assert_eq!(f.stroke(0, 1), Stroke::Unmarked);
    assert_eq!(f.stroke(1, 1), Stroke::Unmarked);
    assert_eq!(f.stroke(2, 1), Stroke::Unmarked);
    let g = ElevationField { w: 2, h: 1, levels: vec![5, 4], sea: vec![false, false], contoured: true };
    assert_eq!(g.stroke(0, 0), Stroke::Minor);
    let flat = ElevationField { contoured: false, ..g };
    assert_eq!(flat.stroke(0, 0), Stroke::Unmarked);
    assert!(is_index(-8) && is_index(0) && is_index(4) && !is_index(-7) && !is_index(i64::MAX));
    assert_eq!(land_extent(&vec![5, -2, 9], &vec![false, true, false]), (5, 9));
    assert_eq!(land_extent(&vec![5], &vec![true]), (INFINITE, NEG_INFINITE));
    for nan in [f64::NAN, -f64::NAN] {
        assert_eq!(land_extent(&vec![m(nan), 7], &vec![false, false]), (7, 7));
        assert_eq!(nice_step(m(nan)), 10);
        assert!(!has_relief(m(nan)));
    }
}

#[test]
fn meshes_are_packed_one_after_another() {
    let meshes = vec![
        OverlayMesh { vertices: 3, indices: vec![0, 1, 2] },
        OverlayMesh { vertices: 0, indices: vec![] },
        OverlayMesh { vertices: 4, indices: vec![0, 3, 1] },
    ];
    let p = pack(&meshes);
    assert_eq!(p.indices, vec![0, 1, 2, 3, 6, 4]);
    assert_eq!(
        p.ranges,
        vec![
            IndexRange { start: 0, end: 3 },
            IndexRange { start: 3, end: 3 },
            IndexRange { start: 3, end: 6 }
        ]
    );
    assert_eq!(buffer_size(0), 65_536);
    assert_eq!(buffer_size(65_537), 131_072);
    for need in [1u64, 65_536, 70_000, 1 << 40, (1 << 40) + 1] {
        assert_eq!(buffer_size(need), need.next_power_of_two().max(1 << 16));
    }
    assert!(needs_buffer(None, 0) && needs_buffer(Some(4), 5) && !needs_buffer(Some(5), 5));
    assert_eq!(scissor(1, 2, 9, 50, 8, 10), Some(Scissor { x: 1, y: 2, w: 7, h: 8 }));
    assert_eq!(scissor(8, 2, 9, 50, 8, 10), None);
    assert_eq!(scissor(1, 5, 9, 5, 8, 10), None);
}

#[test]
fn weather_maps_are_baked_on_the_side() {
    let live = desired_source(true, true, None, 7, 100);
    assert_eq!(live, SynopticSource::Live { seed: 7, time: 100 });
    assert_eq!(desired_source(false, true, Some((1, 2)), 7, 100), SynopticSource::Off);
    assert_eq!(desired_source(true, false, None, 7, 100), SynopticSource::Off);
    let pinned = desired_source(true, true, Some((1, 2)), 7, 100);
    assert_eq!(pinned, SynopticSource::Pinned { seed: 7, cover: 1, precip: 2 });
    let mut map = SynopticMap::new();
    assert_eq!(map.refresh(live, false), MapWork::Spawn);
    assert_eq!(map.refresh(live, false), MapWork::Poll);
    map.upload(live);
    assert_eq!(map.bakes, 1);
    assert_eq!(map.refresh(live, false), MapWork::Keep);
    assert_eq!(map.refresh(pinned, false), MapWork::Bake);
    map.upload(pinned);
    let later = desired_source(true, true, None, 7, 200);
    assert_eq!(map.refresh(later, false), MapWork::Spawn);
    // a capture does not wait for the background
    assert_eq!(map.refresh(later, true), MapWork::Bake);
    assert_eq!(map.pending, None);
}

#[test]
fn clocks_take_finite_times_only() {
    assert_eq!(accepted_time(m(-3.0)), Some(0));
    assert_eq!(accepted_time(m(3.5)), Some(m(3.5)));
    assert_eq!(accepted_time(m(f64::NAN)), None);
    assert_eq!(accepted_time(m(f64::INFINITY)), None);
    assert!(accepted_rate(m(0.1)) && !accepted_rate(m(0.0)) && !accepted_rate(m(f64::NAN)));
    assert_eq!(effective_day_len(m(0.0), m(1200.0)), m(1200.0));
    assert_eq!(effective_day_len(m(600.0), m(1200.0)), m(600.0));
    assert!(day_time_settable(m(600.0), false) && !day_time_settable(m(600.0), true));
    assert!(!day_time_settable(m(0.0), false));
    assert_eq!(sun_aim(true, m(0.0)), SunAim::Pinned);
    assert_eq!(sun_aim(false, m(0.0)), SunAim::Overhead);
    assert_eq!(sun_aim(false, m(600.0)), SunAim::Free);
    for nan in [f64::NAN, -f64::NAN] {
        assert!(!day_time_settable(m(nan), false));
        assert_eq!(sun_aim(false, m(nan)), SunAim::Free);
    }
    assert!(seasonal_ground(true, true) && !seasonal_ground(true, false));
}

#[test]
fn looks_meet_the_first_surface() {
    let step = |ci, below| RayStep { column: (0, ci, 0), below };
    let hit = raycast_column((0, 9, 0), &vec![step(1, false), step(2, false), step(3, true), step(4, true)]);
    let hit = hit.unwrap();
    assert_eq!((hit.hit, hit.air), ((0, 3, 0), (0, 2, 0)));
    let hit = raycast_column((0, 9, 0), &vec![step(1, true)]).unwrap();
    assert_eq!((hit.hit, hit.air), ((0, 1, 0), (0, 9, 0)));
    assert!(raycast_column((0, 9, 0), &vec![step(1, false)]).is_none());
}

#[test]
fn forests_follow_their_knots() {
    let density = |x: f64| {
        let s = forest_density_span(m(x));
        let (from, to) = (f64::from_bits(stored(s.from)), f64::from_bits(stored(s.to)));
        let t = (x.clamp(0.0, 1.0) - from) / (to - from);
        (s.sparse as f64 + (s.dense as f64 - s.sparse as f64) * t) / 10_000.0
    };
    for (x, want) in [
        (0.0, 0.0),
        (0.15, 0.0012),
        (0.30, 0.0025),
        (0.40, 0.0030),
        (0.50, 0.0050),
        (0.60, 0.0070),
        (0.85, 0.0110),
        (1.0, 0.0110),
        (-3.0, 0.0),
    ] {
        assert!((density(x) - want).abs() < 1e-12, "{x}");
    }
    assert!((density(0.55) - 0.0060).abs() < 1e-12);
}

#[test]
fn labels_are_five_by_seven_glyphs() {
    // the letter I: a bar with serifs
    let rows = glyph_rows('I');
    assert_eq!(rows.len(), 7);
    assert!(rows.iter().all(|r| *r < 32));
    assert_eq!(label_pixels(""), vec![]);
    let dots: usize = rows.iter().map(|r| r.count_ones() as usize).sum();
    assert_eq!(label_pixels("I").len(), dots);
    assert!(label_pixels("IIIIIIIIIIIIIIII").iter().all(|p| p.0 < 12));
    assert_eq!(quad_corners(0), vec![0, 1, 2, 0, 2, 3]);
    assert_eq!(quad_corners(131_070).len(), 2);
    assert_eq!(quad_room(131_072), 0);
    assert_eq!(drawn_avatars(99), 16);
    assert_eq!(drawn_avatars(3), 3);
}

#[test]
fn shares_are_rounded_to_the_nearest_narrow_value() {
    let mut values = vec![0.0, -0.0, 1.0, 0.5, 0.97, 0.9, 0.1, 1.0 / 3.0, 1.0 - f64::EPSILON / 2.0];
    // halves between two narrow values, and their neighbours
    for n in [0u32, 1, 2, 0x7F_FFFE, 0x7F_FFFF, 0x80_0000, 0x3F00_0001, 0x3F7F_FFFE, 0x3F7F_FFFF] {
        let (a, b) = (f64::from(f32::from_bits(n)), f64::from(f32::from_bits(n + 1)));
        let half = (a + b) / 2.0;
        values.extend([a, b, half]);
        values.extend([f64::from_bits(half.to_bits() - 1), f64::from_bits(half.to_bits() + 1)]);
    }
    let mut tiny = 1.0f64;
    while tiny > 0.0 {
        values.extend([tiny, f64::from_bits((tiny * 0.7).to_bits())]);
        tiny /= 2.0;
    }
    for v in values {
        assert_eq!(narrow_share(v.to_bits()), (v as f32).to_bits(), "{v:e}");
    }
}

#[test]
fn players_are_drawn_within_sight() {
    use_sight(0.00025, true);
    use_sight(10.0, true);
    use_sight(0.00024, false);
    use_sight(10.001, false);
    use_sight(f64::NAN, false);
    assert!(!in_sight(BodyId::Sun, true, m(1.0)));
    assert!(!in_sight(BodyId::Moon, false, m(1.0)));
}

fn use_sight(distance: f64, seen: bool) {
    assert_eq!(in_sight(BodyId::Moon, true, m(distance)), seen);
    assert_eq!(in_sight(BodyId::Neisor, true, m(distance)), seen);
}
