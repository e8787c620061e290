//! The photo map: selection, destinations, sidecars, trash and planning.

use triangulum::map_clicks::{photo_hint, photo_label, Lightbox, MarkerLook};
use triangulum::map_plan::{
    cloud_hint, cloud_source, map_weather_time_bucket, neighbours, relief_brightens, texture_size,
    wind_lines, wind_seeds, CloudSource,
};
use triangulum::measure::measure;
use triangulum::photo::{
    is_shot_name, parse_filename, photo_from_text, read_photo, scan_photos, FoundFile, MapBody, NamedPose, Photo,
};
use triangulum::photo_map::{
    BaseLayer, Bounds, MapSig, MapWindow, PhotoMap, Place, Screen, TravelDate, WHOLE_ZOOM,
};
use triangulum::sidecar::{apply_notes, edited_sidecar, sidecar_str, sidecar_weather, Pin};
use triangulum::trash::{trash_name, MoveOutcome, NameSearch, NameStep, Sweep};

fn m(x: f64) -> i64 {
    measure(x.to_bits())
}

fn js(text: &str) -> serde_json::Value {
    serde_json::from_str(text).unwrap()
}

fn sample_photo() -> Photo {
    Photo {
        name: "shot.png".into(),
        body: MapBody::Neisor,
        lat: 1.0f64.to_bits(),
        lon: 2.0f64.to_bits(),
        alt_km: 0.1f64.to_bits(),
        yaw_deg: 3.0f64.to_bits(),
        pitch_deg: (-4.0f64).to_bits(),
        roll_deg: 5.0f64.to_bits(),
        day_time_s: Some(600.0f64.to_bits()),
        weather_on: Some(true),
        weather_pin: Some(Pin { cover: 0.97f32.to_bits(), precip: 0.9f32.to_bits() }),
        weather_time_s: Some(24_000.0f64.to_bits()),
        ground_km: Some(0.2f64.to_bits()),
        mode: Some("fly".into()),
        day_len_s: Some(1200.0f64.to_bits()),
        seed: Some(42),
        title: String::new(),
        note: String::new(),
    }
}

/// The numbers of the typed words, as the app reads them.
fn typed(map: &PhotoMap) -> Vec<Option<u64>> {
    map.coord_words().iter().map(|w| w.parse::<f64>().ok().map(f64::to_bits)).collect()
}

#[test]
fn photo_weather_restore_is_opt_in_with_time_checkbox() {
    let parsed = sidecar_weather(&js(
        r#"{"weather": {"on": true, "pinned": [0.97, 0.9], "t_s": 24000.0}}"#,
    ))
    .unwrap();
    assert_eq!(parsed.on, true);
    let pin = parsed.pinned.unwrap();
    assert_eq!(
        (f32::from_bits(pin.cover), f32::from_bits(pin.precip)),
        (0.97, 0.9)
    );
    assert_eq!(parsed.time.map(f64::from_bits), Some(24_000.0));

    let mut map = PhotoMap::new();
    map.photos.push(sample_photo());
    map.selected = Some(0);

    let normal = map.destination(&vec![]).unwrap();
    assert_eq!(normal.body, MapBody::Neisor);
    assert_eq!(normal.day_time_s, None);
    assert_eq!(normal.weather_on, None);
    assert_eq!(normal.weather_pin, None);
    assert_eq!(normal.weather_time_s, None);
    assert_eq!(normal.roll_deg.map(f64::from_bits), Some(5.0));

    map.restore_time = true;
    let restored = map.destination(&vec![]).unwrap();
    assert_eq!(restored.day_time_s.map(f64::from_bits), Some(600.0));
    assert_eq!(restored.weather_on, Some(true));
    let pin = restored.weather_pin.unwrap();
    assert_eq!((f32::from_bits(pin.cover), f32::from_bits(pin.precip)), (0.97, 0.9));
    assert_eq!(restored.weather_time_s.map(f64::from_bits), Some(24_000.0));
}

#[test]
fn escape_backs_out_lightbox_then_selection_then_window() {
    let mut map = PhotoMap::new();
    // closed map: Esc is not ours to consume
    assert!(!map.handle_escape());
    map.open = true;
    map.selected = Some(0);
    map.custom_dest = Some(Place { lat: 1.0f64.to_bits(), lon: 2.0f64.to_bits() });
    map.lightbox_open = true;
    // 1st Esc: the lightbox closes, the selection stays on the map
    assert!(map.handle_escape());
    assert!(!map.lightbox_open);
    assert_eq!(map.selected, Some(0));
    // 2nd Esc: selection and free destination clear
    assert!(map.handle_escape());
    assert_eq!(map.selected, None);
    assert_eq!(map.custom_dest, None);
    // 3rd Esc: nothing left to pop
    assert!(!map.handle_escape());
}

#[test]
fn escape_withdraws_the_question_before_the_selection() {
    let mut map = PhotoMap::new();
    map.open = true;
    map.selected = Some(2);
    map.confirm_delete = true;
    assert!(map.handle_escape());
    assert!(!map.confirm_delete);
    assert_eq!(map.selected, Some(2));
}

#[test]
fn sidecar_notes_round_trip_preserves_other_fields() {
    // a representative sidecar with pose, repro, and weather fields
    let mut js = js(
        r#"{"lat_deg": 4.99, "lon_deg": -29.403, "alt_km": 0.047, "seed": 42, "mode": "walk",
            "weather": {"on": true, "pinned": [0.97, 0.9], "t_s": 24000.0}}"#,
    );
    apply_notes(&mut js, "Cliffside creek", "north bank, dusk light");

    // the two new fields land as strings
    assert_eq!(sidecar_str(&js, "title"), "Cliffside creek");
    assert_eq!(sidecar_str(&js, "note"), "north bank, dusk light");
    // every prior field is byte-for-byte untouched
    assert_eq!(js.get("lat_deg").and_then(|v| v.as_f64()), Some(4.99));
    assert_eq!(js.get("lon_deg").and_then(|v| v.as_f64()), Some(-29.403));
    assert_eq!(js.get("alt_km").and_then(|v| v.as_f64()), Some(0.047));
    assert_eq!(js.get("seed").and_then(|v| v.as_i64()), Some(42));
    assert_eq!(js.get("mode").and_then(|v| v.as_str()), Some("walk"));
    assert_eq!(js["weather"]["pinned"][0].as_f64(), Some(0.97));
    assert_eq!(js["weather"]["t_s"].as_f64(), Some(24_000.0));

    // re-saving overwrites just the two keys; 6 original keys + title + note = 8
    apply_notes(&mut js, "renamed", "");
    assert_eq!(sidecar_str(&js, "title"), "renamed");
    assert_eq!(sidecar_str(&js, "note"), "");
    assert_eq!(js.get("seed").and_then(|v| v.as_i64()), Some(42));
    assert_eq!(js.as_object().unwrap().len(), 8);
}

#[test]
fn sidecar_notes_default_to_empty_and_survive_non_object() {
    // legacy sidecar without the keys reads as empty, never an error
    let legacy = js(r#"{"lat_deg": 1.0, "lon_deg": 2.0}"#);
    assert_eq!(sidecar_str(&legacy, "title"), "");
    assert_eq!(sidecar_str(&legacy, "note"), "");

    // a corrupt / non-object sidecar becomes a fresh object with just the notes
    let mut junk = js(r#""not an object""#);
    apply_notes(&mut junk, "t", "n");
    assert_eq!(sidecar_str(&junk, "title"), "t");
    assert_eq!(sidecar_str(&junk, "note"), "n");
    assert_eq!(junk.as_object().unwrap().len(), 2);
}

#[test]
fn notes_that_are_not_text_read_as_empty() {
    let odd = js(r#"{"title": 7, "note": null}"#);
    assert_eq!(sidecar_str(&odd, "title"), "");
    assert_eq!(sidecar_str(&odd, "note"), "");
}

#[test]
fn edited_sidecars_keep_what_they_held() {
    let text = edited_sidecar(Some(r#"{"seed": 7}"#.to_string()), "T", "N").unwrap();
    let back = js(&text);
    assert_eq!(back["seed"].as_i64(), Some(7));
    assert_eq!(back["title"].as_str(), Some("T"));
    assert_eq!(back["note"].as_str(), Some("N"));
    // pretty-printed, fields in the order of their names
    assert_eq!(text, "{\n  \"note\": \"N\",\n  \"seed\": 7,\n  \"title\": \"T\"\n}");
    // missing and unreadable sidecars count as empty ones
    for raw in [None, Some("{ broken".to_string())] {
        let fresh = js(&edited_sidecar(raw, "a", "b").unwrap());
        assert_eq!(fresh.as_object().unwrap().len(), 2);
    }
}

#[test]
fn malformed_weather_spoils_the_record() {
    let on = |s: &str| sidecar_weather(&js(s));
    assert!(on(r#"{}"#).is_none());
    assert!(on(r#"{"weather": 3}"#).is_none());
    assert!(on(r#"{"weather": {"pinned": [0.1, 0.2]}}"#).is_none());
    assert!(on(r#"{"weather": {"on": 1}}"#).is_none());
    let plain = on(r#"{"weather": {"on": false, "pinned": null, "t_s": null}}"#).unwrap();
    assert_eq!((plain.on, plain.pinned, plain.time), (false, None, None));
    assert!(on(r#"{"weather": {"on": true, "pinned": [0.1]}}"#).is_none());
    assert!(on(r#"{"weather": {"on": true, "pinned": [0.1, 1.5]}}"#).is_none());
    assert!(on(r#"{"weather": {"on": true, "pinned": [-0.1, 0.5]}}"#).is_none());
    assert!(on(r#"{"weather": {"on": true, "pinned": [0.1, "x"]}}"#).is_none());
    assert!(on(r#"{"weather": {"on": true, "t_s": -1.0}}"#).is_none());
    assert!(on(r#"{"weather": {"on": true, "t_s": "soon"}}"#).is_none());
    let edge = on(r#"{"weather": {"on": true, "pinned": [0, 1], "t_s": 0}}"#).unwrap();
    assert_eq!(edge.pinned, Some(Pin { cover: 0.0f32.to_bits(), precip: 1.0f32.to_bits() }));
    assert_eq!(edge.time, Some(0));
}

#[test]
fn clouds_now_bucket_tracks_only_moving_or_seasonal_fields() {
    let bucket = |base, clouds, on, pin: Option<(f32, f32)>, t: f64| {
        map_weather_time_bucket(
            base,
            clouds,
            on,
            pin.is_some(),
            (t / 2.0).floor() as i64,
            (t / 60.0).floor() as i64,
        )
    };
    assert_eq!(bucket(BaseLayer::Biomes, true, true, None, 1.9), Some(0));
    assert_eq!(bucket(BaseLayer::Biomes, true, true, None, 2.0), Some(1));
    assert_eq!(bucket(BaseLayer::Biomes, true, true, Some((0.5, 0.0)), 60.0), None);
    assert_eq!(bucket(BaseLayer::Biomes, true, false, None, 60.0), None);
    assert_eq!(bucket(BaseLayer::Temperature, false, false, None, 60.0), Some(1));
    // the elevation base is season-independent: no periodic rebuild
    // unless live clouds are composited over it
    assert_eq!(bucket(BaseLayer::Elevation, false, true, None, 60.0), None);
    assert_eq!(bucket(BaseLayer::Elevation, true, true, None, 1.9), Some(0));
}

#[test]
fn opening_takes_the_roll_and_starts_afresh() {
    let mut map = PhotoMap::new();
    assert_eq!(map.join_name, "Player");
    map.selected = Some(4);
    map.lightbox_open = true;
    map.window = MapWindow { zoom: 7, lat: 8, lon: 9 };
    let mut moon = sample_photo();
    moon.body = MapBody::Moon;
    map.toggle(vec![sample_photo(), moon, sample_photo()]);
    assert!(map.open);
    assert_eq!(map.status, "2 Neisor photos");
    assert_eq!(map.selected, None);
    assert!(!map.lightbox_open);
    assert_eq!(map.window, MapWindow { zoom: WHOLE_ZOOM, lat: 0, lon: 0 });
    map.switch_body(MapBody::Moon);
    assert_eq!(map.status, "1 moon photos");
    assert_eq!(map.rows(), vec![1]);
    map.toggle(vec![]);
    assert!(!map.open);
    assert_eq!(map.photos.len(), 3);
}

#[test]
fn clicks_pick_the_nearest_marker_in_reach() {
    let mut map = PhotoMap::new();
    let mut moon = sample_photo();
    moon.body = MapBody::Moon;
    map.photos = vec![sample_photo(), moon, sample_photo(), sample_photo()];
    let place = Place { lat: 3.0f64.to_bits(), lon: 4.0f64.to_bits() };
    // the moon's marker is not shown here, the tie goes to the earlier one
    map.click(&vec![m(9.0), m(0.5), m(4.0), m(4.0)], place);
    assert_eq!(map.selected, Some(2));
    assert_eq!(map.custom_dest, None);
    assert!(map.scroll_to_selected);
    // out of reach: the place itself
    map.click(&vec![m(10.0), m(0.5), m(11.0), m(400.0)], place);
    assert_eq!(map.selected, None);
    assert_eq!(map.custom_dest, Some(place));
    // the first in reach is named, nearest or not
    assert_eq!(map.hovered(&vec![m(9.0), m(0.1), m(1.0), m(2.0)]), Some(0));
    assert_eq!(map.hovered(&vec![m(f64::NAN), m(20.0), m(-f64::NAN), m(20.0)]), None);
    map.layers.markers = false;
    assert_eq!(map.hovered(&vec![m(9.0), m(0.1), m(1.0), m(2.0)]), None);
    map.click(&vec![m(1.0), m(1.0), m(1.0), m(1.0)], place);
    assert_eq!(map.selected, None);
}

#[test]
fn double_clicks_enlarge_or_reset() {
    let mut map = PhotoMap::new();
    map.photos = vec![sample_photo()];
    map.window = MapWindow { zoom: 5, lat: 5, lon: 5 };
    assert!(!map.double_click(&vec![m(3.0)]));
    assert!(map.lightbox_open);
    assert_eq!(map.window.zoom, 5);
    assert!(map.double_click(&vec![m(30.0)]));
    assert_eq!(map.window.zoom, WHOLE_ZOOM);
}

#[test]
fn checked_photos_are_swept() {
    let mut map = PhotoMap::new();
    let mut moon = sample_photo();
    moon.body = MapBody::Moon;
    map.photos = vec![sample_photo(), moon, sample_photo()];
    map.ask_delete();
    assert!(!map.confirm_delete);
    map.select_all();
    assert_eq!(map.to_delete(), vec![0, 2]);
    map.set_checked(0, false);
    map.set_checked(9, true);
    assert_eq!(map.to_delete(), vec![2]);
    assert_eq!(map.marker_look(2), MarkerLook::Checked);
    map.row_click(2, false);
    assert_eq!(map.marker_look(2), MarkerLook::Selected);
    assert_eq!(map.marker_look(0), MarkerLook::Plain);
    map.ask_delete();
    assert!(map.confirm_delete);

    let mut sweep = Sweep::new();
    sweep.count(MoveOutcome::BothMoved);
    sweep.count(MoveOutcome::PhotoMoved);
    assert_eq!(sweep.status(), "moved 3 file(s) to interchange/trash/");
    sweep.count(MoveOutcome::NoName);
    sweep.count(MoveOutcome::PhotoStuck);
    sweep.count(MoveOutcome::SidecarStuck { put_back: true });
    sweep.count(MoveOutcome::SidecarStuck { put_back: false });
    assert_eq!((sweep.moved, sweep.failed), (3, 5));
    assert_eq!(sweep.status(), "moved 3 file(s); 5 file failure(s)");
    map.swept(&sweep, vec![sample_photo()]);
    assert_eq!(map.photos.len(), 1);
    assert_eq!(map.selected, None);
    assert!(!map.confirm_delete);
    assert_eq!(map.to_delete(), Vec::<usize>::new());

    map.sweep_refused("disk full");
    assert_eq!(map.status, "trash unavailable: disk full");
    map.notes_saved("shot.png", None);
    assert_eq!(map.status, "saved notes for shot.png");
    map.notes_saved("shot.png", Some("read-only"));
    assert_eq!(map.status, "note save failed: read-only");
    map.select_all();
    map.clear_checked();
    map.cancel_delete();
    assert_eq!(map.to_delete(), Vec::<usize>::new());
}

#[test]
fn trash_names_count_up_until_both_are_free() {
    let stem = "shot_a".to_string();
    let mut search = NameSearch::new();
    assert_eq!(trash_name(&stem, search.suffix), "shot_a");
    assert_eq!(search.answer(true, false), NameStep::Next);
    assert_eq!(search.answer(false, true), NameStep::Next);
    assert_eq!(trash_name(&stem, search.suffix), "shot_a-2");
    assert_eq!(search.answer(false, false), NameStep::Free);
    assert_eq!(trash_name(&stem, 1207), "shot_a-1207");
    let mut last = NameSearch { suffix: usize::MAX };
    assert_eq!(last.answer(true, true), NameStep::Exhausted);
}

#[test]
fn destinations_prefer_photo_then_place_then_text() {
    let mut map = PhotoMap::new();
    assert_eq!(map.teleport_label(), "Teleport");
    map.coord_input = " 12.5\t-34.25 0.75 ".into();
    assert_eq!(map.coord_words(), vec!["12.5", "-34.25", "0.75"]);
    assert_eq!(map.teleport_label(), "Teleport to coordinates");
    let a = map.destination(&typed(&map)).unwrap();
    assert_eq!(f64::from_bits(a.lat), 12.5);
    assert_eq!(f64::from_bits(a.lon), -34.25);
    assert_eq!(a.alt_km.map(f64::from_bits), Some(0.75));
    assert_eq!(a.walk, false);
    map.custom_dest = Some(Place { lat: 12.0f64.to_bits(), lon: (-34.0f64).to_bits() });
    map.body = MapBody::Moon;
    assert_eq!(map.teleport_label(), "Teleport to map point");
    let b = map.destination(&typed(&map)).unwrap();
    assert_eq!(b.body, MapBody::Moon);
    assert_eq!((f64::from_bits(b.lat), b.alt_km), (12.0, None));
    map.photos = vec![sample_photo()];
    map.photos[0].mode = Some("walk".into());
    map.photos[0].alt_km = 0.001f64.to_bits();
    map.selected = Some(0);
    assert_eq!(map.teleport_label(), "Teleport to photo");
    let c = map.destination(&typed(&map)).unwrap();
    assert!(c.walk);
    assert_eq!(c.alt_km.map(f64::from_bits), Some(0.0025));
    assert_eq!(c.body, MapBody::Neisor);
    // a selection beyond the roll leads nowhere
    map.selected = Some(7);
    assert_eq!(map.destination(&typed(&map)), None);
}

#[test]
fn typed_coordinates_are_strict() {
    let mut map = PhotoMap::new();
    let mut go = |text: &str| {
        map.coord_input = text.into();
        map.destination(&typed(&map))
    };
    assert!(go("").is_none());
    assert!(go("12").is_none());
    assert!(go("1 2 3 4").is_none());
    assert!(go("1 x").is_none());
    assert!(go("NaN 2").is_none());
    assert!(go("1 inf").is_none());
    assert!(go("90.5 2").is_none());
    assert!(go("-90 200").is_some());
    assert_eq!(go("1 2 -3").unwrap().alt_km, None);
    assert_eq!(go("1 2 0").unwrap().alt_km, None);
    assert_eq!(go("1 2 3").unwrap().alt_km.map(f64::from_bits), Some(3.0));
}

#[test]
fn committing_closes_only_with_somewhere_to_go() {
    let mut map = PhotoMap::new();
    map.open = true;
    assert!(map.commit(&vec![]).is_none());
    assert!(map.open);
    map.custom_dest = Some(Place { lat: 0, lon: 0 });
    assert!(map.commit(&vec![]).is_some());
    assert!(!map.open);
    assert!(map.destination(&vec![]).is_some());
    assert!(map.commit(&vec![]).is_none());
    assert!(!map.open);
}

#[test]
fn lightboxes_show_a_photo_or_close() {
    let mut map = PhotoMap::new();
    assert_eq!(map.settle_lightbox(), Lightbox::Closed);
    map.photos = vec![sample_photo()];
    map.row_click(0, true);
    assert_eq!(map.settle_lightbox(), Lightbox::Show(0));
    assert!(map.wants_lightbox(0) && map.wants_preview(0) && !map.wants_preview(1));
    map.lightbox_loaded(0);
    map.preview_loaded(0);
    assert!(!map.wants_lightbox(0) && !map.wants_preview(0));
    map.clear_selection();
    assert_eq!(map.preview, None);
    assert_eq!(map.settle_lightbox(), Lightbox::Closed);
    assert!(!map.lightbox_open);
    map.enlarge();
    map.close_lightbox();
    assert!(!map.lightbox_open);
    map.scroll_to_selected = true;
    map.scrolled();
    assert!(!map.scroll_to_selected);
}

#[test]
fn photos_are_called_by_title_or_name() {
    let mut p = sample_photo();
    assert_eq!(photo_label(&p), "shot.png");
    assert_eq!(photo_hint(&p), "shot.png");
    p.title = " \u{3000}".into();
    p.note = "dusk".into();
    assert_eq!(photo_label(&p), "shot.png");
    assert_eq!(photo_hint(&p), "shot.png\n\ndusk");
    p.title = "Creek".into();
    assert_eq!(photo_label(&p), "Creek");
}

#[test]
fn file_names_hold_a_pose() {
    let name = "shot_lat4.990_lon-29.403_alt0.047km_yaw37_pitch-29.png";
    assert!(is_shot_name(name));
    assert!(!is_shot_name("shot_lat1.jpg"));
    assert!(!is_shot_name("a_shot_.png"));
    let p = parse_filename(name).unwrap();
    assert_eq!(
        (p.lat.as_str(), p.lon.as_str(), p.alt_km.as_str(), p.yaw_deg.as_str(), p.pitch_deg.as_str()),
        ("4.990", "-29.403", "0.047", "37", "-29")
    );
    assert!(parse_filename("shot_lat4_lon5_alt6km.png").is_none());
}

#[test]
fn sidecar_poses_beat_file_names() {
    let name = "shot_x.png".to_string();
    let pose = NamedPose {
        lat: 9.0f64.to_bits(),
        lon: 8.0f64.to_bits(),
        alt_km: 7.0f64.to_bits(),
        yaw_deg: 6.0f64.to_bits(),
        pitch_deg: 5.0f64.to_bits(),
    };
    let full = photo_from_text(
        &name,
        Some(
            r#"{"lat_deg": 1.5, "lon_deg": 2.5, "day_len_s": -1, "seed": 12, "mode": "walk",
                "title": "A", "ground_km": 0.5}"#
                .to_string(),
        ),
        Some(pose),
    )
    .unwrap();
    assert_eq!(f64::from_bits(full.lat), 1.5);
    assert_eq!(f64::from_bits(full.alt_km), 0.3);
    assert_eq!(f64::from_bits(full.pitch_deg), -20.0);
    assert_eq!(full.day_len_s, None);
    assert_eq!(full.seed, Some(12));
    assert_eq!(full.mode.as_deref(), Some("walk"));
    assert_eq!(full.title, "A");
    assert_eq!(full.weather_on, None);
    // no place in the sidecar: the name's pose, the sidecar's notes
    let named = photo_from_text(&name, Some(r#"{"note": "n"}"#.to_string()), Some(pose)).unwrap();
    assert_eq!(f64::from_bits(named.lat), 9.0);
    assert_eq!(named.note, "n");
    // text that is no JSON counts as no sidecar
    let junk = photo_from_text(&name, Some("{{".to_string()), Some(pose)).unwrap();
    assert_eq!(f64::from_bits(junk.lon), 8.0);
    assert!(photo_from_text(&name, None, None).is_none());
    assert!(photo_from_text(&name, Some(r#"{"lat_deg": 1}"#.to_string()), None).is_none());
}

#[test]
fn moon_photos_read_the_bodys_own_fields_first() {
    let name = "shot_m.png".to_string();
    let v = js(
        r#"{"body": "MOON", "lat_deg": 1, "lon_deg": 2, "body_lat_deg": 3, "body_lon_deg": 4,
            "yaw_deg": 5, "weather": {"on": true}, "day_len_s": 1200.0}"#,
    );
    let p = read_photo(&name, Some(&v), None).unwrap();
    assert_eq!(p.body, MapBody::Moon);
    assert_eq!((f64::from_bits(p.lat), f64::from_bits(p.lon)), (3.0, 4.0));
    assert_eq!(f64::from_bits(p.alt_km), 25.0);
    assert_eq!(f64::from_bits(p.yaw_deg), 5.0);
    assert_eq!(p.weather_on, Some(true));
    assert_eq!(p.day_len_s.map(f64::from_bits), Some(1200.0));
    let focused = js(r#"{"focus_id": 1, "body_lat_deg": 3, "lon_deg": 2}"#);
    assert_eq!(read_photo(&name, Some(&focused), None).unwrap().body, MapBody::Moon);
    let other = js(r#"{"focus_id": 2, "body_lat_deg": 3, "lat_deg": 1, "lon_deg": 2}"#);
    assert_eq!(read_photo(&name, Some(&other), None).unwrap().body, MapBody::Neisor);
}

#[test]
fn rolls_come_newest_first() {
    let pose = NamedPose { lat: 0, lon: 0, alt_km: 0, yaw_deg: 0, pitch_deg: 0 };
    let file = |name: &str, modified: Option<i128>, sidecar: Option<&str>, posed: bool| FoundFile {
        name: name.to_string(),
        modified,
        sidecar: sidecar.map(str::to_string),
        pose: if posed { Some(pose) } else { None },
    };
    let files = vec![
        file("shot_a.png", Some(5), None, true),
        file("shot_b.png", None, Some(r#"{"lat_deg": 1, "lon_deg": 2, "title": "B"}"#), false),
        file("notes.txt", Some(99), None, true),
        file("shot_c.png", Some(9), None, true),
        file("shot_lost.png", Some(50), Some("{}"), false),
        file("shot_d.png", Some(5), None, true),
        file("shot_e.png", None, None, true),
        file("shot_f.png", Some(-3), None, true),
    ];
    let roll = scan_photos(&files);
    let names: Vec<&str> = roll.iter().map(|p| p.name.as_str()).collect();
    assert_eq!(
        names,
        vec!["shot_c.png", "shot_a.png", "shot_d.png", "shot_f.png", "shot_b.png", "shot_e.png"]
    );
    assert_eq!(roll[4].title, "B");
    assert!(scan_photos(&vec![]).is_empty());
}

#[test]
fn textures_keep_their_caps() {
    assert_eq!(texture_size(MapBody::Moon, true, BaseLayer::Biomes, 5000, 10), (640, 32));
    assert_eq!(texture_size(MapBody::Neisor, true, BaseLayer::Biomes, 5000, 5000), (512, 256));
    assert_eq!(texture_size(MapBody::Neisor, false, BaseLayer::Elevation, 5000, 5000), (1280, 640));
    assert_eq!(texture_size(MapBody::Neisor, false, BaseLayer::Temperature, 10, 100), (64, 100));
    assert_eq!(texture_size(MapBody::Neisor, false, BaseLayer::Precipitation, 970, 481), (960, 480));
}

#[test]
fn maps_are_painted_when_the_view_settles() {
    let bounds = Bounds { lat_top: m(90.0), lat_bot: m(-90.0), lon_left: m(-180.0), lon_right: m(180.0) };
    let sig = MapSig {
        w: 64,
        h: 32,
        body: MapBody::Neisor,
        base: BaseLayer::Biomes,
        relief: true,
        clouds: false,
        weather_on: false,
        weather_pin: None,
        weather_time_bucket: None,
        bounds,
    };
    let mut other = sig;
    other.relief = false;
    let mut map = PhotoMap::new();
    assert!(map.needs_map(&sig, true));
    map.map_painted(sig);
    assert!(!map.needs_map(&sig, false));
    assert!(map.needs_map(&other, false));
    assert!(!map.needs_map(&other, true));
    let screen = Screen { width: 800.0f32.to_bits(), height: 600.0f32.to_bits() };
    assert!(map.recenters(screen));
    assert!(!map.recenters(screen));
}

#[test]
fn clouds_come_from_pin_then_raster_then_field() {
    assert_eq!(cloud_source(true, true, true, true, None, 4), CloudSource::Pinned);
    assert_eq!(cloud_source(true, true, true, false, Some(4), 4), CloudSource::Raster);
    assert_eq!(cloud_source(true, true, true, false, Some(5), 4), CloudSource::Field);
    assert_eq!(cloud_source(true, true, false, false, Some(4), 4), CloudSource::Hidden);
    assert_eq!(cloud_source(false, true, true, false, None, 4), CloudSource::Hidden);
    assert_eq!(cloud_source(true, false, true, false, None, 4), CloudSource::Hidden);
    assert_eq!(cloud_hint(false, true), "weather is off; this layer is intentionally empty");
    assert_eq!(cloud_hint(true, true), "the renderer's pinned cloud-cover field");
    assert_eq!(
        cloud_hint(true, false),
        "the live synoptic cloud field at the current weather time"
    );
    assert!(relief_brightens(true, BaseLayer::Temperature, true));
    assert!(!relief_brightens(true, BaseLayer::Biomes, true));
    assert!(!relief_brightens(true, BaseLayer::Precipitation, false));
}

#[test]
fn wind_lines_start_on_a_grid_and_keep_their_number() {
    assert_eq!(wind_seeds(5, 3), vec![(0, 0), (1, 0), (2, 0), (0, 1), (1, 1), (2, 1)]);
    assert_eq!(wind_seeds(0, 2), vec![(0, 0), (1, 0)]);
    assert_eq!(wind_lines(&vec![3, 1, 15, 2, 4], 2), vec![0, 2]);
    assert_eq!(wind_lines(&vec![3, 1, 15], 9), vec![0, 2]);
    assert_eq!(neighbours(0, 1), (0, 0));
    assert_eq!(neighbours(0, 4), (0, 1));
    assert_eq!(neighbours(3, 4), (2, 3));
}

#[test]
fn controls_ask_the_app() {
    let mut map = PhotoMap::new();
    map.set_join_defaults("  Ada ".into(), Some(" ws://x ".into()));
    map.ask_server(false);
    assert_eq!(map.pending_join, Some(("ws://x".to_string(), "Ada".to_string())));
    map.set_join_defaults("Bo".into(), None);
    assert_eq!(map.join_url, " ws://x ");
    map.ask_server(true);
    assert!(map.pending_disconnect);
    map.ask_time(true, 5);
    map.ask_rate(true, 6);
    assert_eq!((map.pending_time_travel, map.pending_time_scale), (None, None));
    map.ask_time(false, 5);
    map.ask_rate(false, 6);
    assert_eq!((map.pending_time_travel, map.pending_time_scale), (Some(5), Some(6)));
    let now = TravelDate { year: 3, month: 2, day: 1, day_frac: 0 };
    map.seed_travel(now);
    map.seed_travel(TravelDate { year: 9, ..now });
    assert_eq!(map.travel, now);
}

#[test]
fn written_notes_come_back_from_the_text() {
    let name = "shot_1.png".to_string();
    let raw = r#"{"lat_deg": 1.5, "lon_deg": -2.25, "mode": "walk", "seed": -9223372036854775808,
        "weather": {"on": true, "pinned": [0.25, 0.5], "t_s": 3600}}"#;
    let (title, note) = ("Dusk \"east\"\u{7}", "line one\nline two \\ \u{1F30A}\u{2028}");
    let text = edited_sidecar(Some(raw.to_string()), title, note).unwrap();
    let photo = photo_from_text(&name, Some(text), None).unwrap();
    assert_eq!((photo.title.as_str(), photo.note.as_str()), (title, note));
    assert_eq!(f64::from_bits(photo.lon), -2.25);
    assert_eq!(photo.mode.as_deref(), Some("walk"));
    assert_eq!(photo.seed, Some(i64::MIN));
    assert_eq!(photo.weather_on, Some(true));
    assert_eq!(photo.weather_time_s, Some(3600.0f64.to_bits()));
}

#[test]
fn deep_sidecars_are_read_again_up_to_the_limit() {
    let nested = |n: usize| format!("{{\"a\": {}{}}}", "[".repeat(n), "]".repeat(n));
    // an object around ninety-nine lists
    let text = edited_sidecar(Some(nested(99)), "t", "n").unwrap();
    assert_eq!(sidecar_str(&js(&text), "title"), "t");
    // a sidecar past the reader's limit counts as unreadable
    let fresh = js(&edited_sidecar(Some(nested(200)), "t", "n").unwrap());
    assert_eq!(fresh.as_object().unwrap().len(), 2);
    // a fraction of the largest size that is surely read
    let large = edited_sidecar(Some("{\"x\": -1e300}".to_string()), "t", "n").unwrap();
    assert!(js(&large)["x"].as_f64().unwrap() < -9e299);
}
