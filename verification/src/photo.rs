//! Screenshots with a known pose. A pose comes from the photo's sidecar or,
//! for older shots, from its file name. Measured values are kept as stored
//! bits.

use vstd::prelude::*;
use crate::measure::{measure, signed, INFINITE, Measure};
use crate::sidecar::{as_number, as_text, as_whole, get, json, member, sidecar_str, sidecar_weather};
use crate::sidecar::{text_field, weather_of, whole, Json, Pin, SidecarWeather};
use crate::text::{begins_with, finishes_with, grab, piece_after, stands_at};

verus! {

/// The bodies that the photo map shows.
#[derive(Clone, Copy, PartialEq, Eq, Structural, Debug)]
pub enum MapBody {
    Neisor,
    Moon,
}

/// The stored value of one.
pub const ONE_BITS: u64 = 0x3FF0_0000_0000_0000;

/// The height of a moon photo that records none (25).
pub const MOON_ALT: u64 = 0x4039_0000_0000_0000;

/// The height of a photo that records none (0.3).
pub const DEFAULT_ALT: u64 = 0x3FD3_3333_3333_3333;

/// The pitch of a photo that records none (-20).
pub const DEFAULT_PITCH: u64 = 0xC034_0000_0000_0000;

/// One screenshot with a known pose.
pub struct Photo {
    pub name: String,
    pub body: MapBody,
    pub lat: u64,
    pub lon: u64,
    pub alt_km: u64,
    pub yaw_deg: u64,
    pub pitch_deg: u64,
    pub roll_deg: u64,
    pub day_time_s: Option<u64>,
    /// Missing on a sidecar that records no weather.
    pub weather_on: Option<bool>,
    pub weather_pin: Option<Pin>,
    pub weather_time_s: Option<u64>,
    pub ground_km: Option<u64>,
    pub mode: Option<String>,
    pub day_len_s: Option<u64>,
    pub seed: Option<i64>,
    /// Written by the player; empty where the sidecar holds none.
    pub title: String,
    pub note: String,
}

/// What a photo holds.
#[verifier::ext_equal]
pub struct PhotoView {
    pub name: Seq<char>,
    pub body: MapBody,
    pub lat: u64,
    pub lon: u64,
    pub alt_km: u64,
    pub yaw_deg: u64,
    pub pitch_deg: u64,
    pub roll_deg: u64,
    pub day_time_s: Option<u64>,
    pub weather_on: Option<bool>,
    pub weather_pin: Option<Pin>,
    pub weather_time_s: Option<u64>,
    pub ground_km: Option<u64>,
    pub mode: Option<Seq<char>>,
    pub day_len_s: Option<u64>,
    pub seed: Option<i64>,
    pub title: Seq<char>,
    pub note: Seq<char>,
}

impl View for Photo {
    type V = PhotoView;

    open spec fn view(&self) -> PhotoView {
        PhotoView {
            name: self.name@,
            body: self.body,
            lat: self.lat,
            lon: self.lon,
            alt_km: self.alt_km,
            yaw_deg: self.yaw_deg,
            pitch_deg: self.pitch_deg,
            roll_deg: self.roll_deg,
            day_time_s: self.day_time_s,
            weather_on: self.weather_on,
            weather_pin: self.weather_pin,
            weather_time_s: self.weather_time_s,
            ground_km: self.ground_km,
            mode: match self.mode {
                Some(s) => Some(s@),
                None => None,
            },
            day_len_s: self.day_len_s,
            seed: self.seed,
            title: self.title@,
            note: self.note@,
        }
    }
}

/// A pose read from a file name.
#[derive(Clone, Copy, PartialEq, Eq, Structural, Debug)]
pub struct NamedPose {
    pub lat: u64,
    pub lon: u64,
    pub alt_km: u64,
    pub yaw_deg: u64,
    pub pitch_deg: u64,
}

/// The number in a field.
pub open spec fn number(j: Json, key: Seq<char>) -> Option<u64> {
    match member(j, key) {
        Some(Json::Number { bits, .. }) => Some(bits),
        _ => None,
    }
}

fn read_number(js: &serde_json::Value, key: &str) -> (r: Option<u64>)
    ensures
        r == number(json(*js), key@),
{
    match get(js, key) {
        None => None,
        Some(v) => as_number(v),
    }
}

/// The number in the first of two fields that has one.
pub open spec fn either(j: Json, first: Seq<char>, second: Seq<char>) -> Option<u64> {
    match number(j, first) {
        Some(bits) => Some(bits),
        None => number(j, second),
    }
}

fn read_either(js: &serde_json::Value, first: &str, second: &str) -> (r: Option<u64>)
    ensures
        r == either(json(*js), first@, second@),
{
    match read_number(js, first) {
        Some(bits) => Some(bits),
        None => read_number(js, second),
    }
}

/// The moon's name, in whatever case.
pub open spec fn names_the_moon(s: Seq<char>) -> bool {
    &&& s.len() == 4
    &&& s[0] == 'm' || s[0] == 'M'
    &&& s[1] == 'o' || s[1] == 'O'
    &&& s[2] == 'o' || s[2] == 'O'
    &&& s[3] == 'n' || s[3] == 'N'
}

fn is_moon(s: &str) -> (r: bool)
    ensures
        r == names_the_moon(s@),
{
    let n: usize = s.unicode_len();
    if n != 4 {
        return false;
    }
    let a = s.get_char(0);
    let b = s.get_char(1);
    let c = s.get_char(2);
    let d = s.get_char(3);
    (a == 'm' || a == 'M') && (b == 'o' || b == 'O') && (c == 'o' || c == 'O') && (d == 'n' || d
        == 'N')
}

/// The body of a sidecar: by name, or by the focus it records.
pub open spec fn body_of(j: Json) -> MapBody {
    let named = member(j, "body"@) matches Some(Json::Text(s)) && names_the_moon(s);
    if named || (number(j, "focus_id"@) == Some(ONE_BITS) && number(j, "body_lat_deg"@) is Some) {
        MapBody::Moon
    } else {
        MapBody::Neisor
    }
}

fn read_body(js: &serde_json::Value) -> (r: MapBody)
    ensures
        r == body_of(json(*js)),
{
    let named: bool = match get(js, "body") {
        None => false,
        Some(v) => match as_text(v) {
            None => false,
            Some(s) => is_moon(s),
        },
    };
    if named {
        return MapBody::Moon;
    }
    let focused: bool = match read_number(js, "focus_id") {
        None => false,
        Some(bits) => bits == ONE_BITS,
    };
    if focused && read_number(js, "body_lat_deg").is_some() {
        MapBody::Moon
    } else {
        MapBody::Neisor
    }
}

/// A pose field of a sidecar. On the moon the body's own field comes first.
pub open spec fn posed(j: Json, own: Seq<char>, general: Seq<char>) -> Option<u64> {
    match body_of(j) {
        MapBody::Neisor => number(j, general),
        MapBody::Moon => either(j, own, general),
    }
}

fn read_posed(js: &serde_json::Value, body: MapBody, own: &str, general: &str) -> (r: Option<u64>)
    requires
        body == body_of(json(*js)),
    ensures
        r == posed(json(*js), own@, general@),
{
    match body {
        MapBody::Neisor => read_number(js, general),
        MapBody::Moon => read_either(js, own, general),
    }
}

pub open spec fn or_else(v: Option<u64>, default: u64) -> u64 {
    match v {
        Some(bits) => bits,
        None => default,
    }
}

fn value_or(v: Option<u64>, default: u64) -> (r: u64)
    ensures
        r == or_else(v, default),
{
    match v {
        Some(bits) => bits,
        None => default,
    }
}

/// Above zero.
pub open spec fn positive(bits: u64) -> bool {
    0 < signed(bits) <= INFINITE
}

pub open spec fn kept_positive(v: Option<u64>) -> Option<u64> {
    match v {
        Some(bits) if positive(bits) => Some(bits),
        _ => None,
    }
}

fn keep_positive(v: Option<u64>) -> (r: Option<u64>)
    ensures
        r == kept_positive(v),
{
    match v {
        None => None,
        Some(bits) => {
            let m: Measure = measure(bits);
            if 0 < m && m <= INFINITE {
                Some(bits)
            } else {
                None
            }
        },
    }
}

pub open spec fn mode_of(j: Json) -> Option<Seq<char>> {
    match member(j, "mode"@) {
        Some(Json::Text(s)) => Some(s),
        _ => None,
    }
}

pub open spec fn seed_of(j: Json) -> Option<i64> {
    match member(j, "seed"@) {
        Some(v) => whole(v),
        None => None,
    }
}

/// The photo that a sidecar describes, without its notes. A sidecar without a
/// place describes none.
pub open spec fn recorded(name: Seq<char>, j: Json) -> Option<PhotoView> {
    match (posed(j, "body_lat_deg"@, "lat_deg"@), posed(j, "body_lon_deg"@, "lon_deg"@)) {
        (Some(lat), Some(lon)) => {
            let weather = weather_of(j);
            let body = body_of(j);
            Some(
                PhotoView {
                    name,
                    body,
                    lat,
                    lon,
                    alt_km: or_else(
                        posed(j, "body_alt_km"@, "alt_km"@),
                        if body == MapBody::Moon {
                            MOON_ALT
                        } else {
                            DEFAULT_ALT
                        },
                    ),
                    yaw_deg: or_else(posed(j, "body_yaw_deg"@, "yaw_deg"@), 0),
                    pitch_deg: or_else(posed(j, "body_pitch_deg"@, "pitch_deg"@), DEFAULT_PITCH),
                    roll_deg: or_else(posed(j, "body_roll_deg"@, "roll_deg"@), 0),
                    day_time_s: number(j, "day_cycle_time_s"@),
                    weather_on: match weather {
                        Some(w) => Some(w.on),
                        None => None,
                    },
                    weather_pin: match weather {
                        Some(w) => w.pinned,
                        None => None,
                    },
                    weather_time_s: match weather {
                        Some(w) => w.time,
                        None => None,
                    },
                    ground_km: number(j, "ground_km"@),
                    mode: mode_of(j),
                    day_len_s: kept_positive(number(j, "day_len_s"@)),
                    seed: seed_of(j),
                    title: Seq::empty(),
                    note: Seq::empty(),
                },
            )
        },
        _ => None,
    }
}

fn read_recorded(name: &String, js: &serde_json::Value) -> (r: Option<Photo>)
    ensures
        match r {
            None => recorded(name@, json(*js)) is None,
            Some(p) => recorded(name@, json(*js)) == Some(p@),
        },
{
    let body = read_body(js);
    let (lat, lon) = match (
        read_posed(js, body, "body_lat_deg", "lat_deg"),
        read_posed(js, body, "body_lon_deg", "lon_deg"),
    ) {
        (Some(lat), Some(lon)) => (lat, lon),
        _ => {
            return None;
        },
    };
    let weather: Option<SidecarWeather> = sidecar_weather(js);
    let (weather_on, weather_pin, weather_time_s) = match weather {
        Some(w) => (Some(w.on), w.pinned, w.time),
        None => (None, None, None),
    };
    let default_alt: u64 = match body {
        MapBody::Moon => MOON_ALT,
        MapBody::Neisor => DEFAULT_ALT,
    };
    let mode: Option<String> = match get(js, "mode") {
        None => None,
        Some(v) => match as_text(v) {
            None => None,
            Some(s) => Some(s.to_owned()),
        },
    };
    let seed: Option<i64> = match get(js, "seed") {
        None => None,
        Some(v) => as_whole(v),
    };
    let photo = Photo {
        name: name.clone(),
        body,
        lat,
        lon,
        alt_km: value_or(read_posed(js, body, "body_alt_km", "alt_km"), default_alt),
        yaw_deg: value_or(read_posed(js, body, "body_yaw_deg", "yaw_deg"), 0),
        pitch_deg: value_or(read_posed(js, body, "body_pitch_deg", "pitch_deg"), DEFAULT_PITCH),
        roll_deg: value_or(read_posed(js, body, "body_roll_deg", "roll_deg"), 0),
        day_time_s: read_number(js, "day_cycle_time_s"),
        weather_on,
        weather_pin,
        weather_time_s,
        ground_km: read_number(js, "ground_km"),
        mode,
        day_len_s: keep_positive(read_number(js, "day_len_s")),
        seed,
        title: String::new(),
        note: String::new(),
    };
    assert(photo@ =~= recorded(name@, json(*js))->0);
    Some(photo)
}

/// The photo that a file name describes.
pub open spec fn named(name: Seq<char>, pose: NamedPose) -> PhotoView {
    PhotoView {
        name,
        body: MapBody::Neisor,
        lat: pose.lat,
        lon: pose.lon,
        alt_km: pose.alt_km,
        yaw_deg: pose.yaw_deg,
        pitch_deg: pose.pitch_deg,
        roll_deg: 0,
        day_time_s: None,
        weather_on: None,
        weather_pin: None,
        weather_time_s: None,
        ground_km: None,
        mode: None,
        day_len_s: None,
        seed: None,
        title: Seq::empty(),
        note: Seq::empty(),
    }
}

/// The photo of a file: its pose from the sidecar or else from the name, its
/// notes from the sidecar in either case.
pub open spec fn photo_of(name: Seq<char>, js: Option<Json>, pose: Option<NamedPose>) -> Option<
    PhotoView,
> {
    let from_sidecar = match js {
        Some(j) => recorded(name, j),
        None => None,
    };
    let plain = match (from_sidecar, pose) {
        (Some(p), _) => Some(p),
        (None, Some(q)) => Some(named(name, q)),
        (None, None) => None,
    };
    match (plain, js) {
        (Some(p), Some(j)) => Some(
            PhotoView { title: text_field(j, "title"@), note: text_field(j, "note"@), ..p },
        ),
        _ => plain,
    }
}

/// The photo of a file: its pose from the sidecar or else from the name, its
/// notes from the sidecar in either case.
pub fn read_photo(name: &String, js: Option<&serde_json::Value>, pose: Option<NamedPose>) -> (r: Option<
    Photo,
>)
    ensures
        ({
            let held = match js {
                Some(v) => Some(json(*v)),
                None => None,
            };
            match r {
                None => photo_of(name@, held, pose) is None,
                Some(p) => photo_of(name@, held, pose) == Some(p@),
            }
        }),
{
    let from_sidecar: Option<Photo> = match js {
        Some(v) => read_recorded(name, v),
        None => None,
    };
    let mut photo: Photo = match from_sidecar {
        Some(p) => p,
        None => match pose {
            None => {
                return None;
            },
            Some(q) => Photo {
                name: name.clone(),
                body: MapBody::Neisor,
                lat: q.lat,
                lon: q.lon,
                alt_km: q.alt_km,
                yaw_deg: q.yaw_deg,
                pitch_deg: q.pitch_deg,
                roll_deg: 0,
                day_time_s: None,
                weather_on: None,
                weather_pin: None,
                weather_time_s: None,
                ground_km: None,
                mode: None,
                day_len_s: None,
                seed: None,
                title: String::new(),
                note: String::new(),
            },
        },
    };
    let ghost plain = photo@;
    assert(from_sidecar is None ==> plain =~= named(name@, pose->0));
    if let Some(v) = js {
        photo.title = sidecar_str(v, "title");
        photo.note = sidecar_str(v, "note");
        assert(photo@ =~= PhotoView {
            title: text_field(json(*v), "title"@),
            note: text_field(json(*v), "note"@),
            ..plain
        });
    }
    Some(photo)
}

/// The photo of a file, given its sidecar's text. Text that is not JSON counts
/// as no sidecar.
pub fn photo_from_text(name: &String, raw: Option<String>, pose: Option<NamedPose>) -> (r: Option<
    Photo,
>)
    ensures
        ({
            let held = match raw {
                Some(s) => crate::sidecar::parsed(s@),
                None => None,
            };
            match r {
                None => photo_of(name@, held, pose) is None,
                Some(p) => photo_of(name@, held, pose) == Some(p@),
            }
        }),
{
    match raw {
        None => read_photo(name, None, pose),
        Some(s) => match crate::sidecar::parse(&s) {
            Ok(v) => read_photo(name, Some(&v), pose),
            Err(_) => read_photo(name, None, pose),
        },
    }
}

/// The name of a screenshot.
pub open spec fn shot_name(name: Seq<char>) -> bool {
    stands_at(name, "shot_"@, 0) && stands_at(name, ".png"@, name.len() - ".png"@.len())
}

/// The name is that of a screenshot.
pub fn is_shot_name(name: &str) -> (r: bool)
    ensures
        r == shot_name(name@),
{
    begins_with(name, "shot_") && finishes_with(name, ".png")
}

/// The numbers in a screenshot's name, still as text.
pub struct NamePieces {
    pub lat: String,
    pub lon: String,
    pub alt_km: String,
    pub yaw_deg: String,
    pub pitch_deg: String,
}

/// The numbers in a screenshot's name, as in
/// `shot_lat4.990_lon-29.403_alt0.047km_yaw37_pitch-29.png`. A name that lacks
/// one of the marks has none.
pub fn parse_filename(name: &str) -> (r: Option<NamePieces>)
    ensures
        r is Some <==> {
            &&& piece_after(name@, "_lat"@, "_lon"@) is Some
            &&& piece_after(name@, "_lon"@, "_alt"@) is Some
            &&& piece_after(name@, "_alt"@, "km"@) is Some
            &&& piece_after(name@, "_yaw"@, "_pitch"@) is Some
            &&& piece_after(name@, "_pitch"@, ".png"@) is Some
        },
        r matches Some(p) ==> {
            &&& piece_after(name@, "_lat"@, "_lon"@) == Some(p.lat@)
            &&& piece_after(name@, "_lon"@, "_alt"@) == Some(p.lon@)
            &&& piece_after(name@, "_alt"@, "km"@) == Some(p.alt_km@)
            &&& piece_after(name@, "_yaw"@, "_pitch"@) == Some(p.yaw_deg@)
            &&& piece_after(name@, "_pitch"@, ".png"@) == Some(p.pitch_deg@)
        },
{
    let lat = match grab(name, "_lat", "_lon") {
        Some(s) => s,
        None => {
            return None;
        },
    };
    let lon = match grab(name, "_lon", "_alt") {
        Some(s) => s,
        None => {
            return None;
        },
    };
    let alt_km = match grab(name, "_alt", "km") {
        Some(s) => s,
        None => {
            return None;
        },
    };
    let yaw_deg = match grab(name, "_yaw", "_pitch") {
        Some(s) => s,
        None => {
            return None;
        },
    };
    let pitch_deg = match grab(name, "_pitch", ".png") {
        Some(s) => s,
        None => {
            return None;
        },
    };
    Some(NamePieces { lat, lon, alt_km, yaw_deg, pitch_deg })
}

/// File `a` comes before file `b` on the roll: it is newer, or as new and
/// found earlier. A file whose time is unknown is older than any.
pub open spec fn comes_before(times: Seq<Option<i128>>, a: int, b: int) -> bool {
    newer(times[a], times[b]) || (times[a] == times[b] && a < b)
}

pub open spec fn newer(a: Option<i128>, b: Option<i128>) -> bool {
    match (a, b) {
        (Some(x), Some(y)) => x > y,
        (Some(_), None) => true,
        _ => false,
    }
}

fn is_newer(a: Option<i128>, b: Option<i128>) -> (r: bool)
    ensures
        r == newer(a, b),
{
    match (a, b) {
        (Some(x), Some(y)) => x > y,
        (Some(_), None) => true,
        _ => false,
    }
}

/// `order` lists the first `n` files, each once, newest first.
pub open spec fn is_roll(times: Seq<Option<i128>>, order: Seq<usize>, n: int) -> bool {
    &&& order.len() == n
    &&& forall|i: int| 0 <= i < order.len() ==> (#[trigger] order[i]) < n
    &&& forall|i: int, j: int|
        #![trigger order[i], order[j]]
        0 <= i < j < order.len() ==> comes_before(times, order[i] as int, order[j] as int)
}

/// Place the next file among those already in order, newest first. Says where.
fn place_newest(times: &Vec<Option<i128>>, order: &mut Vec<usize>) -> (at: usize)
    requires
        is_roll(times@, old(order)@, old(order)@.len() as int),
        old(order)@.len() < times@.len(),
    ensures
        at <= old(order)@.len(),
        final(order)@ == old(order)@.insert(at as int, final(order)@[at as int]),
        final(order)@[at as int] == old(order)@.len(),
        is_roll(times@, final(order)@, old(order)@.len() as int + 1),
{
    let k: usize = order.len();
    let mut at: usize = 0;
    while at < order.len() && !is_newer(times[k], times[order[at]])
        invariant
            k < times@.len(),
            order@.len() == k,
            at <= k,
            is_roll(times@, order@, k as int),
            forall|i: int|
                0 <= i < at ==> !newer(times@[k as int], times@[(#[trigger] order@[i]) as int]),
        decreases k - at,
    {
        at += 1;
    }
    let ghost before = order@;
    order.insert(at, k);
    proof {
        assert forall|i: int, j: int|
            #![trigger order@[i], order@[j]]
            0 <= i < j < order@.len() implies comes_before(
            times@,
            order@[i] as int,
            order@[j] as int,
        ) by {
            let a = if i < at {
                i
            } else {
                i - 1
            };
            let b = if j < at {
                j
            } else {
                j - 1
            };
            if i == at {
                assert(order@[j] == before[j - 1]);
                if j - 1 > at {
                    assert(comes_before(times@, before[at as int] as int, before[j - 1] as int));
                }
            } else if j == at {
                assert(order@[i] == before[i]);
            } else {
                assert(order@[i] == before[a] && order@[j] == before[b]);
            }
        }
        assert forall|i: int| 0 <= i < order@.len() implies (#[trigger] order@[i]) < k + 1 by {
            if i < at {
                assert(order@[i] == before[i]);
            } else if i > at {
                assert(order@[i] == before[i - 1]);
            }
        }
    }
    at
}

/// A file of the photo folder: its name, when it was last changed, its
/// sidecar's text, and the pose that its name tells.
pub struct FoundFile {
    pub name: String,
    pub modified: Option<i128>,
    pub sidecar: Option<String>,
    pub pose: Option<NamedPose>,
}

/// What a sidecar's text holds, where it is JSON.
pub open spec fn told(raw: Option<String>) -> Option<Json> {
    match raw {
        Some(s) => crate::sidecar::parsed(s@),
        None => None,
    }
}

/// The photo of a file: none where the name is not a screenshot's, or where no
/// pose is known.
pub open spec fn shown(f: FoundFile) -> Option<PhotoView> {
    if shot_name(f.name@) {
        photo_of(f.name@, told(f.sidecar), f.pose)
    } else {
        None
    }
}

/// The places of the first `n` files that are photos.
pub open spec fn photo_places(files: Seq<FoundFile>, n: int) -> Seq<int>
    decreases n,
{
    if n <= 0 {
        Seq::empty()
    } else if shown(files[n - 1]) is Some {
        photo_places(files, n - 1).push(n - 1)
    } else {
        photo_places(files, n - 1)
    }
}

/// When the files at some places were last changed.
pub open spec fn times_of(files: Seq<FoundFile>, places: Seq<int>) -> Seq<Option<i128>> {
    Seq::new(places.len(), |i: int| files[places[i]].modified)
}

/// `roll` holds exactly the photos at `places`, newest first.
pub open spec fn rolls(files: Seq<FoundFile>, places: Seq<int>, order: Seq<usize>, roll: Seq<Photo>) -> bool {
    &&& is_roll(times_of(files, places), order, places.len() as int)
    &&& roll.len() == order.len()
    &&& forall|i: int|
        0 <= i < roll.len() ==> shown(files[places[order[i] as int]]) == Some((#[trigger] roll[i])@)
}

/// The photos among the files of a folder, newest first: every screenshot with
/// a known pose, once.
pub fn scan_photos(files: &Vec<FoundFile>) -> (roll: Vec<Photo>)
    ensures
        exists|order: Seq<usize>| #[trigger]
            rolls(files@, photo_places(files@, files@.len() as int), order, roll@),
{
    let mut roll: Vec<Photo> = Vec::new();
    let mut times: Vec<Option<i128>> = Vec::new();
    let mut order: Vec<usize> = Vec::new();
    let mut k: usize = 0;
    while k < files.len()
        invariant
            k <= files@.len(),
            times@ == times_of(files@, photo_places(files@, k as int)),
            rolls(files@, photo_places(files@, k as int), order@, roll@),
        decreases files@.len() - k,
    {
        let f: &FoundFile = &files[k];
        let ghost places = photo_places(files@, k as int);
        if is_shot_name(&f.name) {
            let raw: Option<String> = match &f.sidecar {
                Some(s) => Some(s.clone()),
                None => None,
            };
            if let Some(photo) = photo_from_text(&f.name, raw, f.pose) {
                let ghost (before, old_times) = (order@, times@);
                let ghost (old_roll, fresh) = (roll@, photo@);
                assert(shown(files@[k as int]) == Some(fresh));
                times.push(f.modified);
                proof {
                    assert(times@ =~= times_of(files@, places.push(k as int)));
                    assert forall|i: int, j: int|
                        #![trigger order@[i], order@[j]]
                        0 <= i < j < order@.len() implies comes_before(
                        times@,
                        order@[i] as int,
                        order@[j] as int,
                    ) by {
                        assert(comes_before(old_times, order@[i] as int, order@[j] as int));
                    }
                }
                let at: usize = place_newest(&times, &mut order);
                roll.insert(at, photo);
                proof {
                    let more = places.push(k as int);
                    assert forall|i: int| 0 <= i < roll@.len() implies shown(
                        files@[more[order@[i] as int]],
                    ) == Some((#[trigger] roll@[i])@) by {
                        if i < at {
                            assert(roll@[i] == old_roll[i] && order@[i] == before[i]);
                            assert(before[i] < places.len());
                        } else if i > at {
                            assert(roll@[i] == old_roll[i - 1] && order@[i] == before[i - 1]);
                            assert(before[i - 1] < places.len());
                        } else {
                            assert(order@[i] == places.len());
                        }
                    }
                    assert(rolls(files@, more, order@, roll@));
                }
            }
        }
        k += 1;
    }
    assert(rolls(files@, photo_places(files@, files@.len() as int), order@, roll@));
    roll
}

/// A file is on the roll if and only if it is a screenshot with a known pose.
pub proof fn rolls_hold_every_photo(
    files: Seq<FoundFile>,
    order: Seq<usize>,
    roll: Seq<Photo>,
    k: int,
)
    requires
        rolls(files, photo_places(files, files.len() as int), order, roll),
        0 <= k < files.len(),
    ensures
        shown(files[k]) is Some <==> exists|i: int|
            0 <= i < roll.len() && photo_places(files, files.len() as int)[(#[trigger] order[i]) as int]
                == k,
{
    let places = photo_places(files, files.len() as int);
    lemma_photo_places(files, files.len() as int);
    if shown(files[k]) is Some {
        let p = choose|p: int| 0 <= p < places.len() && places[p] == k;
        lemma_roll_is_onto(times_of(files, places), order, places.len() as int, p);
    }
}

proof fn lemma_photo_places(files: Seq<FoundFile>, n: int)
    requires
        0 <= n <= files.len(),
    ensures
        forall|p: int|
            0 <= p < photo_places(files, n).len() ==> 0 <= (#[trigger] photo_places(files, n)[p]) < n
                && shown(files[photo_places(files, n)[p]]) is Some,
        forall|k: int|
            0 <= k < n && shown(#[trigger] files[k]) is Some ==> exists|p: int|
                0 <= p < photo_places(files, n).len() && photo_places(files, n)[p] == k,
    decreases n,
{
    if n > 0 {
        lemma_photo_places(files, n - 1);
        let (less, all) = (photo_places(files, n - 1), photo_places(files, n));
        assert forall|k: int| 0 <= k < n && shown(#[trigger] files[k]) is Some implies exists|p: int|
            0 <= p < all.len() && all[p] == k by {
            if k == n - 1 {
                assert(all[all.len() - 1] == k);
            } else {
                let p = choose|p: int| 0 <= p < less.len() && less[p] == k;
                assert(all[p] == k);
            }
        }
    }
}

/// A roll of `n` files names each of them.
proof fn lemma_roll_is_onto(times: Seq<Option<i128>>, order: Seq<usize>, n: int, p: int)
    requires
        is_roll(times, order, n),
        0 <= p < n,
    ensures
        exists|i: int| 0 <= i < order.len() && (#[trigger] order[i]) == p,
{
    let places = order.map_values(|k: usize| k as int);
    assert(places.no_duplicates()) by {
        assert forall|i: int, j: int| 0 <= i < places.len() && 0 <= j < places.len() && i != j implies places[i]
            != places[j] by {
            if i < j {
                rolls_name_files_once(times, order, n, i, j);
            } else {
                rolls_name_files_once(times, order, n, j, i);
            }
        }
    }
    places.unique_seq_to_set();
    let all = vstd::set_lib::set_int_range(0, n);
    vstd::set_lib::lemma_int_range(0, n);
    assert(places.to_set().subset_of(all)) by {
        assert forall|x: int| places.to_set().contains(x) implies all.contains(x) by {
            let i = choose|i: int| 0 <= i < places.len() && places[i] == x;
            assert(order[i] < n);
        }
    }
    vstd::set_lib::lemma_subset_equality(places.to_set(), all);
    assert(all.contains(p));
    assert(places.to_set().contains(p));
    let i = choose|i: int| 0 <= i < places.len() && places[i] == p;
    assert(order[i] == p);
}

/// A roll names no file twice.
pub proof fn rolls_name_files_once(times: Seq<Option<i128>>, order: Seq<usize>, n: int, i: int, j: int)
    requires
        is_roll(times, order, n),
        0 <= i < j < order.len(),
    ensures
        order[i] != order[j],
{
    assert(comes_before(times, order[i] as int, order[j] as int));
}

/// A note written to a shot's sidecar shows on the photo once the text is read
/// again, also where the pose comes from the file name.
pub proof fn written_notes_show_on_the_photo(
    name: Seq<char>,
    text: Seq<char>,
    j: Json,
    pose: NamedPose,
    title: Seq<char>,
    note: Seq<char>,
)
    requires
        crate::sidecar::gives_back(text, crate::sidecar::noted(j, title, note)),
        crate::sidecar::modest(j, crate::sidecar::DEPTH as nat),
    ensures
        ({
            let p = photo_of(name, crate::sidecar::parsed(text), Some(pose));
            p is Some && p->0.title == title && p->0.note == note
        }),
{
    crate::sidecar::written_notes_are_read_back(text, j, title, note, "title"@);
}

/// A note saved onto a shot comes back with it, also where the pose comes from
/// the file name.
pub proof fn saved_notes_show_on_the_photo(
    name: Seq<char>,
    j: Json,
    pose: NamedPose,
    title: Seq<char>,
    note: Seq<char>,
)
    ensures
        ({
            let p = photo_of(name, Some(crate::sidecar::noted(j, title, note)), Some(pose));
            p is Some && p->0.title == title && p->0.note == note
        }),
{
    crate::sidecar::notes_round_trip(j, title, note);
}

/// An object has a number of these bits under a name.
pub open spec fn holds_number(j: Json, key: Seq<char>, bits: u64) -> bool {
    &&& j matches Json::Object(m)
    &&& m.dom().contains(key)
    &&& m[key] matches Json::Number { bits: b, .. }
    &&& b == bits
}

/// No number stands under a name.
pub open spec fn lacks_number(j: Json, key: Seq<char>) -> bool {
    forall|bits: u64| !#[trigger] holds_number(j, key, bits)
}

/// An object has a text under a name.
pub open spec fn holds_text(j: Json, key: Seq<char>, s: Seq<char>) -> bool {
    &&& j matches Json::Object(m)
    &&& m.dom().contains(key)
    &&& m[key] == Json::Text(s)
}

proof fn lemma_number(j: Json, key: Seq<char>)
    ensures
        match number(j, key) {
            Some(bits) => holds_number(j, key, bits) && !lacks_number(j, key),
            None => lacks_number(j, key),
        },
{
    if let Some(bits) = number(j, key) {
        assert(holds_number(j, key, bits));
    }
}

/// A sidecar is of the moon where it names it, in whatever case, or where it
/// focuses the moon and records a latitude there.
pub proof fn sidecars_tell_their_body(j: Json, s: Seq<char>)
    ensures
        holds_text(j, "body"@, s) && s.len() == 4 && (s[0] == 'm' || s[0] == 'M') && (s[1] == 'o'
            || s[1] == 'O') && (s[2] == 'o' || s[2] == 'O') && (s[3] == 'n' || s[3] == 'N')
            ==> body_of(j) == MapBody::Moon,
        holds_number(j, "focus_id"@, 0x3FF0_0000_0000_0000) && !lacks_number(j, "body_lat_deg"@)
            ==> body_of(j) == MapBody::Moon,
        holds_text(j, "body"@, s) && body_of(j) == MapBody::Moon && (lacks_number(
            j,
            "body_lat_deg"@,
        ) || !holds_number(j, "focus_id"@, 0x3FF0_0000_0000_0000)) ==> s.len() == 4 && (s[0]
            == 'm' || s[0] == 'M') && (s[1] == 'o' || s[1] == 'O') && (s[2] == 'o' || s[2] == 'O')
            && (s[3] == 'n' || s[3] == 'N'),
        (forall|t: Seq<char>| !#[trigger] holds_text(j, "body"@, t)) && body_of(j) == MapBody::Moon
            ==> holds_number(j, "focus_id"@, 0x3FF0_0000_0000_0000) && !lacks_number(
            j,
            "body_lat_deg"@,
        ),
{
    lemma_number(j, "focus_id"@);
    lemma_number(j, "body_lat_deg"@);
    if let Some(Json::Text(t)) = member(j, "body"@) {
        assert(holds_text(j, "body"@, t));
    }
}

/// A planet shot is read from the fields of its sidecar: it needs a latitude
/// and a longitude, and what else is missing stands at its usual value.
pub proof fn planet_sidecars_place_their_shot(name: Seq<char>, j: Json)
    requires
        body_of(j) == MapBody::Neisor,
    ensures
        recorded(name, j) is Some <==> !lacks_number(j, "lat_deg"@) && !lacks_number(j, "lon_deg"@),
        recorded(name, j) matches Some(p) ==> {
            &&& p.name == name
            &&& p.body == MapBody::Neisor
            &&& holds_number(j, "lat_deg"@, p.lat)
            &&& holds_number(j, "lon_deg"@, p.lon)
            &&& holds_number(j, "alt_km"@, p.alt_km) || lacks_number(j, "alt_km"@) && p.alt_km
                == 0x3FD3_3333_3333_3333
            &&& holds_number(j, "yaw_deg"@, p.yaw_deg) || lacks_number(j, "yaw_deg"@) && p.yaw_deg == 0
            &&& holds_number(j, "pitch_deg"@, p.pitch_deg) || lacks_number(j, "pitch_deg"@)
                && p.pitch_deg == 0xC034_0000_0000_0000
            &&& holds_number(j, "roll_deg"@, p.roll_deg) || lacks_number(j, "roll_deg"@)
                && p.roll_deg == 0
        },
{
    lemma_number(j, "lat_deg"@);
    lemma_number(j, "lon_deg"@);
    lemma_number(j, "alt_km"@);
    lemma_number(j, "yaw_deg"@);
    lemma_number(j, "pitch_deg"@);
    lemma_number(j, "roll_deg"@);
}

/// A field of the moon's own, or the general one where that is missing.
pub open spec fn holds_either(j: Json, own: Seq<char>, general: Seq<char>, bits: u64) -> bool {
    holds_number(j, own, bits) || lacks_number(j, own) && holds_number(j, general, bits)
}

/// A moon shot is read from the moon's own fields, and from the general ones
/// where those are missing.
pub proof fn moon_sidecars_place_their_shot(name: Seq<char>, j: Json)
    requires
        body_of(j) == MapBody::Moon,
    ensures
        recorded(name, j) is Some <==> !(lacks_number(j, "body_lat_deg"@) && lacks_number(
            j,
            "lat_deg"@,
        )) && !(lacks_number(j, "body_lon_deg"@) && lacks_number(j, "lon_deg"@)),
        recorded(name, j) matches Some(p) ==> {
            &&& p.name == name
            &&& p.body == MapBody::Moon
            &&& holds_either(j, "body_lat_deg"@, "lat_deg"@, p.lat)
            &&& holds_either(j, "body_lon_deg"@, "lon_deg"@, p.lon)
            &&& holds_either(j, "body_alt_km"@, "alt_km"@, p.alt_km) || lacks_number(
                j,
                "body_alt_km"@,
            ) && lacks_number(j, "alt_km"@) && p.alt_km == 0x4039_0000_0000_0000
            &&& holds_either(j, "body_yaw_deg"@, "yaw_deg"@, p.yaw_deg) || lacks_number(
                j,
                "body_yaw_deg"@,
            ) && lacks_number(j, "yaw_deg"@) && p.yaw_deg == 0
            &&& holds_either(j, "body_pitch_deg"@, "pitch_deg"@, p.pitch_deg) || lacks_number(
                j,
                "body_pitch_deg"@,
            ) && lacks_number(j, "pitch_deg"@) && p.pitch_deg == 0xC034_0000_0000_0000
            &&& holds_either(j, "body_roll_deg"@, "roll_deg"@, p.roll_deg) || lacks_number(
                j,
                "body_roll_deg"@,
            ) && lacks_number(j, "roll_deg"@) && p.roll_deg == 0
        },
{
    lemma_number(j, "lat_deg"@);
    lemma_number(j, "lon_deg"@);
    lemma_number(j, "alt_km"@);
    lemma_number(j, "yaw_deg"@);
    lemma_number(j, "pitch_deg"@);
    lemma_number(j, "roll_deg"@);
    lemma_number(j, "body_lat_deg"@);
    lemma_number(j, "body_lon_deg"@);
    lemma_number(j, "body_alt_km"@);
    lemma_number(j, "body_yaw_deg"@);
    lemma_number(j, "body_pitch_deg"@);
    lemma_number(j, "body_roll_deg"@);
}

/// A shot keeps the day, the ground, the mode, the seed and the weather that
/// its sidecar records. A day's length counts only above zero.
pub proof fn sidecars_date_their_shot(name: Seq<char>, j: Json, bits: u64, s: Seq<char>, n: int)
    requires
        recorded(name, j) is Some,
    ensures
        ({
            let p = recorded(name, j)->0;
            &&& p.day_time_s == Some(bits) <==> holds_number(j, "day_cycle_time_s"@, bits)
            &&& p.ground_km == Some(bits) <==> holds_number(j, "ground_km"@, bits)
            &&& p.day_len_s == Some(bits) <==> holds_number(j, "day_len_s"@, bits) && 0 < bits
                <= 0x7FF0_0000_0000_0000
            &&& p.mode == Some(s) <==> holds_text(j, "mode"@, s)
            &&& member(j, "seed"@) == Some(Json::Number { whole: Some(n), bits }) ==> (i64::MIN <= n
                <= i64::MAX ==> p.seed == Some(n as i64)) && (!(i64::MIN <= n <= i64::MAX) ==> p.seed
                is None)
            &&& p.seed is Some ==> member(j, "seed"@) is Some && member(j, "seed"@)->0 is Number
            &&& p.title.len() == 0 && p.note.len() == 0
            &&& weather_of(j) is None ==> p.weather_on is None && p.weather_pin is None
                && p.weather_time_s is None
            &&& weather_of(j) matches Some(w) ==> p.weather_on == Some(w.on) && p.weather_pin
                == w.pinned && p.weather_time_s == w.time
        }),
{
    lemma_number(j, "day_cycle_time_s"@);
    lemma_number(j, "ground_km"@);
    lemma_number(j, "day_len_s"@);
}

/// Without a place in a sidecar the pose of the file name counts, on the
/// planet, level and undated; without either there is no photo.
pub proof fn shots_fall_back_on_their_name(name: Seq<char>, js: Option<Json>, pose: NamedPose)
    requires
        js matches Some(j) ==> recorded(name, j) is None,
    ensures
        photo_of(name, js, None) is None,
        ({
            let p = photo_of(name, js, Some(pose));
            &&& p is Some
            &&& p->0.name == name && p->0.body == MapBody::Neisor
            &&& p->0.lat == pose.lat && p->0.lon == pose.lon && p->0.alt_km == pose.alt_km
            &&& p->0.yaw_deg == pose.yaw_deg && p->0.pitch_deg == pose.pitch_deg
            &&& p->0.roll_deg == 0
            &&& p->0.day_time_s is None && p->0.weather_on is None && p->0.weather_pin is None
            &&& p->0.weather_time_s is None && p->0.ground_km is None && p->0.mode is None
            &&& p->0.day_len_s is None && p->0.seed is None
            &&& js is None ==> p->0.title.len() == 0 && p->0.note.len() == 0
        }),
{
}

/// A place in the sidecar counts before the file name, and the notes come
/// from the sidecar in either case.
pub proof fn sidecars_come_before_names(
    name: Seq<char>,
    j: Json,
    pose: Option<NamedPose>,
    s: Seq<char>,
)
    ensures
        recorded(name, j) matches Some(p) ==> photo_of(name, Some(j), pose) is Some && photo_of(
            name,
            Some(j),
            pose,
        )->0 == (PhotoView {
            title: photo_of(name, Some(j), pose)->0.title,
            note: photo_of(name, Some(j), pose)->0.note,
            ..p
        }),
        photo_of(name, Some(j), pose) matches Some(p) ==> {
            &&& holds_text(j, "title"@, s) ==> p.title == s
            &&& holds_text(j, "note"@, s) ==> p.note == s
            &&& (forall|t: Seq<char>| !#[trigger] holds_text(j, "title"@, t)) ==> p.title.len() == 0
            &&& (forall|t: Seq<char>| !#[trigger] holds_text(j, "note"@, t)) ==> p.note.len() == 0
        },
{
    if let Some(Json::Text(t)) = member(j, "title"@) {
        assert(holds_text(j, "title"@, t));
    }
    if let Some(Json::Text(t)) = member(j, "note"@) {
        assert(holds_text(j, "note"@, t));
    }
}

/// Screenshots are the files named `shot_` something `.png`.
pub proof fn shots_are_known_by_their_name(name: Seq<char>)
    ensures
        shot_name(name) <==> {
            let n = name.len() as int;
            &&& n >= 5
            &&& name[0] == 's' && name[1] == 'h' && name[2] == 'o' && name[3] == 't' && name[4] == '_'
            &&& name[n - 4] == '.' && name[n - 3] == 'p' && name[n - 2] == 'n' && name[n - 1] == 'g'
        },
{
    reveal_strlit("shot_");
    reveal_strlit(".png");
    let n = name.len() as int;
    if n >= 5 {
        let (a, b) = (name.subrange(0, 5), name.subrange(n - 4, n));
        if stands_at(name, "shot_"@, 0) {
            assert(a[0] == name[0] && a[1] == name[1] && a[2] == name[2] && a[3] == name[3] && a[4]
                == name[4]);
        }
        if stands_at(name, ".png"@, n - 4) {
            assert(b[0] == name[n - 4] && b[1] == name[n - 3] && b[2] == name[n - 2] && b[3]
                == name[n - 1]);
        }
        if name[0] == 's' && name[1] == 'h' && name[2] == 'o' && name[3] == 't' && name[4] == '_' {
            assert(a =~= "shot_"@);
        }
        if name[n - 4] == '.' && name[n - 3] == 'p' && name[n - 2] == 'n' && name[n - 1] == 'g' {
            assert(b =~= ".png"@);
        }
    }
}

/// Files that are no screenshots are not on the roll; the others are, by their
/// sidecar and name.
pub proof fn only_screenshots_are_shown(f: FoundFile)
    ensures
        !shot_name(f.name@) ==> shown(f) is None,
        shot_name(f.name@) && f.sidecar is None ==> shown(f) == photo_of(f.name@, None, f.pose),
        shot_name(f.name@) ==> (f.sidecar matches Some(text) ==> shown(f) == photo_of(
            f.name@,
            crate::sidecar::parsed(text@),
            f.pose,
        )),
{
}

proof fn lemma_places_ascend(files: Seq<FoundFile>, n: int, p: int, q: int)
    requires
        0 <= n <= files.len(),
        0 <= p < q < photo_places(files, n).len(),
    ensures
        photo_places(files, n)[p] < photo_places(files, n)[q],
    decreases n,
{
    if n > 0 {
        lemma_photo_places(files, n - 1);
        if q < photo_places(files, n - 1).len() {
            lemma_places_ascend(files, n - 1, p, q);
        }
    }
}

/// The roll runs from the newest file to the oldest. Files of one time stand
/// as they were found, and files of unknown time come last.
pub proof fn rolls_run_from_newest_to_oldest(
    files: Seq<FoundFile>,
    order: Seq<usize>,
    roll: Seq<Photo>,
    i: int,
    j: int,
)
    requires
        rolls(files, photo_places(files, files.len() as int), order, roll),
        0 <= i < j < roll.len(),
    ensures
        ({
            let places = photo_places(files, files.len() as int);
            let (a, b) = (places[order[i] as int], places[order[j] as int]);
            &&& 0 <= a < files.len() && 0 <= b < files.len()
            &&& shown(files[a]) == Some(roll[i]@) && shown(files[b]) == Some(roll[j]@)
            &&& match (files[a].modified, files[b].modified) {
                (Some(x), Some(y)) => x > y || x == y && a < b,
                (Some(_), None) => true,
                (None, Some(_)) => false,
                (None, None) => a < b,
            }
        }),
{
    let n = files.len() as int;
    let places = photo_places(files, n);
    lemma_photo_places(files, n);
    let (x, y) = (order[i] as int, order[j] as int);
    assert(comes_before(times_of(files, places), x, y));
    if x < y {
        lemma_places_ascend(files, n, x, y);
    }
}

} // verus!
