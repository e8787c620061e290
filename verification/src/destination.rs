//! Where the photo map's teleport goes: to the selected photo, else to the
//! chosen place, else to the typed coordinates.

use vstd::prelude::*;
use crate::measure::{measure, signed, INFINITE, Measure, NEG_INFINITE};
use crate::photo::{MapBody, Photo, PhotoView};
use crate::photo_map::{MapState, PhotoMap, TeleportAction, LOWEST_EYE, POLE};
use crate::text::{blank, is_blank, same_text, split_words, texts, words};

verus! {

/// A place on a body and nothing else.
pub open spec fn bare(body: MapBody, lat: u64, lon: u64, alt_km: Option<u64>) -> TeleportAction {
    TeleportAction {
        body,
        lat,
        lon,
        alt_km,
        yaw_deg: None,
        pitch_deg: None,
        roll_deg: None,
        day_time_s: None,
        day_len_s: None,
        weather_on: None,
        weather_pin: None,
        weather_time_s: None,
        ground_km: None,
        walk: false,
        seed: None,
    }
}

fn bare_action(body: MapBody, lat: u64, lon: u64, alt_km: Option<u64>) -> (a: TeleportAction)
    ensures
        a == bare(body, lat, lon, alt_km),
{
    TeleportAction {
        body,
        lat,
        lon,
        alt_km,
        yaw_deg: None,
        pitch_deg: None,
        roll_deg: None,
        day_time_s: None,
        day_len_s: None,
        weather_on: None,
        weather_pin: None,
        weather_time_s: None,
        ground_km: None,
        walk: false,
        seed: None,
    }
}

/// A height, but no lower than the lowest eye.
pub open spec fn eye_height(alt: u64) -> u64 {
    if signed(LOWEST_EYE) < signed(alt) <= INFINITE {
        alt
    } else {
        LOWEST_EYE
    }
}

/// The pose of a photo. Its time and weather come along only where the player
/// asks for them.
pub open spec fn to_photo(p: PhotoView, restore: bool) -> TeleportAction {
    TeleportAction {
        body: p.body,
        lat: p.lat,
        lon: p.lon,
        alt_km: Some(eye_height(p.alt_km)),
        yaw_deg: Some(p.yaw_deg),
        pitch_deg: Some(p.pitch_deg),
        roll_deg: Some(p.roll_deg),
        day_time_s: if restore {
            p.day_time_s
        } else {
            None
        },
        day_len_s: if restore {
            p.day_len_s
        } else {
            None
        },
        weather_on: if restore {
            p.weather_on
        } else {
            None
        },
        weather_pin: if restore {
            p.weather_pin
        } else {
            None
        },
        weather_time_s: if restore {
            p.weather_time_s
        } else {
            None
        },
        ground_km: p.ground_km,
        walk: p.mode == Some("walk"@),
        seed: p.seed,
    }
}

pub open spec fn finite_value(v: Option<u64>) -> bool {
    v is Some && NEG_INFINITE < signed(v->0) < INFINITE
}

/// Typed coordinates: two or three words, each a finite number, the first a
/// latitude. A height counts where it is above zero.
pub open spec fn typed_place(body: MapBody, values: Seq<Option<u64>>) -> Option<TeleportAction> {
    let usable = (values.len() == 2 || values.len() == 3) && (forall|i: int|
        0 <= i < values.len() ==> finite_value(#[trigger] values[i])) && -POLE <= signed(
        values[0]->0,
    ) <= POLE;
    if usable {
        Some(
            bare(
                body,
                values[0]->0,
                values[1]->0,
                if values.len() == 3 && signed(values[2]->0) > 0 {
                    values[2]
                } else {
                    None
                },
            ),
        )
    } else {
        None
    }
}

/// Where the teleport goes. `values` are the numbers of the typed words.
pub open spec fn heads_to(s: MapState, values: Seq<Option<u64>>) -> Option<TeleportAction> {
    match (s.selected, s.custom_dest) {
        (Some(i), _) => if i < s.photos.len() {
            Some(to_photo(s.photos[i as int], s.restore_time))
        } else {
            None
        },
        (None, Some(place)) => Some(bare(s.body, place.lat, place.lon, None)),
        (None, None) => typed_place(s.body, values),
    }
}

fn photo_action(p: &Photo, restore: bool) -> (a: TeleportAction)
    ensures
        a == to_photo(p@, restore),
{
    let alt: Measure = measure(p.alt_km);
    let lowest: Measure = measure(LOWEST_EYE);
    let alt_km: u64 = if lowest < alt && alt <= INFINITE {
        p.alt_km
    } else {
        LOWEST_EYE
    };
    let walk: bool = match &p.mode {
        Some(m) => same_text(m, "walk"),
        None => false,
    };
    TeleportAction {
        body: p.body,
        lat: p.lat,
        lon: p.lon,
        alt_km: Some(alt_km),
        yaw_deg: Some(p.yaw_deg),
        pitch_deg: Some(p.pitch_deg),
        roll_deg: Some(p.roll_deg),
        day_time_s: if restore {
            p.day_time_s
        } else {
            None
        },
        day_len_s: if restore {
            p.day_len_s
        } else {
            None
        },
        weather_on: if restore {
            p.weather_on
        } else {
            None
        },
        weather_pin: if restore {
            p.weather_pin
        } else {
            None
        },
        weather_time_s: if restore {
            p.weather_time_s
        } else {
            None
        },
        ground_km: p.ground_km,
        walk,
        seed: p.seed,
    }
}

fn is_finite(v: Option<u64>) -> (r: bool)
    ensures
        r == finite_value(v),
{
    match v {
        None => false,
        Some(bits) => {
            let m: Measure = measure(bits);
            NEG_INFINITE < m && m < INFINITE
        },
    }
}

fn typed_action(body: MapBody, values: &Vec<Option<u64>>) -> (r: Option<TeleportAction>)
    ensures
        r == typed_place(body, values@),
{
    if values.len() != 2 && values.len() != 3 {
        return None;
    }
    let mut i: usize = 0;
    while i < values.len()
        invariant
            i <= values@.len(),
            forall|k: int| 0 <= k < i ==> finite_value(#[trigger] values@[k]),
        decreases values@.len() - i,
    {
        if !is_finite(values[i]) {
            assert(!finite_value(values@[i as int]));
            return None;
        }
        i += 1;
    }
    assert(finite_value(values@[0]) && finite_value(values@[1]));
    match (values[0], values[1]) {
        (Some(lat), Some(lon)) => {
            let m: Measure = measure(lat);
            if m < -POLE || m > POLE {
                return None;
            }
            let alt_km: Option<u64> = if values.len() == 3 {
                assert(finite_value(values@[2]));
                match values[2] {
                    Some(alt) if measure(alt) > 0 => Some(alt),
                    _ => None,
                }
            } else {
                None
            };
            Some(bare_action(body, lat, lon, alt_km))
        },
        _ => None,
    }
}

impl PhotoMap {
    /// The words of the typed coordinates.
    pub fn coord_words(&self) -> (r: Vec<String>)
        ensures
            texts(r@) == words(self@.coord_input),
    {
        split_words(&self.coord_input)
    }

    /// Where the teleport goes. `values` are the numbers of the typed words,
    /// with nothing for a word that is no number.
    pub fn destination(&self, values: &Vec<Option<u64>>) -> (r: Option<TeleportAction>)
        requires
            values@.len() == words(self@.coord_input).len(),
        ensures
            r == heads_to(self@, values@),
    {
        if let Some(i) = self.selected {
            if i < self.photos.len() {
                return Some(photo_action(&self.photos[i], self.restore_time));
            }
            return None;
        }
        if let Some(place) = self.custom_dest {
            return Some(bare_action(self.body, place.lat, place.lon, None));
        }
        typed_action(self.body, values)
    }

    pub open spec fn spec_label(s: MapState) -> Seq<char> {
        if s.selected is Some {
            "Teleport to photo"@
        } else if s.custom_dest is Some {
            "Teleport to map point"@
        } else if !blank(s.coord_input) {
            "Teleport to coordinates"@
        } else {
            "Teleport"@
        }
    }

    /// What the teleport button says.
    pub fn teleport_label(&self) -> (r: &'static str)
        ensures
            r@ == Self::spec_label(self@),
    {
        if self.selected.is_some() {
            "Teleport to photo"
        } else if self.custom_dest.is_some() {
            "Teleport to map point"
        } else if !is_blank(&self.coord_input) {
            "Teleport to coordinates"
        } else {
            "Teleport"
        }
    }

    /// The player commits: an open popup closes where there is somewhere to go.
    /// A closed one does nothing.
    pub fn commit(&mut self, values: &Vec<Option<u64>>) -> (r: Option<TeleportAction>)
        requires
            values@.len() == words(old(self)@.coord_input).len(),
        ensures
            r == (if old(self)@.open {
                heads_to(old(self)@, values@)
            } else {
                None
            }),
            final(self)@ == (MapState { open: old(self)@.open && r is None, ..old(self)@ }),
    {
        if !self.open {
            return None;
        }
        let action = self.destination(values);
        if action.is_some() {
            self.open = false;
        }
        action
    }
}

/// A photo's time and weather are restored only where the player asks.
pub proof fn restore_is_opt_in(p: PhotoView)
    ensures
        ({
            let plain = to_photo(p, false);
            let full = to_photo(p, true);
            &&& plain.day_time_s is None && plain.day_len_s is None && plain.weather_on is None
            &&& plain.weather_pin is None && plain.weather_time_s is None
            &&& full.day_time_s == p.day_time_s && full.day_len_s == p.day_len_s
            &&& full.weather_on == p.weather_on && full.weather_pin == p.weather_pin
            &&& full.weather_time_s == p.weather_time_s
            &&& (TeleportAction {
                day_time_s: p.day_time_s,
                day_len_s: p.day_len_s,
                weather_on: p.weather_on,
                weather_pin: p.weather_pin,
                weather_time_s: p.weather_time_s,
                ..plain
            }) == full
        }),
{
}

/// Typed coordinates give the camera a latitude on the planet, a finite
/// longitude, and a finite height above zero or none.
pub proof fn typed_destinations_are_sound(body: MapBody, values: Seq<Option<u64>>)
    ensures
        typed_place(body, values) matches Some(a) ==> {
            &&& -POLE <= signed(a.lat) <= POLE
            &&& NEG_INFINITE < signed(a.lon) < INFINITE
            &&& a.alt_km matches Some(h) ==> 0 < signed(h) < INFINITE
            &&& a.body == body
        },
{
    if typed_place(body, values) is Some {
        assert(finite_value(values[0]) && finite_value(values[1]));
        if values.len() == 3 {
            assert(finite_value(values[2]));
        }
    }
}

/// A photo never sets the eye below the lowest height.
pub proof fn eyes_stay_up(alt: u64)
    ensures
        signed(LOWEST_EYE) <= signed(eye_height(alt)) <= INFINITE,
{
}

/// With a photo selected, the teleport goes back to where it was taken: the
/// same body, latitude and longitude, the camera turned the same way, on the
/// ground that was recorded, walking where the photo was taken on foot. The
/// eye is at the photo's height, but at least two and a half metres up. Chosen
/// places and typed coordinates do not matter then.
pub proof fn photos_lead_back_to_their_place(s: MapState, values: Seq<Option<u64>>, i: usize)
    requires
        s.selected == Some(i),
    ensures
        i >= s.photos.len() ==> heads_to(s, values) is None,
        i < s.photos.len() ==> (heads_to(s, values) matches Some(a) && {
            let p = s.photos[i as int];
            &&& a.body == p.body && a.lat == p.lat && a.lon == p.lon
            &&& a.yaw_deg == Some(p.yaw_deg) && a.pitch_deg == Some(p.pitch_deg) && a.roll_deg == Some(
                p.roll_deg,
            )
            &&& a.ground_km == p.ground_km && a.seed == p.seed
            &&& a.walk <==> p.mode == Some("walk"@)
            &&& 0x3F64_7AE1_47AE_147B <= signed(p.alt_km) <= INFINITE ==> a.alt_km == Some(p.alt_km)
            &&& signed(p.alt_km) < 0x3F64_7AE1_47AE_147B || signed(p.alt_km) > INFINITE ==> (a.alt_km
                matches Some(eye) && signed(eye) == 0x3F64_7AE1_47AE_147B)
            &&& s.restore_time ==> a.day_time_s == p.day_time_s && a.day_len_s == p.day_len_s
                && a.weather_on == p.weather_on && a.weather_pin == p.weather_pin && a.weather_time_s
                == p.weather_time_s
            &&& !s.restore_time ==> a.day_time_s is None && a.day_len_s is None && a.weather_on is None
                && a.weather_pin is None && a.weather_time_s is None
        }),
{
}

/// An action that only moves the camera: it turns nothing, restores nothing
/// and does not walk.
pub open spec fn only_moves(a: TeleportAction) -> bool {
    &&& a.yaw_deg is None && a.pitch_deg is None && a.roll_deg is None
    &&& a.day_time_s is None && a.day_len_s is None && a.weather_on is None
    &&& a.weather_pin is None && a.weather_time_s is None
    &&& a.ground_km is None && a.seed is None && !a.walk
}

/// Without a photo, the teleport goes to the chosen place of the body on show,
/// at no particular height, whatever is typed.
pub proof fn chosen_places_are_gone_to(s: MapState, values: Seq<Option<u64>>)
    requires
        s.selected is None,
        s.custom_dest is Some,
    ensures
        heads_to(s, values) matches Some(a) && a.body == s.body && a.lat == s.custom_dest->0.lat
            && a.lon == s.custom_dest->0.lon && a.alt_km is None && only_moves(a),
{
}

/// Without a photo or a chosen place, typed coordinates are gone to: two or
/// three numbers, all finite, the first a latitude between the poles, the
/// second the longitude, and a third above zero the height. Anything else goes
/// nowhere.
pub proof fn typed_places_are_gone_to(s: MapState, values: Seq<Option<u64>>)
    requires
        s.selected is None,
        s.custom_dest is None,
    ensures
        heads_to(s, values) matches Some(a) ==> {
            &&& values.len() == 2 || values.len() == 3
            &&& values[0] == Some(a.lat) && values[1] == Some(a.lon)
            &&& -0x4056_8000_0000_0000 <= signed(a.lat) <= 0x4056_8000_0000_0000
            &&& NEG_INFINITE < signed(a.lon) < INFINITE
            &&& a.body == s.body && only_moves(a)
            &&& a.alt_km is Some <==> values.len() == 3 && signed(values[2]->0) > 0
            &&& a.alt_km is Some ==> a.alt_km == values[2] && signed(values[2]->0) < INFINITE
            &&& values.len() == 3 ==> (values[2] matches Some(h) && NEG_INFINITE < signed(h) < INFINITE)
        },
        (values.len() == 2 || values.len() == 3) && (values[0] matches Some(lat) && -0x4056_8000_0000_0000
            <= signed(lat) <= 0x4056_8000_0000_0000) && (values[1] matches Some(lon) && NEG_INFINITE
            < signed(lon) < INFINITE) && (values.len() == 3 ==> (values[2] matches Some(h) && NEG_INFINITE
            < signed(h) < INFINITE)) ==> heads_to(s, values) is Some,
{
    if heads_to(s, values) is Some {
        assert(finite_value(values[0]) && finite_value(values[1]));
        if values.len() == 3 {
            assert(finite_value(values[2]));
        }
    }
}

/// The button says where the teleport goes.
pub proof fn labels_name_the_destination(s: MapState)
    ensures
        s.selected is Some ==> PhotoMap::spec_label(s) == "Teleport to photo"@,
        s.selected is None && s.custom_dest is Some ==> PhotoMap::spec_label(s)
            == "Teleport to map point"@,
        s.selected is None && s.custom_dest is None && !blank(s.coord_input) ==> PhotoMap::spec_label(s)
            == "Teleport to coordinates"@,
        s.selected is None && s.custom_dest is None && blank(s.coord_input) ==> PhotoMap::spec_label(s)
            == "Teleport"@,
{
}

} // verus!
