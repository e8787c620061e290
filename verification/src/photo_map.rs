//! The photo map: the popup that shows the photo roll on a map, and what each
//! click, key and button does to it. Drawing and files are the app's.

use std::collections::HashSet;
use vstd::prelude::*;
use crate::measure::Measure;
use crate::photo::{MapBody, Photo, PhotoView};
use crate::sidecar::Pin;
use crate::text::{decimal, push_decimal};

verus! {

broadcast use vstd::std_specs::hash::group_hash_axioms;

/// Which full-coverage field paints the base of the map.
#[derive(Clone, Copy, PartialEq, Eq, Structural, Debug)]
pub enum BaseLayer {
    Biomes,
    Temperature,
    Precipitation,
    /// Tint by height, with contour lines.
    Elevation,
}

/// The switches of the map's layers.
#[derive(Clone, Copy, PartialEq, Eq, Structural, Debug)]
pub struct Layers {
    pub relief: bool,
    pub rivers: bool,
    pub lakes: bool,
    pub clouds: bool,
    pub wind: bool,
    pub markers: bool,
}

/// The pan and zoom of the map, as stored values.
#[derive(Clone, Copy, PartialEq, Eq, Structural, Debug)]
pub struct MapWindow {
    pub zoom: u64,
    pub lat: u64,
    pub lon: u64,
}

/// The lat/lon rectangle that the map frames.
#[derive(Clone, Copy, PartialEq, Eq, Structural, Debug)]
pub struct Bounds {
    pub lat_top: Measure,
    pub lat_bot: Measure,
    pub lon_left: Measure,
    pub lon_right: Measure,
}

/// Pinned weather, compared as values.
#[derive(Clone, Copy, PartialEq, Eq, Structural, Debug)]
pub struct PinnedAt {
    pub cover: Measure,
    pub precip: Measure,
}

/// What a map texture was made for.
#[derive(Clone, Copy, PartialEq, Eq, Structural, Debug)]
pub struct MapSig {
    pub w: usize,
    pub h: usize,
    pub body: MapBody,
    pub base: BaseLayer,
    pub relief: bool,
    pub clouds: bool,
    pub weather_on: bool,
    pub weather_pin: Option<PinnedAt>,
    pub weather_time_bucket: Option<i64>,
    pub bounds: Bounds,
}

/// The date that the time-travel controls show.
#[derive(Clone, Copy, PartialEq, Eq, Structural, Debug)]
pub struct TravelDate {
    pub year: i64,
    pub month: i64,
    pub day: i64,
    /// The share of the day gone by, as a stored value.
    pub day_frac: u64,
}

/// A place on the map, as stored values.
#[derive(Clone, Copy, PartialEq, Eq, Structural, Debug)]
pub struct Place {
    pub lat: u64,
    pub lon: u64,
}

/// The size of the screen, as stored values.
#[derive(Clone, Copy, PartialEq, Eq, Structural, Debug)]
pub struct Screen {
    pub width: u32,
    pub height: u32,
}

/// What the popup asks the app to do when the player commits.
#[derive(Clone, Copy, PartialEq, Eq, Structural, Debug)]
pub struct TeleportAction {
    pub body: MapBody,
    pub lat: u64,
    pub lon: u64,
    pub alt_km: Option<u64>,
    pub yaw_deg: Option<u64>,
    pub pitch_deg: Option<u64>,
    pub roll_deg: Option<u64>,
    pub day_time_s: Option<u64>,
    pub day_len_s: Option<u64>,
    pub weather_on: Option<bool>,
    pub weather_pin: Option<Pin>,
    pub weather_time_s: Option<u64>,
    pub ground_km: Option<u64>,
    pub walk: bool,
    pub seed: Option<i64>,
}

/// The popup.
pub struct PhotoMap {
    pub open: bool,
    pub photos: Vec<Photo>,
    /// A map texture is there.
    pub textured: bool,
    /// What the texture was made for.
    pub map_built: Option<MapSig>,
    /// The photo whose preview is loaded.
    pub preview: Option<usize>,
    /// The photo whose full-size texture is loaded.
    pub lightbox_tex: Option<usize>,
    pub lightbox_open: bool,
    pub selected: Option<usize>,
    pub checked: HashSet<usize>,
    pub custom_dest: Option<Place>,
    pub confirm_delete: bool,
    pub restore_time: bool,
    pub coord_input: String,
    pub scroll_to_selected: bool,
    pub status: String,
    pub body: MapBody,
    pub base_layer: BaseLayer,
    pub layers: Layers,
    pub window: MapWindow,
    pub last_screen: Option<Screen>,
    pub travel: TravelDate,
    pub travel_seeded: bool,
    pub pending_time_travel: Option<u64>,
    pub pending_time_scale: Option<u64>,
    pub pending_join: Option<(String, String)>,
    pub pending_disconnect: bool,
    pub join_url: String,
    pub join_name: String,
}

/// What the popup holds.
#[verifier::ext_equal]
pub struct MapState {
    pub open: bool,
    pub photos: Seq<PhotoView>,
    pub textured: bool,
    pub map_built: Option<MapSig>,
    pub preview: Option<usize>,
    pub lightbox_tex: Option<usize>,
    pub lightbox_open: bool,
    pub selected: Option<usize>,
    pub checked: Set<usize>,
    pub custom_dest: Option<Place>,
    pub confirm_delete: bool,
    pub restore_time: bool,
    pub coord_input: Seq<char>,
    pub scroll_to_selected: bool,
    pub status: Seq<char>,
    pub body: MapBody,
    pub base_layer: BaseLayer,
    pub layers: Layers,
    pub window: MapWindow,
    pub last_screen: Option<Screen>,
    pub travel: TravelDate,
    pub travel_seeded: bool,
    pub pending_time_travel: Option<u64>,
    pub pending_time_scale: Option<u64>,
    pub pending_join: Option<(Seq<char>, Seq<char>)>,
    pub pending_disconnect: bool,
    pub join_url: Seq<char>,
    pub join_name: Seq<char>,
}

pub open spec fn roll_view(photos: Seq<Photo>) -> Seq<PhotoView> {
    Seq::new(photos.len(), |i: int| photos[i]@)
}

impl View for PhotoMap {
    type V = MapState;

    open spec fn view(&self) -> MapState {
        MapState {
            open: self.open,
            photos: roll_view(self.photos@),
            textured: self.textured,
            map_built: self.map_built,
            preview: self.preview,
            lightbox_tex: self.lightbox_tex,
            lightbox_open: self.lightbox_open,
            selected: self.selected,
            checked: self.checked@,
            custom_dest: self.custom_dest,
            confirm_delete: self.confirm_delete,
            restore_time: self.restore_time,
            coord_input: self.coord_input@,
            scroll_to_selected: self.scroll_to_selected,
            status: self.status@,
            body: self.body,
            base_layer: self.base_layer,
            layers: self.layers,
            window: self.window,
            last_screen: self.last_screen,
            travel: self.travel,
            travel_seeded: self.travel_seeded,
            pending_time_travel: self.pending_time_travel,
            pending_time_scale: self.pending_time_scale,
            pending_join: match self.pending_join {
                Some((url, name)) => Some((url@, name@)),
                None => None,
            },
            pending_disconnect: self.pending_disconnect,
            join_url: self.join_url@,
            join_name: self.join_name@,
        }
    }
}

/// The whole planet.
pub const WHOLE_ZOOM: u64 = 0x3FF0_0000_0000_0000;

/// Noon, the first share of the day that the time-travel controls show.
pub const NOON: u64 = 0x3FE0_0000_0000_0000;

/// A marker is hit within this many pixels (10).
pub const MARKER_REACH: Measure = 0x4024_0000_0000_0000;

/// The farthest latitude (90).
pub const POLE: Measure = 0x4056_8000_0000_0000;

/// The lowest eye height over a photo's place (0.0025), as a stored value.
pub const LOWEST_EYE: u64 = 0x3F64_7AE1_47AE_147B;

pub open spec fn whole_planet() -> MapWindow {
    MapWindow { zoom: WHOLE_ZOOM, lat: 0, lon: 0 }
}

fn whole_window() -> (w: MapWindow)
    ensures
        w == whole_planet(),
{
    MapWindow { zoom: WHOLE_ZOOM, lat: 0, lon: 0 }
}

/// The photos taken on a body.
pub open spec fn count_on(photos: Seq<PhotoView>, body: MapBody) -> nat
    decreases photos.len(),
{
    if photos.len() == 0 {
        0
    } else {
        count_on(photos.drop_last(), body) + (if photos.last().body == body {
            1nat
        } else {
            0nat
        })
    }
}

proof fn lemma_count(photos: Seq<PhotoView>, body: MapBody)
    ensures
        count_on(photos, body) <= photos.len(),
    decreases photos.len(),
{
    if photos.len() > 0 {
        lemma_count(photos.drop_last(), body);
    }
}

fn count_photos(photos: &Vec<Photo>, body: MapBody) -> (n: usize)
    ensures
        n == count_on(roll_view(photos@), body),
{
    let mut n: usize = 0;
    let mut i: usize = 0;
    while i < photos.len()
        invariant
            n <= i <= photos@.len(),
            n == count_on(roll_view(photos@).take(i as int), body),
        decreases photos@.len() - i,
    {
        proof {
            let v = roll_view(photos@);
            assert(v.take(i + 1).drop_last() =~= v.take(i as int));
        }
        if photos[i].body == body {
            n += 1;
        }
        i += 1;
    }
    proof {
        let v = roll_view(photos@);
        assert(v.take(v.len() as int) =~= v);
    }
    n
}

pub open spec fn body_name(body: MapBody) -> Seq<char> {
    match body {
        MapBody::Moon => "moon"@,
        MapBody::Neisor => "Neisor"@,
    }
}

/// The line that tells how many photos a body has.
pub open spec fn roll_line(photos: Seq<PhotoView>, body: MapBody) -> Seq<char> {
    decimal(count_on(photos, body)) + " "@ + body_name(body) + " photos"@
}

fn roll_status(photos: &Vec<Photo>, body: MapBody) -> (r: String)
    ensures
        r@ == roll_line(roll_view(photos@), body),
{
    let mut r = String::new();
    push_decimal(&mut r, count_photos(photos, body));
    r.append(" ");
    match body {
        MapBody::Moon => r.append("moon"),
        MapBody::Neisor => r.append("Neisor"),
    }
    r.append(" photos");
    assert(r@ =~= roll_line(roll_view(photos@), body));
    r
}

/// The popup before it was ever opened.
pub open spec fn fresh() -> MapState {
    MapState {
        open: false,
        photos: Seq::empty(),
        textured: false,
        map_built: None,
        preview: None,
        lightbox_tex: None,
        lightbox_open: false,
        selected: None,
        checked: Set::empty(),
        custom_dest: None,
        confirm_delete: false,
        restore_time: false,
        coord_input: Seq::empty(),
        scroll_to_selected: false,
        status: Seq::empty(),
        body: MapBody::Neisor,
        base_layer: BaseLayer::Biomes,
        layers: Layers {
            relief: true,
            rivers: true,
            lakes: true,
            clouds: false,
            wind: false,
            markers: true,
        },
        window: whole_planet(),
        last_screen: None,
        travel: TravelDate { year: 1, month: 1, day: 1, day_frac: NOON },
        travel_seeded: false,
        pending_time_travel: None,
        pending_time_scale: None,
        pending_join: None,
        pending_disconnect: false,
        join_url: Seq::empty(),
        join_name: "Player"@,
    }
}

/// Nothing selected, nothing shown full size, nothing checked.
pub open spec fn cleared(s: MapState) -> MapState {
    MapState {
        selected: None,
        preview: None,
        lightbox_tex: None,
        lightbox_open: false,
        checked: Set::empty(),
        ..s
    }
}

pub open spec fn toggled(s: MapState, roll: Seq<PhotoView>) -> MapState {
    if s.open {
        MapState { open: false, ..s }
    } else {
        MapState {
            open: true,
            photos: roll,
            custom_dest: None,
            confirm_delete: false,
            window: whole_planet(),
            map_built: None,
            status: roll_line(roll, s.body),
            ..cleared(s)
        }
    }
}

pub open spec fn escaped(s: MapState) -> (MapState, bool) {
    if !s.open {
        (s, false)
    } else if s.lightbox_open {
        (MapState { lightbox_open: false, lightbox_tex: None, ..s }, true)
    } else if s.confirm_delete {
        (MapState { confirm_delete: false, ..s }, true)
    } else if s.selected is Some || s.custom_dest is Some {
        (MapState { selected: None, preview: None, custom_dest: None, ..s }, true)
    } else {
        (s, false)
    }
}

pub open spec fn switched(s: MapState, body: MapBody) -> MapState {
    if body == s.body {
        s
    } else {
        MapState {
            body,
            window: whole_planet(),
            map_built: None,
            custom_dest: None,
            status: roll_line(s.photos, body),
            ..cleared(s)
        }
    }
}

impl PhotoMap {
    /// The popup before it was ever opened.
    pub fn new() -> (m: Self)
        ensures
            m@ == fresh(),
    {
        let mut name = String::new();
        name.append("Player");
        let m = PhotoMap {
            open: false,
            photos: Vec::new(),
            textured: false,
            map_built: None,
            preview: None,
            lightbox_tex: None,
            lightbox_open: false,
            selected: None,
            checked: HashSet::new(),
            custom_dest: None,
            confirm_delete: false,
            restore_time: false,
            coord_input: String::new(),
            scroll_to_selected: false,
            status: String::new(),
            body: MapBody::Neisor,
            base_layer: BaseLayer::Biomes,
            layers: Layers {
                relief: true,
                rivers: true,
                lakes: true,
                clouds: false,
                wind: false,
                markers: true,
            },
            window: whole_window(),
            last_screen: None,
            travel: TravelDate { year: 1, month: 1, day: 1, day_frac: NOON },
            travel_seeded: false,
            pending_time_travel: None,
            pending_time_scale: None,
            pending_join: None,
            pending_disconnect: false,
            join_url: String::new(),
            join_name: name,
        };
        assert(name@ =~= "Player"@);
        assert(m@ =~= fresh());
        m
    }

    /// The player's name, and an invitation where there is one.
    pub fn set_join_defaults(&mut self, name: String, invite: Option<String>)
        ensures
            final(self)@ == (MapState {
                join_name: name@,
                join_url: match invite {
                    Some(url) => url@,
                    None => old(self)@.join_url,
                },
                ..old(self)@
            }),
    {
        self.join_name = name;
        if let Some(url) = invite {
            self.join_url = url;
        }
    }

    /// Open or close the popup. Opening takes the scanned roll and starts from
    /// the whole planet with nothing selected.
    pub fn toggle(&mut self, roll: Vec<Photo>)
        ensures
            final(self)@ == toggled(old(self)@, roll_view(roll@)),
    {
        self.open = !self.open;
        if self.open {
            self.photos = roll;
            self.selected = None;
            self.preview = None;
            self.lightbox_tex = None;
            self.lightbox_open = false;
            self.checked.clear();
            self.custom_dest = None;
            self.confirm_delete = false;
            self.window = whole_window();
            self.map_built = None;
            self.status = roll_status(&self.photos, self.body);
        }
        assert(self@ =~= toggled(old(self)@, roll_view(roll@)));
    }

    /// Back out one layer: the full-size photo, then the question before
    /// deleting, then the selection. False where there was nothing to back out
    /// of, so that the caller closes the popup.
    pub fn handle_escape(&mut self) -> (consumed: bool)
        ensures
            (final(self)@, consumed) == escaped(old(self)@),
    {
        if !self.open {
            return false;
        }
        if self.lightbox_open {
            self.lightbox_open = false;
            self.lightbox_tex = None;
            return true;
        }
        if self.confirm_delete {
            self.confirm_delete = false;
            return true;
        }
        if self.selected.is_some() || self.custom_dest.is_some() {
            self.selected = None;
            self.preview = None;
            self.custom_dest = None;
            return true;
        }
        false
    }

    /// Show another body, from the whole planet and with nothing selected.
    pub fn switch_body(&mut self, body: MapBody)
        ensures
            final(self)@ == switched(old(self)@, body),
    {
        if self.body != body {
            self.body = body;
            self.window = whole_window();
            self.map_built = None;
            self.selected = None;
            self.preview = None;
            self.lightbox_tex = None;
            self.lightbox_open = false;
            self.custom_dest = None;
            self.checked.clear();
            self.status = roll_status(&self.photos, self.body);
        }
    }
}

/// The first popup is closed and empty, shows the planet's biomes with relief,
/// rivers, lakes and markers, and frames the whole of it.
pub proof fn first_popups_show_the_planet()
    ensures
        ({
            let s = fresh();
            &&& !s.open && s.photos.len() == 0 && !s.textured && s.map_built is None
            &&& s.preview is None && s.lightbox_tex is None && !s.lightbox_open && s.selected is None
            &&& s.checked.is_empty() && s.custom_dest is None && !s.confirm_delete && !s.restore_time
            &&& s.coord_input.len() == 0 && !s.scroll_to_selected && s.status.len() == 0
            &&& s.body == MapBody::Neisor && s.base_layer == BaseLayer::Biomes
            &&& s.layers.relief && s.layers.rivers && s.layers.lakes && s.layers.markers
            &&& !s.layers.clouds && !s.layers.wind
            &&& s.window.zoom == 0x3FF0_0000_0000_0000 && s.window.lat == 0 && s.window.lon == 0
            &&& s.last_screen is None
            &&& s.travel.year == 1 && s.travel.month == 1 && s.travel.day == 1
            &&& s.travel.day_frac == 0x3FE0_0000_0000_0000 && !s.travel_seeded
            &&& s.pending_time_travel is None && s.pending_time_scale is None
            &&& s.pending_join is None && !s.pending_disconnect
            &&& s.join_url.len() == 0 && s.join_name == "Player"@
        }),
{
}

/// Opening takes the roll and starts from the whole planet with nothing
/// chosen; body, layers, inputs and pending requests stay.
pub proof fn opening_starts_afresh(s: MapState, roll: Seq<PhotoView>)
    requires
        !s.open,
    ensures
        ({
            let t = toggled(s, roll);
            &&& t.open && t.photos == roll
            &&& t.selected is None && t.preview is None && t.custom_dest is None
            &&& t.lightbox_tex is None && !t.lightbox_open && t.checked.is_empty()
            &&& !t.confirm_delete && t.map_built is None
            &&& t.window.zoom == 0x3FF0_0000_0000_0000 && t.window.lat == 0 && t.window.lon == 0
            &&& t.status == roll_line(roll, s.body)
            &&& t.textured == s.textured && t.restore_time == s.restore_time
            &&& t.coord_input == s.coord_input && t.scroll_to_selected == s.scroll_to_selected
            &&& t.body == s.body && t.base_layer == s.base_layer && t.layers == s.layers
            &&& t.last_screen == s.last_screen && t.travel == s.travel
            &&& t.travel_seeded == s.travel_seeded
            &&& t.pending_time_travel == s.pending_time_travel
            &&& t.pending_time_scale == s.pending_time_scale && t.pending_join == s.pending_join
            &&& t.pending_disconnect == s.pending_disconnect
            &&& t.join_url == s.join_url && t.join_name == s.join_name
        }),
{
}

/// Closing keeps everything: only the popup is no longer open.
pub proof fn closing_keeps_the_popup(s: MapState, roll: Seq<PhotoView>)
    requires
        s.open,
    ensures
        !toggled(s, roll).open,
        s == (MapState { open: true, ..toggled(s, roll) }),
{
}

/// Escape closes the full-size photo before it withdraws the question, and
/// withdraws the question before it drops the destination.
pub proof fn escape_backs_out_in_order(s: MapState)
    ensures
        ({
            let (t, consumed) = escaped(s);
            let chosen = s.selected is Some || s.custom_dest is Some;
            &&& consumed <==> s.open && (s.lightbox_open || s.confirm_delete || chosen)
            &&& !consumed ==> t == s
            &&& consumed && s.lightbox_open ==> !t.lightbox_open && t.lightbox_tex is None && s == (
            MapState { lightbox_open: true, lightbox_tex: s.lightbox_tex, ..t })
            &&& consumed && !s.lightbox_open && s.confirm_delete ==> !t.confirm_delete && s == (
            MapState { confirm_delete: true, ..t })
            &&& consumed && !s.lightbox_open && !s.confirm_delete ==> t.selected is None
                && t.custom_dest is None && t.preview is None && s == (MapState {
                selected: s.selected,
                custom_dest: s.custom_dest,
                preview: s.preview,
                ..t
            })
        }),
{
}

/// Another body is shown whole with nothing chosen on it; the roll and the
/// layers stay, and the status counts that body's photos.
pub proof fn switching_shows_the_other_body(s: MapState, body: MapBody)
    ensures
        body == s.body ==> switched(s, body) == s,
        body != s.body ==> {
            let t = switched(s, body);
            &&& t.body == body && t.status == roll_line(s.photos, body)
            &&& t.window.zoom == 0x3FF0_0000_0000_0000 && t.window.lat == 0 && t.window.lon == 0
            &&& t.map_built is None && t.selected is None && t.preview is None
            &&& t.custom_dest is None && t.lightbox_tex is None && !t.lightbox_open
            &&& t.checked.is_empty()
            &&& s == (MapState {
                body: s.body,
                status: s.status,
                window: s.window,
                map_built: s.map_built,
                selected: s.selected,
                preview: s.preview,
                custom_dest: s.custom_dest,
                lightbox_tex: s.lightbox_tex,
                lightbox_open: s.lightbox_open,
                checked: s.checked,
                ..t
            })
        },
{
}

/// Every photo counts on its own body and on no other.
pub proof fn photos_count_on_their_body(photos: Seq<PhotoView>, p: PhotoView, body: MapBody)
    ensures
        count_on(Seq::empty(), body) == 0,
        p.body == body ==> count_on(photos.push(p), body) == count_on(photos, body) + 1,
        p.body != body ==> count_on(photos.push(p), body) == count_on(photos, body),
{
    assert(photos.push(p).drop_last() =~= photos);
}

/// The line counts the body's photos under the body's name.
pub proof fn roll_lines_count_the_photos(photos: Seq<PhotoView>)
    ensures
        roll_line(photos, MapBody::Moon) == decimal(count_on(photos, MapBody::Moon)) + " moon photos"@,
        roll_line(photos, MapBody::Neisor) == decimal(count_on(photos, MapBody::Neisor))
            + " Neisor photos"@,
{
    reveal_strlit(" ");
    reveal_strlit("moon");
    reveal_strlit("Neisor");
    reveal_strlit(" photos");
    reveal_strlit(" moon photos");
    reveal_strlit(" Neisor photos");
    assert(" "@ + "moon"@ + " photos"@ =~= " moon photos"@);
    assert(" "@ + "Neisor"@ + " photos"@ =~= " Neisor photos"@);
    let (m, n) = (
        decimal(count_on(photos, MapBody::Moon)),
        decimal(count_on(photos, MapBody::Neisor)),
    );
    assert(m + " "@ + "moon"@ + " photos"@ =~= m + (" "@ + "moon"@ + " photos"@));
    assert(n + " "@ + "Neisor"@ + " photos"@ =~= n + (" "@ + "Neisor"@ + " photos"@));
}

} // verus!
