//! What clicks on the photo map select, open and check.

use std::collections::HashSet;
use vstd::prelude::*;
use crate::measure::{below, first_least, is_below, nearest, Measure};
use crate::photo::{MapBody, Photo, PhotoView};
use crate::photo_map::{whole_planet, MapState, MapWindow, PhotoMap, Place};
use crate::photo_map::{MARKER_REACH, WHOLE_ZOOM};
use crate::text::{blank, is_blank};

verus! {

/// The distances of the markers that a click can hit: photos of the shown
/// body within reach, while markers are shown.
pub open spec fn marker_keys(s: MapState, dists: Seq<Measure>) -> Seq<Option<Measure>> {
    Seq::new(
        s.photos.len(),
        |i: int|
            if s.layers.markers && s.photos[i].body == s.body && below(dists[i], MARKER_REACH) {
                Some(dists[i])
            } else {
                None
            },
    )
}

/// Every photo is out of a click's reach.
pub open spec fn hits_nothing(keys: Seq<Option<Measure>>) -> bool {
    forall|i: int| 0 <= i < keys.len() ==> (#[trigger] keys[i]) is None
}

pub open spec fn picked(s: MapState, i: usize) -> MapState {
    MapState { selected: Some(i), custom_dest: None, scroll_to_selected: true, ..s }
}

pub open spec fn aimed(s: MapState, place: Place) -> MapState {
    MapState { selected: None, custom_dest: Some(place), ..s }
}

/// The photos of a body, in the roll's order.
pub open spec fn rows_of(photos: Seq<PhotoView>, body: MapBody) -> Seq<usize>
    decreases photos.len(),
{
    if photos.len() == 0 {
        Seq::empty()
    } else {
        let head = rows_of(photos.drop_last(), body);
        if photos.last().body == body {
            head.push((photos.len() - 1) as usize)
        } else {
            head
        }
    }
}

/// A photo's numbers among the checked ones.
pub open spec fn on_body(photos: Seq<PhotoView>, body: MapBody) -> Set<usize> {
    Set::new(|i: usize| i < photos.len() && photos[i as int].body == body)
}

/// What a photo is called: its title, or its file name where the title is
/// blank.
pub open spec fn shown_name(p: PhotoView) -> Seq<char> {
    if blank(p.title) {
        p.name
    } else {
        p.title
    }
}

/// What a photo is called: its title, or its file name where the title is
/// blank.
pub fn photo_label(p: &Photo) -> (r: String)
    ensures
        r@ == shown_name(p@),
{
    if is_blank(&p.title) {
        p.name.clone()
    } else {
        p.title.clone()
    }
}

/// The hover text of a photo: its file name, and its note where it has one.
pub fn photo_hint(p: &Photo) -> (r: String)
    ensures
        r@ == (if blank(p@.note) {
            p@.name
        } else {
            p@.name + "\n\n"@ + p@.note
        }),
{
    let mut r = p.name.clone();
    if !is_blank(&p.note) {
        r.append("\n\n");
        r.append(&p.note);
    }
    r
}

/// How a marker is drawn.
#[derive(Clone, Copy, PartialEq, Eq, Structural, Debug)]
pub enum MarkerLook {
    Selected,
    Checked,
    Plain,
}

/// What the popup does with the full-size photo this frame.
#[derive(Clone, Copy, PartialEq, Eq, Structural, Debug)]
pub enum Lightbox {
    /// It is not shown.
    Closed,
    /// The photo to show.
    Show(usize),
}

impl PhotoMap {
    fn reach_keys(&self, dists: &Vec<Measure>) -> (keys: Vec<Option<Measure>>)
        requires
            dists@.len() == self@.photos.len(),
        ensures
            keys@ == marker_keys(self@, dists@),
    {
        let mut keys: Vec<Option<Measure>> = Vec::new();
        let mut i: usize = 0;
        while i < self.photos.len()
            invariant
                dists@.len() == self.photos@.len(),
                i <= self.photos@.len(),
                keys@ =~= marker_keys(self@, dists@).take(i as int),
            decreases self.photos@.len() - i,
        {
            let d: Measure = dists[i];
            if self.layers.markers && self.photos[i].body == self.body && is_below(d, MARKER_REACH) {
                keys.push(Some(d));
            } else {
                keys.push(None);
            }
            i += 1;
        }
        assert(keys@ =~= marker_keys(self@, dists@));
        keys
    }

    fn pick(&mut self, i: usize)
        ensures
            final(self)@ == picked(old(self)@, i),
    {
        self.selected = Some(i);
        self.custom_dest = None;
        self.scroll_to_selected = true;
    }

    fn aim(&mut self, place: Place)
        ensures
            final(self)@ == aimed(old(self)@, place),
    {
        self.custom_dest = Some(place);
        self.selected = None;
    }

    /// A click on the map selects the nearest marker in reach, earliest on a
    /// tie, or else sets the clicked place as the destination.
    pub fn click(&mut self, dists: &Vec<Measure>, place: Place)
        requires
            dists@.len() == old(self)@.photos.len(),
        ensures
            hits_nothing(marker_keys(old(self)@, dists@)) ==> final(self)@ == aimed(
                old(self)@,
                place,
            ),
            forall|i: usize| #[trigger]
                first_least(marker_keys(old(self)@, dists@), i as int) ==> final(self)@ == picked(
                    old(self)@,
                    i,
                ),
            hits_nothing(marker_keys(old(self)@, dists@)) || exists|i: usize| #[trigger]
                first_least(marker_keys(old(self)@, dists@), i as int),
    {
        let keys = self.reach_keys(dists);
        let hit = nearest(&keys);
        proof {
            if let Some(i) = hit {
                assert(keys@[i as int] is Some);
                assert forall|k: usize| #[trigger] first_least(keys@, k as int) implies k == i by {
                    crate::measure::first_least_is_unique(keys@, i as int, k as int);
                }
            }
        }
        match hit {
            Some(i) => self.pick(i),
            None => self.aim(place),
        }
    }

    /// The first marker within reach of the pointer.
    pub fn hovered(&self, dists: &Vec<Measure>) -> (r: Option<usize>)
        requires
            dists@.len() == self@.photos.len(),
        ensures
            r is None <==> hits_nothing(marker_keys(self@, dists@)),
            r matches Some(i) ==> {
                &&& i < self@.photos.len()
                &&& marker_keys(self@, dists@)[i as int] is Some
                &&& forall|k: int| 0 <= k < i ==> (#[trigger] marker_keys(self@, dists@)[k]) is None
            },
    {
        let keys = self.reach_keys(dists);
        let mut i: usize = 0;
        while i < keys.len()
            invariant
                i <= keys@.len(),
                keys@ == marker_keys(self@, dists@),
                forall|k: int| 0 <= k < i ==> (#[trigger] keys@[k]) is None,
            decreases keys@.len() - i,
        {
            if keys[i].is_some() {
                return Some(i);
            }
            i += 1;
        }
        None
    }

    /// A double click on a marker shows the photo full size; elsewhere it
    /// frames the whole planet. True where the view was reset.
    pub fn double_click(&mut self, dists: &Vec<Measure>) -> (reset: bool)
        requires
            dists@.len() == old(self)@.photos.len(),
        ensures
            reset == hits_nothing(marker_keys(old(self)@, dists@)),
            final(self)@ == (if reset {
                MapState { window: whole_planet(), ..old(self)@ }
            } else {
                MapState { lightbox_open: true, ..old(self)@ }
            }),
    {
        match self.hovered(dists) {
            Some(_) => {
                self.lightbox_open = true;
                false
            },
            None => {
                self.reset_view();
                true
            },
        }
    }

    /// Frame the whole planet.
    pub fn reset_view(&mut self)
        ensures
            final(self)@ == (MapState { window: whole_planet(), ..old(self)@ }),
    {
        self.window = MapWindow { zoom: WHOLE_ZOOM, lat: 0, lon: 0 };
    }

    /// How a photo's marker is drawn.
    pub fn marker_look(&self, i: usize) -> (r: MarkerLook)
        ensures
            r == (if self@.selected == Some(i) {
                MarkerLook::Selected
            } else if self@.checked.contains(i) {
                MarkerLook::Checked
            } else {
                MarkerLook::Plain
            }),
    {
        broadcast use vstd::std_specs::hash::group_hash_axioms;

        let chosen: bool = match self.selected {
            Some(k) => k == i,
            None => false,
        };
        if chosen {
            MarkerLook::Selected
        } else if self.checked.contains(&i) {
            MarkerLook::Checked
        } else {
            MarkerLook::Plain
        }
    }

    /// The photos of the shown body, in the roll's order.
    pub fn rows(&self) -> (out: Vec<usize>)
        ensures
            out@ == rows_of(self@.photos, self@.body),
    {
        let mut out: Vec<usize> = Vec::new();
        let mut i: usize = 0;
        while i < self.photos.len()
            invariant
                i <= self.photos@.len(),
                out@ == rows_of(self@.photos.take(i as int), self@.body),
            decreases self.photos@.len() - i,
        {
            proof {
                assert(self@.photos.take(i + 1).drop_last() =~= self@.photos.take(i as int));
            }
            if self.photos[i].body == self.body {
                out.push(i);
            }
            i += 1;
        }
        proof {
            assert(self@.photos.take(self@.photos.len() as int) =~= self@.photos);
        }
        out
    }

    fn body_set(&self) -> (checked: HashSet<usize>)
        ensures
            checked@ == on_body(self@.photos, self@.body),
    {
        broadcast use vstd::std_specs::hash::group_hash_axioms;

        let mut checked: HashSet<usize> = HashSet::new();
        let mut i: usize = 0;
        while i < self.photos.len()
            invariant
                i <= self.photos@.len(),
                forall|k: usize| #[trigger]
                    checked@.contains(k) <==> k < i && self.photos@[k as int].body == self.body,
            decreases self.photos@.len() - i,
        {
            if self.photos[i].body == self.body {
                checked.insert(i);
            }
            i += 1;
        }
        assert(checked@ =~= on_body(self@.photos, self@.body));
        checked
    }

    /// Check every photo of the shown body, and no other.
    pub fn select_all(&mut self)
        ensures
            final(self)@ == (MapState {
                checked: on_body(old(self)@.photos, old(self)@.body),
                ..old(self)@
            }),
    {
        let checked = self.body_set();
        self.checked = checked;
    }

    /// Uncheck every photo.
    pub fn clear_checked(&mut self)
        ensures
            final(self)@ == (MapState { checked: Set::empty(), ..old(self)@ }),
    {
        self.checked.clear();
    }

    /// Check or uncheck a photo.
    pub fn set_checked(&mut self, i: usize, on: bool)
        ensures
            final(self)@ == (MapState {
                checked: if on {
                    old(self)@.checked.insert(i)
                } else {
                    old(self)@.checked.remove(i)
                },
                ..old(self)@
            }),
    {
        broadcast use vstd::std_specs::hash::group_hash_axioms;

        if on {
            self.checked.insert(i);
        } else {
            self.checked.remove(&i);
        }
    }

    /// A click on a row selects its photo; a double click shows it full size
    /// too.
    pub fn row_click(&mut self, i: usize, double: bool)
        ensures
            final(self)@ == (MapState {
                selected: Some(i),
                custom_dest: None,
                lightbox_open: old(self)@.lightbox_open || double,
                ..old(self)@
            }),
    {
        self.selected = Some(i);
        self.custom_dest = None;
        if double {
            self.lightbox_open = true;
        }
    }

    /// The selected row was scrolled into view.
    pub fn scrolled(&mut self)
        ensures
            final(self)@ == (MapState { scroll_to_selected: false, ..old(self)@ }),
    {
        self.scroll_to_selected = false;
    }

    /// A click on the preview shows its photo full size.
    pub fn enlarge(&mut self)
        ensures
            final(self)@ == (MapState { lightbox_open: true, ..old(self)@ }),
    {
        self.lightbox_open = true;
    }

    /// Select nothing.
    pub fn clear_selection(&mut self)
        ensures
            final(self)@ == (MapState { selected: None, preview: None, ..old(self)@ }),
    {
        self.selected = None;
        self.preview = None;
    }

    /// A photo's preview must be loaded: it is a photo and not the one loaded.
    pub fn wants_preview(&self, i: usize) -> (r: bool)
        ensures
            r == (self@.preview != Some(i) && i < self@.photos.len()),
    {
        let loaded: bool = match self.preview {
            Some(k) => k == i,
            None => false,
        };
        !loaded && i < self.photos.len()
    }

    /// A preview was loaded.
    pub fn preview_loaded(&mut self, i: usize)
        ensures
            final(self)@ == (MapState { preview: Some(i), ..old(self)@ }),
    {
        self.preview = Some(i);
    }

    /// A photo's full-size texture must be loaded: it is a photo and not the
    /// one loaded.
    pub fn wants_lightbox(&self, i: usize) -> (r: bool)
        ensures
            r == (self@.lightbox_tex != Some(i) && i < self@.photos.len()),
    {
        let loaded: bool = match self.lightbox_tex {
            Some(k) => k == i,
            None => false,
        };
        !loaded && i < self.photos.len()
    }

    /// A full-size texture was loaded.
    pub fn lightbox_loaded(&mut self, i: usize)
        ensures
            final(self)@ == (MapState { lightbox_tex: Some(i), ..old(self)@ }),
    {
        self.lightbox_tex = Some(i);
    }

    /// Whether a photo is shown full size this frame. An open lightbox without
    /// a photo closes.
    pub fn settle_lightbox(&mut self) -> (r: Lightbox)
        ensures
            ({
                let s = old(self)@;
                if !s.lightbox_open {
                    final(self)@ == s && r == Lightbox::Closed
                } else if s.selected is Some && s.selected->0 < s.photos.len() {
                    final(self)@ == s && r == Lightbox::Show(s.selected->0)
                } else {
                    &&& r == Lightbox::Closed
                    &&& final(self)@ == (MapState {
                        lightbox_open: false,
                        lightbox_tex: None,
                        ..s
                    })
                }
            }),
    {
        if !self.lightbox_open {
            return Lightbox::Closed;
        }
        if let Some(i) = self.selected {
            if i < self.photos.len() {
                return Lightbox::Show(i);
            }
        }
        self.close_lightbox();
        Lightbox::Closed
    }

    /// Close the full-size photo.
    pub fn close_lightbox(&mut self)
        ensures
            final(self)@ == (MapState { lightbox_open: false, lightbox_tex: None, ..old(self)@ }),
    {
        self.lightbox_open = false;
        self.lightbox_tex = None;
    }

    /// Ask before deleting. Nothing checked, nothing asked.
    pub fn ask_delete(&mut self)
        ensures
            final(self)@ == (MapState {
                confirm_delete: old(self)@.confirm_delete || !old(self)@.checked.is_empty(),
                ..old(self)@
            }),
    {
        broadcast use vstd::std_specs::hash::group_hash_axioms;

        if !self.checked.is_empty() {
            self.confirm_delete = true;
        }
    }

    /// Withdraw the question.
    pub fn cancel_delete(&mut self)
        ensures
            final(self)@ == (MapState { confirm_delete: false, ..old(self)@ }),
    {
        self.confirm_delete = false;
    }
}

/// Photos on the list of a body are exactly those taken there.
pub proof fn rows_are_the_bodys_photos(photos: Seq<PhotoView>, body: MapBody, i: usize)
    requires
        photos.len() <= usize::MAX,
    ensures
        rows_of(photos, body).contains(i) <==> on_body(photos, body).contains(i),
    decreases photos.len(),
{
    if photos.len() > 0 {
        let head = photos.drop_last();
        rows_are_the_bodys_photos(head, body, i);
        let last = (photos.len() - 1) as usize;
        let before = rows_of(head, body);
        assert(i < head.len() ==> head[i as int] == photos[i as int]);
        if photos.last().body == body {
            let rows = before.push(last);
            if before.contains(i) {
                let k = choose|k: int| 0 <= k < before.len() && before[k] == i;
                assert(rows[k] == i);
            }
            if rows.contains(i) && i != last {
                let k = choose|k: int| 0 <= k < rows.len() && rows[k] == i;
                assert(before[k] == i);
            }
            assert(rows[before.len() as int] == last);
        }
    }
}

/// A click never leaves both a photo and a place as the destination.
pub proof fn clicks_leave_one_destination(s: MapState, i: usize, place: Place)
    ensures
        picked(s, i).custom_dest is None,
        aimed(s, place).selected is None,
{
}

/// Escape works its way out: after at most three presses that it consumes,
/// it consumes no more.
pub proof fn escape_backs_out(s: MapState)
    ensures
        ({
            let (s1, c1) = crate::photo_map::escaped(s);
            let (s2, c2) = crate::photo_map::escaped(s1);
            let (s3, c3) = crate::photo_map::escaped(s2);
            let (s4, c4) = crate::photo_map::escaped(s3);
            &&& !c4
            &&& !c1 ==> s1 == s
            &&& s.open ==> s4.selected is None && s4.custom_dest is None && !s4.lightbox_open
                && !s4.confirm_delete
        }),
{
}

/// A click reaches the markers of the shown body within ten pixels, while
/// markers are shown.
pub proof fn markers_are_hit_within_reach(s: MapState, dists: Seq<Measure>, i: int)
    requires
        0 <= i < s.photos.len(),
    ensures
        marker_keys(s, dists).len() == s.photos.len(),
        marker_keys(s, dists)[i] is Some <==> s.layers.markers && s.photos[i].body == s.body && below(
            dists[i],
            0x4024_0000_0000_0000,
        ),
        marker_keys(s, dists)[i] is Some ==> marker_keys(s, dists)[i] == Some(dists[i]),
{
}

/// A click picks the reachable marker that no other is nearer than, and the
/// earliest of those.
pub proof fn clicks_pick_the_nearest_marker(s: MapState, dists: Seq<Measure>, i: int, k: int)
    requires
        first_least(marker_keys(s, dists), i),
        0 <= k < s.photos.len(),
        s.layers.markers,
        s.photos[k].body == s.body,
        below(dists[k], 0x4024_0000_0000_0000),
    ensures
        s.photos[i].body == s.body,
        dists[i] <= dists[k],
        k < i ==> dists[i] < dists[k],
{
    assert(marker_keys(s, dists)[k] == Some(dists[k]));
    assert(marker_keys(s, dists)[i] is Some);
}

/// A picked photo becomes the destination and is scrolled to; a clicked place
/// becomes the destination in place of a photo. Nothing else changes.
pub proof fn clicks_set_the_destination(s: MapState, i: usize, place: Place)
    ensures
        ({
            let t = picked(s, i);
            &&& t.selected == Some(i) && t.custom_dest is None && t.scroll_to_selected
            &&& s == (MapState {
                selected: s.selected,
                custom_dest: s.custom_dest,
                scroll_to_selected: s.scroll_to_selected,
                ..t
            })
        }),
        ({
            let t = aimed(s, place);
            &&& t.selected is None && t.custom_dest == Some(place)
            &&& s == (MapState { selected: s.selected, custom_dest: s.custom_dest, ..t })
        }),
{
}

proof fn lemma_rows_below(photos: Seq<PhotoView>, body: MapBody, i: int)
    requires
        photos.len() <= usize::MAX,
        0 <= i < rows_of(photos, body).len(),
    ensures
        rows_of(photos, body)[i] < photos.len(),
    decreases photos.len(),
{
    if photos.len() > 0 && i < rows_of(photos.drop_last(), body).len() {
        lemma_rows_below(photos.drop_last(), body, i);
    }
}

/// The list of a body shows each photo taken there once, in the roll's order.
pub proof fn lists_keep_the_rolls_order(photos: Seq<PhotoView>, body: MapBody, i: int, j: int)
    requires
        photos.len() <= usize::MAX,
        0 <= i < j < rows_of(photos, body).len(),
    ensures
        rows_of(photos, body)[i] < rows_of(photos, body)[j],
    decreases photos.len(),
{
    if photos.len() > 0 {
        let head = rows_of(photos.drop_last(), body);
        if j < head.len() {
            lists_keep_the_rolls_order(photos.drop_last(), body, i, j);
        } else {
            lemma_rows_below(photos.drop_last(), body, i);
        }
    }
}

/// A photo is on the list of a body, and is checked with all of it, where it
/// was taken there.
pub proof fn lists_show_the_photos_of_their_body(photos: Seq<PhotoView>, body: MapBody, i: usize)
    requires
        photos.len() <= usize::MAX,
    ensures
        rows_of(photos, body).contains(i) <==> i < photos.len() && photos[i as int].body == body,
        on_body(photos, body).contains(i) <==> i < photos.len() && photos[i as int].body == body,
{
    rows_are_the_bodys_photos(photos, body, i);
}

/// A photo goes by its title, if that shows anything, and else by its file.
pub proof fn photos_go_by_their_title(p: PhotoView, i: int)
    ensures
        p.title.len() == 0 ==> shown_name(p) == p.name,
        0 <= i < p.title.len() && p.title[i] > ' ' && p.title[i] < '\u{7f}' ==> shown_name(p) == p.title,
        (forall|k: int| 0 <= k < p.title.len() ==> #[trigger] p.title[k] == ' ') ==> shown_name(p)
            == p.name,
{
}

} // verus!
