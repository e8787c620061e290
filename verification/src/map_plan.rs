//! When the photo map is painted anew, and how large.

use vstd::prelude::*;
use crate::photo::MapBody;
use crate::photo_map::{BaseLayer, MapSig, MapState, PhotoMap, Screen, TravelDate};
use crate::text::{trim, trimmed};

verus! {

/// The smallest map texture.
pub const LEAST_WIDTH: usize = 64;

pub const LEAST_HEIGHT: usize = 32;

/// The largest map texture: smaller where each pixel costs more.
pub open spec fn largest(body: MapBody, clouds: bool, base: BaseLayer) -> (int, int) {
    if body == MapBody::Moon {
        (640, 320)
    } else if clouds {
        (512, 256)
    } else if base == BaseLayer::Biomes || base == BaseLayer::Elevation {
        (1280, 640)
    } else {
        (960, 480)
    }
}

pub open spec fn clamped(n: int, lo: int, hi: int) -> int {
    if n < lo {
        lo
    } else if n > hi {
        hi
    } else {
        n
    }
}

/// The size of the map texture for a map of so many pixels.
pub fn texture_size(body: MapBody, clouds: bool, base: BaseLayer, w: usize, h: usize) -> (r: (
    usize,
    usize,
))
    ensures
        r.0 == clamped(w as int, LEAST_WIDTH as int, largest(body, clouds, base).0),
        r.1 == clamped(h as int, LEAST_HEIGHT as int, largest(body, clouds, base).1),
{
    let (cap_w, cap_h): (usize, usize) = match body {
        MapBody::Moon => (640, 320),
        MapBody::Neisor => if clouds {
            (512, 256)
        } else {
            match base {
                BaseLayer::Biomes | BaseLayer::Elevation => (1280, 640),
                _ => (960, 480),
            }
        },
    };
    let tw: usize = if w < LEAST_WIDTH {
        LEAST_WIDTH
    } else if w > cap_w {
        cap_w
    } else {
        w
    };
    let th: usize = if h < LEAST_HEIGHT {
        LEAST_HEIGHT
    } else if h > cap_h {
        cap_h
    } else {
        h
    };
    (tw, th)
}

/// Clouds move while the weather is on and not pinned.
pub open spec fn clouds_move(clouds: bool, weather_on: bool, pinned: bool) -> bool {
    clouds && weather_on && !pinned
}

/// The base changes with the season.
pub open spec fn seasonal(base: BaseLayer) -> bool {
    base == BaseLayer::Temperature || base == BaseLayer::Precipitation
}

/// The time step that a map is valid for: that of the clouds while they move,
/// else that of the season where the base follows it, else none.
/// `cloud_bucket` and `season_bucket` number the present steps of either.
pub fn map_weather_time_bucket(
    base: BaseLayer,
    clouds: bool,
    weather_on: bool,
    pinned: bool,
    cloud_bucket: i64,
    season_bucket: i64,
) -> (r: Option<i64>)
    ensures
        r == (if clouds_move(clouds, weather_on, pinned) {
            Some(cloud_bucket)
        } else if seasonal(base) {
            Some(season_bucket)
        } else {
            None
        }),
{
    if clouds && weather_on && !pinned {
        Some(cloud_bucket)
    } else {
        match base {
            BaseLayer::Temperature | BaseLayer::Precipitation => Some(season_bucket),
            _ => None,
        }
    }
}

/// What the cloud layer's hint says.
pub fn cloud_hint(weather_on: bool, pinned: bool) -> (r: &'static str)
    ensures
        r@ == (if !weather_on {
            "weather is off; this layer is intentionally empty"@
        } else if pinned {
            "the renderer's pinned cloud-cover field"@
        } else {
            "the live synoptic cloud field at the current weather time"@
        }),
{
    if !weather_on {
        "weather is off; this layer is intentionally empty"
    } else if pinned {
        "the renderer's pinned cloud-cover field"
    } else {
        "the live synoptic cloud field at the current weather time"
    }
}

/// Where the map's clouds come from.
#[derive(Clone, Copy, PartialEq, Eq, Structural, Debug)]
pub enum CloudSource {
    /// No clouds are drawn.
    Hidden,
    /// The pinned cover.
    Pinned,
    /// The live weather map on the sky.
    Raster,
    /// The weather field itself.
    Field,
}

/// Clouds are drawn while the layer and the weather are on and there is a
/// weather field: from the pin, else from a live weather map of this planet,
/// else from the field.
pub fn cloud_source(
    clouds: bool,
    weather_on: bool,
    has_field: bool,
    pinned: bool,
    live_map: Option<i64>,
    seed: i64,
) -> (r: CloudSource)
    ensures
        r == (if !clouds || !weather_on || !has_field {
            CloudSource::Hidden
        } else if pinned {
            CloudSource::Pinned
        } else if live_map == Some(seed) {
            CloudSource::Raster
        } else {
            CloudSource::Field
        }),
{
    if !clouds || !weather_on || !has_field {
        CloudSource::Hidden
    } else if pinned {
        CloudSource::Pinned
    } else {
        match live_map {
            Some(s) if s == seed => CloudSource::Raster,
            _ => CloudSource::Field,
        }
    }
}

/// Relief brightens the climate bases on land. The other bases carry their
/// own.
pub fn relief_brightens(relief: bool, base: BaseLayer, land: bool) -> (r: bool)
    ensures
        r == (relief && seasonal(base) && land),
{
    match base {
        BaseLayer::Temperature | BaseLayer::Precipitation => relief && land,
        _ => false,
    }
}

/// The pixels before and after one along an edge, stopped at the ends.
pub fn neighbours(x: usize, n: usize) -> (r: (usize, usize))
    requires
        x < n,
    ensures
        r.0 == (if x == 0 {
            0
        } else {
            x - 1
        }),
        r.1 == (if x + 1 < n {
            x + 1
        } else {
            n - 1
        }),
        r.0 < n && r.1 < n,
{
    let lo: usize = if x == 0 {
        0
    } else {
        x - 1
    };
    let hi: usize = if x < n - 1 {
        x + 1
    } else {
        n - 1
    };
    (lo, hi)
}

/// Rows of places where wind lines start, for so many lines in columns.
pub open spec fn wind_rows(target: int, cols: int) -> int {
    if target <= 0 {
        1
    } else {
        (target + cols - 1) / cols
    }
}

/// The places where wind lines start, row by row.
pub fn wind_seeds(target: usize, cols: usize) -> (out: Vec<(usize, usize)>)
    requires
        cols > 0,
        target + cols <= usize::MAX,
    ensures
        out@.len() == wind_rows(target as int, cols as int) * cols,
        forall|k: int|
            0 <= k < out@.len() ==> #[trigger] out@[k] == ((k % cols as int) as usize, (k
                / cols as int) as usize),
{
    let rows: usize = if target == 0 {
        1
    } else {
        (target + cols - 1) / cols
    };
    proof {
        vstd::arithmetic::div_mod::lemma_fundamental_div_mod(target + cols - 1, cols as int);
        assert(cols * rows == rows * cols) by (nonlinear_arith);
    }
    let count: usize = rows * cols;
    let mut out: Vec<(usize, usize)> = Vec::new();
    let mut k: usize = 0;
    while k < count
        invariant
            cols > 0,
            k <= count,
            out@.len() == k,
            forall|i: int|
                0 <= i < k ==> #[trigger] out@[i] == ((i % cols as int) as usize, (i
                    / cols as int) as usize),
        decreases count - k,
    {
        out.push((k % cols, k / cols));
        k += 1;
    }
    out
}

/// The fewest points of a wind line.
pub const LEAST_LINE: usize = 3;

/// The lines that are long enough, among the first `n`.
pub open spec fn long_lines(points: Seq<usize>, n: int) -> Seq<usize>
    decreases n,
{
    if n <= 0 {
        Seq::empty()
    } else if points[n - 1] >= LEAST_LINE {
        long_lines(points, n - 1).push((n - 1) as usize)
    } else {
        long_lines(points, n - 1)
    }
}

proof fn lemma_long_lines(points: Seq<usize>, n: int, m: int)
    requires
        0 <= n <= m <= points.len(),
    ensures
        long_lines(points, n).len() <= long_lines(points, m).len(),
        long_lines(points, n) == long_lines(points, m).take(long_lines(points, n).len() as int),
    decreases m,
{
    if n < m {
        lemma_long_lines(points, n, m - 1);
        let (a, b) = (long_lines(points, m - 1), long_lines(points, m));
        assert(b.take(a.len() as int) =~= a);
        assert(a.take(long_lines(points, n).len() as int) =~= b.take(
            long_lines(points, n).len() as int,
        ));
    } else {
        assert(long_lines(points, m).take(long_lines(points, m).len() as int) =~= long_lines(points, m));
    }
}

/// The wind lines that are drawn: those long enough, in order, and no more
/// than asked for. `points` counts the points of each line.
pub fn wind_lines(points: &Vec<usize>, target: usize) -> (out: Vec<usize>)
    ensures
        ({
            let all = long_lines(points@, points@.len() as int);
            out@ == (if all.len() > target {
                all.take(target as int)
            } else {
                all
            })
        }),
{
    let mut out: Vec<usize> = Vec::new();
    let mut i: usize = 0;
    while i < points.len() && out.len() < target
        invariant
            i <= points@.len(),
            out@.len() <= target,
            out@ == long_lines(points@, i as int),
        decreases points@.len() - i,
    {
        if points[i] >= LEAST_LINE {
            out.push(i);
        }
        i += 1;
    }
    proof {
        let all = long_lines(points@, points@.len() as int);
        lemma_long_lines(points@, i as int, points@.len() as int);
        if all.len() <= target && i < points@.len() {
            assert(out@ =~= all);
        }
    }
    out
}

impl PhotoMap {
    pub open spec fn outdated(s: MapState, sig: MapSig, animating: bool) -> bool {
        !s.textured || (s.map_built != Some(sig) && !animating)
    }

    /// The map must be painted anew: there is none, or the view has settled on
    /// another one. While the view moves, the old map is stretched.
    pub fn needs_map(&self, sig: &MapSig, animating: bool) -> (r: bool)
        ensures
            r == Self::outdated(self@, *sig, animating),
    {
        if !self.textured {
            return true;
        }
        let same: bool = match self.map_built {
            Some(built) => built == *sig,
            None => false,
        };
        !same && !animating
    }

    /// The map was painted.
    pub fn map_painted(&mut self, sig: MapSig)
        ensures
            final(self)@ == (MapState { textured: true, map_built: Some(sig), ..old(self)@ }),
    {
        self.textured = true;
        self.map_built = Some(sig);
    }

    /// The popup moves to the middle whenever the screen has changed its size.
    pub fn recenters(&mut self, screen: Screen) -> (r: bool)
        ensures
            r == (old(self)@.last_screen != Some(screen)),
            final(self)@ == (MapState { last_screen: Some(screen), ..old(self)@ }),
    {
        let same: bool = match self.last_screen {
            Some(s) => s == screen,
            None => false,
        };
        self.last_screen = Some(screen);
        !same
    }

    /// The time-travel controls start from the present date, once.
    pub fn seed_travel(&mut self, now: TravelDate)
        ensures
            final(self)@ == (if old(self)@.travel_seeded {
                old(self)@
            } else {
                MapState { travel: now, travel_seeded: true, ..old(self)@ }
            }),
    {
        if !self.travel_seeded {
            self.travel = now;
            self.travel_seeded = true;
        }
    }

    /// Ask for another time. A server's players cannot.
    pub fn ask_time(&mut self, connected: bool, time: u64)
        ensures
            final(self)@ == (if connected {
                old(self)@
            } else {
                MapState { pending_time_travel: Some(time), ..old(self)@ }
            }),
    {
        if !connected {
            self.pending_time_travel = Some(time);
        }
    }

    /// Ask for another clock rate. A server's players cannot.
    pub fn ask_rate(&mut self, connected: bool, rate: u64)
        ensures
            final(self)@ == (if connected {
                old(self)@
            } else {
                MapState { pending_time_scale: Some(rate), ..old(self)@ }
            }),
    {
        if !connected {
            self.pending_time_scale = Some(rate);
        }
    }

    /// Ask to join the typed server, or to leave the present one.
    pub fn ask_server(&mut self, connected: bool)
        ensures
            final(self)@ == (if connected {
                MapState { pending_disconnect: true, ..old(self)@ }
            } else {
                MapState {
                    pending_join: Some((trimmed(old(self)@.join_url), trimmed(old(self)@.join_name))),
                    ..old(self)@
                }
            }),
    {
        if connected {
            self.pending_disconnect = true;
        } else {
            let url = trim(&self.join_url);
            let name = trim(&self.join_name);
            self.pending_join = Some((url, name));
        }
    }
}

/// Once painted, a map stays until something it was painted for changes.
pub proof fn painted_maps_stay(s: MapState, sig: MapSig, other: MapSig, animating: bool)
    ensures
        ({
            let painted = MapState { textured: true, map_built: Some(sig), ..s };
            &&& !PhotoMap::outdated(painted, sig, animating)
            &&& !animating && other != sig ==> PhotoMap::outdated(painted, other, animating)
            &&& animating ==> !PhotoMap::outdated(painted, other, animating)
        }),
{
}

/// A texture is never larger than its cap nor smaller than the least.
pub proof fn textures_stay_in_bounds(n: int, lo: int, hi: int)
    requires
        lo <= hi,
    ensures
        lo <= clamped(n, lo, hi) <= hi,
        lo <= n <= hi ==> clamped(n, lo, hi) == n,
{
}

/// The map of the moon is at most 640 by 320, one with clouds 512 by 256, one
/// of biomes or elevation 1280 by 640 and any other 960 by 480.
pub proof fn costly_maps_are_smaller(body: MapBody, clouds: bool, base: BaseLayer)
    ensures
        body == MapBody::Moon ==> largest(body, clouds, base) == (640int, 320int),
        body == MapBody::Neisor && clouds ==> largest(body, clouds, base) == (512int, 256int),
        body == MapBody::Neisor && !clouds && (base == BaseLayer::Biomes || base
            == BaseLayer::Elevation) ==> largest(body, clouds, base) == (1280int, 640int),
        body == MapBody::Neisor && !clouds && base != BaseLayer::Biomes && base
            != BaseLayer::Elevation ==> largest(body, clouds, base) == (960int, 480int),
{
}

/// Clamping keeps what lies between the bounds and moves the rest to the
/// nearer one.
pub proof fn sizes_are_clamped(n: int, lo: int, hi: int)
    requires
        lo <= hi,
    ensures
        n <= lo ==> clamped(n, lo, hi) == lo,
        n >= hi ==> clamped(n, lo, hi) == hi,
        lo <= n <= hi ==> clamped(n, lo, hi) == n,
{
}

/// Clouds move only while they are shown, the weather is on and nothing pins
/// it; only temperature and precipitation follow the season.
pub proof fn maps_move_with_weather_and_season(clouds: bool, weather_on: bool, pinned: bool, base: BaseLayer)
    ensures
        clouds_move(true, true, false),
        clouds_move(clouds, weather_on, pinned) ==> clouds && weather_on && !pinned,
        seasonal(BaseLayer::Temperature) && seasonal(BaseLayer::Precipitation),
        seasonal(base) ==> base == BaseLayer::Temperature || base == BaseLayer::Precipitation,
{
}

/// Wind lines start in as few rows as hold them all, one at least.
pub proof fn wind_rows_hold_the_lines(target: int, cols: int)
    requires
        cols > 0,
        target >= 0,
    ensures
        wind_rows(target, cols) >= 1,
        wind_rows(target, cols) * cols >= target,
        target > 0 ==> (wind_rows(target, cols) - 1) * cols < target,
        target == 0 ==> wind_rows(target, cols) == 1,
{
    if target > 0 {
        let r = wind_rows(target, cols);
        vstd::arithmetic::div_mod::lemma_fundamental_div_mod(target + cols - 1, cols);
        assert(r * cols == cols * r) by (nonlinear_arith);
        assert((r - 1) * cols == cols * r - cols) by (nonlinear_arith);
        assert(r >= 1) by (nonlinear_arith)
            requires
                r * cols >= target,
                target > 0,
                cols > 0,
        ;
    }
}

/// The lines that may be drawn are those of three points and more, in order.
pub proof fn wind_lines_have_three_points(points: Seq<usize>, n: int, i: usize)
    requires
        0 <= n <= points.len(),
        points.len() <= usize::MAX,
    ensures
        long_lines(points, n).contains(i) <==> i < n && points[i as int] >= 3,
        forall|a: int, b: int|
            0 <= a < b < long_lines(points, n).len() ==> (#[trigger] long_lines(points, n)[a]) < (
            #[trigger] long_lines(points, n)[b]),
    decreases n,
{
    if n > 0 {
        wind_lines_have_three_points(points, n - 1, i);
        let (head, all) = (long_lines(points, n - 1), long_lines(points, n));
        let last = (n - 1) as usize;
        if points[n - 1] >= 3 {
            crate::order::push_contains(head, last);
            assert forall|a: int, b: int| 0 <= a < b < all.len() implies (#[trigger] all[a]) < (
            #[trigger] all[b]) by {
                if b == head.len() {
                    wind_lines_have_three_points(points, n - 1, head[a]);
                    assert(head.contains(head[a]));
                    assert(all[a] == head[a]);
                } else {
                    assert(all[a] == head[a] && all[b] == head[b]);
                }
            }
        }
    }
}

/// A map is painted where there is none, and where the settled view differs
/// from the one it was painted for.
pub proof fn maps_are_painted_for_their_view(s: MapState, sig: MapSig, animating: bool)
    ensures
        !s.textured ==> PhotoMap::outdated(s, sig, animating),
        s.textured && animating ==> !PhotoMap::outdated(s, sig, animating),
        s.textured && !animating ==> (PhotoMap::outdated(s, sig, animating) <==> s.map_built is None
            || s.map_built->0 != sig),
{
}

} // verus!
