//! The weather map on the sky: which field it shows, and when a new one is
//! baked. Live frames bake on the side and draw the old map meanwhile;
//! captures wait for theirs, so that a capture depends on the weather's time
//! alone.

use vstd::prelude::*;

verus! {

/// What a weather map was baked from.
#[derive(Clone, Copy, PartialEq, Eq, Structural, Debug)]
pub enum SynopticSource {
    /// No weather.
    Off,
    /// Weather pinned to stored values.
    Pinned { seed: i64, cover: u32, precip: u32 },
    /// The moving field at a stored time.
    Live { seed: i64, time: u64 },
}

/// The map that a frame wants.
pub open spec fn wanted(
    weather_on: bool,
    has_field: bool,
    pin: Option<(u32, u32)>,
    seed: i64,
    time: u64,
) -> SynopticSource {
    if !weather_on || !has_field {
        SynopticSource::Off
    } else {
        match pin {
            Some((cover, precip)) => SynopticSource::Pinned { seed, cover, precip },
            None => SynopticSource::Live { seed, time },
        }
    }
}

/// The map that a frame wants.
pub fn desired_source(
    weather_on: bool,
    has_field: bool,
    pin: Option<(u32, u32)>,
    seed: i64,
    time: u64,
) -> (r: SynopticSource)
    ensures
        r == wanted(weather_on, has_field, pin, seed, time),
{
    if !weather_on || !has_field {
        SynopticSource::Off
    } else {
        match pin {
            Some((cover, precip)) => SynopticSource::Pinned { seed, cover, precip },
            None => SynopticSource::Live { seed, time },
        }
    }
}

/// What a frame does about its weather map.
#[derive(Clone, Copy, PartialEq, Eq, Structural, Debug)]
pub enum MapWork {
    /// The map on the sky is the right one.
    Keep,
    /// The right map is being baked: look whether it is ready.
    Poll,
    /// Bake the right map on the side.
    Spawn,
    /// Bake the right map before drawing.
    Bake,
}

/// The weather map on the sky and the one being baked.
#[derive(Clone, Copy, PartialEq, Eq, Structural, Debug)]
pub struct SynopticMap {
    pub source: SynopticSource,
    pub uploaded: bool,
    pub pending: Option<SynopticSource>,
    /// Maps uploaded so far.
    pub bakes: u64,
}

/// A frame's work, and the state it leaves.
pub open spec fn refreshed(m: SynopticMap, desired: SynopticSource, settling: bool) -> (
    SynopticMap,
    MapWork,
) {
    if m.uploaded && m.source == desired {
        (SynopticMap { pending: None, ..m }, MapWork::Keep)
    } else if desired is Live && !settling {
        if m.pending == Some(desired) {
            (m, MapWork::Poll)
        } else {
            (SynopticMap { pending: Some(desired), ..m }, MapWork::Spawn)
        }
    } else {
        (SynopticMap { pending: None, ..m }, MapWork::Bake)
    }
}

/// The state once a map has been uploaded.
pub open spec fn after_upload(m: SynopticMap, source: SynopticSource) -> SynopticMap {
    SynopticMap {
        source,
        uploaded: true,
        pending: None,
        bakes: if m.bakes < u64::MAX {
            (m.bakes + 1) as u64
        } else {
            m.bakes
        },
    }
}

impl SynopticMap {
    /// No map yet.
    pub fn new() -> (m: Self)
        ensures
            m.source == SynopticSource::Off,
            !m.uploaded,
            m.pending is None,
            m.bakes == 0,
    {
        SynopticMap { source: SynopticSource::Off, uploaded: false, pending: None, bakes: 0 }
    }

    fn awaits(&self, desired: SynopticSource) -> (r: bool)
        ensures
            r == (self.pending == Some(desired)),
    {
        match self.pending {
            Some(p) => p == desired,
            None => false,
        }
    }

    /// Decide a frame's work.
    pub fn refresh(&mut self, desired: SynopticSource, settling: bool) -> (work: MapWork)
        ensures
            (*final(self), work) == refreshed(*old(self), desired, settling),
    {
        if self.uploaded && self.source == desired {
            self.pending = None;
            return MapWork::Keep;
        }
        let live: bool = match desired {
            SynopticSource::Live { .. } => true,
            _ => false,
        };
        if live && !settling {
            if self.awaits(desired) {
                return MapWork::Poll;
            }
            self.pending = Some(desired);
            return MapWork::Spawn;
        }
        self.pending = None;
        MapWork::Bake
    }

    /// A baked map was uploaded.
    pub fn upload(&mut self, source: SynopticSource)
        ensures
            *final(self) == after_upload(*old(self), source),
    {
        self.source = source;
        self.uploaded = true;
        self.pending = None;
        if self.bakes < u64::MAX {
            self.bakes += 1;
        }
    }
}

/// A capture draws the map of its own weather: it never polls and never
/// leaves one for later, and after its bake the right map is on the sky.
pub proof fn captures_draw_their_own_weather(m: SynopticMap, desired: SynopticSource)
    ensures
        ({
            let (next, work) = refreshed(m, desired, true);
            &&& work == MapWork::Keep || work == MapWork::Bake
            &&& next.pending is None
            &&& work == MapWork::Keep ==> next.uploaded && next.source == desired
            &&& work == MapWork::Bake ==> after_upload(next, desired).source == desired
        }),
{
}

/// A live frame never waits for a bake of the moving field.
pub proof fn live_frames_never_wait(m: SynopticMap, seed: i64, time: u64)
    ensures
        refreshed(m, (SynopticSource::Live { seed, time }), false).1 != MapWork::Bake,
{
}

/// One bake per map: while the wanted map is being baked, no frame asks for it
/// again, and once it is on the sky no frame bakes it again.
pub proof fn maps_are_baked_once(m: SynopticMap, desired: SynopticSource)
    ensures
        refreshed(m, desired, false).1 == MapWork::Spawn ==> refreshed(
            refreshed(m, desired, false).0,
            desired,
            false,
        ) == (refreshed(m, desired, false).0, MapWork::Poll),
        refreshed(after_upload(m, desired), desired, false).1 == MapWork::Keep,
        refreshed(after_upload(m, desired), desired, true).1 == MapWork::Keep,
{
}

/// A frame wants no weather while it is off or unknown, else the pinned one,
/// else that of its time.
pub proof fn frames_want_their_weather(
    weather_on: bool,
    has_field: bool,
    pin: Option<(u32, u32)>,
    seed: i64,
    time: u64,
)
    ensures
        wanted(weather_on, has_field, pin, seed, time) == SynopticSource::Off <==> !weather_on
            || !has_field,
        weather_on && has_field && pin is None ==> wanted(weather_on, has_field, pin, seed, time) == (
        SynopticSource::Live { seed, time }),
        weather_on && has_field ==> (pin matches Some(p) ==> wanted(
            weather_on,
            has_field,
            pin,
            seed,
            time,
        ) == (SynopticSource::Pinned { seed, cover: p.0, precip: p.1 })),
{
}

/// The map on the sky is kept while it is the right one. Otherwise a live
/// frame has a moving field baked on the side, once, and any other map is
/// baked before drawing.
pub proof fn maps_are_baked_when_they_differ(m: SynopticMap, desired: SynopticSource, settling: bool)
    ensures
        ({
            let (next, work) = refreshed(m, desired, settling);
            let right = m.uploaded && m.source == desired;
            let aside = desired is Live && !settling;
            &&& work == MapWork::Keep <==> right
            &&& work == MapWork::Poll <==> !right && aside && m.pending == Some(desired)
            &&& work == MapWork::Spawn <==> !right && aside && m.pending != Some(desired)
            &&& work == MapWork::Bake <==> !right && !aside
            &&& next.source == m.source && next.uploaded == m.uploaded && next.bakes == m.bakes
            &&& next.pending == (if !right && aside {
                Some(desired)
            } else {
                None
            })
        }),
{
}

/// An uploaded map is on the sky, nothing is awaited any more, and it counts.
pub proof fn uploads_are_counted(m: SynopticMap, source: SynopticSource)
    ensures
        ({
            let t = after_upload(m, source);
            &&& t.source == source && t.uploaded && t.pending is None
            &&& m.bakes < u64::MAX ==> t.bakes == m.bakes + 1
            &&& m.bakes == u64::MAX ==> t.bakes == u64::MAX
        }),
{
}

} // verus!
