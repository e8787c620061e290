//! Which times the renderer's clock accepts. Values that are not finite never
//! reach the sky.

use vstd::prelude::*;
use crate::hydrology::finite;
use crate::measure::{at_most, below, greater, is_at_most, is_below, most, Measure, INFINITE, NEG_INFINITE};

verus! {

fn is_finite(m: Measure) -> (r: bool)
    ensures
        r == finite(m),
{
    NEG_INFINITE < m && m < INFINITE
}

/// A time to set the clock to: finite, and not before zero.
pub fn accepted_time(t: Measure) -> (r: Option<Measure>)
    ensures
        r == (if finite(t) {
            Some(greater(t, 0))
        } else {
            None
        }),
{
    if is_finite(t) {
        Some(most(t, 0))
    } else {
        None
    }
}

/// A clock rate or a step of the clock: finite and above zero.
pub fn accepted_rate(scale: Measure) -> (r: bool)
    ensures
        r == (finite(scale) && scale > 0),
{
    is_finite(scale) && scale > 0
}

/// The length of the day: the set one where it is finite and above zero, else
/// the planet's own.
pub fn effective_day_len(set: Measure, own: Measure) -> (r: Measure)
    ensures
        r == (if finite(set) && set > 0 {
            set
        } else {
            own
        }),
{
    if is_finite(set) && set > 0 {
        set
    } else {
        own
    }
}

/// The time of day can be set while the day turns and the Sun is not pinned.
pub fn day_time_settable(day_len: Measure, sun_pinned: bool) -> (r: bool)
    ensures
        r == (below(0, day_len) && !sun_pinned),
{
    is_below(0, day_len) && !sun_pinned
}

/// Where the Sun is turned to: its pinned direction; else, while the day
/// stands still, above the observer; else where it is.
#[derive(Clone, Copy, PartialEq, Eq, Structural, Debug)]
pub enum SunAim {
    Pinned,
    Overhead,
    Free,
}

pub fn sun_aim(pinned: bool, day_len: Measure) -> (r: SunAim)
    ensures
        r == (if pinned {
            SunAim::Pinned
        } else if at_most(day_len, 0) {
            SunAim::Overhead
        } else {
            SunAim::Free
        }),
{
    if pinned {
        SunAim::Pinned
    } else if is_at_most(day_len, 0) {
        SunAim::Overhead
    } else {
        SunAim::Free
    }
}

/// The ground follows the season only while the weather is on and the planet
/// has one.
pub fn seasonal_ground(weather_on: bool, has_weather: bool) -> (r: bool)
    ensures
        r == (weather_on && has_weather),
{
    weather_on && has_weather
}

} // verus!
