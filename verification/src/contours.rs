//! Contour lines on the elevation map: which pixels they cross and which of
//! them are drawn strong.

use vstd::prelude::*;
use vstd::arithmetic::power::{lemma_pow1, lemma_pow_adds, lemma_pow_increases, lemma_pow_positive, pow};
use crate::measure::{at_most, below, greater, is_below, least, lesser, most, number, Measure};
use crate::measure::{INFINITE, NEG_INFINITE};

verus! {

/// Every so many lines one is drawn strong.
pub const CONTOUR_INDEX_EVERY: i64 = 4;

/// Flatter ground than this has no contours (0.000001).
pub const FLAT: Measure = 0x3EB0_C6F7_A0B5_ED8D;

/// There is relief to contour: finite and not flat.
pub fn has_relief(range: Measure) -> (r: bool)
    ensures
        r == (FLAT < range < INFINITE),
{
    FLAT < range && range < INFINITE
}

/// The lines' spacing within a power of ten, by how many of it a band would
/// span.
pub open spec fn rung(step: Measure) -> int {
    if below(step, 0x3FF8_0000_0000_0000) {
        1
    } else if below(step, 0x400C_0000_0000_0000) {
        2
    } else if below(step, 0x401E_0000_0000_0000) {
        5
    } else {
        10
    }
}

/// A round spacing: one, two, five or ten, below one and a half, three and a
/// half, seven and a half, and above.
pub fn nice_step(step: Measure) -> (r: u32)
    ensures
        r == rung(step),
{
    if is_below(step, 0x3FF8_0000_0000_0000) {
        1
    } else if is_below(step, 0x400C_0000_0000_0000) {
        2
    } else if is_below(step, 0x401E_0000_0000_0000) {
        5
    } else {
        10
    }
}

/// A line is drawn strong.
pub fn is_index(line: i64) -> (r: bool)
    ensures
        r == (line as int % CONTOUR_INDEX_EVERY as int == 0),
{
    // Any multiple of the spacing may be added; this one makes the line count
    // from zero.
    let shift: i128 = line as i128 + 0x8000_0000_0000_0000;
    (shift as u64) % 4 == 0
}

/// How a contour is drawn over a pixel.
#[derive(Clone, Copy, PartialEq, Eq, Structural, Debug)]
pub enum Stroke {
    Unmarked,
    Minor,
    Index,
}

/// The window of the elevation map: for each pixel its band between contour
/// lines, and whether it is sea.
pub struct ElevationField {
    pub w: usize,
    pub h: usize,
    pub levels: Vec<i64>,
    pub sea: Vec<bool>,
    /// There are lines at all.
    pub contoured: bool,
}

/// The lowest and the highest land among the first `n` pixels.
pub open spec fn land_span(elev: Seq<Measure>, sea: Seq<bool>, n: int) -> (Measure, Measure)
    decreases n,
{
    if n <= 0 {
        (INFINITE, NEG_INFINITE)
    } else {
        let (lo, hi) = land_span(elev, sea, n - 1);
        if sea[n - 1] {
            (lo, hi)
        } else {
            (lesser(lo, elev[n - 1]), greater(hi, elev[n - 1]))
        }
    }
}

/// The lowest and the highest land in view; infinite ends where there is none.
pub fn land_extent(elev: &Vec<Measure>, sea: &Vec<bool>) -> (r: (Measure, Measure))
    requires
        elev@.len() == sea@.len(),
    ensures
        r == land_span(elev@, sea@, elev@.len() as int),
{
    let mut lo: Measure = INFINITE;
    let mut hi: Measure = NEG_INFINITE;
    let mut i: usize = 0;
    while i < elev.len()
        invariant
            elev@.len() == sea@.len(),
            i <= elev@.len(),
            (lo, hi) == land_span(elev@, sea@, i as int),
        decreases elev@.len() - i,
    {
        if !sea[i] {
            lo = least(lo, elev[i]);
            hi = most(hi, elev[i]);
        }
        i += 1;
    }
    (lo, hi)
}

impl ElevationField {
    pub open spec fn wf(&self) -> bool {
        self.levels@.len() == self.w * self.h && self.sea@.len() == self.w * self.h
    }

    pub open spec fn pixel(&self, x: int, y: int) -> int {
        y * self.w + x
    }

    /// The line between a land pixel and a land neighbour in another band: the
    /// higher band of the two.
    pub open spec fn line_to(&self, i: int, k: int) -> Option<i64> {
        if self.sea@[k] || self.levels@[k] == self.levels@[i] {
            None
        } else if self.levels@[k] > self.levels@[i] {
            Some(self.levels@[k])
        } else {
            Some(self.levels@[i])
        }
    }

    /// The highest line towards the right and the lower neighbour.
    pub open spec fn spec_crossing(&self, x: int, y: int) -> Option<i64> {
        let i = self.pixel(x, y);
        let right = if x + 1 < self.w {
            self.line_to(i, i + 1)
        } else {
            None
        };
        let below = if y + 1 < self.h {
            self.line_to(i, i + self.w)
        } else {
            None
        };
        match (right, below) {
            (Some(a), Some(b)) => if b > a {
                Some(b)
            } else {
                Some(a)
            },
            (Some(a), None) => Some(a),
            (None, b) => b,
        }
    }

    /// The stroke over a pixel. The sea and a view without lines have none.
    pub open spec fn spec_stroke(&self, x: int, y: int) -> Stroke {
        if self.sea@[self.pixel(x, y)] || !self.contoured {
            Stroke::Unmarked
        } else {
            match self.spec_crossing(x, y) {
                None => Stroke::Unmarked,
                Some(line) => if line as int % CONTOUR_INDEX_EVERY as int == 0 {
                    Stroke::Index
                } else {
                    Stroke::Minor
                },
            }
        }
    }

    fn line_between(&self, i: usize, k: usize) -> (r: Option<i64>)
        requires
            self.wf(),
            i < self.levels@.len(),
            k < self.levels@.len(),
        ensures
            r == self.line_to(i as int, k as int),
    {
        if self.sea[k] || self.levels[k] == self.levels[i] {
            None
        } else if self.levels[k] > self.levels[i] {
            Some(self.levels[k])
        } else {
            Some(self.levels[i])
        }
    }

    /// The stroke over a pixel.
    pub fn stroke(&self, x: usize, y: usize) -> (r: Stroke)
        requires
            self.wf(),
            x < self.w,
            y < self.h,
        ensures
            r == self.spec_stroke(x as int, y as int),
    {
        proof {
            let (w, h) = (self.w as int, self.h as int);
            assert(y * w + x < w * h) by (nonlinear_arith)
                requires
                    0 <= x < w,
                    0 <= y < h,
            ;
            assert(0 <= y * w) by (nonlinear_arith)
                requires
                    0 <= y,
                    0 <= w,
            ;
            if y + 1 < h {
                assert(y * w + x + w < w * h) by (nonlinear_arith)
                    requires
                        0 <= x < w,
                        0 <= y,
                        y + 1 < h,
                ;
            }
            if x + 1 < w {
                assert(y * w + x + 1 < w * h) by (nonlinear_arith)
                    requires
                        0 <= x,
                        x + 1 < w,
                        0 <= y < h,
                ;
            }
        }
        let len: usize = self.levels.len();
        let row: usize = y * self.w;
        let i: usize = row + x;
        if self.sea[i] || !self.contoured {
            return Stroke::Unmarked;
        }
        let right: Option<i64> = if x + 1 < self.w {
            self.line_between(i, i + 1)
        } else {
            None
        };
        let below: Option<i64> = if y + 1 < self.h {
            self.line_between(i, i + self.w)
        } else {
            None
        };
        let crossing: Option<i64> = match (right, below) {
            (Some(a), Some(b)) => if b > a {
                Some(b)
            } else {
                Some(a)
            },
            (Some(a), None) => Some(a),
            (None, b) => b,
        };
        match crossing {
            None => Stroke::Unmarked,
            Some(line) => if is_index(line) {
                Stroke::Index
            } else {
                Stroke::Minor
            },
        }
    }
}

/// A larger span never gets a finer spacing.
pub proof fn coarser_relief_has_coarser_lines(a: Measure, b: Measure)
    requires
        at_most(a, b),
    ensures
        rung(a) <= rung(b),
{
}

/// Across powers of ten too, a larger span never gets a finer spacing: the
/// spacing is the rung times its power.
pub proof fn wider_views_never_tighten(a: Measure, j: nat, b: Measure, k: nat)
    requires
        j < k || j == k && at_most(a, b),
    ensures
        rung(a) * pow(10, j) <= rung(b) * pow(10, k),
{
    lemma_pow_positive(10, j);
    if j < k {
        let m = (k - 1) as nat;
        lemma_pow_increases(10, j, m);
        lemma_pow_adds(10, 1, m);
        lemma_pow1(10);
        let (p, q) = (pow(10, j), pow(10, m));
        assert(rung(a) * p <= 10 * q) by (nonlinear_arith)
            requires
                rung(a) <= 10,
                0 < p <= q,
        ;
        assert(pow(10, k) == 10 * q);
        assert(pow(10, k) <= rung(b) * pow(10, k)) by (nonlinear_arith)
            requires
                1 <= rung(b),
                pow(10, k) >= 0,
        ;
    } else {
        assert(rung(a) * pow(10, j) <= rung(b) * pow(10, j)) by (nonlinear_arith)
            requires
                rung(a) <= rung(b),
                0 < pow(10, j),
        ;
    }
}

/// Land between two neighbours of its own band is not stroked: lines are
/// drawn only where the ground crosses them.
pub proof fn level_ground_has_no_line(f: &ElevationField, x: int, y: int)
    requires
        f.wf(),
        0 <= x < f.w,
        0 <= y < f.h,
        x + 1 < f.w ==> f.levels@[f.pixel(x, y) + 1] == f.levels@[f.pixel(x, y)],
        y + 1 < f.h ==> f.levels@[f.pixel(x, y) + f.w] == f.levels@[f.pixel(x, y)],
    ensures
        f.spec_stroke(x, y) == Stroke::Unmarked,
{
}

/// Where the land crosses a line towards a neighbour, the pixel is stroked.
pub proof fn crossings_are_stroked(f: &ElevationField, x: int, y: int)
    requires
        f.wf(),
        f.contoured,
        0 <= x,
        x + 1 < f.w,
        0 <= y < f.h,
        !f.sea@[f.pixel(x, y)],
        !f.sea@[f.pixel(x, y) + 1],
        f.levels@[f.pixel(x, y) + 1] != f.levels@[f.pixel(x, y)],
    ensures
        f.spec_stroke(x, y) != Stroke::Unmarked,
{
}

/// The ends of a span are numbers.
proof fn lemma_span_of_numbers(elev: Seq<Measure>, sea: Seq<bool>, n: int)
    ensures
        number(land_span(elev, sea, n).0),
        number(land_span(elev, sea, n).1),
    decreases n,
{
    if n > 0 {
        lemma_span_of_numbers(elev, sea, n - 1);
    }
}

/// The span bounds every land pixel whose elevation is a number.
pub proof fn land_lies_in_its_span(elev: Seq<Measure>, sea: Seq<bool>, n: int, i: int)
    requires
        0 <= i < n <= elev.len(),
        elev.len() == sea.len(),
        !sea[i],
        number(elev[i]),
    ensures
        land_span(elev, sea, n).0 <= elev[i] <= land_span(elev, sea, n).1,
    decreases n,
{
    lemma_span_of_numbers(elev, sea, n - 1);
    if i < n - 1 {
        land_lies_in_its_span(elev, sea, n - 1, i);
    }
}

/// The larger of two bands.
pub open spec fn upper(a: i64, b: i64) -> int {
    if a > b {
        a as int
    } else {
        b as int
    }
}

/// A land pixel is stroked where the land to its right or below it lies in
/// another band. The stroke is that of the highest band of those it joins:
/// strong for every fourth.
pub proof fn lines_run_between_bands(f: &ElevationField, x: int, y: int)
    requires
        f.wf(),
        0 <= x < f.w,
        0 <= y < f.h,
    ensures
        ({
            let i = y * f.w + x;
            let (s, l) = (f.sea@, f.levels@);
            let right = x + 1 < f.w && !s[i + 1] && l[i + 1] != l[i];
            let down = y + 1 < f.h && !s[i + f.w] && l[i + f.w] != l[i];
            let stroke = f.spec_stroke(x, y);
            &&& stroke != Stroke::Unmarked <==> f.contoured && !s[i] && (right || down)
            &&& stroke == Stroke::Index && right && !down ==> upper(l[i], l[i + 1]) % 4 == 0
            &&& stroke == Stroke::Minor && right && !down ==> upper(l[i], l[i + 1]) % 4 != 0
            &&& stroke == Stroke::Index && down && !right ==> upper(l[i], l[i + f.w]) % 4 == 0
            &&& stroke == Stroke::Minor && down && !right ==> upper(l[i], l[i + f.w]) % 4 != 0
            &&& stroke == Stroke::Index && right && down ==> upper(
                upper(l[i], l[i + 1]) as i64,
                upper(l[i], l[i + f.w]) as i64,
            ) % 4 == 0
            &&& stroke == Stroke::Minor && right && down ==> upper(
                upper(l[i], l[i + 1]) as i64,
                upper(l[i], l[i + f.w]) as i64,
            ) % 4 != 0
        }),
{
}

/// Spacings are one below 1.5, two below 3.5, five below 7.5, and ten above.
pub proof fn spacings_are_round(step: Measure)
    requires
        number(step),
    ensures
        step < 0x3FF8_0000_0000_0000 ==> rung(step) == 1,
        0x3FF8_0000_0000_0000 <= step < 0x400C_0000_0000_0000 ==> rung(step) == 2,
        0x400C_0000_0000_0000 <= step < 0x401E_0000_0000_0000 ==> rung(step) == 5,
        0x401E_0000_0000_0000 <= step ==> rung(step) == 10,
{
}

/// The ends of the span are heights of the land itself; without land whose
/// height is a number they are infinite.
pub proof fn spans_end_at_the_land(elev: Seq<Measure>, sea: Seq<bool>, n: int)
    requires
        0 <= n <= elev.len(),
        elev.len() == sea.len(),
    ensures
        ({
            let (lo, hi) = land_span(elev, sea, n);
            &&& lo == 0x7FF0_0000_0000_0000 || exists|i: int|
                0 <= i < n && !sea[i] && #[trigger] elev[i] == lo
            &&& hi == -0x7FF0_0000_0000_0000 || exists|i: int|
                0 <= i < n && !sea[i] && #[trigger] elev[i] == hi
        }),
    decreases n,
{
    if n > 0 {
        spans_end_at_the_land(elev, sea, n - 1);
        lemma_span_of_numbers(elev, sea, n - 1);
        let (lo, hi) = land_span(elev, sea, n - 1);
        let (lo1, hi1) = land_span(elev, sea, n);
        if lo1 != lo {
            assert(elev[n - 1] == lo1);
        }
        if hi1 != hi {
            assert(elev[n - 1] == hi1);
        }
    }
}

} // verus!
