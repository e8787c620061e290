//! The meshes of terrain tiles and of the Sun: which vertices make which
//! triangles, where the coarser level's vertices lie, what a vertex shows,
//! and which trees stand on a tile as impostors.

use vstd::prelude::*;
use crate::hydrology::{finite, FREEZING};
use crate::measure::{at_most, below, is_at_most, is_below, Measure};
use crate::tile::{impostor_cap, keep_every};
use crate::tree::TreeKind;

verus! {

/// Vertices along a tile's edge.
pub const TILE_EDGE: u32 = 33;

/// Vertices of a tile's surface; its skirt's vertices follow.
pub const SKIRT_BASE: u32 = 1089;

/// Vertices of a tile, with its skirt.
pub const TILE_VERTICES: u32 = 1221;

/// Points of the coarser level's lattice along a tile's edge.
pub const PARENT_EDGE: usize = 17;

/// Rings and sectors of the Sun's sphere.
pub const SPHERE_RINGS: u32 = 32;

pub const SPHERE_SECTORS: u32 = 64;

/// Vertices of the Sun's sphere.
pub const SPHERE_VERTICES: u32 = 2145;

/// Two triangles as six vertex numbers.
pub open spec fn pair(a: int, b: int, c: int, d: int, e: int, f: int) -> Seq<u32> {
    seq![a as u32, b as u32, c as u32, d as u32, e as u32, f as u32]
}

/// The six numbers of quad `q` in a list of quads.
pub open spec fn piece(out: Seq<u32>, q: int) -> Seq<u32> {
    out.subrange(6 * q, 6 * q + 6)
}

/// `out` lists `n` quads, quad `q` being `f(q)`.
pub open spec fn made_of(out: Seq<u32>, n: int, f: spec_fn(int) -> Seq<u32>) -> bool {
    &&& out.len() == 6 * n
    &&& forall|q: int| 0 <= q < n ==> (#[trigger] piece(out, q)) == f(q)
}

proof fn lemma_one_more(out: Seq<u32>, n: int, f: spec_fn(int) -> Seq<u32>)
    requires
        0 <= n,
        made_of(out, n, f),
        f(n).len() == 6,
    ensures
        made_of(out + f(n), n + 1, f),
{
    let next = out + f(n);
    assert forall|q: int| 0 <= q < n + 1 implies (#[trigger] piece(next, q)) == f(q) by {
        if q < n {
            assert(piece(next, q) =~= piece(out, q));
        } else {
            assert(piece(next, q) =~= f(n));
        }
    }
}

fn push_pair(out: &mut Vec<u32>, a: u32, b: u32, c: u32, d: u32, e: u32, f: u32)
    ensures
        final(out)@ == old(out)@ + pair(
            a as int,
            b as int,
            c as int,
            d as int,
            e as int,
            f as int,
        ),
{
    out.push(a);
    out.push(b);
    out.push(c);
    out.push(d);
    out.push(e);
    out.push(f);
}

/// The vertex at a place of a tile's grid.
pub open spec fn vertex(i: int, j: int) -> int {
    j * TILE_EDGE + i
}

/// Quad `q` of a tile's surface, row by row.
pub open spec fn surface_quad(q: int) -> Seq<u32> {
    let (i, j) = (q % 32, q / 32);
    let (a, b, c, d) = (vertex(i, j), vertex(i + 1, j), vertex(i, j + 1), vertex(i + 1, j + 1));
    pair(a, b, c, b, d, c)
}

/// The surface vertex that skirt vertex `t` hangs from: the first row, the
/// last row, the first column, the last column.
pub open spec fn hem(t: int) -> int {
    let (side, s) = (t / 33, t % 33);
    if side == 0 {
        vertex(s, 0)
    } else if side == 1 {
        vertex(s, 32)
    } else if side == 2 {
        vertex(0, s)
    } else {
        vertex(32, s)
    }
}

/// Quad `q` of a tile's skirt, side by side.
pub open spec fn skirt_quad(q: int) -> Seq<u32> {
    let t = (q / 32) * 33 + q % 32;
    let (o0, o1, s0, s1) = (hem(t), hem(t + 1), SKIRT_BASE + t, SKIRT_BASE + t + 1);
    pair(o0, o1, s0, o1, s1, s0)
}

/// Quads of a tile: its surface, then its skirt.
pub open spec fn tile_quad(q: int) -> Seq<u32> {
    if q < 1024 {
        surface_quad(q)
    } else {
        skirt_quad(q - 1024)
    }
}

fn hem_of(t: u32) -> (v: u32)
    requires
        t < 132,
    ensures
        v == hem(t as int),
{
    let side: u32 = t / 33;
    let s: u32 = t % 33;
    if side == 0 {
        s
    } else if side == 1 {
        32 * TILE_EDGE + s
    } else if side == 2 {
        s * TILE_EDGE
    } else {
        s * TILE_EDGE + 32
    }
}

/// The surface vertices that the skirt's vertices hang from, in order.
pub fn border() -> (out: Vec<u32>)
    ensures
        out@.len() == 132,
        forall|t: int| 0 <= t < 132 ==> #[trigger] out@[t] == hem(t),
{
    let mut out: Vec<u32> = Vec::new();
    let mut t: u32 = 0;
    while t < 132
        invariant
            t <= 132,
            out@.len() == t,
            forall|k: int| 0 <= k < t ==> #[trigger] out@[k] == hem(k),
        decreases 132 - t,
    {
        out.push(hem_of(t));
        t += 1;
    }
    out
}

/// The triangles of a tile.
pub fn tile_indices() -> (out: Vec<u32>)
    ensures
        made_of(out@, 1152, |q: int| tile_quad(q)),
{
    let mut out: Vec<u32> = Vec::new();
    let ghost f = |q: int| tile_quad(q);
    let mut q: u32 = 0;
    while q < 1152
        invariant
            q <= 1152,
            f == (|q: int| tile_quad(q)),
            made_of(out@, q as int, f),
        decreases 1152 - q,
    {
        let ghost before = out@;
        if q < 1024 {
            let i: u32 = q % 32;
            let j: u32 = q / 32;
            let a: u32 = j * TILE_EDGE + i;
            let c: u32 = a + TILE_EDGE;
            push_pair(&mut out, a, a + 1, c, a + 1, c + 1, c);
        } else {
            let s: u32 = q - 1024;
            let t: u32 = (s / 32) * 33 + s % 32;
            let o0: u32 = hem_of(t);
            let o1: u32 = hem_of(t + 1);
            let s0: u32 = SKIRT_BASE + t;
            push_pair(&mut out, o0, o1, s0, o1, s0 + 1, s0);
        }
        proof {
            assert(out@ =~= before + f(q as int));
            lemma_one_more(before, q as int, f);
        }
        q += 1;
    }
    out
}

/// Quad `q` of the Sun's sphere, ring by ring.
pub open spec fn sphere_quad(q: int) -> Seq<u32> {
    let a = (q / 64) * 65 + q % 64;
    let b = a + 65;
    pair(a, b, a + 1, a + 1, b, b + 1)
}

/// The triangles of the Sun's sphere.
pub fn sphere_indices() -> (out: Vec<u32>)
    ensures
        made_of(out@, 2048, |q: int| sphere_quad(q)),
{
    let mut out: Vec<u32> = Vec::new();
    let ghost f = |q: int| sphere_quad(q);
    let mut q: u32 = 0;
    while q < 2048
        invariant
            q <= 2048,
            f == (|q: int| sphere_quad(q)),
            made_of(out@, q as int, f),
        decreases 2048 - q,
    {
        let ghost before = out@;
        let a: u32 = (q / 64) * 65 + q % 64;
        let b: u32 = a + 65;
        push_pair(&mut out, a, b, a + 1, a + 1, b, b + 1);
        proof {
            assert(out@ =~= before + f(q as int));
            lemma_one_more(before, q as int, f);
        }
        q += 1;
    }
    out
}

/// Where a vertex lies among the coarser level's lattice points.
#[derive(Clone, Copy)]
pub struct ParentCell {
    /// The four surrounding points, row by row.
    pub corners: [usize; 4],
    /// The vertex lies halfway between two columns.
    pub between_columns: bool,
    /// The vertex lies halfway between two rows.
    pub between_rows: bool,
}

pub open spec fn capped(k: int) -> int {
    if k < PARENT_EDGE - 1 {
        k
    } else {
        PARENT_EDGE - 1
    }
}

/// The coarser level's lattice around a vertex. Even vertices are lattice
/// points; odd ones lie halfway.
pub fn parent_cell(i: usize, j: usize) -> (c: ParentCell)
    requires
        i < TILE_EDGE,
        j < TILE_EDGE,
    ensures
        c.corners@[0] == (j / 2) * PARENT_EDGE + i / 2,
        c.corners@[1] == (j / 2) * PARENT_EDGE + capped(i / 2 + 1),
        c.corners@[2] == capped(j / 2 + 1) * PARENT_EDGE + i / 2,
        c.corners@[3] == capped(j / 2 + 1) * PARENT_EDGE + capped(i / 2 + 1),
        c.between_columns == (i % 2 == 1),
        c.between_rows == (j % 2 == 1),
        forall|k: int| 0 <= k < 4 ==> #[trigger] c.corners@[k] < PARENT_EDGE * PARENT_EDGE,
{
    let pi: usize = i / 2;
    let pj: usize = j / 2;
    let pi1: usize = if pi + 1 < PARENT_EDGE - 1 {
        pi + 1
    } else {
        PARENT_EDGE - 1
    };
    let pj1: usize = if pj + 1 < PARENT_EDGE - 1 {
        pj + 1
    } else {
        PARENT_EDGE - 1
    };
    ParentCell {
        corners: [
            pj * PARENT_EDGE + pi,
            pj * PARENT_EDGE + pi1,
            pj1 * PARENT_EDGE + pi,
            pj1 * PARENT_EDGE + pi1,
        ],
        between_columns: i % 2 == 1,
        between_rows: j % 2 == 1,
    }
}

/// What a tile paints at a vertex.
#[derive(Clone, Copy, PartialEq, Eq, Structural, Debug)]
pub enum Paint {
    /// A snow-dusted ice sheet.
    Frost,
    /// The water's own colour.
    Water,
    /// Shaded ground.
    Ground,
}

/// Seas and lakes are painted as water, or as ice where they are frozen.
pub fn vertex_paint(sea: bool, lake: bool, temp: Measure) -> (p: Paint)
    ensures
        p == (if sea || lake {
            if below(temp, FREEZING) {
                Paint::Frost
            } else {
                Paint::Water
            }
        } else {
            Paint::Ground
        }),
{
    if sea || lake {
        if is_below(temp, FREEZING) {
            Paint::Frost
        } else {
            Paint::Water
        }
    } else {
        Paint::Ground
    }
}

/// How a vertex is wetted.
#[derive(Clone, Copy, PartialEq, Eq, Structural, Debug)]
pub enum WetPaint {
    /// Not at all: its ground colour is the water.
    Bare,
    /// Fully or not at all.
    Sharp(bool),
    /// By the feathered wetness.
    Feathered,
}

/// Tiles that resolve water show it sharply; coarser ones feather it. Seas
/// and lakes carry no wet paint.
pub fn wet_paint(deep: bool, sea: bool, lake: bool, has_water: bool) -> (p: WetPaint)
    ensures
        p == (if sea || lake {
            WetPaint::Bare
        } else if deep {
            WetPaint::Sharp(has_water)
        } else {
            WetPaint::Feathered
        }),
{
    if sea || lake {
        WetPaint::Bare
    } else if deep {
        WetPaint::Sharp(has_water)
    } else {
        WetPaint::Feathered
    }
}

/// Which shores a vertex may show: the sea's where the ocean is near, a
/// lake's where a liquid lake floods.
pub fn shores(sea: bool, coastal: bool, lake_level: Measure, temp: Measure) -> (r: (bool, bool))
    ensures
        r.0 == (sea || coastal),
        r.1 == (finite(lake_level) && at_most(FREEZING, temp)),
{
    (
        sea || coastal,
        crate::measure::NEG_INFINITE < lake_level && lake_level < crate::measure::INFINITE
            && is_at_most(FREEZING, temp),
    )
}

/// The ground must stand above this for an impostor (0.010).
pub const IMPOSTOR_GROUND: Measure = 0x3F84_7AE1_47AE_147B;

/// Carved deeper than this, the ground carries no impostor (0.0005).
pub const IMPOSTOR_CARVE: Measure = 0x3F40_624D_D2F1_A9FC;

/// Colder than this, the ground carries no impostor (-6).
pub const IMPOSTOR_COLD: Measure = -0x4018_0000_0000_0000;

/// A column's ticket wins an impostor: below every density there is, in a
/// climate with trees, for a kind that shows at a distance, and below that
/// climate's density. Both densities are scaled to the lattice.
pub fn impostor_drawn(ticket: Measure, most_dense: Measure, grown: Option<TreeKind>, density: Measure) -> (r:
    bool)
    ensures
        r == (!at_most(most_dense, ticket) && grown is Some && grown->0 != TreeKind::Shrub
            && !at_most(density, ticket)),
{
    match grown {
        None => false,
        Some(kind) => !is_at_most(most_dense, ticket) && kind != TreeKind::Shrub && !is_at_most(
            density,
            ticket,
        ),
    }
}

/// An impostor may root here: dry, above the beach, uncarved, not too cold.
pub fn roots(has_water: bool, elevation: Measure, carve: Measure, temp: Measure) -> (r: bool)
    ensures
        r == (!has_water && !below(elevation, IMPOSTOR_GROUND) && !below(IMPOSTOR_CARVE, carve)
            && !below(temp, IMPOSTOR_COLD)),
{
    !has_water && !is_below(elevation, IMPOSTOR_GROUND) && !is_below(IMPOSTOR_CARVE, carve)
        && !is_below(temp, IMPOSTOR_COLD)
}

/// The lattice columns from `lo` to `hi`, `stride` apart.
pub open spec fn strided(lo: int, hi: int, stride: int) -> Seq<u64>
    decreases
        (if lo > hi {
            0
        } else {
            hi - lo + 1
        }),
{
    if lo > hi || stride <= 0 {
        Seq::empty()
    } else {
        seq![lo as u64] + strided(lo + stride, hi, stride)
    }
}

fn steps(lo: u64, hi: u64, stride: u64) -> (out: Vec<u64>)
    requires
        stride > 0,
        hi + stride <= u64::MAX,
    ensures
        out@ == strided(lo as int, hi as int, stride as int),
{
    let mut out: Vec<u64> = Vec::new();
    let mut at: u64 = lo;
    while at <= hi
        invariant
            stride > 0,
            hi + stride <= u64::MAX,
            out@ + strided(at as int, hi as int, stride as int) == strided(
                lo as int,
                hi as int,
                stride as int,
            ),
        decreases hi + stride - at,
    {
        let ghost before = out@;
        out.push(at);
        assert(out@ + strided(at + stride, hi as int, stride as int) =~= before + strided(
            at as int,
            hi as int,
            stride as int,
        ));
        at += stride;
    }
    assert(out@ + strided(at as int, hi as int, stride as int) =~= out@);
    out
}

/// The lattice of columns on which impostors may stand, column by column.
pub open spec fn lattice(columns: Seq<u64>, rows: Seq<u64>) -> Seq<(u64, u64)>
    decreases columns.len(),
{
    if columns.len() == 0 {
        Seq::empty()
    } else {
        lattice(columns.drop_last(), rows) + Seq::new(
            rows.len(),
            |k: int| (columns.last(), rows[k]),
        )
    }
}

/// The columns of a rectangle that may carry an impostor.
pub fn impostor_columns(ci0: u64, ci1: u64, cj0: u64, cj1: u64, stride: u64) -> (out: Vec<(u64, u64)>)
    requires
        stride > 0,
        ci1 + stride <= u64::MAX,
        cj1 + stride <= u64::MAX,
    ensures
        out@ == lattice(
            strided(ci0 as int, ci1 as int, stride as int),
            strided(cj0 as int, cj1 as int, stride as int),
        ),
{
    let columns = steps(ci0, ci1, stride);
    let rows = steps(cj0, cj1, stride);
    let mut out: Vec<(u64, u64)> = Vec::new();
    let mut i: usize = 0;
    while i < columns.len()
        invariant
            i <= columns@.len(),
            out@ == lattice(columns@.take(i as int), rows@),
        decreases columns@.len() - i,
    {
        let ghost before = out@;
        let mut j: usize = 0;
        while j < rows.len()
            invariant
                i < columns@.len(),
                j <= rows@.len(),
                out@ == before + Seq::new(j as nat, |k: int| (columns@[i as int], rows@[k])),
            decreases rows@.len() - j,
        {
            out.push((columns[i], rows[j]));
            j += 1;
            assert(out@ =~= before + Seq::new(j as nat, |k: int| (columns@[i as int], rows@[k])));
        }
        proof {
            assert(columns@.take(i + 1).drop_last() =~= columns@.take(i as int));
            assert(Seq::new(j as nat, |k: int| (columns@[i as int], rows@[k])) =~= Seq::new(
                rows@.len(),
                |k: int| (columns@.take(i + 1).last(), rows@[k]),
            ));
        }
        i += 1;
    }
    proof {
        assert(columns@.take(columns@.len() as int) =~= columns@);
    }
    out
}

/// The numbers of the candidates that a tile keeps: every n-th, so that the
/// level's cap holds.
pub fn kept_impostors(candidates: usize, level: u8) -> (r: (Vec<usize>, usize))
    ensures
        r.1 >= 1,
        candidates <= r.1 * (if level == 12 {
            2600int
        } else {
            1400
        }),
        r.1 > 1 ==> (r.1 - 1) * (if level == 12 {
            2600int
        } else {
            1400
        }) < candidates,
        forall|k: int|
            0 <= k < r.0@.len() ==> #[trigger] r.0@[k] == k * r.1 && r.0@[k] < candidates,
        r.0@.len() * r.1 >= candidates,
        r.0@.len() <= (if level == 12 {
            2600int
        } else {
            1400
        }),
{
    let cap: usize = impostor_cap(level);
    let every: usize = keep_every(candidates, cap);
    let mut out: Vec<usize> = Vec::new();
    let mut at: usize = 0;
    let mut done: bool = candidates == 0;
    assert(out@.len() * every == 0) by (nonlinear_arith)
        requires
            out@.len() == 0,
    ;
    while !done
        invariant
            every >= 1,
            cap >= 1,
            candidates <= every * cap,
            at == out@.len() * every || done,
            done ==> out@.len() * every >= candidates,
            !done ==> at < candidates,
            forall|k: int|
                0 <= k < out@.len() ==> #[trigger] out@[k] == k * every && out@[k] < candidates,
            out@.len() <= cap,
        decreases
            candidates - at + (if done {
                0int
            } else {
                1int
            }),
    {
        assert(out@.len() < cap) by (nonlinear_arith)
            requires
                at == out@.len() * every,
                at < candidates,
                candidates <= every * cap,
                every >= 1,
                cap >= 1,
        ;
        out.push(at);
        assert((out@.len() - 1) * every + every == out@.len() * every) by (nonlinear_arith);
        if candidates - at <= every {
            done = true;
        } else {
            at += every;
        }
    }
    (out, every)
}

/// Every triangle of a tile uses vertices of the tile.
pub proof fn tile_triangles_use_tile_vertices(q: int, c: int)
    requires
        0 <= q < 1152,
        0 <= c < 6,
    ensures
        tile_quad(q)[c] < TILE_VERTICES,
{
}

/// Every triangle of the Sun's sphere uses vertices of the sphere.
pub proof fn sphere_triangles_use_sphere_vertices(q: int, c: int)
    requires
        0 <= q < 2048,
        0 <= c < 6,
    ensures
        sphere_quad(q)[c] < SPHERE_VERTICES,
{
}

/// A skirt hangs from the tile's edge: every hem vertex lies on it.
pub proof fn skirts_hang_from_the_edge(t: int)
    requires
        0 <= t < 132,
    ensures
        ({
            let (i, j) = (hem(t) % 33, hem(t) / 33);
            &&& 0 <= hem(t) < SKIRT_BASE
            &&& i == 0 || i == 32 || j == 0 || j == 32
        }),
{
}

/// Coarser vertices lie on the finer grid: an even vertex is the first corner
/// of its cell, and lies between nothing.
pub proof fn even_vertices_are_coarser_vertices(a: int, b: int)
    requires
        0 <= a < PARENT_EDGE,
        0 <= b < PARENT_EDGE,
    ensures
        2 * a < TILE_EDGE && 2 * b < TILE_EDGE,
        ((2 * b) / 2) * PARENT_EDGE + (2 * a) / 2 == b * PARENT_EDGE + a,
        (2 * a) % 2 == 0 && (2 * b) % 2 == 0,
{
}

/// A cell of a tile is drawn as two triangles over its four corners.
pub proof fn cells_are_drawn_over_their_corners(i: int, j: int)
    requires
        0 <= i < 32,
        0 <= j < 32,
    ensures
        ({
            let q = tile_quad(j * 32 + i);
            &&& q.len() == 6
            &&& q[0] == j * 33 + i && q[1] == j * 33 + i + 1 && q[2] == (j + 1) * 33 + i
            &&& q[3] == j * 33 + i + 1 && q[4] == (j + 1) * 33 + i + 1 && q[5] == (j + 1) * 33 + i
        }),
{
    assert((j * 32 + i) % 32 == i && (j * 32 + i) / 32 == j);
}

/// Under every edge of a tile hangs a skirt: below a step of the edge, two
/// triangles join it to the two skirt vertices under its ends.
pub proof fn edges_carry_a_skirt(s: int)
    requires
        0 <= s < 32,
    ensures
        ({
            let (north, south) = (tile_quad(1024 + s), tile_quad(1056 + s));
            let (west, east) = (tile_quad(1088 + s), tile_quad(1120 + s));
            &&& north[0] == s && north[1] == s + 1 && north[2] == 1089 + s && north[4] == 1090 + s
            &&& south[0] == 1056 + s && south[1] == 1057 + s && south[2] == 1122 + s && south[4] == 1123
                + s
            &&& west[0] == 33 * s && west[1] == 33 * s + 33 && west[2] == 1155 + s && west[4] == 1156 + s
            &&& east[0] == 33 * s + 32 && east[1] == 33 * s + 65 && east[2] == 1188 + s && east[4] == 1189
                + s
            &&& north[3] == north[1] && north[5] == north[2] && south[3] == south[1] && south[5]
                == south[2]
            &&& west[3] == west[1] && west[5] == west[2] && east[3] == east[1] && east[5] == east[2]
        }),
{
    assert(s / 32 == 0 && s % 32 == s);
    assert((32 + s) / 32 == 1 && (32 + s) % 32 == s);
    assert((64 + s) / 32 == 2 && (64 + s) % 32 == s);
    assert((96 + s) / 32 == 3 && (96 + s) % 32 == s);
}

/// A field of the Sun's sphere is drawn between two rings and two sectors.
pub proof fn sphere_fields_are_drawn(ring: int, sector: int)
    requires
        0 <= ring < 32,
        0 <= sector < 64,
    ensures
        ({
            let q = sphere_quad(ring * 64 + sector);
            let (a, b) = (ring * 65 + sector, (ring + 1) * 65 + sector);
            &&& q.len() == 6
            &&& q[0] == a && q[1] == b && q[2] == a + 1 && q[3] == a + 1 && q[4] == b && q[5] == b + 1
        }),
{
    assert((ring * 64 + sector) % 64 == sector && (ring * 64 + sector) / 64 == ring);
}

/// Skirt vertices hang in order from the first row, the last row, the first
/// column and the last column.
pub proof fn hems_follow_the_edges(s: int)
    requires
        0 <= s < 33,
    ensures
        hem(s) == s,
        hem(33 + s) == 1056 + s,
        hem(66 + s) == 33 * s,
        hem(99 + s) == 33 * s + 32,
{
    assert(s / 33 == 0 && (33 + s) / 33 == 1 && (66 + s) / 33 == 2 && (99 + s) / 33 == 3);
    assert((33 + s) % 33 == s && (66 + s) % 33 == s && (99 + s) % 33 == s);
}

/// Lattice columns start at the first and stand a stride apart up to the last.
pub proof fn lattice_columns_stand_a_stride_apart(lo: int, hi: int, stride: int, k: int)
    requires
        stride > 0,
        0 <= lo,
        hi <= u64::MAX,
        0 <= k,
    ensures
        k < strided(lo, hi, stride).len() <==> lo + k * stride <= hi,
        k < strided(lo, hi, stride).len() ==> strided(lo, hi, stride)[k] == lo + k * stride,
    decreases
        (if lo > hi {
            0
        } else {
            hi - lo + 1
        }),
{
    assert(k * stride >= 0) by (nonlinear_arith)
        requires
            k >= 0,
            stride > 0,
    ;
    if lo <= hi {
        let all = strided(lo, hi, stride);
        assert(all == seq![lo as u64] + strided(lo + stride, hi, stride));
        if k > 0 {
            lattice_columns_stand_a_stride_apart(lo + stride, hi, stride, k - 1);
            assert(lo + stride + (k - 1) * stride == lo + k * stride) by (nonlinear_arith);
            if k < all.len() {
                assert(all[k] == strided(lo + stride, hi, stride)[k - 1]);
            }
        }
    }
}

/// Impostors may stand where a lattice column and a lattice row meet.
pub proof fn impostors_stand_on_the_lattice(columns: Seq<u64>, rows: Seq<u64>, c: u64, r: u64)
    ensures
        lattice(columns, rows).contains((c, r)) <==> columns.contains(c) && rows.contains(r),
    decreases columns.len(),
{
    if columns.len() > 0 {
        let head = lattice(columns.drop_last(), rows);
        let tail = Seq::new(rows.len(), |k: int| (columns.last(), rows[k]));
        let all = lattice(columns, rows);
        impostors_stand_on_the_lattice(columns.drop_last(), rows, c, r);
        assert(all == head + tail);
        if all.contains((c, r)) {
            let k = choose|k: int| 0 <= k < all.len() && all[k] == (c, r);
            if k < head.len() {
                assert(head[k] == (c, r));
                let m = choose|m: int|
                    0 <= m < columns.drop_last().len() && columns.drop_last()[m] == c;
                assert(columns[m] == c);
            } else {
                assert(tail[k - head.len()] == (c, r));
                assert(rows[k - head.len()] == r && columns[columns.len() - 1] == c);
            }
        }
        if columns.contains(c) && rows.contains(r) {
            let m = choose|m: int| 0 <= m < columns.len() && columns[m] == c;
            let n = choose|n: int| 0 <= n < rows.len() && rows[n] == r;
            if m < columns.len() - 1 {
                assert(columns.drop_last()[m] == c);
                let k = choose|k: int| 0 <= k < head.len() && head[k] == (c, r);
                assert(all[k] == (c, r));
            } else {
                assert(tail[n] == (c, r));
                assert(all[head.len() + n] == (c, r));
            }
        }
    }
}

/// The coarser lattice ends at its seventeenth point.
pub proof fn lattice_points_stop_at_the_edge(k: int)
    ensures
        k <= 16 ==> capped(k) == k,
        k >= 16 ==> capped(k) == 16,
{
}

} // verus!
