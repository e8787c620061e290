//! The faces of one chunk: exposed block tops, undersides and walls, water
//! surfaces and flooded caves, trees and torches.
//!
//! A face names its column, its blocks and what shading needs of them; the
//! renderer turns it into one quad.

use vstd::prelude::*;
use crate::column::{BLOCK_LIMIT, CAVE_DEPTH, ColCtx, DRY};
use crate::grid::{EDGE, Grid, side_offset};
use crate::material::{Mat, mat_at, stratum};

verus! {

/// How many of the blocks around each corner of a quad hide it from the sky:
/// 0 open to 3 fully enclosed.
#[derive(Clone, Copy, PartialEq, Eq, Structural, Debug)]
pub struct Corners {
    pub a: u8,
    pub b: u8,
    pub c: u8,
    pub d: u8,
}

/// How far a water surface drops to lower liquid across each side; zero for
/// none.
#[derive(Clone, Copy, PartialEq, Eq, Structural, Debug)]
pub struct Drops {
    pub plus_i: i64,
    pub minus_i: i64,
    pub plus_j: i64,
    pub minus_j: i64,
}

/// What a face shows.
#[derive(Clone, Copy, PartialEq, Eq, Structural, Debug)]
pub enum Shape {
    /// The top of block `z`. `depth` counts blocks below the walkable top;
    /// `slope_lit` tops shade with the terrain's slope; `wet_sand` marks the
    /// cap of a shoal.
    Top { z: i64, mat: Mat, shade: Corners, depth: i64, slope_lit: bool, wet_sand: bool },
    /// The underside of block `z`, over a cave.
    Under { z: i64, mat: Mat, depth: i64, wet_sand: bool },
    /// The side of the run of blocks `lo..=hi` of one material. `depth` counts
    /// blocks below the facing column's top, `rise` blocks below the column's
    /// own top; walls of edited columns have no `rise`.
    Wall { side: u8, lo: i64, hi: i64, mat: Mat, shade: Corners, depth: i64, rise: Option<i64> },
    /// The open water surface at block `w`. `rim` surfaces are presented at
    /// the lake plane.
    WaterTop { w: i64, frozen: bool, drops: Drops, rim: bool },
    /// Open water standing above the neighbour across a side.
    WaterSide { side: u8, lo: i64, hi: i64, drop: i64, frozen: bool, rim: bool },
    /// The free surface of a flooded cave; `below` counts blocks below its
    /// water table.
    PoolTop { z: i64, depth: i64, below: i64, frozen: bool },
    /// A flooded cave beside a dry passage.
    PoolSide { side: u8, z: i64, depth: i64, below: i64, frozen: bool },
}

/// One face of a column of the chunk.
#[derive(Clone, Copy, PartialEq, Eq, Structural, Debug)]
pub struct Face {
    pub i: i64,
    pub j: i64,
    pub shape: Shape,
}

pub open spec fn positive(x: int) -> int {
    if x > 0 {
        x
    } else {
        0
    }
}

/// Corner shading: two side blocks close a corner completely, otherwise every
/// block around it counts.
pub open spec fn occlusion(s1: bool, s2: bool, diagonal: bool) -> u8 {
    if s1 && s2 {
        3
    } else if s1 || s2 {
        if diagonal {
            2
        } else {
            1
        }
    } else if diagonal {
        1
    } else {
        0
    }
}

fn occluded(s1: bool, s2: bool, diagonal: bool) -> (r: u8)
    ensures
        r == occlusion(s1, s2, diagonal),
{
    if s1 && s2 {
        3
    } else {
        (if s1 {
            1
        } else {
            0
        }) + (if s2 {
            1
        } else {
            0
        }) + (if diagonal {
            1
        } else {
            0
        })
    }
}

/// Shading of one corner of a top: the blocks one level up toward (a, b).
pub open spec fn top_corner(g: Grid, i: int, j: int, z: int, a: int, b: int) -> u8 {
    occlusion(
        g.col(i + a, j).solid_at(z + 1),
        g.col(i, j + b).solid_at(z + 1),
        g.col(i + a, j + b).solid_at(z + 1),
    )
}

pub open spec fn top_shade(g: Grid, i: int, j: int, z: int) -> Corners {
    Corners {
        a: top_corner(g, i, j, z, -1, -1),
        b: top_corner(g, i, j, z, 1, -1),
        c: top_corner(g, i, j, z, 1, 1),
        d: top_corner(g, i, j, z, -1, 1),
    }
}

/// The column diagonal to a wall's corner, on the open side.
pub open spec fn lateral(side: int, corner: int) -> (int, int) {
    if side == 0 {
        if corner == 0 {
            (1, -1)
        } else {
            (1, 1)
        }
    } else if side == 1 {
        if corner == 0 {
            (-1, 1)
        } else {
            (-1, -1)
        }
    } else if side == 2 {
        if corner == 0 {
            (1, 1)
        } else {
            (-1, 1)
        }
    } else {
        if corner == 0 {
            (-1, -1)
        } else {
            (1, -1)
        }
    }
}

/// Shading of one corner of a wall: `ze` is the level beyond its edge, `zr`
/// the level along it.
pub open spec fn wall_corner(
    g: Grid,
    i: int,
    j: int,
    side: int,
    corner: int,
    ze: int,
    zr: int,
) -> u8 {
    let (lx, ly) = lateral(side, corner);
    occlusion(
        g.beside(i, j, side).solid_at(ze),
        g.col(i + lx, j + ly).solid_at(zr),
        g.col(i + lx, j + ly).solid_at(ze),
    )
}

pub open spec fn wall_shade(g: Grid, i: int, j: int, side: int, lo: int, hi: int) -> Corners {
    Corners {
        a: wall_corner(g, i, j, side, 0, hi + 1, hi),
        b: wall_corner(g, i, j, side, 1, hi + 1, hi),
        c: wall_corner(g, i, j, side, 1, lo - 1, lo),
        d: wall_corner(g, i, j, side, 0, lo - 1, lo),
    }
}

pub open spec fn in_chunk(i: int, j: int) -> bool {
    0 <= i < EDGE && 0 <= j < EDGE
}

// ------------------------------------------------------- tops and undersides

/// The horizontal faces of block `z` in a column meshed from `lo` up.
pub open spec fn block_caps(g: Grid, i: int, j: int, surf: Mat, lo: int, z: int) -> Seq<Face> {
    let c = g.col(i, j);
    let mat = stratum(c, z, surf);
    let depth = positive(c.top() - z) as i64;
    let wet_sand = c.lake_shoal && mat == Mat::Sand;
    let top = Face {
        i: i as i64,
        j: j as i64,
        shape: Shape::Top {
            z: z as i64,
            mat,
            shade: top_shade(g, i, j, z),
            depth,
            slope_lit: z == c.top(),
            wet_sand,
        },
    };
    let under = Face {
        i: i as i64,
        j: j as i64,
        shape: Shape::Under { z: z as i64, mat, depth, wet_sand },
    };
    if !c.solid_at(z) {
        Seq::empty()
    } else {
        (if !c.solid_at(z + 1) {
            seq![top]
        } else {
            Seq::empty()
        }) + (if z > lo && !c.solid_at(z - 1) {
            seq![under]
        } else {
            Seq::empty()
        })
    }
}

/// The horizontal faces of the blocks `lo..end`, bottom up.
pub open spec fn caps(g: Grid, i: int, j: int, surf: Mat, lo: int, end: int) -> Seq<Face>
    decreases end - lo,
{
    if end <= lo {
        Seq::empty()
    } else {
        caps(g, i, j, surf, lo, end - 1) + block_caps(g, i, j, surf, lo, end - 1)
    }
}

fn shade_top(g: &Grid, i: i64, j: i64, z: i64) -> (r: Corners)
    requires
        g.wf(),
        in_chunk(i as int, j as int),
        z <= BLOCK_LIMIT,
    ensures
        r == top_shade(*g, i as int, j as int, z as int),
{
    let up: i64 = z + 1;
    let e: bool = g.at(i + 1, j).filled(up);
    let w: bool = g.at(i - 1, j).filled(up);
    let n: bool = g.at(i, j + 1).filled(up);
    let s: bool = g.at(i, j - 1).filled(up);
    Corners {
        a: occluded(w, s, g.at(i - 1, j - 1).filled(up)),
        b: occluded(e, s, g.at(i + 1, j - 1).filled(up)),
        c: occluded(e, n, g.at(i + 1, j + 1).filled(up)),
        d: occluded(w, n, g.at(i - 1, j + 1).filled(up)),
    }
}

fn push_caps(g: &Grid, i: i64, j: i64, surf: Mat, lo: i64, out: &mut Vec<Face>)
    requires
        g.wf(),
        in_chunk(i as int, j as int),
        lo >= g.col(i as int, j as int).ground - 220,
        lo <= g.col(i as int, j as int).ground,
    ensures
        final(out)@ == old(out)@ + caps(
            *g,
            i as int,
            j as int,
            surf,
            lo as int,
            g.col(i as int, j as int).ground + 1,
        ),
{
    let c: &ColCtx = g.at(i, j);
    let top: i64 = c.top_solid();
    let mut z: i64 = lo;
    let ghost before = out@;
    assert(before =~= before + caps(*g, i as int, j as int, surf, lo as int, lo as int));
    while z <= c.ground
        invariant
            g.wf(),
            in_chunk(i as int, j as int),
            *c == g.col(i as int, j as int),
            c.wf(),
            c.ground - 220 <= lo <= z <= c.ground + 1,
            top == c.top(),
            -BLOCK_LIMIT - CAVE_DEPTH <= top <= c.ground,
            out@ == before + caps(*g, i as int, j as int, surf, lo as int, z as int),
        decreases c.ground + 1 - z,
    {
        let ghost mid = out@;
        let ghost added = block_caps(*g, i as int, j as int, surf, lo as int, z as int);
        if c.filled(z) {
            let mat: Mat = mat_at(c, z, surf);
            let depth: i64 = if top > z {
                top - z
            } else {
                0
            };
            let wet_sand: bool = c.lake_shoal && mat == Mat::Sand;
            if !c.filled(z + 1) {
                out.push(
                    Face {
                        i,
                        j,
                        shape: Shape::Top {
                            z,
                            mat,
                            shade: shade_top(g, i, j, z),
                            depth,
                            slope_lit: z == top,
                            wet_sand,
                        },
                    },
                );
            }
            if z > lo && !c.filled(z - 1) {
                out.push(Face { i, j, shape: Shape::Under { z, mat, depth, wet_sand } });
            }
        }
        assert(out@ =~= mid + added);
        z += 1;
        assert(out@ =~= before + caps(*g, i as int, j as int, surf, lo as int, z as int));
    }
}

// ----------------------------------------------------------------- walls

/// The material a block shows across a side, where it is solid and the
/// neighbour is not.
pub open spec fn wall_mat(g: Grid, i: int, j: int, side: int, surf: Mat, z: int) -> Option<Mat> {
    let c = g.col(i, j);
    if z <= c.ground && c.solid_at(z) && !g.beside(i, j, side).solid_at(z) {
        Some(stratum(c, z, surf))
    } else {
        None
    }
}

/// The last block of the run that shows `mat` from `z` on.
pub open spec fn run_end(g: Grid, i: int, j: int, side: int, surf: Mat, mat: Mat, z: int) -> int
    decreases g.col(i, j).ground - z,
{
    if z >= g.col(i, j).ground || wall_mat(g, i, j, side, surf, z + 1) != Some(mat) {
        z
    } else {
        run_end(g, i, j, side, surf, mat, z + 1)
    }
}

pub open spec fn wall_face(g: Grid, i: int, j: int, side: int, lo: int, hi: int, mat: Mat) -> Face {
    let c = g.col(i, j);
    Face {
        i: i as i64,
        j: j as i64,
        shape: Shape::Wall {
            side: side as u8,
            lo: lo as i64,
            hi: hi as i64,
            mat,
            shade: wall_shade(g, i, j, side, lo, hi),
            depth: positive(g.beside(i, j, side).top() - hi) as i64,
            rise: if c.ground != c.ground0 {
                None
            } else {
                Some(positive(c.top() - hi) as i64)
            },
        },
    }
}

/// The walls across one side from block `z` up: one face per longest run of
/// exposed blocks of one material.
pub open spec fn walls(g: Grid, i: int, j: int, side: int, surf: Mat, z: int) -> Seq<Face>
    decreases g.col(i, j).ground + 1 - z,
    via walls_decreases
{
    if z > g.col(i, j).ground {
        Seq::empty()
    } else {
        match wall_mat(g, i, j, side, surf, z) {
            None => walls(g, i, j, side, surf, z + 1),
            Some(mat) => {
                let e = run_end(g, i, j, side, surf, mat, z);
                seq![wall_face(g, i, j, side, z, e, mat)] + walls(g, i, j, side, surf, e + 1)
            },
        }
    }
}

#[via_fn]
proof fn walls_decreases(g: Grid, i: int, j: int, side: int, surf: Mat, z: int) {
    if let Some(mat) = wall_mat(g, i, j, side, surf, z) {
        lemma_run_end(g, i, j, side, surf, mat, z);
    }
}

proof fn lemma_run_end(g: Grid, i: int, j: int, side: int, surf: Mat, mat: Mat, z: int)
    requires
        z <= g.col(i, j).ground,
    ensures
        ({
            let e = run_end(g, i, j, side, surf, mat, z);
            &&& z <= e <= g.col(i, j).ground
            &&& forall|y: int| z < y <= e ==> #[trigger] wall_mat(g, i, j, side, surf, y) == Some(mat)
            &&& wall_mat(g, i, j, side, surf, e + 1) != Some(mat)
        }),
    decreases g.col(i, j).ground - z,
{
    if z >= g.col(i, j).ground || wall_mat(g, i, j, side, surf, z + 1) != Some(mat) {
    } else {
        lemma_run_end(g, i, j, side, surf, mat, z + 1);
    }
}

fn exposed_mat(c: &ColCtx, nb: &ColCtx, surf: Mat, z: i64) -> (r: Option<Mat>)
    requires
        c.wf(),
        nb.wf(),
        -2 * BLOCK_LIMIT <= z,
    ensures
        r == (if z <= c.ground && c.solid_at(z as int) && !nb.solid_at(z as int) {
            Some(stratum(*c, z as int, surf))
        } else {
            None
        }),
{
    if z <= c.ground && c.filled(z) && !nb.filled(z) {
        Some(mat_at(c, z, surf))
    } else {
        None
    }
}

fn shows(c: &ColCtx, nb: &ColCtx, surf: Mat, z: i64, mat: Mat) -> (r: bool)
    requires
        c.wf(),
        nb.wf(),
        -2 * BLOCK_LIMIT <= z,
    ensures
        r == (z <= c.ground && c.solid_at(z as int) && !nb.solid_at(z as int) && stratum(
            *c,
            z as int,
            surf,
        ) == mat),
{
    match exposed_mat(c, nb, surf, z) {
        Some(m) => m == mat,
        None => false,
    }
}

fn shade_wall(g: &Grid, i: i64, j: i64, side: usize, lo: i64, hi: i64) -> (r: Corners)
    requires
        g.wf(),
        in_chunk(i as int, j as int),
        side < 4,
        -2 * BLOCK_LIMIT <= lo <= hi <= BLOCK_LIMIT,
    ensures
        r == wall_shade(*g, i as int, j as int, side as int, lo as int, hi as int),
{
    let (ax, ay, bx, by): (i64, i64, i64, i64) = if side == 0 {
        (1, -1, 1, 1)
    } else if side == 1 {
        (-1, 1, -1, -1)
    } else if side == 2 {
        (1, 1, -1, 1)
    } else {
        (-1, -1, 1, -1)
    };
    let nb: &ColCtx = g.neighbour(i, j, side);
    let la: &ColCtx = g.at(i + ax, j + ay);
    let lb: &ColCtx = g.at(i + bx, j + by);
    let over: bool = nb.filled(hi + 1);
    let under: bool = nb.filled(lo - 1);
    Corners {
        a: occluded(over, la.filled(hi), la.filled(hi + 1)),
        b: occluded(over, lb.filled(hi), lb.filled(hi + 1)),
        c: occluded(under, lb.filled(lo), lb.filled(lo - 1)),
        d: occluded(under, la.filled(lo), la.filled(lo - 1)),
    }
}

fn push_walls(g: &Grid, i: i64, j: i64, side: usize, surf: Mat, lo: i64, out: &mut Vec<Face>)
    requires
        g.wf(),
        in_chunk(i as int, j as int),
        side < 4,
        lo >= g.col(i as int, j as int).ground - 220,
        lo <= g.col(i as int, j as int).ground,
    ensures
        final(out)@ == old(out)@ + walls(*g, i as int, j as int, side as int, surf, lo as int),
{
    let c: &ColCtx = g.at(i, j);
    let nb: &ColCtx = g.neighbour(i, j, side);
    let top: i64 = c.top_solid();
    let nb_top: i64 = nb.top_solid();
    let mut z: i64 = lo;
    let ghost before = out@;
    let ghost all = walls(*g, i as int, j as int, side as int, surf, lo as int);
    assert(before + all =~= out@ + all);
    while z <= c.ground
        invariant
            g.wf(),
            in_chunk(i as int, j as int),
            side < 4,
            *c == g.col(i as int, j as int),
            *nb == g.beside(i as int, j as int, side as int),
            c.wf(),
            nb.wf(),
            top == c.top(),
            nb_top == nb.top(),
            -BLOCK_LIMIT - CAVE_DEPTH <= top <= c.ground,
            -BLOCK_LIMIT - CAVE_DEPTH <= nb_top <= BLOCK_LIMIT,
            c.ground - 220 <= z <= c.ground + 1,
            before + all == out@ + walls(*g, i as int, j as int, side as int, surf, z as int),
        decreases c.ground + 1 - z,
    {
        let ghost mid = out@;
        match exposed_mat(c, nb, surf, z) {
            None => {
                z += 1;
            },
            Some(mat) => {
                let start: i64 = z;
                let mut e: i64 = z;
                while e < c.ground && shows(c, nb, surf, e + 1, mat)
                    invariant
                        g.wf(),
                        *c == g.col(i as int, j as int),
                        *nb == g.beside(i as int, j as int, side as int),
                        c.wf(),
                        nb.wf(),
                        c.ground - 220 <= start <= e <= c.ground,
                        run_end(*g, i as int, j as int, side as int, surf, mat, start as int)
                            == run_end(*g, i as int, j as int, side as int, surf, mat, e as int),
                    decreases c.ground - e,
                {
                    e += 1;
                }
                let shade: Corners = shade_wall(g, i, j, side, start, e);
                let depth: i64 = if nb_top > e {
                    nb_top - e
                } else {
                    0
                };
                let rise: Option<i64> = if c.ground != c.ground0 {
                    None
                } else if top > e {
                    Some(top - e)
                } else {
                    Some(0)
                };
                let face: Face = Face {
                    i,
                    j,
                    shape: Shape::Wall { side: side as u8, lo: start, hi: e, mat, shade, depth, rise },
                };
                assert(face == wall_face(
                    *g,
                    i as int,
                    j as int,
                    side as int,
                    start as int,
                    e as int,
                    mat,
                ));
                out.push(face);
                z = e + 1;
                assert(mid + (seq![face] + walls(
                    *g,
                    i as int,
                    j as int,
                    side as int,
                    surf,
                    z as int,
                )) =~= out@ + walls(*g, i as int, j as int, side as int, surf, z as int));
            },
        }
    }
    assert(walls(*g, i as int, j as int, side as int, surf, z as int) =~= Seq::<Face>::empty());
    assert(out@ =~= before + all);
}

// ------------------------------------------------------------ open water

/// Which neighbouring lake planes coincide: entry `(j * 32 + i) * 4 + side`
/// says whether the analog levels of a column and of its neighbour across that
/// side are the same.
pub open spec fn joins_ok(joins: Seq<bool>) -> bool {
    joins.len() == EDGE * EDGE * 4
}

/// Two columns whose water is presented as one lake plane.
pub open spec fn joined(g: Grid, joins: Seq<bool>, i: int, j: int, side: int) -> bool {
    g.col(i, j).rim_flush_water && g.beside(i, j, side).rim_flush_water && joins[(j * EDGE + i) * 4
        + side]
}

/// The drop from a column's drawn water to lower liquid across a side.
pub open spec fn liquid_drop(g: Grid, joins: Seq<bool>, i: int, j: int, side: int) -> int {
    let nb = g.beside(i, j, side);
    let (di, dj) = side_offset(side);
    if g.col(i, j).frozen || nb.frozen || !nb.wet() || joined(g, joins, i, j, side) {
        0
    } else {
        positive(g.drawn_water(i, j) - g.drawn_water(i + di, j + dj))
    }
}

/// The block that meets the water across a side: the neighbour's drawn water,
/// or its solid top.
pub open spec fn bank(g: Grid, i: int, j: int, side: int) -> int {
    let nb = g.beside(i, j, side);
    let (di, dj) = side_offset(side);
    if nb.wet() && g.drawn_water(i + di, j + dj) > nb.top() {
        g.drawn_water(i + di, j + dj)
    } else {
        nb.top()
    }
}

/// The surface is presented at its lake plane: marked, and drawn at its own
/// level.
pub open spec fn at_rim(g: Grid, i: int, j: int) -> bool {
    g.col(i, j).rim_flush_water && g.drawn_water(i, j) == g.col(i, j).water
}

pub open spec fn water_top_face(g: Grid, joins: Seq<bool>, i: int, j: int) -> Face {
    Face {
        i: i as i64,
        j: j as i64,
        shape: Shape::WaterTop {
            w: g.drawn_water(i, j) as i64,
            frozen: g.col(i, j).frozen,
            drops: Drops {
                plus_i: liquid_drop(g, joins, i, j, 0) as i64,
                minus_i: liquid_drop(g, joins, i, j, 1) as i64,
                plus_j: liquid_drop(g, joins, i, j, 2) as i64,
                minus_j: liquid_drop(g, joins, i, j, 3) as i64,
            },
            rim: at_rim(g, i, j),
        },
    }
}

/// The face of a column's water across a side, where it stands above the
/// bank and the two are not one lake plane.
pub open spec fn water_side(g: Grid, joins: Seq<bool>, i: int, j: int, side: int) -> Option<Face> {
    let c = g.col(i, j);
    let w = g.drawn_water(i, j);
    let b = bank(g, i, j, side);
    if joined(g, joins, i, j, side) || b >= w {
        None
    } else {
        Some(
            Face {
                i: i as i64,
                j: j as i64,
                shape: Shape::WaterSide {
                    side: side as u8,
                    lo: (if b > c.top() {
                        b
                    } else {
                        c.top()
                    }) as i64,
                    hi: w as i64,
                    drop: liquid_drop(g, joins, i, j, side) as i64,
                    frozen: c.frozen,
                    rim: at_rim(g, i, j),
                },
            },
        )
    }
}

pub open spec fn water_sides(g: Grid, joins: Seq<bool>, i: int, j: int, n: int) -> Seq<Face>
    decreases n,
{
    if n <= 0 {
        Seq::empty()
    } else {
        let rest = water_sides(g, joins, i, j, n - 1);
        match water_side(g, joins, i, j, n - 1) {
            Some(f) => rest.push(f),
            None => rest,
        }
    }
}

/// The open-water faces of a column: its surface, then its sides.
pub open spec fn water_faces(g: Grid, joins: Seq<bool>, i: int, j: int) -> Seq<Face> {
    if g.col(i, j).wet() {
        seq![water_top_face(g, joins, i, j)] + water_sides(g, joins, i, j, 4)
    } else {
        Seq::empty()
    }
}

fn one_plane(g: &Grid, joins: &Vec<bool>, i: i64, j: i64, side: usize) -> (r: bool)
    requires
        g.wf(),
        joins_ok(joins@),
        in_chunk(i as int, j as int),
        side < 4,
    ensures
        r == joined(*g, joins@, i as int, j as int, side as int),
{
    let k: usize = ((j * EDGE + i) * 4) as usize + side;
    g.at(i, j).rim_flush_water && g.neighbour(i, j, side).rim_flush_water && joins[k]
}

fn drop_across(g: &Grid, joins: &Vec<bool>, i: i64, j: i64, side: usize, w: i64) -> (r: i64)
    requires
        g.wf(),
        joins_ok(joins@),
        in_chunk(i as int, j as int),
        side < 4,
        w == g.drawn_water(i as int, j as int),
        -BLOCK_LIMIT - CAVE_DEPTH <= w <= BLOCK_LIMIT + 1,
    ensures
        r == liquid_drop(*g, joins@, i as int, j as int, side as int),
{
    let nb: &ColCtx = g.neighbour(i, j, side);
    if g.at(i, j).frozen || nb.frozen || !nb.has_water() {
        return 0;
    }
    if one_plane(g, joins, i, j, side) {
        return 0;
    }
    let (di, dj): (i64, i64) = crate::grid::side_step(side);
    let nb_w: i64 = g.water_top(i + di, j + dj);
    if nb_w < w {
        w - nb_w
    } else {
        0
    }
}

fn bank_across(g: &Grid, i: i64, j: i64, side: usize) -> (r: i64)
    requires
        g.wf(),
        in_chunk(i as int, j as int),
        side < 4,
    ensures
        r == bank(*g, i as int, j as int, side as int),
{
    let nb: &ColCtx = g.neighbour(i, j, side);
    let top: i64 = nb.top_solid();
    if nb.has_water() {
        let (di, dj): (i64, i64) = crate::grid::side_step(side);
        let nb_w: i64 = g.water_top(i + di, j + dj);
        if nb_w > top {
            return nb_w;
        }
    }
    top
}

fn push_water(g: &Grid, joins: &Vec<bool>, i: i64, j: i64, out: &mut Vec<Face>)
    requires
        g.wf(),
        joins_ok(joins@),
        in_chunk(i as int, j as int),
    ensures
        final(out)@ == old(out)@ + water_faces(*g, joins@, i as int, j as int),
{
    let c: &ColCtx = g.at(i, j);
    let ghost before = out@;
    if !c.has_water() {
        assert(before =~= before + water_faces(*g, joins@, i as int, j as int));
        return ;
    }
    let w: i64 = g.water_top(i, j);
    let rim: bool = c.rim_flush_water && w == c.water;
    let top: i64 = c.top_solid();
    let drops: Drops = Drops {
        plus_i: drop_across(g, joins, i, j, 0, w),
        minus_i: drop_across(g, joins, i, j, 1, w),
        plus_j: drop_across(g, joins, i, j, 2, w),
        minus_j: drop_across(g, joins, i, j, 3, w),
    };
    out.push(Face { i, j, shape: Shape::WaterTop { w, frozen: c.frozen, drops, rim } });
    let ghost first = seq![water_top_face(*g, joins@, i as int, j as int)];
    assert(out@ =~= before + (first + water_sides(*g, joins@, i as int, j as int, 0)));
    let mut side: usize = 0;
    while side < 4
        invariant
            side <= 4,
            g.wf(),
            joins_ok(joins@),
            in_chunk(i as int, j as int),
            *c == g.col(i as int, j as int),
            c.wf(),
            w == g.drawn_water(i as int, j as int),
            -BLOCK_LIMIT - CAVE_DEPTH <= w <= BLOCK_LIMIT + 1,
            rim == at_rim(*g, i as int, j as int),
            top == c.top(),
            out@ == before + (first + water_sides(*g, joins@, i as int, j as int, side as int)),
        decreases 4 - side,
    {
        let ghost mid = out@;
        if !one_plane(g, joins, i, j, side) {
            let b: i64 = bank_across(g, i, j, side);
            if b < w {
                let lo: i64 = if b > top {
                    b
                } else {
                    top
                };
                let drop: i64 = drop_across(g, joins, i, j, side, w);
                out.push(
                    Face {
                        i,
                        j,
                        shape: Shape::WaterSide {
                            side: side as u8,
                            lo,
                            hi: w,
                            drop,
                            frozen: c.frozen,
                            rim,
                        },
                    },
                );
            }
        }
        assert(out@ =~= before + (first + water_sides(
            *g,
            joins@,
            i as int,
            j as int,
            side as int + 1,
        )));
        side += 1;
    }
}

// ---------------------------------------------------------- flooded caves

/// A carved passage of a column that holds air.
pub open spec fn dry_passage(c: ColCtx, z: int) -> bool {
    z <= c.ground && !c.solid_at(z) && !c.flooded_at(z)
}

pub open spec fn pool_depth(c: ColCtx, z: int) -> i64 {
    positive(c.top() - z) as i64
}

pub open spec fn pool_sides(g: Grid, i: int, j: int, z: int, n: int) -> Seq<Face>
    decreases n,
{
    let c = g.col(i, j);
    if n <= 0 {
        Seq::empty()
    } else {
        let rest = pool_sides(g, i, j, z, n - 1);
        if dry_passage(g.beside(i, j, n - 1), z) {
            rest.push(
                Face {
                    i: i as i64,
                    j: j as i64,
                    shape: Shape::PoolSide {
                        side: (n - 1) as u8,
                        z: z as i64,
                        depth: pool_depth(c, z),
                        below: (c.cave_water - z) as i64,
                        frozen: c.frozen,
                    },
                },
            )
        } else {
            rest
        }
    }
}

/// The faces of the cave water in block `z`: its free surface under air, and
/// its sides into dry passages. Never a wall against open sky.
pub open spec fn pool_block(g: Grid, i: int, j: int, z: int) -> Seq<Face> {
    let c = g.col(i, j);
    if !c.flooded_at(z) {
        Seq::empty()
    } else {
        (if !c.solid_at(z + 1) && !c.flooded_at(z + 1) {
            seq![
                Face {
                    i: i as i64,
                    j: j as i64,
                    shape: Shape::PoolTop {
                        z: z as i64,
                        depth: pool_depth(c, z),
                        below: (c.cave_water - z) as i64,
                        frozen: c.frozen,
                    },
                },
            ]
        } else {
            Seq::empty()
        }) + pool_sides(g, i, j, z, 4)
    }
}

/// The cave-water faces of the blocks from the bottom of the cave band up to,
/// not including, `end`.
pub open spec fn pool_faces(g: Grid, i: int, j: int, end: int) -> Seq<Face>
    decreases end - (g.col(i, j).ground0 - CAVE_DEPTH),
{
    if end <= g.col(i, j).ground0 - CAVE_DEPTH {
        Seq::empty()
    } else {
        pool_faces(g, i, j, end - 1) + pool_block(g, i, j, end - 1)
    }
}

/// All cave-water faces of a column.
pub open spec fn flood_faces(g: Grid, i: int, j: int) -> Seq<Face> {
    let c = g.col(i, j);
    if c.cave_water == DRY {
        Seq::empty()
    } else {
        pool_faces(g, i, j, c.cave_water + 1)
    }
}

fn push_pool_block(g: &Grid, i: i64, j: i64, z: i64, top: i64, out: &mut Vec<Face>)
    requires
        g.wf(),
        in_chunk(i as int, j as int),
        top == g.col(i as int, j as int).top(),
        g.col(i as int, j as int).cave_water != DRY,
        g.col(i as int, j as int).ground0 - CAVE_DEPTH <= z <= g.col(i as int, j as int).cave_water,
        -BLOCK_LIMIT - CAVE_DEPTH <= top <= BLOCK_LIMIT,
    ensures
        final(out)@ == old(out)@ + pool_block(*g, i as int, j as int, z as int),
{
    let c: &ColCtx = g.at(i, j);
    let ghost before = out@;
    if !c.cave_flooded(z) {
        assert(before =~= before + pool_block(*g, i as int, j as int, z as int));
        return ;
    }
    let depth: i64 = if top > z {
        top - z
    } else {
        0
    };
    let below: i64 = c.cave_water - z;
    if !c.filled(z + 1) && !c.cave_flooded(z + 1) {
        out.push(Face { i, j, shape: Shape::PoolTop { z, depth, below, frozen: c.frozen } });
    }
    let ghost first = out@;
    let mut side: usize = 0;
    assert(out@ =~= first + pool_sides(*g, i as int, j as int, z as int, 0));
    while side < 4
        invariant
            side <= 4,
            g.wf(),
            in_chunk(i as int, j as int),
            *c == g.col(i as int, j as int),
            c.wf(),
            depth == pool_depth(*c, z as int),
            below == c.cave_water - z,
            out@ == first + pool_sides(*g, i as int, j as int, z as int, side as int),
        decreases 4 - side,
    {
        let nb: &ColCtx = g.neighbour(i, j, side);
        if z <= nb.ground && !nb.filled(z) && !nb.cave_flooded(z) {
            out.push(
                Face {
                    i,
                    j,
                    shape: Shape::PoolSide { side: side as u8, z, depth, below, frozen: c.frozen },
                },
            );
        }
        assert(out@ =~= first + pool_sides(*g, i as int, j as int, z as int, side as int + 1));
        side += 1;
    }
    assert(out@ =~= before + pool_block(*g, i as int, j as int, z as int));
}

fn push_pool(g: &Grid, i: i64, j: i64, out: &mut Vec<Face>)
    requires
        g.wf(),
        in_chunk(i as int, j as int),
    ensures
        final(out)@ == old(out)@ + flood_faces(*g, i as int, j as int),
{
    let c: &ColCtx = g.at(i, j);
    let ghost before = out@;
    if c.cave_water == DRY {
        assert(before =~= before + flood_faces(*g, i as int, j as int));
        return ;
    }
    let top: i64 = c.top_solid();
    let low: i64 = c.ground0 - CAVE_DEPTH;
    let mut z: i64 = low;
    assert(out@ =~= before + pool_faces(*g, i as int, j as int, low as int));
    while z <= c.cave_water
        invariant
            g.wf(),
            in_chunk(i as int, j as int),
            *c == g.col(i as int, j as int),
            c.wf(),
            c.cave_water != DRY,
            top == c.top(),
            -BLOCK_LIMIT - CAVE_DEPTH <= top <= BLOCK_LIMIT,
            low == c.ground0 - CAVE_DEPTH,
            low <= z,
            z <= c.cave_water + 1 || z == low,
            out@ == before + pool_faces(*g, i as int, j as int, z as int),
        decreases c.cave_water + 1 - z,
    {
        let ghost mid = out@;
        push_pool_block(g, i, j, z, top, out);
        z += 1;
        assert(out@ =~= before + pool_faces(*g, i as int, j as int, z as int));
    }
    assert(pool_faces(*g, i as int, j as int, z as int) =~= flood_faces(*g, i as int, j as int));
}

// ------------------------------------------------------------ whole columns

/// All faces of one column: tops and undersides, walls side by side, open
/// water, flooded caves.
pub open spec fn column_faces(g: Grid, joins: Seq<bool>, i: int, j: int) -> Seq<Face> {
    let surf = g.wears(i, j);
    let lo = g.mesh_floor(i, j);
    caps(g, i, j, surf, lo, g.col(i, j).ground + 1) + walls(g, i, j, 0, surf, lo) + walls(
        g,
        i,
        j,
        1,
        surf,
        lo,
    ) + walls(g, i, j, 2, surf, lo) + walls(g, i, j, 3, surf, lo) + water_faces(g, joins, i, j)
        + flood_faces(g, i, j)
}

/// The faces of the first `n` columns of a chunk, row by row.
pub open spec fn terrain_faces(g: Grid, joins: Seq<bool>, n: int) -> Seq<Face>
    decreases n,
{
    if n <= 0 {
        Seq::empty()
    } else {
        terrain_faces(g, joins, n - 1) + column_faces(g, joins, (n - 1) % 32, (n - 1) / 32)
    }
}

proof fn lemma_concat(
    before: Seq<Face>,
    a: Seq<Face>,
    b: Seq<Face>,
    c: Seq<Face>,
    d: Seq<Face>,
    e: Seq<Face>,
    f: Seq<Face>,
    h: Seq<Face>,
)
    ensures
        before + a + b + c + d + e + f + h == before + (a + b + c + d + e + f + h),
{
    assert(before + a + b + c + d + e + f + h =~= before + (a + b + c + d + e + f + h));
}

fn push_column(g: &Grid, joins: &Vec<bool>, i: i64, j: i64, out: &mut Vec<Face>)
    requires
        g.wf(),
        joins_ok(joins@),
        in_chunk(i as int, j as int),
    ensures
        final(out)@ == old(out)@ + column_faces(*g, joins@, i as int, j as int),
{
    let ghost before = out@;
    let surf: Mat = g.surface(i, j);
    let lo: i64 = g.floor(i, j);
    push_caps(g, i, j, surf, lo, out);
    push_walls(g, i, j, 0, surf, lo, out);
    push_walls(g, i, j, 1, surf, lo, out);
    push_walls(g, i, j, 2, surf, lo, out);
    push_walls(g, i, j, 3, surf, lo, out);
    push_water(g, joins, i, j, out);
    push_pool(g, i, j, out);
    proof {
        let (x, y, l) = (i as int, j as int, lo as int);
        lemma_concat(
            before,
            caps(*g, x, y, surf, l, g.col(x, y).ground + 1),
            walls(*g, x, y, 0, surf, l),
            walls(*g, x, y, 1, surf, l),
            walls(*g, x, y, 2, surf, l),
            walls(*g, x, y, 3, surf, l),
            water_faces(*g, joins@, x, y),
            flood_faces(*g, x, y),
        );
    }
}

/// The terrain and water faces of a chunk, column by column.
pub fn mesh_terrain(g: &Grid, joins: &Vec<bool>) -> (out: Vec<Face>)
    requires
        g.wf(),
        joins_ok(joins@),
    ensures
        out@ == terrain_faces(*g, joins@, EDGE * EDGE),
{
    let mut out: Vec<Face> = Vec::new();
    let mut k: i64 = 0;
    while k < EDGE * EDGE
        invariant
            0 <= k <= EDGE * EDGE,
            g.wf(),
            joins_ok(joins@),
            out@ == terrain_faces(*g, joins@, k as int),
        decreases EDGE * EDGE - k,
    {
        push_column(g, joins, k % 32, k / 32, &mut out);
        k += 1;
    }
    out
}

// ------------------------------------------------------------------- laws

/// A wall face covers block `z`.
pub open spec fn covers(f: Face, z: int) -> bool {
    f.shape matches Shape::Wall { lo, hi, .. } && lo <= z <= hi
}

/// The walls of a side cover exactly its exposed blocks from `lo` up, each by
/// a face of the block's own material.
pub proof fn walls_cover_exposed_blocks(
    g: Grid,
    i: int,
    j: int,
    side: int,
    surf: Mat,
    lo: int,
    z: int,
)
    requires
        g.col(i, j).wf(),
        -2 * BLOCK_LIMIT <= lo <= z <= g.col(i, j).ground,
    ensures
        match wall_mat(g, i, j, side, surf, z) {
            Some(m) => exists|k: int|
                0 <= k < walls(g, i, j, side, surf, lo).len() && covers(
                    #[trigger] walls(g, i, j, side, surf, lo)[k],
                    z,
                ) && walls(g, i, j, side, surf, lo)[k].shape->Wall_mat == m,
            None => forall|k: int|
                0 <= k < walls(g, i, j, side, surf, lo).len() ==> !covers(
                    #[trigger] walls(g, i, j, side, surf, lo)[k],
                    z,
                ),
        },
    decreases g.col(i, j).ground + 1 - lo,
{
    let all = walls(g, i, j, side, surf, lo);
    match wall_mat(g, i, j, side, surf, lo) {
        None => {
            assert(all == walls(g, i, j, side, surf, lo + 1));
            if z > lo {
                walls_cover_exposed_blocks(g, i, j, side, surf, lo + 1, z);
            } else {
                lemma_walls_start(g, i, j, side, surf, lo + 1);
            }
        },
        Some(mat) => {
            let e = run_end(g, i, j, side, surf, mat, lo);
            lemma_run_end(g, i, j, side, surf, mat, lo);
            let rest = walls(g, i, j, side, surf, e + 1);
            lemma_walls_start(g, i, j, side, surf, e + 1);
            assert(all == seq![wall_face(g, i, j, side, lo, e, mat)] + rest);
            assert(all[0] == wall_face(g, i, j, side, lo, e, mat));
            if z <= e {
                assert(wall_mat(g, i, j, side, surf, z) == Some(mat));
                assert(covers(all[0], z));
            } else {
                walls_cover_exposed_blocks(g, i, j, side, surf, e + 1, z);
                match wall_mat(g, i, j, side, surf, z) {
                    Some(m) => {
                        let k = choose|k: int|
                            0 <= k < rest.len() && covers(#[trigger] rest[k], z)
                                && rest[k].shape->Wall_mat == m;
                        assert(all[k + 1] == rest[k]);
                    },
                    None => {
                        assert forall|k: int| 0 <= k < all.len() implies !covers(
                            #[trigger] all[k],
                            z,
                        ) by {
                            if k > 0 {
                                assert(all[k] == rest[k - 1]);
                            }
                        }
                    },
                }
            }
        },
    }
}

proof fn lemma_walls_start(g: Grid, i: int, j: int, side: int, surf: Mat, lo: int)
    requires
        g.col(i, j).wf(),
        -2 * BLOCK_LIMIT <= lo,
    ensures
        forall|k: int, y: int|
            0 <= k < walls(g, i, j, side, surf, lo).len() && y < lo ==> !#[trigger] covers(
                walls(g, i, j, side, surf, lo)[k],
                y,
            ),
    decreases g.col(i, j).ground + 1 - lo,
{
    let all = walls(g, i, j, side, surf, lo);
    if lo <= g.col(i, j).ground {
        match wall_mat(g, i, j, side, surf, lo) {
            None => {
                lemma_walls_start(g, i, j, side, surf, lo + 1);
                assert(all == walls(g, i, j, side, surf, lo + 1));
            },
            Some(mat) => {
                let e = run_end(g, i, j, side, surf, mat, lo);
                lemma_run_end(g, i, j, side, surf, mat, lo);
                let rest = walls(g, i, j, side, surf, e + 1);
                lemma_walls_start(g, i, j, side, surf, e + 1);
                assert(all == seq![wall_face(g, i, j, side, lo, e, mat)] + rest);
                assert forall|k: int, y: int| 0 <= k < all.len() && y < lo implies !#[trigger] covers(
                    all[k],
                    y,
                ) by {
                    if k > 0 {
                        assert(all[k] == rest[k - 1]);
                    }
                }
            },
        }
    }
}

/// A face is the slope-lit top of block `z`.
pub open spec fn lit_top(f: Face, z: int) -> bool {
    f.shape matches Shape::Top { z: at, slope_lit, .. } && at == z && slope_lit
}

/// The ground is never see-through: the solid top of every column whose top lies in the meshed range is one
/// of its faces, lit with the slope.
pub proof fn walkable_top_is_drawn(g: Grid, joins: Seq<bool>, i: int, j: int)
    requires
        g.wf(),
        in_chunk(i, j),
        g.col(i, j).top() >= g.mesh_floor(i, j),
    ensures
        exists|k: int|
            0 <= k < column_faces(g, joins, i, j).len() && lit_top(
                #[trigger] column_faces(g, joins, i, j)[k],
                g.col(i, j).top(),
            ),
{
    let c = g.col(i, j);
    let surf = g.wears(i, j);
    let lo = g.mesh_floor(i, j);
    crate::column::top_is_highest_solid(c);
    let all = caps(g, i, j, surf, lo, c.ground + 1);
    assert(c.wf());
    lemma_cap_present(g, i, j, surf, lo, c.ground + 1, c.top());
    let k = choose|k: int|
        0 <= k < all.len() && lit_top(#[trigger] all[k], c.top());
    assert(column_faces(g, joins, i, j)[k] == all[k]);
}

proof fn lemma_cap_present(g: Grid, i: int, j: int, surf: Mat, lo: int, end: int, z: int)
    requires
        g.col(i, j).wf(),
        -2 * BLOCK_LIMIT <= lo <= z < end <= g.col(i, j).ground + 1,
        z == g.col(i, j).top(),
        g.col(i, j).solid_at(z),
        !g.col(i, j).solid_at(z + 1),
    ensures
        exists|k: int|
            0 <= k < caps(g, i, j, surf, lo, end).len() && lit_top(
                #[trigger] caps(g, i, j, surf, lo, end)[k],
                z,
            ),
    decreases end - lo,
{
    let all = caps(g, i, j, surf, lo, end);
    let rest = caps(g, i, j, surf, lo, end - 1);
    if z == end - 1 {
        let last = block_caps(g, i, j, surf, lo, z);
        assert(all[rest.len() as int] == last[0]);
    } else {
        lemma_cap_present(g, i, j, surf, lo, end - 1, z);
        let k = choose|k: int|
            0 <= k < rest.len() && lit_top(#[trigger] rest[k], z);
        assert(all[k] == rest[k]);
    }
}

/// Water across a side belongs to one column only: of two columns of the
/// chunk that share a side and both hold open water, at most one draws water
/// toward the other.
pub proof fn water_sides_do_not_face_each_other(
    g: Grid,
    joins: Seq<bool>,
    i: int,
    j: int,
    side: int,
)
    requires
        g.wf(),
        in_chunk(i, j),
        side == 0 || side == 2,
        in_chunk(i + side_offset(side).0, j + side_offset(side).1),
        g.col(i, j).wet(),
        g.beside(i, j, side).wet(),
    ensures
        ({
            let (di, dj) = side_offset(side);
            water_side(g, joins, i, j, side) is None || water_side(
                g,
                joins,
                i + di,
                j + dj,
                side + 1,
            ) is None
        }),
{
    let (di, dj) = side_offset(side);
    crate::column::drawn_water_meets_the_shore(g.col(i, j), g.ring(i, j));
    crate::column::drawn_water_meets_the_shore(
        g.col(i + di, j + dj),
        g.ring(i + di, j + dj),
    );
}

// ------------------------------------------------- what a chunk's mesh holds

proof fn lemma_caps_iff(g: Grid, i: int, j: int, surf: Mat, lo: int, end: int, f: Face)
    requires
        g.col(i, j).wf(),
        in_chunk(i, j),
        -2 * BLOCK_LIMIT <= lo <= end <= g.col(i, j).ground + 1,
    ensures
        caps(g, i, j, surf, lo, end).contains(f) <==> f.i == i && f.j == j && {
            let c = g.col(i, j);
            match f.shape {
                Shape::Top { z, mat, shade, depth, slope_lit, wet_sand } => {
                    &&& lo <= z < end && c.solid_at(z as int) && !c.solid_at(z + 1)
                    &&& mat == stratum(c, z as int, surf)
                    &&& shade == top_shade(g, i, j, z as int)
                    &&& depth == positive(c.top() - z) as i64
                    &&& slope_lit == (z == c.top())
                    &&& wet_sand == (c.lake_shoal && mat == Mat::Sand)
                },
                Shape::Under { z, mat, depth, wet_sand } => {
                    &&& lo < z < end && c.solid_at(z as int) && !c.solid_at(z - 1)
                    &&& mat == stratum(c, z as int, surf)
                    &&& depth == positive(c.top() - z) as i64
                    &&& wet_sand == (c.lake_shoal && mat == Mat::Sand)
                },
                _ => false,
            }
        },
    decreases end - lo,
{
    let all = caps(g, i, j, surf, lo, end);
    if lo < end {
        let z = end - 1;
        let rest = caps(g, i, j, surf, lo, z);
        let last = block_caps(g, i, j, surf, lo, z);
        lemma_caps_iff(g, i, j, surf, lo, z, f);
        lemma_contains_both(rest, last, f);
        assert(last.len() <= 2);
        if last.contains(f) {
            let k = choose|k: int| 0 <= k < last.len() && last[k] == f;
            assert(k == 0 || k == 1);
        }
        let c = g.col(i, j);
        if c.solid_at(z) && !c.solid_at(z + 1) {
            assert(last.contains(last[0]));
        }
        if c.solid_at(z) && z > lo && !c.solid_at(z - 1) {
            assert(last.contains(last[last.len() - 1]));
        }
    }
}

proof fn lemma_contains_both(a: Seq<Face>, b: Seq<Face>, f: Face)
    ensures
        (a + b).contains(f) <==> a.contains(f) || b.contains(f),
{
    let all = a + b;
    if all.contains(f) {
        let k = choose|k: int| 0 <= k < all.len() && all[k] == f;
        if k < a.len() {
            assert(a[k] == f);
        } else {
            assert(b[k - a.len()] == f);
        }
    }
    if a.contains(f) {
        let k = choose|k: int| 0 <= k < a.len() && a[k] == f;
        assert(all[k] == f);
    }
    if b.contains(f) {
        let k = choose|k: int| 0 <= k < b.len() && b[k] == f;
        assert(all[a.len() + k] == f);
    }
}

/// Block `z` of a column shows `mat` across a side: it is solid, the neighbour
/// there is not, and that is its material.
pub open spec fn shows_across(g: Grid, i: int, j: int, side: int, z: int, mat: Mat) -> bool {
    &&& z <= g.col(i, j).ground
    &&& g.col(i, j).solid_at(z) && !g.beside(i, j, side).solid_at(z)
    &&& stratum(g.col(i, j), z, g.wears(i, j)) == mat
}

/// `lo..=hi` is a longest run of blocks from `floor` up that show `mat`.
pub open spec fn is_run(g: Grid, i: int, j: int, side: int, floor: int, lo: int, hi: int, mat: Mat) -> bool {
    &&& floor <= lo <= hi
    &&& forall|z: int| lo <= z <= hi ==> #[trigger] shows_across(g, i, j, side, z, mat)
    &&& lo == floor || !shows_across(g, i, j, side, lo - 1, mat)
    &&& !shows_across(g, i, j, side, hi + 1, mat)
}

/// The walls of a side are its longest runs.
proof fn lemma_walls_are_runs(g: Grid, i: int, j: int, side: int, floor: int, lo: int, k: int)
    requires
        g.col(i, j).wf(),
        in_chunk(i, j),
        0 <= side < 4,
        -2 * BLOCK_LIMIT <= floor <= lo,
        0 <= k < walls(g, i, j, side, g.wears(i, j), lo).len(),
        lo == floor || forall|m: Mat|
            shows_across(g, i, j, side, lo - 1, m) ==> !#[trigger] shows_across(g, i, j, side, lo, m),
    ensures
        ({
            let f = walls(g, i, j, side, g.wears(i, j), lo)[k];
            &&& f.shape is Wall
            &&& lo <= f.shape->Wall_lo
            &&& is_run(
                g,
                i,
                j,
                side,
                floor,
                f.shape->Wall_lo as int,
                f.shape->Wall_hi as int,
                f.shape->Wall_mat,
            )
            &&& f == wall_face(
                g,
                i,
                j,
                side,
                f.shape->Wall_lo as int,
                f.shape->Wall_hi as int,
                f.shape->Wall_mat,
            )
        }),
    decreases g.col(i, j).ground + 1 - lo,
{
    let surf = g.wears(i, j);
    match wall_mat(g, i, j, side, surf, lo) {
        None => {
            assert(forall|m: Mat| !shows_across(g, i, j, side, lo, m));
            lemma_walls_are_runs(g, i, j, side, floor, lo + 1, k);
        },
        Some(mat) => {
            let e = run_end(g, i, j, side, surf, mat, lo);
            lemma_run_end(g, i, j, side, surf, mat, lo);
            let rest = walls(g, i, j, side, surf, e + 1);
            let all = walls(g, i, j, side, surf, lo);
            assert(all == seq![wall_face(g, i, j, side, lo, e, mat)] + rest);
            assert(forall|z: int| lo <= z <= e ==> wall_mat(g, i, j, side, surf, z) == Some(mat));
            assert forall|z: int| lo <= z <= e implies #[trigger] shows_across(g, i, j, side, z, mat) by {
                assert(wall_mat(g, i, j, side, surf, z) == Some(mat));
            }
            assert(!shows_across(g, i, j, side, e + 1, mat));
            if k == 0 {
                assert(all[0] == wall_face(g, i, j, side, lo, e, mat));
                if lo != floor {
                    assert(shows_across(g, i, j, side, lo, mat));
                }
            } else {
                assert(all[k] == rest[k - 1]);
                assert(shows_across(g, i, j, side, e, mat));
                assert forall|m: Mat| shows_across(g, i, j, side, e + 1 - 1, m) implies !#[trigger] shows_across(
                    g,
                    i,
                    j,
                    side,
                    e + 1,
                    m,
                ) by {}
                lemma_walls_are_runs(g, i, j, side, floor, e + 1, k - 1);
            }
        },
    }
}

proof fn lemma_walls_iff(g: Grid, i: int, j: int, side: int, floor: int, f: Face)
    requires
        g.col(i, j).wf(),
        in_chunk(i, j),
        0 <= side < 4,
        -2 * BLOCK_LIMIT <= floor <= g.col(i, j).ground,
    ensures
        walls(g, i, j, side, g.wears(i, j), floor).contains(f) <==> (f.shape matches Shape::Wall {
            lo,
            hi,
            mat,
            ..
        } && is_run(g, i, j, side, floor, lo as int, hi as int, mat) && f == wall_face(
            g,
            i,
            j,
            side,
            lo as int,
            hi as int,
            mat,
        )),
{
    let surf = g.wears(i, j);
    let all = walls(g, i, j, side, surf, floor);
    if all.contains(f) {
        let k = choose|k: int| 0 <= k < all.len() && all[k] == f;
        lemma_walls_are_runs(g, i, j, side, floor, floor, k);
    }
    if let Shape::Wall { lo, hi, mat, .. } = f.shape {
        let (l, h) = (lo as int, hi as int);
        if is_run(g, i, j, side, floor, l, h, mat) && f == wall_face(g, i, j, side, l, h, mat) {
            assert(shows_across(g, i, j, side, l, mat));
            assert(wall_mat(g, i, j, side, surf, l) == Some(mat));
            walls_cover_exposed_blocks(g, i, j, side, surf, floor, l);
            let k = choose|k: int|
                0 <= k < all.len() && covers(#[trigger] all[k], l) && all[k].shape->Wall_mat == mat;
            lemma_walls_are_runs(g, i, j, side, floor, floor, k);
            let (a, b) = (all[k].shape->Wall_lo as int, all[k].shape->Wall_hi as int);
            if a < l {
                assert(shows_across(g, i, j, side, l - 1, mat));
            }
            if b < h {
                assert(shows_across(g, i, j, side, b + 1, mat));
            }
            if h < b {
                assert(shows_across(g, i, j, side, h + 1, mat));
            }
            assert(all[k] == f);
        }
    }
}

proof fn lemma_water_sides_iff(g: Grid, joins: Seq<bool>, i: int, j: int, n: int, f: Face)
    requires
        0 <= n <= 4,
    ensures
        water_sides(g, joins, i, j, n).contains(f) <==> exists|s: int|
            0 <= s < n && #[trigger] water_side(g, joins, i, j, s) == Some(f),
    decreases n,
{
    if n > 0 {
        lemma_water_sides_iff(g, joins, i, j, n - 1, f);
        let rest = water_sides(g, joins, i, j, n - 1);
        let all = water_sides(g, joins, i, j, n);
        match water_side(g, joins, i, j, n - 1) {
            Some(x) => {
                assert(all == rest + seq![x]) by {
                    assert(all =~= rest + seq![x]);
                }
                lemma_contains_both(rest, seq![x], f);
                assert(seq![x].contains(f) <==> x == f) by {
                    assert(seq![x][0] == x);
                }
            },
            None => {},
        }
    }
}

proof fn lemma_pool_sides_iff(g: Grid, i: int, j: int, z: int, n: int, f: Face)
    requires
        0 <= n <= 4,
    ensures
        pool_sides(g, i, j, z, n).contains(f) <==> f.i == i as i64 && f.j == j as i64 && (f.shape
            matches Shape::PoolSide { side, z: at, depth, below, frozen } && side < n && at == z as i64
            && dry_passage(g.beside(i, j, side as int), z) && depth == pool_depth(g.col(i, j), z)
            && below == (g.col(i, j).cave_water - z) as i64 && frozen == g.col(i, j).frozen),
    decreases n,
{
    if n > 0 {
        lemma_pool_sides_iff(g, i, j, z, n - 1, f);
        let rest = pool_sides(g, i, j, z, n - 1);
        let all = pool_sides(g, i, j, z, n);
        if dry_passage(g.beside(i, j, n - 1), z) {
            let x = all[all.len() - 1];
            assert(all =~= rest + seq![x]);
            lemma_contains_both(rest, seq![x], f);
            assert(seq![x].contains(f) <==> x == f) by {
                assert(seq![x][0] == x);
            }
        }
    }
}

proof fn lemma_pool_iff(g: Grid, i: int, j: int, end: int, f: Face)
    requires
        g.col(i, j).wf(),
        in_chunk(i, j),
        end <= g.col(i, j).ground0 + 1,
    ensures
        pool_faces(g, i, j, end).contains(f) <==> f.i == i && f.j == j && {
            let c = g.col(i, j);
            match f.shape {
                Shape::PoolTop { z, depth, below, frozen } => {
                    &&& c.ground0 - 26 <= z < end && c.flooded_at(z as int)
                    &&& !c.solid_at(z + 1) && !c.flooded_at(z + 1)
                    &&& depth == pool_depth(c, z as int) && below == (c.cave_water - z) as i64
                    &&& frozen == c.frozen
                },
                Shape::PoolSide { side, z, depth, below, frozen } => {
                    &&& side < 4 && c.ground0 - 26 <= z < end && c.flooded_at(z as int)
                    &&& dry_passage(g.beside(i, j, side as int), z as int)
                    &&& depth == pool_depth(c, z as int) && below == (c.cave_water - z) as i64
                    &&& frozen == c.frozen
                },
                _ => false,
            }
        },
    decreases end - (g.col(i, j).ground0 - CAVE_DEPTH),
{
    let c = g.col(i, j);
    if end > c.ground0 - CAVE_DEPTH {
        let z = end - 1;
        lemma_pool_iff(g, i, j, z, f);
        let rest = pool_faces(g, i, j, z);
        let last = pool_block(g, i, j, z);
        lemma_contains_both(rest, last, f);
        if c.flooded_at(z) {
            let sides = pool_sides(g, i, j, z, 4);
            let first = if !c.solid_at(z + 1) && !c.flooded_at(z + 1) {
                seq![
                    Face {
                        i: i as i64,
                        j: j as i64,
                        shape: Shape::PoolTop {
                            z: z as i64,
                            depth: pool_depth(c, z),
                            below: (c.cave_water - z) as i64,
                            frozen: c.frozen,
                        },
                    },
                ]
            } else {
                Seq::empty()
            };
            assert(last == first + sides);
            lemma_contains_both(first, sides, f);
            lemma_pool_sides_iff(g, i, j, z, 4, f);
            if first.len() > 0 {
                assert(first.contains(first[0]));
            }
        }
    }
}

proof fn lemma_column_parts(g: Grid, joins: Seq<bool>, i: int, j: int, f: Face)
    ensures
        ({
            let surf = g.wears(i, j);
            let lo = g.mesh_floor(i, j);
            column_faces(g, joins, i, j).contains(f) <==> caps(
                g,
                i,
                j,
                surf,
                lo,
                g.col(i, j).ground + 1,
            ).contains(f) || walls(g, i, j, 0, surf, lo).contains(f) || walls(
                g,
                i,
                j,
                1,
                surf,
                lo,
            ).contains(f) || walls(g, i, j, 2, surf, lo).contains(f) || walls(
                g,
                i,
                j,
                3,
                surf,
                lo,
            ).contains(f) || water_faces(g, joins, i, j).contains(f) || flood_faces(g, i, j).contains(f)
        }),
{
    let surf = g.wears(i, j);
    let lo = g.mesh_floor(i, j);
    let c0 = caps(g, i, j, surf, lo, g.col(i, j).ground + 1);
    let (w0, w1, w2, w3) = (
        walls(g, i, j, 0, surf, lo),
        walls(g, i, j, 1, surf, lo),
        walls(g, i, j, 2, surf, lo),
        walls(g, i, j, 3, surf, lo),
    );
    let (wa, fl) = (water_faces(g, joins, i, j), flood_faces(g, i, j));
    lemma_contains_both(c0, w0, f);
    lemma_contains_both(c0 + w0, w1, f);
    lemma_contains_both(c0 + w0 + w1, w2, f);
    lemma_contains_both(c0 + w0 + w1 + w2, w3, f);
    lemma_contains_both(c0 + w0 + w1 + w2 + w3, wa, f);
    lemma_contains_both(c0 + w0 + w1 + w2 + w3 + wa, fl, f);
}

/// What the mesh of one column holds, part by part.
proof fn lemma_column_iff(g: Grid, joins: Seq<bool>, i: int, j: int, f: Face)
    requires
        g.wf(),
        in_chunk(i, j),
    ensures
        column_faces(g, joins, i, j).contains(f) ==> f.i == i && f.j == j,
        f.i == i && f.j == j ==> ({
            let c = g.col(i, j);
            let lo = g.mesh_floor(i, j);
            column_faces(g, joins, i, j).contains(f) <==> match f.shape {
                Shape::Top { .. } | Shape::Under { .. } => caps(
                    g,
                    i,
                    j,
                    g.wears(i, j),
                    lo,
                    c.ground + 1,
                ).contains(f),
                Shape::Wall { side, .. } => side < 4 && walls(
                    g,
                    i,
                    j,
                    side as int,
                    g.wears(i, j),
                    lo,
                ).contains(f),
                Shape::WaterTop { .. } => c.wet() && f == water_top_face(g, joins, i, j),
                Shape::WaterSide { side, .. } => c.wet() && side < 4 && water_side(
                    g,
                    joins,
                    i,
                    j,
                    side as int,
                ) == Some(f),
                Shape::PoolTop { .. } | Shape::PoolSide { .. } => c.cave_water != DRY && pool_faces(
                    g,
                    i,
                    j,
                    c.cave_water + 1,
                ).contains(f),
            }
        }),
{
    let c = g.col(i, j);
    let lo = g.mesh_floor(i, j);
    assert(c.wf());
    lemma_column_parts(g, joins, i, j, f);
    lemma_caps_iff(g, i, j, g.wears(i, j), lo, c.ground + 1, f);
    lemma_walls_iff(g, i, j, 0, lo, f);
    lemma_walls_iff(g, i, j, 1, lo, f);
    lemma_walls_iff(g, i, j, 2, lo, f);
    lemma_walls_iff(g, i, j, 3, lo, f);
    if c.cave_water != DRY {
        lemma_pool_iff(g, i, j, c.cave_water + 1, f);
    }
    lemma_water_sides_iff(g, joins, i, j, 4, f);
    let top = water_top_face(g, joins, i, j);
    lemma_contains_both(seq![top], water_sides(g, joins, i, j, 4), f);
    assert(seq![top].contains(f) <==> top == f) by {
        assert(seq![top][0] == top);
    }
    if let Shape::WaterSide { side, .. } = f.shape {
        if side < 4 && water_side(g, joins, i, j, side as int) == Some(f) {
            assert(water_sides(g, joins, i, j, 4).contains(f));
        }
    }
}

proof fn lemma_terrain_iff(g: Grid, joins: Seq<bool>, n: int, f: Face)
    requires
        g.wf(),
        0 <= n <= 1024,
    ensures
        terrain_faces(g, joins, n).contains(f) <==> in_chunk(f.i as int, f.j as int) && f.j * 32 + f.i < n
            && column_faces(g, joins, f.i as int, f.j as int).contains(f),
    decreases n,
{
    if n > 0 {
        let k = n - 1;
        let (i, j) = (k % 32, k / 32);
        lemma_terrain_iff(g, joins, k, f);
        lemma_contains_both(terrain_faces(g, joins, k), column_faces(g, joins, i, j), f);
        lemma_column_iff(g, joins, i, j, f);
        assert(0 <= i < 32 && 0 <= j < 32 && k == 32 * j + i);
    }
}

/// The mesh of a chunk is the meshes of its 32 by 32 columns, and a face lies
/// in its own column.
proof fn lemma_mesh(g: Grid, joins: Seq<bool>, f: Face)
    requires
        g.wf(),
    ensures
        terrain_faces(g, joins, EDGE * EDGE).contains(f) <==> in_chunk(f.i as int, f.j as int)
            && column_faces(g, joins, f.i as int, f.j as int).contains(f),
{
    lemma_terrain_iff(g, joins, 1024, f);
}

/// The open tops of a chunk are drawn, and nothing else as one: a block's top
/// is a face of the mesh exactly where the block is solid, the block over it is
/// not, and it lies in the meshed range of a column of the chunk. The face
/// shows the block's own material and how deep it lies below the column's
/// walkable top; that top itself shades with the slope, and sand of a shoal is
/// wet.
pub proof fn open_tops_are_drawn(g: Grid, joins: Seq<bool>, f: Face)
    requires
        g.wf(),
    ensures
        f.shape matches Shape::Top { z, mat, shade, depth, slope_lit, wet_sand } ==> (terrain_faces(
            g,
            joins,
            EDGE * EDGE,
        ).contains(f) <==> 0 <= f.i < 32 && 0 <= f.j < 32 && {
            let (i, j) = (f.i as int, f.j as int);
            let c = g.col(i, j);
            &&& g.mesh_floor(i, j) <= z <= c.ground
            &&& c.solid_at(z as int) && !c.solid_at(z + 1)
            &&& mat == stratum(c, z as int, g.wears(i, j))
            &&& z >= c.top() ==> depth == 0
            &&& z < c.top() ==> depth == c.top() - z
            &&& slope_lit <==> z == c.top()
            &&& wet_sand <==> c.lake_shoal && mat == Mat::Sand
            &&& shade == top_shade(g, i, j, z as int)
        }),
{
    lemma_mesh(g, joins, f);
    let (i, j) = (f.i as int, f.j as int);
    if in_chunk(i, j) {
        assert(g.col(i, j).wf());
        lemma_top_in_range(g.col(i, j));
        lemma_column_iff(g, joins, i, j, f);
        lemma_caps_iff(g, i, j, g.wears(i, j), g.mesh_floor(i, j), g.col(i, j).ground + 1, f);
    }
}

/// The undersides of a chunk are drawn: a block's bottom is a face exactly
/// where the block is solid and the block under it is a gap of the meshed
/// range.
pub proof fn cave_roofs_are_drawn(g: Grid, joins: Seq<bool>, f: Face)
    requires
        g.wf(),
    ensures
        f.shape matches Shape::Under { z, mat, depth, wet_sand } ==> (terrain_faces(
            g,
            joins,
            EDGE * EDGE,
        ).contains(f) <==> 0 <= f.i < 32 && 0 <= f.j < 32 && {
            let (i, j) = (f.i as int, f.j as int);
            let c = g.col(i, j);
            &&& g.mesh_floor(i, j) < z <= c.ground
            &&& c.solid_at(z as int) && !c.solid_at(z - 1)
            &&& mat == stratum(c, z as int, g.wears(i, j))
            &&& z >= c.top() ==> depth == 0
            &&& z < c.top() ==> depth == c.top() - z
            &&& wet_sand <==> c.lake_shoal && mat == Mat::Sand
        }),
{
    lemma_mesh(g, joins, f);
    let (i, j) = (f.i as int, f.j as int);
    if in_chunk(i, j) {
        assert(g.col(i, j).wf());
        lemma_top_in_range(g.col(i, j));
        lemma_column_iff(g, joins, i, j, f);
        lemma_caps_iff(g, i, j, g.wears(i, j), g.mesh_floor(i, j), g.col(i, j).ground + 1, f);
    }
}

/// The walls of a chunk are drawn, and nothing else as one: across each side
/// of each column, one face for every longest run of blocks of one material
/// that are solid and stand beside a gap or the open. Walls of an edited
/// column have no rise.
pub proof fn exposed_sides_are_drawn(g: Grid, joins: Seq<bool>, f: Face)
    requires
        g.wf(),
    ensures
        f.shape matches Shape::Wall { side, lo, hi, mat, shade, depth, rise } ==> (terrain_faces(
            g,
            joins,
            EDGE * EDGE,
        ).contains(f) <==> 0 <= f.i < 32 && 0 <= f.j < 32 && side < 4 && {
            let (i, j) = (f.i as int, f.j as int);
            let c = g.col(i, j);
            let nb = g.beside(i, j, side as int);
            let floor = g.mesh_floor(i, j);
            let shown = |z: int|
                z <= c.ground && c.solid_at(z) && !nb.solid_at(z) && stratum(c, z, g.wears(i, j)) == mat;
            &&& floor <= lo <= hi
            &&& forall|z: int| lo <= z <= hi ==> #[trigger] shown(z)
            &&& lo == floor || !shown(lo - 1)
            &&& !shown(hi + 1)
            &&& shade == wall_shade(g, i, j, side as int, lo as int, hi as int)
            &&& nb.top() > hi ==> depth == nb.top() - hi
            &&& nb.top() <= hi ==> depth == 0
            &&& rise is None <==> c.ground != c.ground0
            &&& rise matches Some(r) ==> r == (if c.top() > hi {
                c.top() - hi
            } else {
                0
            })
        }),
{
    lemma_mesh(g, joins, f);
    let (i, j) = (f.i as int, f.j as int);
    if let Shape::Wall { side, lo, hi, mat, .. } = f.shape {
        if in_chunk(i, j) && side < 4 {
            let s = side as int;
            let c = g.col(i, j);
            let nb = g.beside(i, j, s);
            let floor = g.mesh_floor(i, j);
            assert(c.wf() && nb.wf());
            lemma_column_iff(g, joins, i, j, f);
            lemma_walls_iff(g, i, j, s, floor, f);
            lemma_top_in_range(c);
            lemma_top_in_range(nb);
            let shown = |z: int|
                z <= c.ground && c.solid_at(z) && !nb.solid_at(z) && stratum(c, z, g.wears(i, j)) == mat;
            assert(forall|z: int| #[trigger] shown(z) == shows_across(g, i, j, s, z, mat));
            if is_run(g, i, j, s, floor, lo as int, hi as int, mat) {
                assert(shows_across(g, i, j, s, hi as int, mat));
                assert(forall|z: int| lo <= z <= hi ==> #[trigger] shown(z));
            }
            if floor <= lo <= hi && (forall|z: int| lo <= z <= hi ==> #[trigger] shown(z)) {
                assert(shown(hi as int));
                assert forall|z: int| lo <= z <= hi implies #[trigger] shows_across(
                    g,
                    i,
                    j,
                    s,
                    z,
                    mat,
                ) by {
                    assert(shown(z));
                }
            }
        } else if in_chunk(i, j) {
            lemma_column_iff(g, joins, i, j, f);
        }
    }
}

proof fn lemma_top_in_range(c: ColCtx)
    requires
        c.wf(),
    ensures
        -2 * BLOCK_LIMIT <= c.top() <= c.ground,
{
    crate::column::top_is_highest_solid(c);
    let z = c.ground0 - CAVE_DEPTH;
    if c.top() < z && c.top() < c.ground {
        let y = if z <= c.ground {
            z
        } else {
            c.ground as int
        };
        assert(c.solid_at(y));
    }
}

/// Every column of a chunk that holds open water shows it, liquid or frozen:
/// the mesh has exactly one water surface there, at the block that its water is
/// drawn at, frozen where the column is, dropping to the lower liquid across
/// each side. A column without open water shows none.
pub proof fn open_water_is_drawn(g: Grid, joins: Seq<bool>, f: Face)
    requires
        g.wf(),
    ensures
        f.shape matches Shape::WaterTop { w, frozen, drops, rim } ==> (terrain_faces(
            g,
            joins,
            EDGE * EDGE,
        ).contains(f) <==> 0 <= f.i < 32 && 0 <= f.j < 32 && {
            let (i, j) = (f.i as int, f.j as int);
            let c = g.col(i, j);
            &&& c.wet()
            &&& w == g.drawn_water(i, j)
            &&& frozen == c.frozen
            &&& drops.plus_i == liquid_drop(g, joins, i, j, 0)
            &&& drops.minus_i == liquid_drop(g, joins, i, j, 1)
            &&& drops.plus_j == liquid_drop(g, joins, i, j, 2)
            &&& drops.minus_j == liquid_drop(g, joins, i, j, 3)
            &&& rim <==> c.rim_flush_water && w == c.water
        }),
{
    lemma_mesh(g, joins, f);
    let (i, j) = (f.i as int, f.j as int);
    if in_chunk(i, j) {
        lemma_column_iff(g, joins, i, j, f);
        if g.col(i, j).wet() {
            lemma_drawn_range(g, i, j);
            lemma_drop_range(g, joins, i, j, 0);
            lemma_drop_range(g, joins, i, j, 1);
            lemma_drop_range(g, joins, i, j, 2);
            lemma_drop_range(g, joins, i, j, 3);
        }
    }
}

proof fn lemma_drawn_range(g: Grid, i: int, j: int)
    requires
        g.wf(),
        -1 <= i <= 32,
        -1 <= j <= 32,
        g.col(i, j).wet(),
    ensures
        -2 * BLOCK_LIMIT <= g.col(i, j).top() < g.drawn_water(i, j) <= g.col(i, j).water <= BLOCK_LIMIT,
{
    assert(g.col(i, j).wf());
    lemma_top_in_range(g.col(i, j));
    crate::column::drawn_water_meets_the_shore(g.col(i, j), g.ring(i, j));
}

proof fn lemma_drop_range(g: Grid, joins: Seq<bool>, i: int, j: int, side: int)
    requires
        g.wf(),
        in_chunk(i, j),
        0 <= side < 4,
        g.col(i, j).wet(),
    ensures
        0 <= liquid_drop(g, joins, i, j, side) <= 4 * BLOCK_LIMIT,
{
    let (di, dj) = side_offset(side);
    lemma_drawn_range(g, i, j);
    if g.beside(i, j, side).wet() {
        lemma_drawn_range(g, i + di, j + dj);
    }
}

/// Open water stands against its banks: across each side of a column that
/// holds open water, the mesh shows the water exactly where it is drawn above
/// what meets it there, which is the neighbour's drawn water or else its solid
/// top, unless the two are one lake plane. The face reaches from there, or from
/// the column's own bed where that is higher, up to the water.
pub proof fn water_stands_against_its_banks(g: Grid, joins: Seq<bool>, f: Face)
    requires
        g.wf(),
    ensures
        f.shape matches Shape::WaterSide { side, lo, hi, drop, frozen, rim } ==> (terrain_faces(
            g,
            joins,
            EDGE * EDGE,
        ).contains(f) <==> 0 <= f.i < 32 && 0 <= f.j < 32 && side < 4 && {
            let (i, j, s) = (f.i as int, f.j as int, side as int);
            let c = g.col(i, j);
            let nb = g.beside(i, j, s);
            let meets = if nb.wet() {
                g.drawn_water(i + side_offset(s).0, j + side_offset(s).1)
            } else {
                nb.top()
            };
            &&& c.wet()
            &&& hi == g.drawn_water(i, j)
            &&& meets < hi
            &&& !joined(g, joins, i, j, s)
            &&& lo >= meets && lo >= c.top() && (lo == meets || lo == c.top())
            &&& drop == liquid_drop(g, joins, i, j, s)
            &&& frozen == c.frozen
            &&& rim <==> c.rim_flush_water && hi == c.water
        }),
{
    lemma_mesh(g, joins, f);
    let (i, j) = (f.i as int, f.j as int);
    if let Shape::WaterSide { side, .. } = f.shape {
        if in_chunk(i, j) {
            lemma_column_iff(g, joins, i, j, f);
            if side < 4 && g.col(i, j).wet() {
                let s = side as int;
                let (di, dj) = side_offset(s);
                assert(g.beside(i, j, s).wf());
                lemma_top_in_range(g.beside(i, j, s));
                lemma_drawn_range(g, i, j);
                lemma_drop_range(g, joins, i, j, s);
                if g.beside(i, j, s).wet() {
                    lemma_drawn_range(g, i + di, j + dj);
                }
            }
        }
    }
}

/// Water drops to lower liquid beside it, by the difference of the two drawn
/// levels; not to or from ice, not to dry ground, not uphill, and not within
/// one lake plane.
pub proof fn liquid_drops_to_lower_liquid(g: Grid, joins: Seq<bool>, i: int, j: int, side: int)
    requires
        0 <= side < 4,
    ensures
        ({
            let c = g.col(i, j);
            let nb = g.beside(i, j, side);
            let w = g.drawn_water(i, j);
            let v = g.drawn_water(i + side_offset(side).0, j + side_offset(side).1);
            let one = c.rim_flush_water && nb.rim_flush_water && joins[(j * 32 + i) * 4 + side];
            &&& joined(g, joins, i, j, side) <==> one
            &&& c.frozen || nb.frozen || !nb.wet() || one || v >= w ==> liquid_drop(g, joins, i, j, side)
                == 0
            &&& !c.frozen && !nb.frozen && nb.wet() && !one && v < w ==> liquid_drop(
                g,
                joins,
                i,
                j,
                side,
            ) == w - v
        }),
{
}

/// Flooded caves show their free surfaces, and their sides into dry passages,
/// and nothing else: a pool's top is a face where the water lies under air,
/// its side where the passage across is neither solid nor flooded nor above
/// the ground there.
pub proof fn cave_pools_are_drawn(g: Grid, joins: Seq<bool>, f: Face)
    requires
        g.wf(),
    ensures
        f.shape matches Shape::PoolTop { z, depth, below, frozen } ==> (terrain_faces(
            g,
            joins,
            EDGE * EDGE,
        ).contains(f) <==> 0 <= f.i < 32 && 0 <= f.j < 32 && {
            let c = g.col(f.i as int, f.j as int);
            &&& c.ground0 - 26 <= z
            &&& c.flooded_at(z as int) && !c.solid_at(z + 1) && !c.flooded_at(z + 1)
            &&& depth == (if c.top() > z {
                c.top() - z
            } else {
                0
            })
            &&& below == c.cave_water - z
            &&& frozen == c.frozen
        }),
        f.shape matches Shape::PoolSide { side, z, depth, below, frozen } ==> (terrain_faces(
            g,
            joins,
            EDGE * EDGE,
        ).contains(f) <==> 0 <= f.i < 32 && 0 <= f.j < 32 && side < 4 && {
            let c = g.col(f.i as int, f.j as int);
            let nb = g.beside(f.i as int, f.j as int, side as int);
            &&& c.ground0 - 26 <= z
            &&& c.flooded_at(z as int)
            &&& z <= nb.ground && !nb.solid_at(z as int) && !nb.flooded_at(z as int)
            &&& depth == (if c.top() > z {
                c.top() - z
            } else {
                0
            })
            &&& below == c.cave_water - z
            &&& frozen == c.frozen
        }),
{
    lemma_mesh(g, joins, f);
    let (i, j) = (f.i as int, f.j as int);
    if in_chunk(i, j) {
        let c = g.col(i, j);
        assert(c.wf());
        lemma_top_in_range(c);
        lemma_column_iff(g, joins, i, j, f);
        if c.cave_water != DRY {
            lemma_pool_iff(g, i, j, c.cave_water + 1, f);
        }
    }
}

/// One if a block is solid, else none.
pub open spec fn count(solid: bool) -> int {
    if solid {
        1
    } else {
        0
    }
}

/// The shade of a corner with solid blocks around it: full where both blocks
/// beside it are solid, else as many as there are.
pub open spec fn is_shade(shade: u8, beside: bool, other: bool, diagonal: bool) -> bool {
    shade == (if beside && other {
        3
    } else {
        count(beside) + count(other) + count(diagonal)
    })
}

/// The corners of a top darken with the blocks one level above, toward each
/// corner: -i -j, +i -j, +i +j, -i +j.
pub proof fn tops_darken_beside_blocks(g: Grid, i: int, j: int, z: int)
    ensures
        ({
            let s = top_shade(g, i, j, z);
            let solid = |di: int, dj: int| g.col(i + di, j + dj).solid_at(z + 1);
            &&& is_shade(s.a, solid(-1, 0), solid(0, -1), solid(-1, -1))
            &&& is_shade(s.b, solid(1, 0), solid(0, -1), solid(1, -1))
            &&& is_shade(s.c, solid(1, 0), solid(0, 1), solid(1, 1))
            &&& is_shade(s.d, solid(-1, 0), solid(0, 1), solid(-1, 1))
        }),
{
}

/// The corners of a wall darken with the blocks in front of it: above its top
/// edge and below its foot in the column across, and beside those corners in
/// the two columns diagonal to it.
pub proof fn walls_darken_beside_blocks(g: Grid, i: int, j: int, side: int, lo: int, hi: int)
    requires
        0 <= side < 4,
    ensures
        ({
            let s = wall_shade(g, i, j, side, lo, hi);
            let (di, dj) = side_offset(side);
            let front = g.beside(i, j, side);
            // to the left and to the right as seen from outside
            let left = g.col(i + di + dj, j + dj - di);
            let right = g.col(i + di - dj, j + dj + di);
            &&& is_shade(s.a, front.solid_at(hi + 1), left.solid_at(hi), left.solid_at(hi + 1))
            &&& is_shade(s.b, front.solid_at(hi + 1), right.solid_at(hi), right.solid_at(hi + 1))
            &&& is_shade(s.c, front.solid_at(lo - 1), right.solid_at(lo), right.solid_at(lo - 1))
            &&& is_shade(s.d, front.solid_at(lo - 1), left.solid_at(lo), left.solid_at(lo - 1))
        }),
{
}

} // verus!
