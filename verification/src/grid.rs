//! The columns a chunk is meshed from: its own 32 x 32, and four more on every
//! side.

use vstd::prelude::*;
use crate::body::MainBlock;
use crate::column::{BLOCK_LIMIT, CAVE_DEPTH, ColCtx, render_top, water_render_top};
use crate::material::{Mat, lunar_surface, lunar_surface_mat, surface, surface_mat};
use crate::tree::abs_diff;

verus! {

/// Columns along one edge of a grid.
pub const GRID: i64 = 40;

/// Columns along one edge of a chunk, as a signed index.
pub const EDGE: i64 = 32;

/// Columns of margin on every side of a chunk.
pub const MARGIN: i64 = 4;

/// A chunk's columns with their margin, row by row.
pub struct Grid {
    pub cols: Vec<ColCtx>,
}

/// The four horizontal directions, in the order +i, -i, +j, -j.
pub open spec fn side_offset(side: int) -> (int, int) {
    if side == 0 {
        (1, 0)
    } else if side == 1 {
        (-1, 0)
    } else if side == 2 {
        (0, 1)
    } else {
        (0, -1)
    }
}

pub fn side_step(side: usize) -> (r: (i64, i64))
    requires
        side < 4,
    ensures
        (r.0 as int, r.1 as int) == side_offset(side as int),
{
    if side == 0 {
        (1, 0)
    } else if side == 1 {
        (-1, 0)
    } else if side == 2 {
        (0, 1)
    } else {
        (0, -1)
    }
}

/// A column index that lies on the grid, at least `r` columns from its edge.
pub open spec fn inside(i: int, r: int) -> bool {
    -MARGIN + r <= i < EDGE + MARGIN - r
}

impl Grid {
    /// Every column is well formed and carries a lunar family or a climate.
    pub open spec fn wf(self) -> bool {
        &&& self.cols@.len() == GRID * GRID
        &&& forall|k: int|
            0 <= k < GRID * GRID ==> (#[trigger] self.cols@[k]).wf() && (self.cols@[k].lunar is Some
                || self.cols@[k].climate is Some)
    }

    /// The column at chunk-relative indices.
    pub open spec fn col(self, i: int, j: int) -> ColCtx {
        self.cols@[(j + MARGIN) * GRID + (i + MARGIN)]
    }

    pub fn at(&self, i: i64, j: i64) -> (r: &ColCtx)
        requires
            self.wf(),
            inside(i as int, 0),
            inside(j as int, 0),
        ensures
            *r == self.col(i as int, j as int),
            r.wf(),
            r.lunar is Some || r.climate is Some,
    {
        let k: usize = ((j + MARGIN) * GRID + (i + MARGIN)) as usize;
        &self.cols[k]
    }

    /// The neighbour across one side.
    pub open spec fn beside(self, i: int, j: int, side: int) -> ColCtx {
        self.col(i + side_offset(side).0, j + side_offset(side).1)
    }

    pub fn neighbour(&self, i: i64, j: i64, side: usize) -> (r: &ColCtx)
        requires
            self.wf(),
            inside(i as int, 1),
            inside(j as int, 1),
            side < 4,
        ensures
            *r == self.beside(i as int, j as int, side as int),
            r.wf(),
    {
        let (di, dj): (i64, i64) = side_step(side);
        self.at(i + di, j + dj)
    }

    /// The largest natural height difference to a neighbour across the first
    /// `n` sides.
    pub open spec fn steepness(self, i: int, j: int, n: int) -> int
        decreases n,
    {
        if n <= 0 {
            0
        } else {
            let d = abs_diff(
                self.col(i, j).ground0 as int,
                self.beside(i, j, n - 1).ground0 as int,
            );
            let rest = self.steepness(i, j, n - 1);
            if d > rest {
                d
            } else {
                rest
            }
        }
    }

    /// The material a column wears: its lunar family, or its climate's block
    /// under water, slope and shore.
    pub open spec fn wears(self, i: int, j: int) -> Mat {
        let c = self.col(i, j);
        match c.lunar {
            Some(m) => lunar_surface(m),
            None => surface(c, self.steepness(i, j, 4), c.climate->0),
        }
    }

    /// Local steepness: the largest natural height difference to one of the
    /// four neighbours. Player towers are not cliffs.
    pub fn steep(&self, i: i64, j: i64) -> (r: i64)
        requires
            self.wf(),
            inside(i as int, 1),
            inside(j as int, 1),
        ensures
            r == self.steepness(i as int, j as int, 4),
            r >= 0,
    {
        let c: &ColCtx = self.at(i, j);
        let mut best: i64 = 0;
        let mut side: usize = 0;
        while side < 4
            invariant
                side <= 4,
                self.wf(),
                inside(i as int, 1),
                inside(j as int, 1),
                *c == self.col(i as int, j as int),
                c.wf(),
                best == self.steepness(i as int, j as int, side as int),
                best >= 0,
            decreases 4 - side,
        {
            let nb: &ColCtx = self.neighbour(i, j, side);
            let d: i64 = if c.ground0 >= nb.ground0 {
                c.ground0 - nb.ground0
            } else {
                nb.ground0 - c.ground0
            };
            if d > best {
                best = d;
            }
            side += 1;
        }
        best
    }

    pub fn surface(&self, i: i64, j: i64) -> (r: Mat)
        requires
            self.wf(),
            inside(i as int, 1),
            inside(j as int, 1),
        ensures
            r == self.wears(i as int, j as int),
    {
        let c: &ColCtx = self.at(i, j);
        match c.lunar {
            Some(m) => lunar_surface_mat(m),
            None => {
                let block: MainBlock = c.climate.unwrap();
                surface_mat(c, self.steep(i, j), block)
            },
        }
    }

    /// The lowest solid top across the first `n` sides, at least one.
    pub open spec fn lowest_top(self, i: int, j: int, n: int) -> int
        decreases n,
    {
        let t = self.beside(i, j, n - 1).top();
        if n <= 1 {
            t
        } else {
            let rest = self.lowest_top(i, j, n - 1);
            if t < rest {
                t
            } else {
                rest
            }
        }
    }

    /// The lowest block meshed in a column: the bottom of the cave band, or
    /// the foot of a cliff, but no more than 220 blocks below the ground.
    pub open spec fn mesh_floor(self, i: int, j: int) -> int {
        let c = self.col(i, j);
        let low = self.lowest_top(i, j, 4);
        let band = c.ground - CAVE_DEPTH;
        let deep = if low < band {
            low
        } else {
            band
        };
        if deep < c.ground - 220 {
            c.ground - 220
        } else {
            deep
        }
    }

    pub fn floor(&self, i: i64, j: i64) -> (r: i64)
        requires
            self.wf(),
            inside(i as int, 1),
            inside(j as int, 1),
        ensures
            r == self.mesh_floor(i as int, j as int),
            self.col(i as int, j as int).ground - 220 <= r <= self.col(i as int, j as int).ground
                - CAVE_DEPTH,
    {
        let c: &ColCtx = self.at(i, j);
        let mut low: i64 = self.neighbour(i, j, 0).top_solid();
        let mut side: usize = 1;
        while side < 4
            invariant
                1 <= side <= 4,
                self.wf(),
                inside(i as int, 1),
                inside(j as int, 1),
                low == self.lowest_top(i as int, j as int, side as int),
            decreases 4 - side,
        {
            let t: i64 = self.neighbour(i, j, side).top_solid();
            if t < low {
                low = t;
            }
            side += 1;
        }
        let band: i64 = c.ground - CAVE_DEPTH;
        let deep: i64 = if low < band {
            low
        } else {
            band
        };
        let least: i64 = c.ground - 220;
        if deep < least {
            least
        } else {
            deep
        }
    }

    /// The eight neighbours of a column, in the order the shoreline looks at
    /// them.
    pub open spec fn ring(self, i: int, j: int) -> Seq<ColCtx> {
        seq![
            self.col(i + 1, j),
            self.col(i - 1, j),
            self.col(i, j + 1),
            self.col(i, j - 1),
            self.col(i + 1, j + 1),
            self.col(i + 1, j - 1),
            self.col(i - 1, j + 1),
            self.col(i - 1, j - 1),
        ]
    }

    /// The drawn water top of a column.
    pub open spec fn drawn_water(self, i: int, j: int) -> int {
        render_top(self.col(i, j), self.ring(i, j))
    }

    pub fn water_top(&self, i: i64, j: i64) -> (r: i64)
        requires
            self.wf(),
            inside(i as int, 1),
            inside(j as int, 1),
        ensures
            r == self.drawn_water(i as int, j as int),
            self.col(i as int, j as int).water != crate::column::DRY ==> -BLOCK_LIMIT - CAVE_DEPTH <= r
                <= BLOCK_LIMIT + 1,
    {
        let nbs8: [ColCtx; 8] = [
            *self.at(i + 1, j),
            *self.at(i - 1, j),
            *self.at(i, j + 1),
            *self.at(i, j - 1),
            *self.at(i + 1, j + 1),
            *self.at(i + 1, j - 1),
            *self.at(i - 1, j + 1),
            *self.at(i - 1, j - 1),
        ];
        assert(nbs8@ =~= self.ring(i as int, j as int));
        water_render_top(self.at(i, j), &nbs8)
    }

    /// A column whose shading follows block heights rather than the smooth
    /// terrain: it or one of its four neighbours is edited or breached at the
    /// surface.
    pub open spec fn warped(self, i: int, j: int) -> bool {
        self.col(i, j).top() != self.col(i, j).ground0 || exists|side: int|
            0 <= side < 4 && (#[trigger] self.beside(i, j, side)).top() != self.beside(
                i,
                j,
                side,
            ).ground0
    }

    /// The block-height differences across a warped column, along both axes;
    /// `None` where the smooth terrain shades the top.
    pub fn block_slope(&self, i: i64, j: i64) -> (r: Option<(i64, i64)>)
        requires
            self.wf(),
            inside(i as int, 1),
            inside(j as int, 1),
        ensures
            r is Some == self.warped(i as int, j as int),
            r matches Some((di, dj)) ==> di == self.col(i + 1, j as int).top() - self.col(
                i - 1,
                j as int,
            ).top() && dj == self.col(i as int, j + 1).top() - self.col(i as int, j - 1).top(),
    {
        let c: &ColCtx = self.at(i, j);
        let mut warped: bool = c.top_solid() != c.ground0;
        let mut side: usize = 0;
        while side < 4
            invariant
                side <= 4,
                self.wf(),
                inside(i as int, 1),
                inside(j as int, 1),
                warped == (self.col(i as int, j as int).top() != self.col(i as int, j as int).ground0
                    || exists|s: int|
                    0 <= s < side && (#[trigger] self.beside(i as int, j as int, s)).top()
                        != self.beside(i as int, j as int, s).ground0),
            decreases 4 - side,
        {
            let nb: &ColCtx = self.neighbour(i, j, side);
            assert(*nb == self.beside(i as int, j as int, side as int));
            if nb.top_solid() != nb.ground0 {
                warped = true;
            }
            side += 1;
        }
        if warped {
            Some(
                (
                    self.at(i + 1, j).top_solid() - self.at(i - 1, j).top_solid(),
                    self.at(i, j + 1).top_solid() - self.at(i, j - 1).top_solid(),
                ),
            )
        } else {
            None
        }
    }
}

/// The four sides are the four neighbours: +i, -i, +j and -j.
pub proof fn sides_are_the_four_neighbours(g: Grid, i: int, j: int)
    ensures
        g.beside(i, j, 0) == g.col(i + 1, j),
        g.beside(i, j, 1) == g.col(i - 1, j),
        g.beside(i, j, 2) == g.col(i, j + 1),
        g.beside(i, j, 3) == g.col(i, j - 1),
        side_offset(0) == (1int, 0int) && side_offset(1) == (-1int, 0int),
        side_offset(2) == (0int, 1int) && side_offset(3) == (0int, -1int),
{
}

/// The columns of a grid are stored row by row, 40 to a row, from four before
/// the chunk's own first; each has a place of its own.
pub proof fn columns_have_their_own_places(g: Grid, i: int, j: int, x: int, y: int)
    requires
        -4 <= i < 36,
        -4 <= j < 36,
        -4 <= x < 36,
        -4 <= y < 36,
    ensures
        g.col(i, j) == g.cols@[40 * (j + 4) + (i + 4)],
        0 <= 40 * (j + 4) + (i + 4) < 1600,
        40 * (j + 4) + (i + 4) == 40 * (y + 4) + (x + 4) ==> i == x && j == y,
{
}

/// A column is as steep as the largest natural step to one of its four
/// neighbours.
pub proof fn steepness_is_the_largest_step(g: Grid, i: int, j: int, side: int)
    requires
        0 <= side < 4,
    ensures
        g.beside(i, j, side).ground0 - g.col(i, j).ground0 <= g.steepness(i, j, 4),
        g.col(i, j).ground0 - g.beside(i, j, side).ground0 <= g.steepness(i, j, 4),
        exists|s: int|
            0 <= s < 4 && (g.steepness(i, j, 4) == g.col(i, j).ground0 - (#[trigger] g.beside(
                i,
                j,
                s,
            )).ground0 || g.steepness(i, j, 4) == g.beside(i, j, s).ground0 - g.col(i, j).ground0),
{
    reveal_with_fuel(Grid::steepness, 5);
    let c = g.col(i, j).ground0 as int;
    let (a, b, d, e) = (
        g.beside(i, j, 0).ground0 as int,
        g.beside(i, j, 1).ground0 as int,
        g.beside(i, j, 2).ground0 as int,
        g.beside(i, j, 3).ground0 as int,
    );
    let r = g.steepness(i, j, 4);
    assert(r == abs_diff(c, a) || r == abs_diff(c, b) || r == abs_diff(c, d) || r == abs_diff(c, e));
}

/// A column is meshed down to the bottom of the cave band, 26 blocks below its
/// ground, and on to the foot of a lower neighbour, but never further than 220
/// blocks.
pub proof fn columns_are_meshed_to_their_foot(g: Grid, i: int, j: int, side: int)
    requires
        0 <= side < 4,
    ensures
        ({
            let c = g.col(i, j);
            let floor = g.mesh_floor(i, j);
            &&& c.ground - 220 <= floor <= c.ground - 26
            &&& floor <= g.beside(i, j, side).top() || floor == c.ground - 220
            &&& floor == c.ground - 26 || floor == c.ground - 220 || exists|s: int|
                0 <= s < 4 && floor == (#[trigger] g.beside(i, j, s)).top()
        }),
{
    reveal_with_fuel(Grid::lowest_top, 5);
    let low = g.lowest_top(i, j, 4);
    let (a, b, d, e) = (
        g.beside(i, j, 0).top(),
        g.beside(i, j, 1).top(),
        g.beside(i, j, 2).top(),
        g.beside(i, j, 3).top(),
    );
    assert(low == a || low == b || low == d || low == e);
}

/// The water of a column is drawn as high as the eight columns around it
/// allow: at its own level where it is frozen; otherwise no level above its
/// bed, and not above its own level or any dry neighbour's top, is above it,
/// and it is not above a dry neighbour's top itself, except just over its bed.
pub proof fn shores_hold_the_drawn_water(g: Grid, i: int, j: int, di: int, dj: int, level: int)
    requires
        g.col(i, j).wet(),
        -1 <= di <= 1,
        -1 <= dj <= 1,
        di != 0 || dj != 0,
    ensures
        ({
            let c = g.col(i, j);
            let w = g.drawn_water(i, j);
            &&& c.top() < w <= c.water
            &&& c.frozen ==> w == c.water
            &&& !c.frozen && !g.col(i + di, j + dj).wet() ==> w <= g.col(i + di, j + dj).top() || w
                == c.top() + 1
            &&& c.top() < level <= c.water && (forall|x: int, y: int|
                -1 <= x <= 1 && -1 <= y <= 1 && (x != 0 || y != 0) && !(#[trigger] g.col(
                    i + x,
                    j + y,
                )).wet() ==> level <= g.col(i + x, j + y).top()) ==> level <= w
        }),
{
    let c = g.col(i, j);
    let ring = g.ring(i, j);
    crate::column::drawn_water_meets_the_shore(c, ring);
    crate::column::water_is_drawn_as_high_as_its_shores_allow(c, ring, level);
    assert(ring[0] == g.col(i + 1, j) && ring[1] == g.col(i - 1, j));
    assert(ring[2] == g.col(i, j + 1) && ring[3] == g.col(i, j - 1));
    assert(ring[4] == g.col(i + 1, j + 1) && ring[5] == g.col(i + 1, j - 1));
    assert(ring[6] == g.col(i - 1, j + 1) && ring[7] == g.col(i - 1, j - 1));
    assert(exists|k: int| 0 <= k < 8 && #[trigger] ring[k] == g.col(i + di, j + dj)) by {
        if di == 1 && dj == 0 {
            assert(ring[0] == g.col(i + di, j + dj));
        } else if di == -1 && dj == 0 {
            assert(ring[1] == g.col(i + di, j + dj));
        } else if di == 0 && dj == 1 {
            assert(ring[2] == g.col(i + di, j + dj));
        } else if di == 0 && dj == -1 {
            assert(ring[3] == g.col(i + di, j + dj));
        } else if di == 1 && dj == 1 {
            assert(ring[4] == g.col(i + di, j + dj));
        } else if di == 1 && dj == -1 {
            assert(ring[5] == g.col(i + di, j + dj));
        } else if di == -1 && dj == 1 {
            assert(ring[6] == g.col(i + di, j + dj));
        } else {
            assert(ring[7] == g.col(i + di, j + dj));
        }
    }
    if c.top() < level <= c.water && forall|x: int, y: int|
        -1 <= x <= 1 && -1 <= y <= 1 && (x != 0 || y != 0) && !(#[trigger] g.col(i + x, j + y)).wet()
            ==> level <= g.col(i + x, j + y).top() {
        assert forall|k: int| 0 <= k < 8 && !(#[trigger] ring[k]).wet() implies level <= ring[k].top() by {
            let (x, y): (int, int) = if k == 0 {
                (1, 0)
            } else if k == 1 {
                (-1, 0)
            } else if k == 2 {
                (0, 1)
            } else if k == 3 {
                (0, -1)
            } else if k == 4 {
                (1, 1)
            } else if k == 5 {
                (1, -1)
            } else if k == 6 {
                (-1, 1)
            } else {
                (-1, -1)
            };
            assert(ring[k] == g.col(i + x, j + y));
        }
    }
}

/// A column wears its lunar family, or the surface that its climate, water,
/// slope and shore give it.
pub proof fn columns_wear_their_surface(g: Grid, i: int, j: int)
    ensures
        g.col(i, j).lunar matches Some(m) ==> g.wears(i, j) == lunar_surface(m),
        g.col(i, j).lunar is None ==> g.wears(i, j) == surface(
            g.col(i, j),
            g.steepness(i, j, 4),
            g.col(i, j).climate->0,
        ),
{
}

/// A column's shading is warped where its own top or a neighbour's is not the
/// natural ground, and nowhere else.
pub proof fn edits_warp_their_neighbourhood(g: Grid, i: int, j: int)
    ensures
        g.warped(i, j) <==> g.col(i, j).top() != g.col(i, j).ground0 || g.col(i + 1, j).top() != g.col(
            i + 1,
            j,
        ).ground0 || g.col(i - 1, j).top() != g.col(i - 1, j).ground0 || g.col(i, j + 1).top() != g.col(
            i,
            j + 1,
        ).ground0 || g.col(i, j - 1).top() != g.col(i, j - 1).ground0,
{
    assert(g.beside(i, j, 0) == g.col(i + 1, j) && g.beside(i, j, 1) == g.col(i - 1, j));
    assert(g.beside(i, j, 2) == g.col(i, j + 1) && g.beside(i, j, 3) == g.col(i, j - 1));
}

} // verus!
