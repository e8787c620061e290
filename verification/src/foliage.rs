//! The trees and torches of a chunk, and the chunk mesh as a whole.

use vstd::prelude::*;
use crate::chunk::ChunkKey;
use crate::chunk_mesh::{Face, in_chunk, joins_ok, mesh_terrain, terrain_faces};
use crate::column::{BLOCK_LIMIT, ColCtx};
use crate::edits::ColumnKey;
use crate::grid::{EDGE, Grid, inside, side_offset, side_step};
use crate::material::Mat;
use crate::tree::{TreeCell, TreeKind, cells, rooted, tree_cells, tree_here};
use crate::tree::{tree_stays_within_canopy_radius, with_trunk};

verus! {

/// A block position in a chunk: column indices and block number.
pub type Cell = (i64, i64, i64);

/// The blocks that trees fill around a chunk. The view maps every filled
/// position to its material.
pub struct Foliage {
    blocks: Vec<(Cell, Mat)>,
}

spec fn filled_at(s: Seq<(Cell, Mat)>, p: Cell) -> bool {
    exists|k: int| 0 <= k < s.len() && #[trigger] s[k].0 == p
}

spec fn place_of(s: Seq<(Cell, Mat)>, p: Cell) -> int {
    choose|k: int| 0 <= k < s.len() && #[trigger] s[k].0 == p
}

spec fn block_map(s: Seq<(Cell, Mat)>) -> Map<Cell, Mat> {
    Map::new(|p: Cell| filled_at(s, p), |p: Cell| s[place_of(s, p)].1)
}

spec fn distinct(s: Seq<(Cell, Mat)>) -> bool {
    forall|a: int, b: int| 0 <= a < b < s.len() ==> (#[trigger] s[a]).0 != (#[trigger] s[b]).0
}

proof fn lemma_block(s: Seq<(Cell, Mat)>, k: int)
    requires
        distinct(s),
        0 <= k < s.len(),
    ensures
        block_map(s).contains_key(s[k].0),
        block_map(s)[s[k].0] == s[k].1,
{
    assert(s[k].0 == s[k].0);
    let p = place_of(s, s[k].0);
    assert(s[p].0 == s[k].0);
}

impl View for Foliage {
    type V = Map<Cell, Mat>;

    closed spec fn view(&self) -> Map<Cell, Mat> {
        block_map(self.blocks@)
    }
}

fn same_cell(a: Cell, b: Cell) -> (r: bool)
    ensures
        r == (a == b),
{
    a.0 == b.0 && a.1 == b.1 && a.2 == b.2
}

impl Foliage {
    #[verifier::type_invariant]
    spec fn no_repeats(self) -> bool {
        distinct(self.blocks@)
    }

    pub fn new() -> (r: Self)
        ensures
            r@ == Map::<Cell, Mat>::empty(),
    {
        let r = Foliage { blocks: Vec::new() };
        assert(r@ =~= Map::<Cell, Mat>::empty());
        r
    }

    fn find(&self, p: Cell) -> (r: Option<usize>)
        ensures
            match r {
                Some(k) => k < self.blocks@.len() && self.blocks@[k as int].0 == p,
                None => !filled_at(self.blocks@, p),
            },
    {
        let mut k: usize = 0;
        while k < self.blocks.len()
            invariant
                k <= self.blocks@.len(),
                forall|j: int| 0 <= j < k ==> (#[trigger] self.blocks@[j]).0 != p,
            decreases self.blocks@.len() - k,
        {
            if same_cell(self.blocks[k].0, p) {
                return Some(k);
            }
            k += 1;
        }
        None
    }

    /// Is a position filled by a tree?
    pub fn contains(&self, p: Cell) -> (r: bool)
        ensures
            r == self@.contains_key(p),
    {
        self.find(p).is_some()
    }

    /// Fill a position, replacing what an earlier tree put there.
    pub fn insert(&mut self, p: Cell, mat: Mat)
        ensures
            final(self)@ == old(self)@.insert(p, mat),
    {
        let at: Option<usize> = self.find(p);
        proof {
            use_type_invariant(&*self);
        }
        let ghost before = self.blocks@;
        let mut blocks: Vec<(Cell, Mat)> = Vec::new();
        std::mem::swap(&mut blocks, &mut self.blocks);
        match at {
            Some(k) => {
                blocks.set(k, (p, mat));
                proof {
                    let after = blocks@;
                    assert forall|q: Cell| filled_at(after, q) == filled_at(before, q) by {
                        if filled_at(before, q) {
                            assert(after[place_of(before, q)].0 == q);
                        }
                        if filled_at(after, q) {
                            assert(before[place_of(after, q)].0 == q);
                        }
                    }
                    assert(before[k as int].0 == p);
                    assert forall|q: Cell| filled_at(after, q) implies block_map(after)[q]
                        == block_map(before).insert(p, mat)[q] by {
                        let n = place_of(after, q);
                        lemma_block(after, n);
                        lemma_block(before, n);
                    }
                    assert(block_map(after) =~= block_map(before).insert(p, mat));
                }
            },
            None => {
                blocks.push((p, mat));
                proof {
                    let after = blocks@;
                    assert forall|q: Cell| filled_at(after, q) == (filled_at(before, q) || q == p) by {
                        if filled_at(before, q) {
                            assert(after[place_of(before, q)].0 == q);
                        }
                        if filled_at(after, q) && q != p {
                            assert(before[place_of(after, q)].0 == q);
                        }
                        assert(after[before.len() as int].0 == p);
                    }
                    assert forall|a: int, b: int| 0 <= a < b < after.len() implies (
                    #[trigger] after[a]).0 != (#[trigger] after[b]).0 by {
                        assert(after[a] == before[a]);
                    }
                    assert forall|q: Cell| filled_at(after, q) implies block_map(after)[q]
                        == block_map(before).insert(p, mat)[q] by {
                        let n = place_of(after, q);
                        lemma_block(after, n);
                        if n < before.len() {
                            lemma_block(before, n);
                            assert(before[n].0 == q);
                        }
                    }
                    assert(block_map(after) =~= block_map(before).insert(p, mat));
                }
            },
        }
        self.blocks = blocks;
    }
}

// ------------------------------------------------------------------ anchors

/// Trunks that can reach into a chunk stand within two columns of it: 36 x 36
/// places, row by row.
pub const ANCHORS: i64 = 36;

/// One place's draws: the trunk-height draw and the crown's random bits.
pub type Draw = (i64, u64);

pub open spec fn draws_ok(draws: Seq<Draw>) -> bool {
    draws.len() == ANCHORS * ANCHORS && forall|k: int|
        0 <= k < draws.len() ==> 0 <= (#[trigger] draws[k]).0 <= 2
}

pub open spec fn anchor(k: int) -> (int, int) {
    (k % 36 - 2, k / 36 - 2)
}

/// The eight columns whose relief decides whether a canopy stands.
pub open spec fn footprint(g: Grid, i: int, j: int) -> Seq<ColCtx> {
    seq![
        g.col(i + 2, j),
        g.col(i - 2, j),
        g.col(i, j + 2),
        g.col(i, j - 2),
        g.col(i + 1, j + 1),
        g.col(i - 1, j - 1),
        g.col(i + 1, j - 1),
        g.col(i - 1, j + 1),
    ]
}

/// The tree at a place, if one stands there.
pub open spec fn anchored(g: Grid, draws: Seq<Draw>, k: int) -> Option<(TreeKind, i64)> {
    let (i, j) = anchor(k);
    with_trunk(rooted(g.col(i, j), footprint(g, i, j)), draws[k].0 as int)
}

/// `m` with the first `n` blocks of a tree rooted at column (i, j) on block
/// `ground`; later blocks win.
pub open spec fn planted(
    m: Map<Cell, Mat>,
    i: int,
    j: int,
    ground: int,
    tree: Seq<TreeCell>,
    n: int,
) -> Map<Cell, Mat>
    decreases n,
{
    if n <= 0 {
        m
    } else {
        let c = tree[n - 1];
        planted(m, i, j, ground, tree, n - 1).insert(
            ((i + c.0) as i64, (j + c.1) as i64, (ground + c.2) as i64),
            c.3,
        )
    }
}

/// All blocks that the trees at the first `n` places fill.
pub open spec fn forest(g: Grid, draws: Seq<Draw>, n: int) -> Map<Cell, Mat>
    decreases n,
{
    if n <= 0 {
        Map::empty()
    } else {
        let m = forest(g, draws, n - 1);
        let (i, j) = anchor(n - 1);
        match anchored(g, draws, n - 1) {
            Some((kind, trunk)) => {
                let tree = cells(kind, trunk as int, draws[n - 1].1);
                planted(m, i, j, g.col(i, j).ground as int, tree, tree.len() as int)
            },
            None => m,
        }
    }
}

proof fn lemma_cell_height(kind: TreeKind, trunk: int, rnd: u64, k: int)
    requires
        0 <= trunk <= 8,
        0 <= k < cells(kind, trunk, rnd).len(),
    ensures
        ({
            let c = cells(kind, trunk, rnd)[k];
            -2 <= c.0 <= 2 && -2 <= c.1 <= 2 && -1 <= c.2 <= 10
        }),
{
    tree_stays_within_canopy_radius(kind, trunk, rnd, k);
}

/// Gather the blocks of every tree that can reach into the chunk.
pub fn plant_forest(g: &Grid, draws: &Vec<Draw>) -> (occ: Foliage)
    requires
        g.wf(),
        draws_ok(draws@),
    ensures
        occ@ == forest(*g, draws@, ANCHORS * ANCHORS),
{
    let mut occ: Foliage = Foliage::new();
    let mut k: i64 = 0;
    while k < ANCHORS * ANCHORS
        invariant
            0 <= k <= ANCHORS * ANCHORS,
            g.wf(),
            draws_ok(draws@),
            occ@ == forest(*g, draws@, k as int),
        decreases ANCHORS * ANCHORS - k,
    {
        let i: i64 = k % 36 - 2;
        let j: i64 = k / 36 - 2;
        let c: &ColCtx = g.at(i, j);
        let probes: [ColCtx; 8] = [
            *g.at(i + 2, j),
            *g.at(i - 2, j),
            *g.at(i, j + 2),
            *g.at(i, j - 2),
            *g.at(i + 1, j + 1),
            *g.at(i - 1, j - 1),
            *g.at(i + 1, j - 1),
            *g.at(i - 1, j + 1),
        ];
        assert(probes@ =~= footprint(*g, i as int, j as int));
        let draw: Draw = draws[k as usize];
        assert(anchor(k as int) == (i as int, j as int));
        if let Some((kind, trunk)) = tree_here(c, &probes, draw.0) {
            let tree: Vec<TreeCell> = tree_cells(kind, trunk, draw.1);
            let ghost base = occ@;
            let mut n: usize = 0;
            while n < tree.len()
                invariant
                    n <= tree@.len(),
                    c.wf(),
                    -2 <= i < 34,
                    -2 <= j < 34,
                    0 <= trunk <= 8,
                    tree@ == cells(kind, trunk as int, draw.1),
                    occ@ == planted(base, i as int, j as int, c.ground as int, tree@, n as int),
                decreases tree@.len() - n,
            {
                proof {
                    lemma_cell_height(kind, trunk as int, draw.1, n as int);
                }
                let (dx, dy, dz, mat): TreeCell = tree[n];
                occ.insert((i + dx, j + dy, c.ground + dz), mat);
                n += 1;
            }
        }
        k += 1;
    }
    occ
}

// -------------------------------------------------------------- leaf faces

/// One visible face of a tree block. Directions count up, down, then the four
/// sides.
#[derive(Clone, Copy, PartialEq, Eq, Structural, Debug)]
pub struct LeafFace {
    pub i: i64,
    pub j: i64,
    pub z: i64,
    pub mat: Mat,
    pub dir: u8,
}

/// The position a face looks at.
pub open spec fn facing(i: int, j: int, z: int, dir: int) -> (int, int, int) {
    if dir == 0 {
        (i, j, z + 1)
    } else if dir == 1 {
        (i, j, z - 1)
    } else {
        (i + side_offset(dir - 2).0, j + side_offset(dir - 2).1, z)
    }
}

/// A position that hides a tree face: another tree block, or solid ground.
pub open spec fn hides(g: Grid, m: Map<Cell, Mat>, i: int, j: int, z: int) -> bool {
    m.contains_key((i as i64, j as i64, z as i64)) || g.col(i, j).solid_at(z)
}

/// A tree face of the chunk is visible.
pub open spec fn leaf_visible(g: Grid, m: Map<Cell, Mat>, f: LeafFace) -> bool {
    let (i, j, z) = facing(f.i as int, f.j as int, f.z as int, f.dir as int);
    &&& in_chunk(f.i as int, f.j as int)
    &&& f.dir < 6
    &&& m.contains_key((f.i, f.j, f.z))
    &&& m[(f.i, f.j, f.z)] == f.mat
    &&& !hides(g, m, i, j, z)
}

/// Block numbers of trees stay clear of the ends of the range.
pub open spec fn heights_ok(m: Map<Cell, Mat>) -> bool {
    forall|p: Cell| #[trigger] m.contains_key(p) ==> -2 * BLOCK_LIMIT < p.2 < 2 * BLOCK_LIMIT
}

spec fn handled(s: Seq<(Cell, Mat)>, k: int, d: int, f: LeafFace) -> bool {
    let p = place_of(s, (f.i, f.j, f.z));
    p < k || (p == k && f.dir < d)
}

/// Every visible face of every tree block inside the chunk, each once.
pub fn mesh_trees(g: &Grid, occ: &Foliage) -> (out: Vec<LeafFace>)
    requires
        g.wf(),
        heights_ok(occ@),
    ensures
        forall|f: LeafFace| #[trigger] out@.contains(f) <==> leaf_visible(*g, occ@, f),
        out@.no_duplicates(),
{
    proof {
        use_type_invariant(occ);
    }
    let mut out: Vec<LeafFace> = Vec::new();
    let ghost s = occ.blocks@;
    let ghost m = occ@;
    let mut k: usize = 0;
    while k < occ.blocks.len()
        invariant
            k <= s.len(),
            s == occ.blocks@,
            m == occ@,
            m == block_map(s),
            distinct(s),
            g.wf(),
            heights_ok(m),
            forall|f: LeafFace| #[trigger]
                out@.contains(f) <==> (leaf_visible(*g, m, f) && handled(s, k as int, 0, f)),
            out@.no_duplicates(),
        decreases s.len() - k,
    {
        let ((i, j, z), mat): (Cell, Mat) = occ.blocks[k];
        proof {
            lemma_block(s, k as int);
        }
        let within: bool = 0 <= i && i < EDGE && 0 <= j && j < EDGE;
        let mut d: u8 = 0;
        while d < 6
            invariant
                d <= 6,
                k < s.len(),
                s == occ.blocks@,
                m == occ@,
                m == block_map(s),
                distinct(s),
                g.wf(),
                heights_ok(m),
                s[k as int] == ((i, j, z), mat),
                m.contains_key((i, j, z)),
                m[(i, j, z)] == mat,
                within == in_chunk(i as int, j as int),
                forall|f: LeafFace| #[trigger]
                    out@.contains(f) <==> (leaf_visible(*g, m, f) && handled(
                        s,
                        k as int,
                        d as int,
                        f,
                    )),
                out@.no_duplicates(),
            decreases 6 - d,
        {
            let face: LeafFace = LeafFace { i, j, z, mat, dir: d };
            let mut shown: bool = false;
            if within {
                let (di, dj, dz): (i64, i64, i64) = if d == 0 {
                    (0, 0, 1)
                } else if d == 1 {
                    (0, 0, -1)
                } else {
                    let (a, b): (i64, i64) = side_step((d - 2) as usize);
                    (a, b, 0)
                };
                shown = !occ.contains((i + di, j + dj, z + dz)) && !g.at(i + di, j + dj).filled(
                    z + dz,
                );
            }
            let ghost before = out@;
            if shown {
                out.push(face);
            }
            proof {
                assert(place_of(s, (i, j, z)) == k) by {
                    let p = place_of(s, (i, j, z));
                    assert(s[k as int].0 == (i, j, z));
                    assert(s[p].0 == (i, j, z));
                }
                assert(shown == leaf_visible(*g, m, face));
                assert(!before.contains(face));
                assert forall|f: LeafFace| #[trigger] out@.contains(f) <==> (leaf_visible(*g, m, f)
                    && handled(s, k as int, d + 1, f)) by {
                    if before.contains(f) {
                        let n = choose|n: int| 0 <= n < before.len() && before[n] == f;
                        assert(out@[n] == f);
                    }
                    if shown {
                        assert(out@[before.len() as int] == face);
                    }
                    if out@.contains(f) && f != face {
                        let n = choose|n: int| 0 <= n < out@.len() && out@[n] == f;
                        assert(before[n] == f);
                    }
                    if leaf_visible(*g, m, f) && handled(s, k as int, d + 1, f) && !handled(
                        s,
                        k as int,
                        d as int,
                        f,
                    ) {
                        assert(s[place_of(s, (f.i, f.j, f.z))].0 == (f.i, f.j, f.z));
                        assert(f == face);
                    }
                }
                assert(out@.no_duplicates()) by {
                    if shown {
                        assert forall|a: int, b: int| 0 <= a < out@.len() && 0 <= b < out@.len() && a
                            != b implies out@[a] != out@[b] by {
                            if a == before.len() {
                                assert(before.contains(before[b]));
                            } else if b == before.len() {
                                assert(before.contains(before[a]));
                            }
                        }
                    }
                }
            }
            d += 1;
        }
        assert forall|f: LeafFace| #[trigger] out@.contains(f) <==> (leaf_visible(*g, m, f)
            && handled(s, k + 1, 0, f)) by {
            if leaf_visible(*g, m, f) {
                assert(f.dir < 6);
            }
        }
        k += 1;
    }
    assert forall|f: LeafFace| #[trigger] out@.contains(f) <==> leaf_visible(*g, m, f) by {
        if leaf_visible(*g, m, f) {
            assert(filled_at(s, (f.i, f.j, f.z)));
        }
    }
    out
}

// ------------------------------------------------------------------ torches

/// A torch standing on a column of the chunk.
#[derive(Clone, Copy, PartialEq, Eq, Structural, Debug)]
pub struct TorchFace {
    pub i: i64,
    pub j: i64,
    /// The block it stands on, ice included.
    pub top: i64,
}

pub open spec fn torch_here(g: Grid, key: ChunkKey, t: ColumnKey) -> Option<TorchFace> {
    let i = t.1 - key.cx * 32;
    let j = t.2 - key.cy * 32;
    if t.0 == key.face && in_chunk(i, j) {
        Some(TorchFace { i: i as i64, j: j as i64, top: g.col(i, j).walkable() as i64 })
    } else {
        None
    }
}

/// The torches of a chunk among the first `n` of a body's torches.
pub open spec fn torch_faces(g: Grid, key: ChunkKey, torches: Seq<ColumnKey>, n: int) -> Seq<
    TorchFace,
>
    decreases n,
{
    if n <= 0 {
        Seq::empty()
    } else {
        let rest = torch_faces(g, key, torches, n - 1);
        match torch_here(g, key, torches[n - 1]) {
            Some(f) => rest.push(f),
            None => rest,
        }
    }
}

/// The torches that stand in a chunk.
pub fn mesh_torches(g: &Grid, key: ChunkKey, torches: &Vec<ColumnKey>) -> (out: Vec<TorchFace>)
    requires
        g.wf(),
        key.cx <= u64::MAX / 64,
        key.cy <= u64::MAX / 64,
    ensures
        out@ == torch_faces(*g, key, torches@, torches@.len() as int),
{
    let mut out: Vec<TorchFace> = Vec::new();
    let base_i: u64 = key.cx * 32;
    let base_j: u64 = key.cy * 32;
    let mut n: usize = 0;
    while n < torches.len()
        invariant
            n <= torches@.len(),
            g.wf(),
            base_i == key.cx * 32,
            base_j == key.cy * 32,
            out@ == torch_faces(*g, key, torches@, n as int),
        decreases torches@.len() - n,
    {
        let (f, ci, cj): ColumnKey = torches[n];
        if f == key.face && base_i <= ci && base_j <= cj && ci - base_i < 32 && cj - base_j < 32 {
            let i: i64 = (ci - base_i) as i64;
            let j: i64 = (cj - base_j) as i64;
            out.push(TorchFace { i, j, top: g.at(i, j).walkable_top() });
        }
        n += 1;
    }
    out
}

// ------------------------------------------------------------- whole chunk

/// Everything a chunk is drawn from.
pub struct ChunkMesh {
    pub terrain: Vec<Face>,
    pub leaves: Vec<LeafFace>,
    pub torches: Vec<TorchFace>,
}

proof fn lemma_planted_heights(
    m: Map<Cell, Mat>,
    i: int,
    j: int,
    ground: int,
    tree: Seq<TreeCell>,
    n: int,
)
    requires
        heights_ok(m),
        0 <= n <= tree.len(),
        -BLOCK_LIMIT <= ground <= BLOCK_LIMIT,
        forall|k: int| 0 <= k < tree.len() ==> -1 <= (#[trigger] tree[k]).2 <= 10,
    ensures
        heights_ok(planted(m, i, j, ground, tree, n)),
    decreases n,
{
    if n > 0 {
        lemma_planted_heights(m, i, j, ground, tree, n - 1);
        assert(-1 <= tree[n - 1].2 <= 10);
    }
}

proof fn lemma_forest_heights(g: Grid, draws: Seq<Draw>, n: int)
    requires
        g.wf(),
        draws_ok(draws),
        n <= ANCHORS * ANCHORS,
    ensures
        heights_ok(forest(g, draws, n)),
    decreases n,
{
    if n > 0 {
        lemma_forest_heights(g, draws, n - 1);
        let (i, j) = anchor(n - 1);
        assert(g.col(i, j).wf());
        assert(0 <= draws[n - 1].0 <= 2);
        if let Some((kind, trunk)) = anchored(g, draws, n - 1) {
            let tree = cells(kind, trunk as int, draws[n - 1].1);
            assert forall|k: int| 0 <= k < tree.len() implies -1 <= (#[trigger] tree[k]).2 <= 10 by {
                lemma_cell_height(kind, trunk as int, draws[n - 1].1, k);
            }
            lemma_planted_heights(
                forest(g, draws, n - 1),
                i,
                j,
                g.col(i, j).ground as int,
                tree,
                tree.len() as int,
            );
        }
    }
}

/// Mesh one chunk: solid columns, water surfaces, trees and torches.
pub fn build_chunk(
    g: &Grid,
    joins: &Vec<bool>,
    draws: &Vec<Draw>,
    key: ChunkKey,
    torches: &Vec<ColumnKey>,
) -> (mesh: ChunkMesh)
    requires
        g.wf(),
        joins_ok(joins@),
        draws_ok(draws@),
        key.cx <= u64::MAX / 64,
        key.cy <= u64::MAX / 64,
    ensures
        mesh.terrain@ == terrain_faces(*g, joins@, EDGE * EDGE),
        forall|f: LeafFace| #[trigger]
            mesh.leaves@.contains(f) <==> leaf_visible(
                *g,
                forest(*g, draws@, ANCHORS * ANCHORS),
                f,
            ),
        mesh.leaves@.no_duplicates(),
        mesh.torches@ == torch_faces(*g, key, torches@, torches@.len() as int),
{
    let terrain: Vec<Face> = mesh_terrain(g, joins);
    let occ: Foliage = plant_forest(g, draws);
    proof {
        lemma_forest_heights(*g, draws@, ANCHORS * ANCHORS);
    }
    let leaves: Vec<LeafFace> = mesh_trees(g, &occ);
    let torches: Vec<TorchFace> = mesh_torches(g, key, torches);
    ChunkMesh { terrain, leaves, torches }
}

/// Bodies without a climate, such as the moon, grow nothing.
pub proof fn no_climate_no_trees(g: Grid, draws: Seq<Draw>, n: int)
    requires
        n <= ANCHORS * ANCHORS,
        forall|i: int, j: int|
            inside(i, 0) && inside(j, 0) ==> (#[trigger] g.col(i, j)).climate is None,
    ensures
        forest(g, draws, n) == Map::<Cell, Mat>::empty(),
    decreases n,
{
    if n > 0 {
        no_climate_no_trees(g, draws, n - 1);
        let (i, j) = anchor(n - 1);
        assert(g.col(i, j).climate is None);
    }
}

/// A tree at a place fills a position: one of its blocks lies there.
pub open spec fn reaches_to(g: Grid, draws: Seq<Draw>, k: int, p: Cell, mat: Mat) -> bool {
    anchored(g, draws, k) matches Some((kind, trunk)) && cells(kind, trunk as int, draws[k].1).contains(
        (
            (p.0 - anchor(k).0) as i64,
            (p.1 - anchor(k).1) as i64,
            (p.2 - g.col(anchor(k).0, anchor(k).1).ground) as i64,
            mat,
        ),
    )
}

proof fn lemma_planted_iff(
    m: Map<Cell, Mat>,
    i: int,
    j: int,
    ground: int,
    tree: Seq<TreeCell>,
    n: int,
    p: Cell,
)
    requires
        0 <= n <= tree.len(),
        -2 <= i < 34,
        -2 <= j < 34,
        -BLOCK_LIMIT <= ground <= BLOCK_LIMIT,
        forall|k: int|
            0 <= k < tree.len() ==> -2 <= (#[trigger] tree[k]).0 <= 2 && -2 <= tree[k].1 <= 2 && -1
                <= tree[k].2 <= 10,
    ensures
        planted(m, i, j, ground, tree, n).contains_key(p) <==> m.contains_key(p) || exists|k: int|
            0 <= k < n && (#[trigger] tree[k]).0 == p.0 - i && tree[k].1 == p.1 - j && tree[k].2 == p.2
                - ground,
        !m.contains_key(p) || planted(m, i, j, ground, tree, n)[p] != m[p] ==> planted(
            m,
            i,
            j,
            ground,
            tree,
            n,
        ).contains_key(p) ==> exists|k: int|
            0 <= k < n && (#[trigger] tree[k]).0 == p.0 - i && tree[k].1 == p.1 - j && tree[k].2 == p.2
                - ground && tree[k].3 == planted(m, i, j, ground, tree, n)[p],
    decreases n,
{
    if n > 0 {
        lemma_planted_iff(m, i, j, ground, tree, n - 1, p);
        let c = tree[n - 1];
        let q = ((i + c.0) as i64, (j + c.1) as i64, (ground + c.2) as i64);
        assert(-2 <= c.0 <= 2 && -2 <= c.1 <= 2 && -1 <= c.2 <= 10);
        assert(q.0 == i + c.0 && q.1 == j + c.1 && q.2 == ground + c.2);
        let before = planted(m, i, j, ground, tree, n - 1);
        let after = planted(m, i, j, ground, tree, n);
        assert(after == before.insert(q, c.3));
        if q == p {
            assert(tree[n - 1].0 == p.0 - i);
        } else {
            assert(p.0 != q.0 || p.1 != q.1 || p.2 != q.2);
            assert(before.contains_key(p) == after.contains_key(p));
            if before.contains_key(p) {
                assert(before[p] == after[p]);
            }
        }
    }
}

proof fn lemma_forest_iff(g: Grid, draws: Seq<Draw>, n: int, p: Cell)
    requires
        g.wf(),
        draws_ok(draws),
        0 <= n <= 1296,
    ensures
        forest(g, draws, n).contains_key(p) <==> exists|k: int, mat: Mat|
            0 <= k < n && #[trigger] reaches_to(g, draws, k, p, mat),
        forest(g, draws, n).contains_key(p) ==> exists|k: int|
            0 <= k < n && #[trigger] reaches_to(g, draws, k, p, forest(g, draws, n)[p]),
    decreases n,
{
    if n > 0 {
        let k = n - 1;
        lemma_forest_iff(g, draws, k, p);
        let m = forest(g, draws, k);
        let all = forest(g, draws, n);
        let (i, j) = anchor(k);
        let c = g.col(i, j);
        assert(c.wf());
        assert(0 <= draws[k].0 <= 2);
        if let Some((kind, trunk)) = anchored(g, draws, k) {
            let tree = cells(kind, trunk as int, draws[k].1);
            assert forall|x: int| 0 <= x < tree.len() implies -2 <= (#[trigger] tree[x]).0 <= 2 && -2
                <= tree[x].1 <= 2 && -1 <= tree[x].2 <= 10 by {
                lemma_cell_height(kind, trunk as int, draws[k].1, x);
            }
            lemma_planted_iff(m, i, j, c.ground as int, tree, tree.len() as int, p);
            if exists|x: int|
                0 <= x < tree.len() && (#[trigger] tree[x]).0 == p.0 - i && tree[x].1 == p.1 - j
                    && tree[x].2 == p.2 - c.ground {
                let x = choose|x: int|
                    0 <= x < tree.len() && (#[trigger] tree[x]).0 == p.0 - i && tree[x].1 == p.1 - j
                        && tree[x].2 == p.2 - c.ground;
                assert(tree.contains(tree[x]));
                assert(reaches_to(g, draws, k, p, tree[x].3));
            }
            if all.contains_key(p) {
                if m.contains_key(p) && m[p] == all[p] {
                    let h = choose|h: int| 0 <= h < k && #[trigger] reaches_to(g, draws, h, p, m[p]);
                    assert(reaches_to(g, draws, h, p, all[p]));
                } else {
                    let x = choose|x: int|
                        0 <= x < tree.len() && (#[trigger] tree[x]).0 == p.0 - i && tree[x].1 == p.1 - j
                            && tree[x].2 == p.2 - c.ground && tree[x].3 == all[p];
                    assert(tree.contains(tree[x]));
                    assert(reaches_to(g, draws, k, p, all[p]));
                }
            }
            if exists|mat: Mat| #[trigger] reaches_to(g, draws, k, p, mat) {
                let mat = choose|mat: Mat| #[trigger] reaches_to(g, draws, k, p, mat);
                let cell = (
                    (p.0 - i) as i64,
                    (p.1 - j) as i64,
                    (p.2 - c.ground) as i64,
                    mat,
                );
                let x = choose|x: int| 0 <= x < tree.len() && tree[x] == cell;
                lemma_same_offset(p.0, i, cell.0);
                lemma_same_offset(p.1, j, cell.1);
                lemma_same_offset(p.2, c.ground as int, cell.2);
                assert(tree[x].0 == p.0 - i);
            }
        } else {
            if all.contains_key(p) {
                let h = choose|h: int| 0 <= h < k && #[trigger] reaches_to(g, draws, h, p, m[p]);
                assert(reaches_to(g, draws, h, p, all[p]));
            }
        }
        assert forall|h: int, mat: Mat| 0 <= h < n && #[trigger] reaches_to(g, draws, h, p, mat) implies all.contains_key(
            p,
        ) by {
            if h == k {
                assert(exists|mm: Mat| #[trigger] reaches_to(g, draws, k, p, mm));
            }
        }
    }
}

/// A small offset is the difference that it was narrowed from.
proof fn lemma_same_offset(p: i64, base: int, d: i64)
    requires
        d == (p - base) as i64,
        -2 * BLOCK_LIMIT <= base <= 2 * BLOCK_LIMIT,
        -100 <= d <= 100,
    ensures
        d == p - base,
{
    let b = base as i64;
    assert(b == base);
    assert(d == p - b) by (bit_vector)
        requires
            d == (p - b) as i64,
            -0x2000_0000_0000_0000i64 <= b <= 0x2000_0000_0000_0000i64,
            -100 <= d <= 100,
    ;
}

/// The forest of a chunk is its trees: a position is filled exactly where a
/// block of some tree that stands within two columns of the chunk lies there,
/// with the material of such a block.
pub proof fn forests_are_their_trees(g: Grid, draws: Seq<Draw>, p: Cell)
    requires
        g.wf(),
        draws_ok(draws),
    ensures
        forest(g, draws, ANCHORS * ANCHORS).contains_key(p) <==> exists|k: int, mat: Mat|
            0 <= k < 1296 && #[trigger] reaches_to(g, draws, k, p, mat),
        forest(g, draws, ANCHORS * ANCHORS).contains_key(p) ==> exists|k: int|
            0 <= k < 1296 && #[trigger] reaches_to(
                g,
                draws,
                k,
                p,
                forest(g, draws, ANCHORS * ANCHORS)[p],
            ),
{
    lemma_forest_iff(g, draws, 1296, p);
}

/// Trees are looked for in every column of the chunk and within two columns
/// around it, each once.
pub proof fn every_column_near_a_chunk_is_looked_at(i: int, j: int, k: int)
    requires
        -2 <= i < 34,
        -2 <= j < 34,
    ensures
        0 <= 36 * (j + 2) + (i + 2) < 1296,
        anchor(36 * (j + 2) + (i + 2)) == (i, j),
        0 <= k < 1296 && anchor(k) == (i, j) ==> k == 36 * (j + 2) + (i + 2),
        0 <= k < 1296 ==> -2 <= anchor(k).0 < 34 && -2 <= anchor(k).1 < 34,
{
}

/// A tree stands at a place where its column and the eight columns two steps
/// around it say so, with the trunk of its species and draw.
pub proof fn anchored_trees_are_rooted(g: Grid, draws: Seq<Draw>, k: int, dx: int, dy: int)
    requires
        0 <= k < 1296,
        (dx == 0 && (dy == 2 || dy == -2)) || (dy == 0 && (dx == 2 || dx == -2)) || ((dx == 1 || dx == -1)
            && (dy == 1 || dy == -1)),
    ensures
        ({
            let (i, j) = (k % 36 - 2, k / 36 - 2);
            let c = g.col(i, j);
            let nb = g.col(i + dx, j + dy);
            &&& nb.carved || nb.ground0 > c.ground0 + 2 || nb.ground0 < c.ground0 - 2 ==> anchored(
                g,
                draws,
                k,
            ) is None
            &&& anchored(g, draws, k) matches Some((kind, trunk)) ==> crate::tree::stands(c) == Some(kind)
                && trunk == crate::tree::trunk_height(kind, draws[k].0 as int) as i64
            &&& crate::tree::stands(c) is Some && (forall|x: int, y: int|
                -2 <= x <= 2 && -2 <= y <= 2 ==> !(#[trigger] g.col(i + x, j + y)).carved && c.ground0 - 2
                    <= g.col(i + x, j + y).ground0 <= c.ground0 + 2) ==> anchored(g, draws, k) is Some
        }),
{
    let (i, j) = anchor(k);
    let c = g.col(i, j);
    let probes = footprint(g, i, j);
    let at: int = if dx == 2 {
        0
    } else if dx == -2 {
        1
    } else if dy == 2 {
        2
    } else if dy == -2 {
        3
    } else if dx == 1 && dy == 1 {
        4
    } else if dx == -1 && dy == -1 {
        5
    } else if dx == 1 {
        6
    } else {
        7
    };
    assert(probes[at] == g.col(i + dx, j + dy));
    crate::tree::trees_root_on_level_ground(c, probes, at, draws[k].0 as int);
    if forall|x: int, y: int|
        -2 <= x <= 2 && -2 <= y <= 2 ==> !(#[trigger] g.col(i + x, j + y)).carved && c.ground0 - 2
            <= g.col(i + x, j + y).ground0 <= c.ground0 + 2 {
        assert(!g.col(i + 2, j + 0).carved && !g.col(i + -2, j + 0).carved);
        assert(!g.col(i + 0, j + 2).carved && !g.col(i + 0, j + -2).carved);
        assert(!g.col(i + 1, j + 1).carved && !g.col(i + -1, j + -1).carved);
        assert(!g.col(i + 1, j + -1).carved && !g.col(i + -1, j + 1).carved);
        assert forall|x: int| 0 <= x < probes.len() implies !(#[trigger] probes[x]).carved && c.ground0
            - 2 <= probes[x].ground0 <= c.ground0 + 2 by {}
    }
}

/// A face of a tree block is drawn exactly where the block lies in the chunk
/// and the position it looks at, up, down or across one of the four sides, is
/// neither another tree block nor solid.
pub proof fn open_leaves_are_drawn(g: Grid, m: Map<Cell, Mat>, f: LeafFace)
    requires
        -2 * BLOCK_LIMIT < f.z < 2 * BLOCK_LIMIT,
    ensures
        ({
            let open = |di: int, dj: int, dz: int|
                !m.contains_key(((f.i + di) as i64, (f.j + dj) as i64, (f.z + dz) as i64)) && !g.col(
                    f.i + di,
                    f.j + dj,
                ).solid_at(f.z + dz);
            leaf_visible(g, m, f) <==> {
                &&& 0 <= f.i < 32 && 0 <= f.j < 32
                &&& m.contains_key((f.i, f.j, f.z)) && m[(f.i, f.j, f.z)] == f.mat
                &&& (f.dir == 0 && open(0, 0, 1)) || (f.dir == 1 && open(0, 0, -1)) || (f.dir == 2 && open(
                    1,
                    0,
                    0,
                )) || (f.dir == 3 && open(-1, 0, 0)) || (f.dir == 4 && open(0, 1, 0)) || (f.dir == 5
                    && open(0, -1, 0))
            }
        }),
{
}

proof fn lemma_torches_iff(g: Grid, key: ChunkKey, torches: Seq<ColumnKey>, n: int, f: TorchFace)
    requires
        0 <= n <= torches.len(),
    ensures
        torch_faces(g, key, torches, n).contains(f) <==> exists|k: int|
            0 <= k < n && #[trigger] torch_here(g, key, torches[k]) == Some(f),
    decreases n,
{
    if n > 0 {
        lemma_torches_iff(g, key, torches, n - 1, f);
        let rest = torch_faces(g, key, torches, n - 1);
        let all = torch_faces(g, key, torches, n);
        if let Some(x) = torch_here(g, key, torches[n - 1]) {
            crate::order::push_contains(rest, x);
        }
    }
}

/// The torches of a chunk stand on its columns: one on each column of the
/// chunk that the body's torches name, on the block that a player would stand
/// on, and none elsewhere.
pub proof fn torches_stand_on_their_columns(
    g: Grid,
    key: ChunkKey,
    torches: Seq<ColumnKey>,
    f: TorchFace,
)
    requires
        key.cx <= u64::MAX / 64,
        key.cy <= u64::MAX / 64,
    ensures
        torch_faces(g, key, torches, torches.len() as int).contains(f) <==> 0 <= f.i < 32 && 0 <= f.j < 32
            && f.top == g.col(f.i as int, f.j as int).walkable() as i64 && torches.contains(
            (key.face, (32 * key.cx + f.i) as u64, (32 * key.cy + f.j) as u64),
        ),
{
    let n = torches.len() as int;
    lemma_torches_iff(g, key, torches, n, f);
    let at = (key.face, (32 * key.cx + f.i) as u64, (32 * key.cy + f.j) as u64);
    if 0 <= f.i < 32 && 0 <= f.j < 32 && torches.contains(at) {
        let k = choose|k: int| 0 <= k < n && torches[k] == at;
        assert(torch_here(g, key, torches[k]) is Some);
        if f.top == g.col(f.i as int, f.j as int).walkable() as i64 {
            assert(torch_here(g, key, torches[k]) == Some(f));
        }
    }
    if torch_faces(g, key, torches, n).contains(f) {
        let k = choose|k: int| 0 <= k < n && #[trigger] torch_here(g, key, torches[k]) == Some(f);
        assert(torches[k] == at);
    }
}

} // verus!
