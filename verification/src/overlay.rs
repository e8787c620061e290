//! Painting the popup over the frame: its meshes packed into one upload, the
//! buffers that hold them, and the part of the screen that each may touch.

use vstd::prelude::*;

verus! {

/// A mesh as it is packed: how many vertices it has and which of them make its
/// triangles.
pub struct OverlayMesh {
    pub vertices: u32,
    pub indices: Vec<u32>,
}

impl OverlayMesh {
    pub open spec fn wf(&self) -> bool {
        forall|k: int| 0 <= k < self.indices@.len() ==> #[trigger] self.indices@[k] < self.vertices
    }
}

/// Where a mesh lies in the packed index list.
#[derive(Clone, Copy, PartialEq, Eq, Structural, Debug)]
pub struct IndexRange {
    pub start: u32,
    pub end: u32,
}

/// The meshes packed together.
pub struct Packed {
    pub indices: Vec<u32>,
    pub ranges: Vec<IndexRange>,
}

/// Vertices of the first `n` meshes.
pub open spec fn vertices_before(meshes: Seq<OverlayMesh>, n: int) -> nat
    decreases n,
{
    if n <= 0 {
        0
    } else {
        vertices_before(meshes, n - 1) + meshes[n - 1].vertices as nat
    }
}

/// Indices of the first `n` meshes.
pub open spec fn indices_before(meshes: Seq<OverlayMesh>, n: int) -> nat
    decreases n,
{
    if n <= 0 {
        0
    } else {
        indices_before(meshes, n - 1) + meshes[n - 1].indices@.len()
    }
}

/// A mesh's indices, counted from the first vertex of the pack.
pub open spec fn shifted(m: OverlayMesh, base: int) -> Seq<u32> {
    Seq::new(m.indices@.len(), |k: int| (m.indices@[k] + base) as u32)
}

/// The packed indices of the first `n` meshes.
pub open spec fn packed(meshes: Seq<OverlayMesh>, n: int) -> Seq<u32>
    decreases n,
{
    if n <= 0 {
        Seq::empty()
    } else {
        packed(meshes, n - 1) + shifted(meshes[n - 1], vertices_before(meshes, n - 1) as int)
    }
}

proof fn lemma_grows(meshes: Seq<OverlayMesh>, n: int, m: int)
    requires
        0 <= n <= m,
    ensures
        vertices_before(meshes, n) <= vertices_before(meshes, m),
        indices_before(meshes, n) <= indices_before(meshes, m),
    decreases m,
{
    if n < m {
        lemma_grows(meshes, n, m - 1);
    }
}

proof fn lemma_packed_len(meshes: Seq<OverlayMesh>, n: int)
    ensures
        packed(meshes, n).len() == indices_before(meshes, n),
    decreases n,
{
    if n > 0 {
        lemma_packed_len(meshes, n - 1);
    }
}

/// The range of mesh `i` in the packed list.
pub open spec fn range_of(meshes: Seq<OverlayMesh>, i: int) -> IndexRange {
    IndexRange {
        start: indices_before(meshes, i) as u32,
        end: indices_before(meshes, i + 1) as u32,
    }
}

/// Pack the meshes into one index list. All of them together must be counted
/// in 32 bits.
pub fn pack(meshes: &Vec<OverlayMesh>) -> (out: Packed)
    requires
        forall|i: int| 0 <= i < meshes@.len() ==> (#[trigger] meshes@[i]).wf(),
        vertices_before(meshes@, meshes@.len() as int) <= u32::MAX,
        indices_before(meshes@, meshes@.len() as int) <= u32::MAX,
    ensures
        out.indices@ == packed(meshes@, meshes@.len() as int),
        out.ranges@ == Seq::new(meshes@.len(), |i: int| range_of(meshes@, i)),
{
    let mut indices: Vec<u32> = Vec::new();
    let mut ranges: Vec<IndexRange> = Vec::new();
    let mut base: u32 = 0;
    let mut i: usize = 0;
    while i < meshes.len()
        invariant
            i <= meshes@.len(),
            forall|k: int| 0 <= k < meshes@.len() ==> (#[trigger] meshes@[k]).wf(),
            vertices_before(meshes@, meshes@.len() as int) <= u32::MAX,
            indices_before(meshes@, meshes@.len() as int) <= u32::MAX,
            base == vertices_before(meshes@, i as int),
            indices@ == packed(meshes@, i as int),
            ranges@ =~= Seq::new(i as nat, |k: int| range_of(meshes@, k)),
        decreases meshes@.len() - i,
    {
        proof {
            lemma_grows(meshes@, i + 1, meshes@.len() as int);
            lemma_grows(meshes@, i as int, i + 1);
            lemma_packed_len(meshes@, i as int);
            lemma_packed_len(meshes@, i + 1);
            assert(meshes@[i as int].wf());
        }
        let m = &meshes[i];
        let start: u32 = indices.len() as u32;
        let ghost before = indices@;
        let mut k: usize = 0;
        while k < m.indices.len()
            invariant
                k <= m.indices@.len(),
                m.wf(),
                base + m.vertices <= u32::MAX,
                indices@ == before + shifted(*m, base as int).take(k as int),
            decreases m.indices@.len() - k,
        {
            assert(m.indices@[k as int] < m.vertices);
            indices.push(m.indices[k] + base);
            k += 1;
            assert(indices@ =~= before + shifted(*m, base as int).take(k as int));
        }
        assert(shifted(*m, base as int).take(k as int) =~= shifted(*m, base as int));
        ranges.push(IndexRange { start, end: indices.len() as u32 });
        base += m.vertices;
        i += 1;
    }
    Packed { indices, ranges }
}

/// The smallest buffer.
pub const LEAST_BUFFER: u64 = 65_536;

/// Twice `size` as often as it takes to hold `need`.
pub open spec fn doubled(size: int, need: int) -> int
    decreases
        (if size < need {
            need - size
        } else {
            0
        }),
{
    if size <= 0 || size >= need {
        size
    } else {
        doubled(2 * size, need)
    }
}

/// The size of a new buffer: a power of two that holds the bytes, and never
/// below the least.
pub fn buffer_size(need: u64) -> (r: u64)
    requires
        need <= 0x8000_0000_0000_0000,
    ensures
        r == doubled(LEAST_BUFFER as int, need as int),
        r >= need,
        r >= LEAST_BUFFER,
        r > LEAST_BUFFER ==> r < 2 * need,
{
    let mut size: u64 = LEAST_BUFFER;
    while size < need
        invariant
            LEAST_BUFFER <= size,
            need <= 0x8000_0000_0000_0000,
            doubled(size as int, need as int) == doubled(LEAST_BUFFER as int, need as int),
            size > LEAST_BUFFER ==> size < 2 * need,
        decreases
            (if size < need {
                need - size
            } else {
                0
            }),
    {
        size = 2 * size;
    }
    size
}

/// A buffer serves as long as it is large enough.
pub fn needs_buffer(have: Option<u64>, need: u64) -> (r: bool)
    ensures
        r == (have is None || have->0 < need),
{
    match have {
        None => true,
        Some(size) => size < need,
    }
}

/// A part of the screen, in pixels.
#[derive(Clone, Copy, PartialEq, Eq, Structural, Debug)]
pub struct Scissor {
    pub x: u32,
    pub y: u32,
    pub w: u32,
    pub h: u32,
}

/// The part of the screen between two corners, cut off at the screen's far
/// edges. Nothing where no pixel is left.
pub fn scissor(x0: u32, y0: u32, x1: u32, y1: u32, width: u32, height: u32) -> (r: Option<Scissor>)
    ensures
        ({
            let right = if x1 < width {
                x1
            } else {
                width
            };
            let bottom = if y1 < height {
                y1
            } else {
                height
            };
            r == (if x0 < right && y0 < bottom {
                Some(
                    Scissor { x: x0, y: y0, w: (right - x0) as u32, h: (bottom - y0) as u32 },
                )
            } else {
                None
            })
        }),
        r matches Some(s) ==> s.x + s.w <= width && s.y + s.h <= height,
{
    let right: u32 = if x1 < width {
        x1
    } else {
        width
    };
    let bottom: u32 = if y1 < height {
        y1
    } else {
        height
    };
    if right <= x0 || bottom <= y0 {
        None
    } else {
        Some(Scissor { x: x0, y: y0, w: right - x0, h: bottom - y0 })
    }
}

/// A mesh's triangles are its own range of the packed list, each number moved
/// past the vertices of the meshes before it.
pub proof fn meshes_keep_their_triangles(meshes: Seq<OverlayMesh>, n: int, i: int, k: int)
    requires
        0 <= i < n <= meshes.len(),
        0 <= k < meshes[i].indices@.len(),
        meshes[i].wf(),
        vertices_before(meshes, n) <= u32::MAX,
    ensures
        indices_before(meshes, i) + k < packed(meshes, n).len(),
        packed(meshes, n)[indices_before(meshes, i) + k] == vertices_before(meshes, i)
            + meshes[i].indices@[k],
        vertices_before(meshes, i) <= packed(meshes, n)[indices_before(meshes, i) + k]
            < vertices_before(meshes, i + 1),
    decreases n,
{
    lemma_packed_len(meshes, n);
    lemma_packed_len(meshes, n - 1);
    lemma_grows(meshes, i + 1, n);
    lemma_grows(meshes, i, n - 1);
    if i < n - 1 {
        meshes_keep_their_triangles(meshes, n - 1, i, k);
        lemma_grows(meshes, i + 1, n - 1);
    }
}

/// The pack counts every mesh before one, and each lies behind the last.
pub proof fn packs_count_their_meshes(meshes: Seq<OverlayMesh>, n: int)
    requires
        0 <= n < meshes.len(),
        indices_before(meshes, n + 1) <= u32::MAX,
    ensures
        vertices_before(meshes, 0) == 0,
        indices_before(meshes, 0) == 0,
        vertices_before(meshes, n + 1) == vertices_before(meshes, n) + meshes[n].vertices,
        indices_before(meshes, n + 1) == indices_before(meshes, n) + meshes[n].indices@.len(),
        range_of(meshes, n).start == indices_before(meshes, n),
        range_of(meshes, n).end - range_of(meshes, n).start == meshes[n].indices@.len(),
        packed(meshes, n + 1).len() == indices_before(meshes, n + 1),
{
    lemma_packed_len(meshes, n + 1);
}

/// A buffer grows by doubling, and no more often than it takes.
pub proof fn buffers_double_until_they_hold(size: int, need: int)
    requires
        size > 0,
    ensures
        size >= need ==> doubled(size, need) == size,
        size < need ==> doubled(size, need) == doubled(2 * size, need),
        doubled(size, need) >= need,
        doubled(size, need) > size ==> doubled(size, need) < 2 * need,
    decreases
        (if size < need {
            need - size
        } else {
            0
        }),
{
    if size < need {
        buffers_double_until_they_hold(2 * size, need);
    }
}

} // verus!
