//! The spatial index of rivers and lakes: a grid of buckets on every cube
//! face. Whatever influences a place is listed in that place's bucket.

use vstd::prelude::*;

verus! {

/// Buckets along one edge of a face.
pub const BUCKET_GRID: usize = 128;

/// Buckets of all six faces.
pub const BUCKETS: usize = 98_304;

/// The bucket at a place of a face.
pub open spec fn bucket(face: int, x: int, y: int) -> int {
    (face * BUCKET_GRID + y) * BUCKET_GRID + x
}

/// A rectangle of buckets on one face; empty where a low end exceeds a high
/// end.
#[derive(Clone, Copy)]
pub struct Rect {
    pub face: usize,
    pub x0: usize,
    pub x1: usize,
    pub y0: usize,
    pub y1: usize,
}

impl Rect {
    pub open spec fn wf(self) -> bool {
        self.face < 6 && self.x1 < BUCKET_GRID && self.y1 < BUCKET_GRID
    }

    /// Bucket `k` lies in the rectangle.
    pub open spec fn has(self, k: int) -> bool {
        &&& k / 16384 == self.face
        &&& self.y0 <= (k / 128) % 128 <= self.y1
        &&& self.x0 <= k % 128 <= self.x1
    }
}

/// Lists of numbers, one per bucket.
pub struct Buckets {
    pub lists: Vec<Vec<u32>>,
}

impl Buckets {
    pub open spec fn wf(self) -> bool {
        self.lists@.len() == BUCKETS
    }

    /// The numbers listed in a bucket.
    pub open spec fn at(self, k: int) -> Seq<u32> {
        self.lists@[k]@
    }

    /// An index of nothing.
    pub fn empty() -> (b: Self)
        ensures
            b.wf(),
            forall|k: int| 0 <= k < BUCKETS ==> (#[trigger] b.at(k)) == Seq::<u32>::empty(),
    {
        let mut lists: Vec<Vec<u32>> = Vec::new();
        let mut i: usize = 0;
        while i < BUCKETS
            invariant
                i <= BUCKETS,
                lists@.len() == i,
                forall|k: int| 0 <= k < i ==> (#[trigger] lists@[k])@ == Seq::<u32>::empty(),
            decreases BUCKETS - i,
        {
            lists.push(Vec::new());
            i += 1;
        }
        let b = Buckets { lists };
        assert forall|k: int| 0 <= k < BUCKETS implies (#[trigger] b.at(k)) == Seq::<u32>::empty() by {
            assert(b.lists@[k]@ == Seq::<u32>::empty());
        }
        b
    }

    fn push_at(&mut self, k: usize, id: u32)
        requires
            old(self).wf(),
            k < BUCKETS,
        ensures
            final(self).wf(),
            forall|j: int|
                0 <= j < BUCKETS ==> (#[trigger] final(self).at(j)) == (if j == k {
                    old(self).at(j).push(id)
                } else {
                    old(self).at(j)
                }),
    {
        self.lists[k].push(id);
    }

    /// List a number in every bucket of a rectangle.
    pub fn insert(&mut self, r: Rect, id: u32)
        requires
            old(self).wf(),
            r.wf(),
        ensures
            final(self).wf(),
            forall|k: int|
                0 <= k < BUCKETS ==> (#[trigger] final(self).at(k)) == (if r.has(k) {
                    old(self).at(k).push(id)
                } else {
                    old(self).at(k)
                }),
    {
        let ghost start = *self;
        let mut y: usize = r.y0;
        while y <= r.y1
            invariant
                r.wf(),
                self.wf(),
                r.y0 <= y,
                y <= r.y1 + 1 || y == r.y0,
                forall|k: int|
                    0 <= k < BUCKETS ==> (#[trigger] self.at(k)) == (if r.has(k) && (k / 128) % 128
                        < y {
                        start.at(k).push(id)
                    } else {
                        start.at(k)
                    }),
            decreases r.y1 + 1 - y,
        {
            let mut x: usize = r.x0;
            while x <= r.x1
                invariant
                    r.wf(),
                    self.wf(),
                    r.y0 <= y <= r.y1,
                    r.x0 <= x,
                    x <= r.x1 + 1 || x == r.x0,
                    forall|k: int|
                        0 <= k < BUCKETS ==> (#[trigger] self.at(k)) == (if r.has(k) && ((k / 128)
                            % 128 < y || ((k / 128) % 128 == y && k % 128 < x)) {
                            start.at(k).push(id)
                        } else {
                            start.at(k)
                        }),
                decreases r.x1 + 1 - x,
            {
                let ghost before = *self;
                let k: usize = (r.face * BUCKET_GRID + y) * BUCKET_GRID + x;
                self.push_at(k, id);
                proof {
                    assert(k / 16384 == r.face && (k / 128) % 128 == y && k % 128 == x);
                    assert forall|j: int| 0 <= j < BUCKETS implies (#[trigger] self.at(j)) == (if r.has(
                        j,
                    ) && ((j / 128) % 128 < y || ((j / 128) % 128 == y && j % 128 < x + 1)) {
                        start.at(j).push(id)
                    } else {
                        start.at(j)
                    }) by {
                        assert(before.at(j) == before.at(j));
                        if r.has(j) && (j / 128) % 128 == y && j % 128 == x {
                            assert(j == k);
                        }
                    }
                }
                x += 1;
            }
            assert forall|k: int| 0 <= k < BUCKETS implies (#[trigger] self.at(k)) == (if r.has(k)
                && (k / 128) % 128 < y + 1 {
                start.at(k).push(id)
            } else {
                start.at(k)
            }) by {
                if r.has(k) && (k / 128) % 128 == y {
                    assert(k % 128 < x);
                }
            }
            y += 1;
        }
    }

    /// The numbers listed at a place. Places past the far edges read the last
    /// bucket.
    pub fn lookup(&self, face: usize, x: usize, y: usize) -> (r: &Vec<u32>)
        requires
            self.wf(),
            face < 6,
        ensures
            r@ == self.at(
                bucket(
                    face as int,
                    if x < BUCKET_GRID {
                        x as int
                    } else {
                        BUCKET_GRID - 1
                    },
                    if y < BUCKET_GRID {
                        y as int
                    } else {
                        BUCKET_GRID - 1
                    },
                ),
            ),
    {
        let bx: usize = if x < BUCKET_GRID {
            x
        } else {
            BUCKET_GRID - 1
        };
        let by: usize = if y < BUCKET_GRID {
            y
        } else {
            BUCKET_GRID - 1
        };
        &self.lists[(face * BUCKET_GRID + by) * BUCKET_GRID + bx]
    }
}

/// A bucket's place is recovered from its number.
pub proof fn buckets_have_places(face: int, x: int, y: int)
    requires
        0 <= face < 6,
        0 <= x < BUCKET_GRID,
        0 <= y < BUCKET_GRID,
    ensures
        0 <= bucket(face, x, y) < BUCKETS,
        bucket(face, x, y) / 16384 == face,
        (bucket(face, x, y) / 128) % 128 == y,
        bucket(face, x, y) % 128 == x,
{
}

/// A rectangle lists its number in the buckets of its face, columns and rows,
/// and in no others.
pub proof fn rectangles_list_their_places(r: Rect, face: int, x: int, y: int)
    requires
        0 <= face < 6,
        0 <= x < 128,
        0 <= y < 128,
    ensures
        0 <= bucket(face, x, y) < 98_304,
        r.has(bucket(face, x, y)) <==> face == r.face && r.x0 <= x <= r.x1 && r.y0 <= y <= r.y1,
{
    buckets_have_places(face, x, y);
}

/// Different places have different buckets.
pub proof fn places_have_their_own_buckets(face: int, x: int, y: int, face2: int, x2: int, y2: int)
    requires
        0 <= face < 6,
        0 <= x < 128,
        0 <= y < 128,
        0 <= face2 < 6,
        0 <= x2 < 128,
        0 <= y2 < 128,
        bucket(face, x, y) == bucket(face2, x2, y2),
    ensures
        face == face2 && x == x2 && y == y2,
{
    buckets_have_places(face, x, y);
    buckets_have_places(face2, x2, y2);
}

} // verus!
