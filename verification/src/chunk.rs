//! Chunks of 32 x 32 columns: which chunk owns a column, and which chunks an
//! edit or a camera needs.

use vstd::prelude::*;
use crate::body::{BodyId, CHUNK, COLUMNS_PER_FACE, columns_per_face_for_body, spec_columns_per_face};
use crate::edits::ColumnKey;
use crate::order::{first_occurrences, first_occurrences_keep_the_set, push_contains};

verus! {

/// Columns of context a chunk carries on every side: canopies reach two
/// columns from the trunk, and every trunk probes relief two columns around
/// itself.
pub const TREE_MARGIN: i64 = 4;

/// The identity of a chunk.
#[derive(Clone, Copy, PartialEq, Eq, Structural, Hash, Debug)]
pub struct ChunkKey {
    pub body: BodyId,
    pub face: u8,
    pub cx: u64,
    pub cy: u64,
}

/// The chunk that owns a column.
pub open spec fn owner(body: BodyId, c: ColumnKey) -> ChunkKey {
    ChunkKey { body, face: c.0, cx: c.1 / CHUNK, cy: c.2 / CHUNK }
}

/// An extended lattice index lies on its own face.
pub open spec fn on_face(n: int, i: int, j: int) -> bool {
    0 <= i < n && 0 <= j < n
}

/// The column at an extended lattice index: itself where it lies on the face,
/// else `across`, the column of the neighbouring face that the same direction
/// meets.
pub open spec fn resolve(n: int, face: u8, i: int, j: int, across: ColumnKey) -> ColumnKey {
    if on_face(n, i, j) {
        (face, i as u64, j as u64)
    } else {
        across
    }
}

/// Canonical column of an extended index on a lattice of `columns_per_face`.
pub fn canonical_column_on_lattice(
    columns_per_face: u64,
    face: u8,
    i_ext: i64,
    j_ext: i64,
    across: ColumnKey,
) -> (r: ColumnKey)
    requires
        columns_per_face <= i64::MAX,
    ensures
        r == resolve(columns_per_face as int, face, i_ext as int, j_ext as int, across),
{
    let max: i64 = columns_per_face as i64;
    if 0 <= i_ext && i_ext < max && 0 <= j_ext && j_ext < max {
        (face, i_ext as u64, j_ext as u64)
    } else {
        across
    }
}

/// Canonical face and column for an extended index of Neisor's lattice.
pub fn canonical_column(face: u8, i_ext: i64, j_ext: i64, across: ColumnKey) -> (r: ColumnKey)
    ensures
        r == resolve(COLUMNS_PER_FACE as int, face, i_ext as int, j_ext as int, across),
{
    canonical_column_on_lattice(COLUMNS_PER_FACE, face, i_ext, j_ext, across)
}

/// Canonical face and column for an extended index of a body's lattice.
pub fn canonical_column_body(
    body: BodyId,
    face: u8,
    i_ext: i64,
    j_ext: i64,
    across: ColumnKey,
) -> (r: ColumnKey)
    ensures
        r == resolve(
            spec_columns_per_face(body) as int,
            face,
            i_ext as int,
            j_ext as int,
            across,
        ),
{
    canonical_column_on_lattice(columns_per_face_for_body(body), face, i_ext, j_ext, across)
}

/// Columns of another face that lie on the lattice.
pub open spec fn lies_across(n: int, face: u8, across: ColumnKey) -> bool {
    across.0 < 6 && across.0 != face && across.1 < n && across.2 < n
}

/// An index off its face resolves onto the neighbouring face, to the column
/// across, and resolving that column again gives it back, whatever is across
/// from it.
pub proof fn columns_across_resolve_once(
    n: int,
    face: u8,
    i: int,
    j: int,
    across: ColumnKey,
    beyond: ColumnKey,
)
    requires
        !on_face(n, i, j),
        lies_across(n, face, across),
    ensures
        ({
            let r = resolve(n, face, i, j, across);
            &&& r == across
            &&& r.0 < 6 && r.0 != face && r.1 < n && r.2 < n
            &&& resolve(n, r.0, r.1 as int, r.2 as int, beyond) == r
        }),
{
}

/// An index on its face resolves to itself, whatever is across.
pub proof fn columns_on_the_face_stay(n: int, face: u8, i: int, j: int, across: ColumnKey)
    requires
        on_face(n, i, j),
        n <= u64::MAX,
    ensures
        ({
            let r = resolve(n, face, i, j, across);
            r.0 == face && r.1 == i && r.2 == j
        }),
{
}

fn holds(keys: &Vec<ChunkKey>, key: ChunkKey) -> (r: bool)
    ensures
        r == keys@.contains(key),
{
    let mut i: usize = 0;
    while i < keys.len()
        invariant
            i <= keys@.len(),
            forall|j: int| 0 <= j < i ==> keys@[j] != key,
        decreases keys@.len() - i,
    {
        if keys[i] == key {
            return true;
        }
        i += 1;
    }
    false
}

fn push_new(keys: &mut Vec<ChunkKey>, key: ChunkKey, Ghost(seen): Ghost<Seq<ChunkKey>>)
    requires
        old(keys)@ == first_occurrences(seen),
    ensures
        final(keys)@ == first_occurrences(seen.push(key)),
{
    assert(seen.push(key).drop_last() =~= seen);
    if !holds(keys, key) {
        keys.push(key);
    }
}

/// The offset of the `d`-th place around a column, row by row.
pub open spec fn margin_offset(d: int) -> (int, int) {
    (d % 9 - 4, d / 9 - 4)
}

/// The chunk that owns the `d`-th place around a column.
pub open spec fn margin_owner(
    body: BodyId,
    face: u8,
    ci: u64,
    cj: u64,
    across: Seq<ColumnKey>,
    d: int,
) -> ChunkKey {
    let (di, dj) = margin_offset(d);
    owner(
        body,
        resolve(spec_columns_per_face(body) as int, face, ci + di, cj + dj, across[d]),
    )
}

/// The chunks of a column and of the places around it, in order, with
/// repetitions.
pub open spec fn observers(
    body: BodyId,
    face: u8,
    ci: u64,
    cj: u64,
    across: Seq<ColumnKey>,
    n: int,
) -> Seq<ChunkKey> {
    seq![owner(body, (face, ci, cj))] + Seq::new(
        n as nat,
        |d: int| margin_owner(body, face, ci, cj, across, d),
    )
}

/// A place around a column that lies beyond the face's edge.
pub open spec fn off_face(body: BodyId, ci: u64, cj: u64, d: int) -> bool {
    let (di, dj) = margin_offset(d);
    !on_face(spec_columns_per_face(body) as int, ci + di, cj + dj)
}

/// Chunks whose context can observe a Neisor column, and so need remeshing
/// when it is edited.
pub fn chunks_touching_column(face: u8, ci: u64, cj: u64, across: &Vec<ColumnKey>) -> (r: Vec<
    ChunkKey,
>)
    requires
        ci < i64::MAX - 4,
        cj < i64::MAX - 4,
        forall|d: int| 0 <= d < 81 && off_face(BodyId::Neisor, ci, cj, d) ==> d < across@.len(),
    ensures
        r@ == first_occurrences(observers(BodyId::Neisor, face, ci, cj, across@, 81)),
{
    chunks_touching_column_body(BodyId::Neisor, face, ci, cj, across)
}

/// Chunks whose context can observe a column, the column's own chunk first.
/// `across[d]` is the column of the neighbouring face at the `d`-th place
/// around the column; it is read only where that place lies off the face.
pub fn chunks_touching_column_body(
    body: BodyId,
    face: u8,
    ci: u64,
    cj: u64,
    across: &Vec<ColumnKey>,
) -> (r: Vec<ChunkKey>)
    requires
        ci < i64::MAX - 4,
        cj < i64::MAX - 4,
        forall|d: int| 0 <= d < 81 && off_face(body, ci, cj, d) ==> d < across@.len(),
    ensures
        r@ == first_occurrences(observers(body, face, ci, cj, across@, 81)),
{
    let n: u64 = columns_per_face_for_body(body);
    let mut out: Vec<ChunkKey> = Vec::new();
    let own: ChunkKey = ChunkKey { body, face, cx: ci / CHUNK, cy: cj / CHUNK };
    push_new(&mut out, own, Ghost(Seq::empty()));
    assert(Seq::<ChunkKey>::empty().push(own) =~= observers(body, face, ci, cj, across@, 0));
    let mut d: usize = 0;
    while d < 81
        invariant
            d <= 81,
            ci < i64::MAX - 4,
            cj < i64::MAX - 4,
            n == spec_columns_per_face(body),
            forall|d: int| 0 <= d < 81 && off_face(body, ci, cj, d) ==> d < across@.len(),
            out@ == first_occurrences(observers(body, face, ci, cj, across@, d as int)),
        decreases 81 - d,
    {
        let i: i64 = ci as i64 + ((d % 9) as i64 - 4);
        let j: i64 = cj as i64 + ((d / 9) as i64 - 4);
        let away: ColumnKey = if d < across.len() {
            across[d]
        } else {
            (0, 0, 0)
        };
        let (cf, ii, jj): ColumnKey = canonical_column_on_lattice(n, face, i, j, away);
        let key: ChunkKey = ChunkKey { body, face: cf, cx: ii / CHUNK, cy: jj / CHUNK };
        proof {
            assert(margin_offset(d as int) == (i - ci, j - cj));
            if d >= across@.len() {
                assert(!off_face(body, ci, cj, d as int));
            }
            assert(key == margin_owner(body, face, ci, cj, across@, d as int));
            assert(observers(body, face, ci, cj, across@, d as int).push(key) =~= observers(
                body,
                face,
                ci,
                cj,
                across@,
                d + 1,
            ));
        }
        push_new(&mut out, key, Ghost(observers(body, face, ci, cj, across@, d as int)));
        d += 1;
    }
    out
}

/// A chunk whose context grid, its columns and the margin around them, holds
/// a column of its own face.
pub open spec fn observes(key: ChunkKey, c: ColumnKey) -> bool {
    &&& key.face == c.0
    &&& key.cx * CHUNK - TREE_MARGIN <= c.1 < key.cx * CHUNK + CHUNK + TREE_MARGIN
    &&& key.cy * CHUNK - TREE_MARGIN <= c.2 < key.cy * CHUNK + CHUNK + TREE_MARGIN
}

/// Every chunk of the face whose context grid holds an edited column is
/// listed for remeshing, the column's own chunk first and no chunk twice.
pub proof fn every_observing_chunk_is_listed(
    body: BodyId,
    face: u8,
    ci: u64,
    cj: u64,
    across: Seq<ColumnKey>,
    key: ChunkKey,
)
    requires
        key.body == body,
        observes(key, (face, ci, cj)),
        key.cx * CHUNK + CHUNK <= spec_columns_per_face(body),
        key.cy * CHUNK + CHUNK <= spec_columns_per_face(body),
    ensures
        ({
            let r = first_occurrences(observers(body, face, ci, cj, across, 81));
            &&& r.contains(key)
            &&& r[0] == owner(body, (face, ci, cj))
            &&& r.no_duplicates()
        }),
{
    let all = observers(body, face, ci, cj, across, 81);
    first_occurrences_keep_the_set(all);
    assert(all[0] == owner(body, (face, ci, cj)));
    let lo_i = key.cx * CHUNK;
    let lo_j = key.cy * CHUNK;
    let i: int = if ci < lo_i {
        lo_i
    } else if ci > lo_i + 31 {
        lo_i + 31
    } else {
        ci as int
    };
    let j: int = if cj < lo_j {
        lo_j
    } else if cj > lo_j + 31 {
        lo_j + 31
    } else {
        cj as int
    };
    let d = (j - cj + 4) * 9 + (i - ci + 4);
    assert(d % 9 == i - ci + 4 && d / 9 == j - cj + 4) by {
        assert(0 <= i - ci + 4 < 9);
    }
    assert(margin_offset(d) == (i - ci, j - cj));
    assert(0 <= d < 81);
    assert(margin_owner(body, face, ci, cj, across, d) == key) by {
        assert(on_face(spec_columns_per_face(body) as int, i, j));
        assert((i as u64) / CHUNK == key.cx);
        assert((j as u64) / CHUNK == key.cy);
    }
    assert(all[d + 1] == key);
}

// ---------------------------------------------------------------- selection

/// A sampled ground point: the column it falls in and its squared distance
/// from the camera's ground point.
pub type ChunkSample = (ColumnKey, i64);

pub open spec fn sample_owners(body: BodyId, samples: Seq<ChunkSample>) -> Seq<ChunkKey> {
    samples.map_values(|s: ChunkSample| owner(body, s.0))
}

/// The distance at which a chunk was first sampled.
pub open spec fn first_distance(body: BodyId, samples: Seq<ChunkSample>, key: ChunkKey) -> i64
    decreases samples.len(),
{
    if samples.len() == 0 {
        0
    } else if sample_owners(body, samples.drop_last()).contains(key) {
        first_distance(body, samples.drop_last(), key)
    } else {
        samples.last().1
    }
}

proof fn lemma_owners_push(body: BodyId, samples: Seq<ChunkSample>, n: int)
    requires
        0 <= n < samples.len(),
    ensures
        sample_owners(body, samples.take(n + 1)) == sample_owners(body, samples.take(n)).push(
            owner(body, samples[n].0),
        ),
        samples.take(n + 1).drop_last() == samples.take(n),
{
    assert(samples.take(n + 1).drop_last() =~= samples.take(n));
    assert(sample_owners(body, samples.take(n + 1)) =~= sample_owners(body, samples.take(n)).push(
        owner(body, samples[n].0),
    ));
}

/// The chunks that a camera needs, nearest first: every chunk that some
/// sample falls in, once, in the order of the distance at which it was first
/// sampled. Samples come row by row over a disc on the tangent plane.
pub fn select_chunks(body: BodyId, samples: &Vec<ChunkSample>) -> (r: Vec<ChunkKey>)
    ensures
        r@.no_duplicates(),
        forall|key: ChunkKey| #[trigger] r@.contains(key) <==> sample_owners(body, samples@).contains(key),
        forall|a: int, b: int|
            0 <= a <= b < r@.len() ==> first_distance(body, samples@, #[trigger] r@[a])
                <= first_distance(body, samples@, #[trigger] r@[b]),
{
    let mut keys: Vec<ChunkKey> = Vec::new();
    let mut dist: Vec<i64> = Vec::new();
    let mut n: usize = 0;
    assert(sample_owners(body, samples@.take(0)) =~= Seq::<ChunkKey>::empty());
    while n < samples.len()
        invariant
            n <= samples@.len(),
            keys@.len() == dist@.len(),
            keys@.no_duplicates(),
            forall|key: ChunkKey| #[trigger]
                keys@.contains(key) <==> sample_owners(body, samples@.take(n as int)).contains(key),
            forall|a: int|
                0 <= a < keys@.len() ==> #[trigger] dist@[a] == first_distance(
                    body,
                    samples@.take(n as int),
                    keys@[a],
                ),
            forall|a: int, b: int| 0 <= a <= b < dist@.len() ==> dist@[a] <= dist@[b],
        decreases samples@.len() - n,
    {
        let (c, d): ChunkSample = samples[n];
        let key: ChunkKey = ChunkKey { body, face: c.0, cx: c.1 / CHUNK, cy: c.2 / CHUNK };
        proof {
            lemma_owners_push(body, samples@, n as int);
        }
        if !holds(&keys, key) {
            let mut p: usize = keys.len();
            while p > 0 && dist[p - 1] > d
                invariant
                    p <= dist@.len(),
                    forall|a: int| p <= a < dist@.len() ==> dist@[a] > d,
                    forall|a: int, b: int| 0 <= a <= b < dist@.len() ==> dist@[a] <= dist@[b],
                decreases p,
            {
                p -= 1;
            }
            let ghost keys0 = keys@;
            let ghost dist0 = dist@;
            keys.insert(p, key);
            dist.insert(p, d);
            proof {
                lemma_inserted(body, samples@, n as int, keys0, dist0, p as int, key, d, keys@, dist@);
            }
        } else {
            proof {
                lemma_kept(body, samples@, n as int, keys@, dist@, key);
            }
        }
        n += 1;
    }
    proof {
        assert(samples@.take(samples@.len() as int) =~= samples@);
        assert forall|a: int, b: int| 0 <= a <= b < keys@.len() implies first_distance(
            body,
            samples@,
            #[trigger] keys@[a],
        ) <= first_distance(body, samples@, #[trigger] keys@[b]) by {
            assert(dist@[a] <= dist@[b]);
        }
    }
    keys
}

proof fn lemma_kept(
    body: BodyId,
    samples: Seq<ChunkSample>,
    n: int,
    keys: Seq<ChunkKey>,
    dist: Seq<i64>,
    key: ChunkKey,
)
    requires
        0 <= n < samples.len(),
        key == owner(body, samples[n].0),
        keys.contains(key),
        keys.len() == dist.len(),
        forall|k: ChunkKey| #[trigger]
            keys.contains(k) <==> sample_owners(body, samples.take(n)).contains(k),
        forall|a: int|
            0 <= a < keys.len() ==> #[trigger] dist[a] == first_distance(
                body,
                samples.take(n),
                keys[a],
            ),
    ensures
        forall|k: ChunkKey| #[trigger]
            keys.contains(k) <==> sample_owners(body, samples.take(n + 1)).contains(k),
        forall|a: int|
            0 <= a < keys.len() ==> #[trigger] dist[a] == first_distance(
                body,
                samples.take(n + 1),
                keys[a],
            ),
{
    lemma_owners_push(body, samples, n);
    let was = sample_owners(body, samples.take(n));
    let now = sample_owners(body, samples.take(n + 1));
    push_contains(was, key);
    assert forall|a: int| 0 <= a < keys.len() implies #[trigger] dist[a] == first_distance(
        body,
        samples.take(n + 1),
        keys[a],
    ) by {
        assert(keys.contains(keys[a]));
    }
}

proof fn lemma_inserted(
    body: BodyId,
    samples: Seq<ChunkSample>,
    n: int,
    keys0: Seq<ChunkKey>,
    dist0: Seq<i64>,
    p: int,
    key: ChunkKey,
    d: i64,
    keys: Seq<ChunkKey>,
    dist: Seq<i64>,
)
    requires
        0 <= n < samples.len(),
        key == owner(body, samples[n].0),
        d == samples[n].1,
        keys0.len() == dist0.len(),
        0 <= p <= keys0.len(),
        keys == keys0.insert(p, key),
        dist == dist0.insert(p, d),
        keys0.no_duplicates(),
        !keys0.contains(key),
        forall|k: ChunkKey| #[trigger]
            keys0.contains(k) <==> sample_owners(body, samples.take(n)).contains(k),
        forall|a: int|
            0 <= a < keys0.len() ==> #[trigger] dist0[a] == first_distance(
                body,
                samples.take(n),
                keys0[a],
            ),
        forall|a: int, b: int| 0 <= a <= b < dist0.len() ==> dist0[a] <= dist0[b],
        forall|a: int| p <= a < dist0.len() ==> dist0[a] > d,
        p > 0 ==> dist0[p - 1] <= d,
    ensures
        keys.len() == dist.len(),
        keys.no_duplicates(),
        forall|k: ChunkKey| #[trigger]
            keys.contains(k) <==> sample_owners(body, samples.take(n + 1)).contains(k),
        forall|a: int|
            0 <= a < keys.len() ==> #[trigger] dist[a] == first_distance(
                body,
                samples.take(n + 1),
                keys[a],
            ),
        forall|a: int, b: int| 0 <= a <= b < dist.len() ==> dist[a] <= dist[b],
{
    lemma_owners_push(body, samples, n);
    let was = sample_owners(body, samples.take(n));
    let now = sample_owners(body, samples.take(n + 1));
    push_contains(was, key);
    assert forall|k: ChunkKey| #[trigger] keys.contains(k) <==> now.contains(k) by {
        if keys.contains(k) && k != key {
            let i = choose|i: int| 0 <= i < keys.len() && keys[i] == k;
            let i0 = if i < p { i } else { i - 1 };
            assert(keys0[i0] == k);
            assert(keys0.contains(k));
        }
        if keys0.contains(k) {
            let i = choose|i: int| 0 <= i < keys0.len() && keys0[i] == k;
            let i1 = if i < p { i } else { i + 1 };
            assert(keys[i1] == k);
        }
        assert(keys[p] == key);
    }
    assert forall|a: int| 0 <= a < keys.len() implies #[trigger] dist[a] == first_distance(
        body,
        samples.take(n + 1),
        keys[a],
    ) by {
        if a == p {
            assert(!keys0.contains(key));
            assert(samples.take(n + 1).last() == samples[n]);
        } else {
            let a0 = if a < p { a } else { a - 1 };
            assert(dist[a] == dist0[a0]);
            assert(keys[a] == keys0[a0]);
            assert(keys0.contains(keys0[a0]));
        }
    }
    assert forall|a: int, b: int| 0 <= a < keys.len() && 0 <= b < keys.len() && a != b implies keys[a]
        != keys[b] by {
        let a0 = if a < p { a } else { a - 1 };
        let b0 = if b < p { b } else { b - 1 };
        if a != p {
            assert(keys[a] == keys0[a0]);
            assert(keys0.contains(keys0[a0]));
        }
        if b != p {
            assert(keys[b] == keys0[b0]);
            assert(keys0.contains(keys0[b0]));
        }
    }
    assert forall|a: int, b: int| 0 <= a <= b < dist.len() implies dist[a] <= dist[b] by {
        let a0 = if a < p { a } else { a - 1 };
        let b0 = if b < p { b } else { b - 1 };
        if a != p {
            assert(dist[a] == dist0[a0]);
        }
        if b != p {
            assert(dist[b] == dist0[b0]);
        }
        if b == p && a < p {
            assert(dist0[a] <= dist0[p - 1]);
        }
    }
}

/// A chunk owns the 32 by 32 columns of its place, and each column has one
/// owner.
pub proof fn chunks_own_their_columns(body: BodyId, c: ColumnKey, key: ChunkKey)
    ensures
        owner(body, c) == key <==> key.body == body && key.face == c.0 && 32 * key.cx <= c.1 < 32 * key.cx
            + 32 && 32 * key.cy <= c.2 < 32 * key.cy + 32,
{
}

/// The places around a column are the nine by nine with it in the middle.
pub proof fn margins_reach_four_columns(di: int, dj: int, d: int)
    requires
        -4 <= di <= 4,
        -4 <= dj <= 4,
    ensures
        margin_offset(9 * (dj + 4) + (di + 4)) == (di, dj),
        0 <= d < 81 ==> -4 <= margin_offset(d).0 <= 4 && -4 <= margin_offset(d).1 <= 4,
{
}

/// A chunk owns the column `di` and `dj` away from an edited one: the column of
/// the same face, or the one across where that lies off the face.
pub open spec fn owns_near(
    key: ChunkKey,
    face: u8,
    ci: u64,
    cj: u64,
    across: ColumnKey,
    di: int,
    dj: int,
) -> bool {
    let n = spec_columns_per_face(key.body);
    if 0 <= ci + di < n && 0 <= cj + dj < n {
        key == owner(key.body, (face, (ci + di) as u64, (cj + dj) as u64))
    } else {
        key == owner(key.body, across)
    }
}

/// No chunk is remeshed for nothing: every listed chunk is the edited column's
/// own, or owns a column within four of it.
pub proof fn listed_chunks_touch_the_column(
    body: BodyId,
    face: u8,
    ci: u64,
    cj: u64,
    across: Seq<ColumnKey>,
    key: ChunkKey,
)
    requires
        first_occurrences(observers(body, face, ci, cj, across, 81)).contains(key),
    ensures
        key.body == body,
        key == owner(body, (face, ci, cj)) || exists|di: int, dj: int|
            -4 <= di <= 4 && -4 <= dj <= 4 && #[trigger] owns_near(
                key,
                face,
                ci,
                cj,
                across[9 * (dj + 4) + (di + 4)],
                di,
                dj,
            ),
{
    let all = observers(body, face, ci, cj, across, 81);
    first_occurrences_keep_the_set(all);
    let k = choose|k: int| 0 <= k < all.len() && all[k] == key;
    if k > 0 {
        let d = k - 1;
        let (di, dj) = margin_offset(d);
        assert(d == 9 * (dj + 4) + (di + 4));
        assert(margin_owner(body, face, ci, cj, across, d) == key);
        assert(owns_near(key, face, ci, cj, across[9 * (dj + 4) + (di + 4)], di, dj));
    }
}

/// A chunk is needed where some sample falls into it, at the distance of the
/// first such sample.
pub proof fn samples_need_their_chunks(body: BodyId, samples: Seq<ChunkSample>, key: ChunkKey, n: int)
    requires
        0 <= n < samples.len(),
        owner(body, samples[n].0) == key,
        forall|m: int| 0 <= m < n ==> owner(body, (#[trigger] samples[m]).0) != key,
    ensures
        sample_owners(body, samples).contains(key),
        first_distance(body, samples, key) == samples[n].1,
    decreases samples.len(),
{
    assert(sample_owners(body, samples)[n] == key);
    let head = samples.drop_last();
    let owners = sample_owners(body, head);
    if n == samples.len() - 1 {
        if owners.contains(key) {
            let m = choose|m: int| 0 <= m < owners.len() && owners[m] == key;
            assert(owner(body, samples[m].0) == key);
        }
    } else {
        assert forall|m: int| 0 <= m < n implies owner(body, (#[trigger] head[m]).0) != key by {
            assert(head[m] == samples[m]);
        }
        assert(head[n] == samples[n]);
        samples_need_their_chunks(body, head, key, n);
    }
}

} // verus!
