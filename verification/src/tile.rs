//! The terrain quadtree: one tree per cube face, every node a tile.

use vstd::prelude::*;

verus! {

/// Quads along one edge of a tile.
pub const TILE_QUADS: usize = 32;

/// The finest level of the quadtree.
pub const MAX_LEVEL: u8 = 12;

/// The coarsest level whose tiles can be deep.
pub const DEEP_LEVEL: u8 = 9;

/// Most detail octaves a tile carries.
pub const MAX_DETAIL_OCTAVES: u32 = 8;

/// A node of the quadtree. Deep tiles sit near the voxel patch and sample the
/// full voxel octave stack.
#[derive(Clone, Copy, PartialEq, Eq, Structural, Hash, Debug)]
pub struct TileKey {
    pub face: u8,
    pub level: u8,
    pub ix: u16,
    pub iy: u16,
    pub deep: bool,
}

pub open spec fn pow2(n: int) -> int
    decreases n,
{
    if n <= 0 {
        1
    } else {
        2 * pow2(n - 1)
    }
}

impl TileKey {
    /// The node exists: its indices lie on its level's grid.
    pub open spec fn wf(self) -> bool {
        self.level <= MAX_LEVEL && self.ix < pow2(self.level as int) && self.iy < pow2(
            self.level as int,
        )
    }

    /// The shallow node one level up.
    pub open spec fn up(self) -> TileKey {
        TileKey {
            face: self.face,
            level: (self.level - 1) as u8,
            ix: self.ix / 2,
            iy: self.iy / 2,
            deep: false,
        }
    }

    /// One of the four shallow nodes one level down.
    pub open spec fn down(self, dx: int, dy: int) -> TileKey {
        TileKey {
            face: self.face,
            level: (self.level + 1) as u8,
            ix: (self.ix * 2 + dx) as u16,
            iy: (self.iy * 2 + dy) as u16,
            deep: false,
        }
    }

    pub fn parent(&self) -> (r: TileKey)
        requires
            self.level > 0,
        ensures
            r == self.up(),
    {
        TileKey {
            face: self.face,
            level: self.level - 1,
            ix: self.ix / 2,
            iy: self.iy / 2,
            deep: false,
        }
    }

    pub fn child(&self, dx: u16, dy: u16) -> (r: TileKey)
        requires
            dx <= 1,
            dy <= 1,
            self.level < u8::MAX,
            self.ix <= 0x7FFF,
            self.iy <= 0x7FFF,
        ensures
            r == self.down(dx as int, dy as int),
    {
        TileKey {
            face: self.face,
            level: self.level + 1,
            ix: self.ix * 2 + dx,
            iy: self.iy * 2 + dy,
            deep: false,
        }
    }

    /// A number that identifies the key.
    pub open spec fn id(self) -> u64 {
        ((((self.face * 256 + self.level) * 65536 + self.ix) * 65536 + self.iy) * 2 + if self.deep {
            1int
        } else {
            0
        }) as u64
    }

    pub fn code(&self) -> (r: u64)
        ensures
            r == self.id(),
    {
        let deep: u64 = if self.deep {
            1
        } else {
            0
        };
        (((self.face as u64 * 256 + self.level as u64) * 65536 + self.ix as u64) * 65536
            + self.iy as u64) * 2 + deep
    }
}

/// Different keys have different numbers.
pub proof fn ids_differ(a: TileKey, b: TileKey)
    ensures
        a.id() == b.id() ==> a == b,
{
    let fa = a.face * 256 + a.level;
    let fb = b.face * 256 + b.level;
    let xa = fa * 65536 + a.ix;
    let xb = fb * 65536 + b.ix;
    let ya = xa * 65536 + a.iy;
    let yb = xb * 65536 + b.iy;
    if a.id() == b.id() {
        assert(ya == yb && a.deep == b.deep);
        assert(xa == xb && a.iy == b.iy);
        assert(fa == fb && a.ix == b.ix);
    }
}

proof fn lemma_pow2_grows(n: int, m: int)
    requires
        0 <= n <= m,
    ensures
        1 <= pow2(n) <= pow2(m),
    decreases m,
{
    if n < m {
        lemma_pow2_grows(n, m - 1);
    } else if m > 0 {
        lemma_pow2_grows(n - 1, m - 1);
    }
}

proof fn lemma_pow2(n: int)
    requires
        0 <= n <= 12,
    ensures
        1 <= pow2(n) <= 4096,
        pow2(n + 1) == 2 * pow2(n),
{
    lemma_pow2_grows(n, 12);
    assert(pow2(12) == 4096) by {
        reveal_with_fuel(pow2, 13);
    }
}

// ---------------------------------------------------------------- selection

/// What the camera says about a node.
#[derive(Clone, Copy, PartialEq, Eq, Structural, Debug)]
pub struct Sight {
    /// Beyond the horizon.
    pub hidden: bool,
    /// Too large on screen for its distance.
    pub coarse: bool,
    /// Close to the voxel patch.
    pub near: bool,
}

/// A tile as it is selected: fine levels near the patch are deep.
pub open spec fn leaf(k: TileKey, s: Sight) -> TileKey {
    TileKey { deep: k.level >= DEEP_LEVEL && s.near, ..k }
}

/// A too-coarse node splits, except at the finest level.
pub open spec fn splits(k: TileKey, s: Sight) -> bool {
    s.coarse && k.level < MAX_LEVEL
}

/// The tiles selected below a node, in the order of a depth-first walk.
pub open spec fn selected(k: TileKey, sight: spec_fn(TileKey) -> Sight) -> Seq<TileKey>
    decreases MAX_LEVEL - k.level,
{
    let s = sight(k);
    if s.hidden {
        Seq::empty()
    } else if splits(k, s) {
        selected(k.down(1, 1), sight) + selected(k.down(0, 1), sight) + selected(
            k.down(1, 0),
            sight,
        ) + selected(k.down(0, 0), sight)
    } else {
        seq![leaf(k, s)]
    }
}

pub open spec fn root(face: int) -> TileKey {
    TileKey { face: face as u8, level: 0, ix: 0, iy: 0, deep: false }
}

/// The tiles selected on the first `n` faces.
pub open spec fn selection(n: int, sight: spec_fn(TileKey) -> Sight) -> Seq<TileKey>
    decreases n,
{
    if n <= 0 {
        Seq::empty()
    } else {
        selection(n - 1, sight) + selected(root(n - 1), sight)
    }
}

/// The tiles still to come from a stack of open nodes, top first.
spec fn pending(stack: Seq<TileKey>, sight: spec_fn(TileKey) -> Sight) -> Seq<TileKey>
    decreases stack.len(),
{
    if stack.len() == 0 {
        Seq::empty()
    } else {
        selected(stack.last(), sight) + pending(stack.drop_last(), sight)
    }
}

/// `f` answers as `sight` says.
pub open spec fn answers<F: Fn(TileKey) -> Sight>(f: F, sight: spec_fn(TileKey) -> Sight) -> bool {
    forall|k: TileKey, s: Sight| #[trigger] f.ensures((k,), s) ==> s == sight(k)
}

/// Nodes of a full subtree.
spec fn subtree(level: int) -> int
    decreases MAX_LEVEL - level,
{
    if level >= MAX_LEVEL {
        1
    } else {
        1 + 4 * subtree(level + 1)
    }
}

spec fn open_nodes(stack: Seq<TileKey>) -> int
    decreases stack.len(),
{
    if stack.len() == 0 {
        0
    } else {
        subtree(stack.last().level as int) + open_nodes(stack.drop_last())
    }
}

proof fn lemma_subtree(level: int)
    ensures
        subtree(level) >= 1,
    decreases MAX_LEVEL - level,
{
    if level < MAX_LEVEL {
        lemma_subtree(level + 1);
    }
}

proof fn lemma_open_push(stack: Seq<TileKey>, k: TileKey)
    ensures
        open_nodes(stack.push(k)) == subtree(k.level as int) + open_nodes(stack),
{
    assert(stack.push(k).drop_last() =~= stack);
}

proof fn lemma_open_nonneg(stack: Seq<TileKey>)
    ensures
        open_nodes(stack) >= 0,
    decreases stack.len(),
{
    if stack.len() > 0 {
        lemma_open_nonneg(stack.drop_last());
        lemma_subtree(stack.last().level as int);
    }
}

proof fn lemma_pending_push(stack: Seq<TileKey>, k: TileKey, sight: spec_fn(TileKey) -> Sight)
    ensures
        pending(stack.push(k), sight) == selected(k, sight) + pending(stack, sight),
{
    assert(stack.push(k).drop_last() =~= stack);
}

/// Select the tiles to render: walk the six quadtrees, drop nodes beyond the
/// horizon and split nodes that are too coarse. `sight` judges a node from the
/// camera. The result is the walk's, whatever function of the key the answers
/// are.
pub fn select_tiles<F: Fn(TileKey) -> Sight>(sight: F) -> (out: Vec<TileKey>)
    requires
        forall|k: TileKey| #[trigger] sight.requires((k,)),
    ensures
        forall|s: spec_fn(TileKey) -> Sight| #[trigger]
            answers(sight, s) ==> out@ == selection(6, s),
{
    let mut out: Vec<TileKey> = Vec::new();
    let mut face: u8 = 0;
    while face < 6
        invariant
            face <= 6,
            forall|k: TileKey| #[trigger] sight.requires((k,)),
            forall|s: spec_fn(TileKey) -> Sight| #[trigger]
                answers(sight, s) ==> out@ == selection(face as int, s),
        decreases 6 - face,
    {
        let mut stack: Vec<TileKey> = Vec::new();
        let top: TileKey = TileKey { face, level: 0, ix: 0, iy: 0, deep: false };
        stack.push(top);
        let ghost before = out@;
        proof {
            assert(pow2(0) == 1);
            assert forall|s: spec_fn(TileKey) -> Sight| #[trigger] answers(
                sight,
                s,
            ) implies before + selected(root(face as int), s) == out@ + pending(stack@, s) by {
                lemma_pending_push(Seq::empty(), top, s);
                assert(stack@ =~= Seq::empty().push(top));
                assert(selected(top, s) + pending(Seq::empty(), s) =~= selected(top, s));
            }
        }
        while stack.len() > 0
            invariant
                forall|k: TileKey| #[trigger] sight.requires((k,)),
                forall|i: int| 0 <= i < stack@.len() ==> (#[trigger] stack@[i]).wf(),
                forall|s: spec_fn(TileKey) -> Sight| #[trigger]
                    answers(sight, s) ==> before + selected(root(face as int), s) == out@ + pending(
                        stack@,
                        s,
                    ),
            decreases open_nodes(stack@),
        {
            let ghost was = stack@;
            let ghost done = out@;
            let k: TileKey = stack.pop().unwrap();
            proof {
                assert(was =~= stack@.push(k));
                lemma_open_push(stack@, k);
                lemma_subtree(k.level as int);
                lemma_open_nonneg(stack@);
                assert(was[was.len() - 1].wf());
                lemma_pow2(k.level as int);
                assert forall|i: int| 0 <= i < stack@.len() implies (#[trigger] stack@[i]).wf() by {
                    assert(stack@[i] == was[i]);
                }
            }
            let ghost base = stack@;
            let seen: Sight = sight(k);
            if seen.hidden {
                proof {
                    assert forall|s: spec_fn(TileKey) -> Sight| #[trigger] answers(
                        sight,
                        s,
                    ) implies before + selected(root(face as int), s) == out@ + pending(
                        stack@,
                        s,
                    ) by {
                        assert(sight.ensures((k,), seen));
                        lemma_pending_push(base, k, s);
                        assert(selected(k, s) + pending(base, s) =~= pending(base, s));
                    }
                }
            } else if seen.coarse && k.level < MAX_LEVEL {
                let a: TileKey = k.child(0, 0);
                let b: TileKey = k.child(1, 0);
                let c: TileKey = k.child(0, 1);
                let d: TileKey = k.child(1, 1);
                stack.push(a);
                stack.push(b);
                stack.push(c);
                stack.push(d);
                proof {
                    lemma_open_push(base, a);
                    lemma_open_push(base.push(a), b);
                    lemma_open_push(base.push(a).push(b), c);
                    lemma_open_push(base.push(a).push(b).push(c), d);
                    assert(a.wf() && b.wf() && c.wf() && d.wf());
                    assert forall|s: spec_fn(TileKey) -> Sight| #[trigger] answers(
                        sight,
                        s,
                    ) implies before + selected(root(face as int), s) == out@ + pending(
                        stack@,
                        s,
                    ) by {
                        assert(sight.ensures((k,), seen));
                        lemma_pending_push(base, k, s);
                        lemma_pending_push(base, a, s);
                        lemma_pending_push(base.push(a), b, s);
                        lemma_pending_push(base.push(a).push(b), c, s);
                        lemma_pending_push(base.push(a).push(b).push(c), d, s);
                        let (sa, sb, sc, sd) = (
                            selected(a, s),
                            selected(b, s),
                            selected(c, s),
                            selected(d, s),
                        );
                        let rest = pending(base, s);
                        assert(selected(k, s) == sd + sc + sb + sa);
                        assert((sd + sc + sb + sa) + rest =~= sd + (sc + (sb + (sa + rest))));
                    }
                }
            } else {
                let deep: bool = k.level >= DEEP_LEVEL && seen.near;
                let t: TileKey = TileKey { face: k.face, level: k.level, ix: k.ix, iy: k.iy, deep };
                out.push(t);
                proof {
                    assert forall|s: spec_fn(TileKey) -> Sight| #[trigger] answers(
                        sight,
                        s,
                    ) implies before + selected(root(face as int), s) == out@ + pending(
                        stack@,
                        s,
                    ) by {
                        assert(sight.ensures((k,), seen));
                        lemma_pending_push(base, k, s);
                        assert(selected(k, s) == seq![t]);
                        assert(done + (seq![t] + pending(base, s)) =~= out@ + pending(base, s));
                    }
                }
            }
        }
        proof {
            assert forall|s: spec_fn(TileKey) -> Sight| #[trigger] answers(sight, s) implies out@
                == selection(face + 1, s) by {
                assert(out@ + pending(stack@, s) =~= out@);
            }
        }
        face += 1;
    }
    out
}

// ----------------------------------------------------------------- geometry

/// The square of finest-level cells a tile covers, along one axis.
pub open spec fn spans(index: int, level: int, x: int) -> bool {
    index * pow2(MAX_LEVEL - level) <= x < (index + 1) * pow2(MAX_LEVEL - level)
}

/// A tile covers a finest-level cell of its face.
pub open spec fn covers(k: TileKey, face: u8, x: int, y: int) -> bool {
    k.face == face && spans(k.ix as int, k.level as int, x) && spans(k.iy as int, k.level as int, y)
}

proof fn lemma_spans_down(index: int, level: int, d: int, x: int)
    requires
        0 <= level < MAX_LEVEL,
        0 <= d <= 1,
        spans(index * 2 + d, level + 1, x),
    ensures
        spans(index, level, x),
{
    let p = pow2(MAX_LEVEL - level - 1);
    assert(pow2(MAX_LEVEL - level) == 2 * p);
    lemma_pow2(MAX_LEVEL - level - 1);
    assert(index * (2 * p) == (index * 2) * p) by (nonlinear_arith);
    assert((index + 1) * (2 * p) == (index * 2 + 2) * p) by (nonlinear_arith);
    assert((index * 2 + d) * p == (index * 2) * p + d * p) by (nonlinear_arith);
    assert((index * 2 + d + 1) * p == (index * 2) * p + d * p + p) by (nonlinear_arith);
    assert((index * 2 + 2) * p == (index * 2) * p + 2 * p) by (nonlinear_arith);
}

proof fn lemma_spans_disjoint(a: int, b: int, level: int, x: int)
    requires
        0 <= level <= MAX_LEVEL,
        spans(a, level, x),
        spans(b, level, x),
    ensures
        a == b,
{
    let p = pow2(MAX_LEVEL - level);
    lemma_pow2(MAX_LEVEL - level);
    if a < b {
        assert((a + 1) * p <= b * p) by (nonlinear_arith)
            requires
                a + 1 <= b,
                p >= 1,
        ;
    }
    if b < a {
        assert((b + 1) * p <= a * p) by (nonlinear_arith)
            requires
                b + 1 <= a,
                p >= 1,
        ;
    }
}

/// The selected tiles of a node stay within it, and none of its cells is
/// covered twice.
proof fn lemma_selected_disjoint(
    k: TileKey,
    sight: spec_fn(TileKey) -> Sight,
    face: u8,
    x: int,
    y: int,
)
    requires
        k.wf(),
    ensures
        forall|i: int|
            0 <= i < selected(k, sight).len() && covers(#[trigger] selected(k, sight)[i], face, x, y)
                ==> covers(k, face, x, y),
        forall|i: int, j: int|
            0 <= i < j < selected(k, sight).len() && covers(
                #[trigger] selected(k, sight)[i],
                face,
                x,
                y,
            ) ==> !covers(#[trigger] selected(k, sight)[j], face, x, y),
        forall|i: int|
            0 <= i < selected(k, sight).len() ==> (#[trigger] selected(k, sight)[i]).wf(),
    decreases MAX_LEVEL - k.level,
{
    let s = sight(k);
    let all = selected(k, sight);
    if !s.hidden && splits(k, s) {
        let (a, b, c, d) = (k.down(0, 0), k.down(1, 0), k.down(0, 1), k.down(1, 1));
        lemma_pow2(k.level as int);
        lemma_selected_disjoint(a, sight, face, x, y);
        lemma_selected_disjoint(b, sight, face, x, y);
        lemma_selected_disjoint(c, sight, face, x, y);
        lemma_selected_disjoint(d, sight, face, x, y);
        let (sa, sb, sc, sd) = (
            selected(a, sight),
            selected(b, sight),
            selected(c, sight),
            selected(d, sight),
        );
        assert(all == sd + sc + sb + sa);
        let l = k.level as int;
        let n1 = sd.len() as int;
        let n2 = n1 + sc.len();
        let n3 = n2 + sb.len();
        assert forall|i: int| 0 <= i < all.len() && covers(#[trigger] all[i], face, x, y) implies covers(
            k,
            face,
            x,
            y,
        ) by {
            if i < n1 {
                assert(all[i] == sd[i]);
                lemma_spans_down(k.ix as int, l, 1, x);
                lemma_spans_down(k.iy as int, l, 1, y);
            } else if i < n2 {
                assert(all[i] == sc[i - n1]);
                lemma_spans_down(k.ix as int, l, 0, x);
                lemma_spans_down(k.iy as int, l, 1, y);
            } else if i < n3 {
                assert(all[i] == sb[i - n2]);
                lemma_spans_down(k.ix as int, l, 1, x);
                lemma_spans_down(k.iy as int, l, 0, y);
            } else {
                assert(all[i] == sa[i - n3]);
                lemma_spans_down(k.ix as int, l, 0, x);
                lemma_spans_down(k.iy as int, l, 0, y);
            }
        }
        assert forall|i: int, j: int|
            0 <= i < j < all.len() && covers(#[trigger] all[i], face, x, y) implies !covers(
            #[trigger] all[j],
            face,
            x,
            y,
        ) by {
            if covers(all[j], face, x, y) {
                let pi: int = if i < n1 { 3 } else if i < n2 { 2 } else if i < n3 { 1 } else { 0 };
                let pj: int = if j < n1 { 3 } else if j < n2 { 2 } else if j < n3 { 1 } else { 0 };
                let ki = if i < n1 { d } else if i < n2 { c } else if i < n3 { b } else { a };
                let kj = if j < n1 { d } else if j < n2 { c } else if j < n3 { b } else { a };
                if i < n1 {
                    assert(all[i] == sd[i]);
                } else if i < n2 {
                    assert(all[i] == sc[i - n1]);
                } else if i < n3 {
                    assert(all[i] == sb[i - n2]);
                } else {
                    assert(all[i] == sa[i - n3]);
                }
                if j < n1 {
                    assert(all[j] == sd[j]);
                } else if j < n2 {
                    assert(all[j] == sc[j - n1]);
                } else if j < n3 {
                    assert(all[j] == sb[j - n2]);
                } else {
                    assert(all[j] == sa[j - n3]);
                }
                assert(covers(ki, face, x, y) && covers(kj, face, x, y));
                lemma_spans_disjoint(ki.ix as int, kj.ix as int, l + 1, x);
                lemma_spans_disjoint(ki.iy as int, kj.iy as int, l + 1, y);
            }
        }
        assert forall|i: int| 0 <= i < all.len() implies (#[trigger] all[i]).wf() by {
            if i < n1 {
                assert(all[i] == sd[i]);
            } else if i < n2 {
                assert(all[i] == sc[i - n1]);
            } else if i < n3 {
                assert(all[i] == sb[i - n2]);
            } else {
                assert(all[i] == sa[i - n3]);
            }
        }
    }
}

/// Selected tiles never overlap: no cell of the finest grid is covered by two
/// of them. Every selected tile is a node of the quadtree.
pub proof fn selected_tiles_never_overlap(
    n: int,
    sight: spec_fn(TileKey) -> Sight,
    face: u8,
    x: int,
    y: int,
)
    requires
        n <= 6,
    ensures
        forall|i: int, j: int|
            0 <= i < j < selection(n, sight).len() && covers(
                #[trigger] selection(n, sight)[i],
                face,
                x,
                y,
            ) ==> !covers(#[trigger] selection(n, sight)[j], face, x, y),
        forall|i: int|
            0 <= i < selection(n, sight).len() ==> (#[trigger] selection(n, sight)[i]).wf()
                && selection(n, sight)[i].face < n,
    decreases n,
{
    if n > 0 {
        selected_tiles_never_overlap(n - 1, sight, face, x, y);
        let rest = selection(n - 1, sight);
        let last = selected(root(n - 1), sight);
        let all = selection(n, sight);
        assert(pow2(0) == 1);
        lemma_selected_disjoint(root(n - 1), sight, face, x, y);
        lemma_selected_face(root(n - 1), sight);
        assert forall|i: int, j: int|
            0 <= i < j < all.len() && covers(#[trigger] all[i], face, x, y) implies !covers(
            #[trigger] all[j],
            face,
            x,
            y,
        ) by {
            if i < rest.len() {
                assert(all[i] == rest[i]);
            } else {
                assert(all[i] == last[i - rest.len()]);
            }
            if j < rest.len() {
                assert(all[j] == rest[j]);
            } else {
                assert(all[j] == last[j - rest.len()]);
            }
        }
        assert forall|i: int| 0 <= i < all.len() implies (#[trigger] all[i]).wf() && all[i].face
            < n by {
            if i < rest.len() {
                assert(all[i] == rest[i]);
            } else {
                assert(all[i] == last[i - rest.len()]);
            }
        }
    }
}

proof fn lemma_selected_face(k: TileKey, sight: spec_fn(TileKey) -> Sight)
    ensures
        forall|i: int|
            0 <= i < selected(k, sight).len() ==> (#[trigger] selected(k, sight)[i]).face == k.face,
    decreases MAX_LEVEL - k.level,
{
    let s = sight(k);
    let all = selected(k, sight);
    if !s.hidden && splits(k, s) {
        let (a, b, c, d) = (k.down(0, 0), k.down(1, 0), k.down(0, 1), k.down(1, 1));
        lemma_selected_face(a, sight);
        lemma_selected_face(b, sight);
        lemma_selected_face(c, sight);
        lemma_selected_face(d, sight);
        let (sa, sb, sc, sd) = (
            selected(a, sight),
            selected(b, sight),
            selected(c, sight),
            selected(d, sight),
        );
        assert(all == sd + sc + sb + sa);
        let n1 = sd.len() as int;
        let n2 = n1 + sc.len();
        let n3 = n2 + sb.len();
        assert forall|i: int| 0 <= i < all.len() implies (#[trigger] all[i]).face == k.face by {
            if i < n1 {
                assert(all[i] == sd[i]);
            } else if i < n2 {
                assert(all[i] == sc[i - n1]);
            } else if i < n3 {
                assert(all[i] == sb[i - n2]);
            } else {
                assert(all[i] == sa[i - n3]);
            }
        }
    }
}

// ------------------------------------------------------------------- detail

/// Detail octaves a level can carry. Octave `c` has a wavelength of 1/(700
/// 2^c) planet radii and a tile's vertices are (pi/2)/(32 2^level) radii apart,
/// so the wavelength spans two and a half spacings while `level - c` is at
/// least 7: level 7 carries one octave, and every further level one more.
pub open spec fn octaves(level: int) -> int {
    if level < 6 {
        0
    } else if level > 14 {
        8
    } else {
        level - 6
    }
}

/// How many detail octaves a tile at `level` can carry.
pub fn octave_count(level: u8) -> (r: u32)
    ensures
        r == octaves(level as int),
        r <= MAX_DETAIL_OCTAVES,
{
    if level < 6 {
        0
    } else if level > 14 {
        8
    } else {
        (level - 6) as u32
    }
}

/// Columns between tree impostors at a level; zero where a level has none.
pub fn impostor_stride(level: u8) -> (r: u64)
    ensures
        r == (if level == 12 {
            4int
        } else if level == 11 {
            8
        } else {
            0
        }),
{
    match level {
        12 => 4,
        11 => 8,
        _ => 0,
    }
}

/// Most tree impostors of a tile.
pub fn impostor_cap(level: u8) -> (r: usize)
    ensures
        r == (if level == 12 {
            2600int
        } else {
            1400
        }),
{
    if level == 12 {
        2600
    } else {
        1400
    }
}

/// Keep every n-th of `candidates` so that at most `cap` remain.
pub fn keep_every(candidates: usize, cap: usize) -> (r: usize)
    requires
        cap > 0,
    ensures
        r >= 1,
        candidates <= r * cap,
        r > 1 ==> (r - 1) * cap < candidates,
{
    let q: usize = candidates / cap;
    let rest: usize = candidates % cap;
    assert(candidates == q * cap + rest) by {
        vstd::arithmetic::div_mod::lemma_fundamental_div_mod(candidates as int, cap as int);
        assert(cap * q == q * cap) by (nonlinear_arith);
    }
    assert(q * cap >= 0) by (nonlinear_arith)
        requires
            q >= 0,
            cap > 0,
    ;
    assert((q + 1) * cap == q * cap + cap) by (nonlinear_arith);
    assert(q >= 1 ==> (q - 1) * cap + cap == q * cap) by (nonlinear_arith);
    if rest > 0 {
        assert(q < usize::MAX) by (nonlinear_arith)
            requires
                candidates == q * cap + rest,
                rest > 0,
                cap > 0,
                candidates <= usize::MAX,
                q >= 0,
        ;
        q + 1
    } else if q > 1 {
        q
    } else {
        1
    }
}

/// The node of a level that a tile lies in: the tile's own indices, halved
/// once for every level between.
pub open spec fn node_over(t: TileKey, level: int) -> TileKey
    decreases t.level,
{
    if t.level <= level || t.level == 0 {
        TileKey { deep: false, ..t }
    } else {
        node_over(t.up(), level)
    }
}

/// The camera opens every node above a tile, down from a level: each is in
/// sight and too coarse.
pub open spec fn opened(t: TileKey, from: int, sight: spec_fn(TileKey) -> Sight) -> bool {
    forall|l: int|
        from <= l < t.level ==> !sight(#[trigger] node_over(t, l)).hidden && sight(node_over(t, l)).coarse
}

proof fn lemma_over_step(t: TileKey, level: int)
    requires
        0 <= level < t.level,
    ensures
        node_over(t, level).face == t.face,
        node_over(t, level).level == level,
        !node_over(t, level).deep,
        node_over(t, level) == node_over(t, level + 1).up(),
        node_over(t, level + 1).level == level + 1,
        node_over(t, level + 1).face == t.face,
        !node_over(t, level + 1).deep,
    decreases t.level - level,
{
    if t.level > level + 1 {
        lemma_over_step(t.up(), level);
    } else {
        assert(node_over(t, level) == node_over(t.up(), level));
    }
}

/// Below a node, a tile is selected exactly where the camera stops on it.
proof fn lemma_selected_iff(k: TileKey, sight: spec_fn(TileKey) -> Sight, t: TileKey)
    requires
        k.wf(),
        !k.deep,
    ensures
        selected(k, sight).contains(t) <==> {
            let own = TileKey { deep: false, ..t };
            &&& k.level <= t.level <= 12
            &&& node_over(t, k.level as int) == k
            &&& opened(t, k.level as int, sight)
            &&& !sight(own).hidden
            &&& !sight(own).coarse || t.level == 12
            &&& t.deep <==> t.level >= 9 && sight(own).near
        },
    decreases 12 - k.level,
{
    let s = sight(k);
    let own = TileKey { deep: false, ..t };
    let all = selected(k, sight);
    let l = k.level as int;
    if s.hidden {
        assert(!all.contains(t));
        if l < t.level && opened(t, l, sight) {
            assert(!sight(node_over(t, l)).hidden);
        }
    } else if splits(k, s) {
        let (a, b, c, d) = (k.down(0, 0), k.down(1, 0), k.down(0, 1), k.down(1, 1));
        lemma_pow2(l);
        lemma_selected_iff(a, sight, t);
        lemma_selected_iff(b, sight, t);
        lemma_selected_iff(c, sight, t);
        lemma_selected_iff(d, sight, t);
        let (sa, sb, sc, sd) = (
            selected(a, sight),
            selected(b, sight),
            selected(c, sight),
            selected(d, sight),
        );
        assert(all == sd + sc + sb + sa);
        assert(all.contains(t) <==> sa.contains(t) || sb.contains(t) || sc.contains(t) || sd.contains(
            t,
        )) by {
            lemma_contains_four(sd, sc, sb, sa, t);
        }
        if l < t.level {
            lemma_over_step(t, l);
            let n = node_over(t, l + 1);
            assert(n.up() == k ==> n == a || n == b || n == c || n == d) by {
                if n.up() == k {
                    assert(n.ix == k.ix * 2 + n.ix % 2 && n.iy == k.iy * 2 + n.iy % 2);
                }
            }
            assert(a.up() == k && b.up() == k && c.up() == k && d.up() == k);
            if n.up() == k {
                assert(opened(t, l, sight) <==> opened(t, l + 1, sight)) by {
                    assert(node_over(t, l) == k);
                    if opened(t, l + 1, sight) {
                        assert forall|m: int| l <= m < t.level implies !sight(
                            #[trigger] node_over(t, m),
                        ).hidden && sight(node_over(t, m)).coarse by {
                            if m == l {
                            }
                        }
                    }
                }
            }
        }
    } else {
        assert(all == seq![leaf(k, s)]);
        assert(all[0] == leaf(k, s));
        if l < t.level {
            if opened(t, l, sight) && node_over(t, l) == k {
                assert(sight(node_over(t, l)).coarse);
            }
            assert(!all.contains(t));
        }
    }
}

proof fn lemma_contains_four(
    p: Seq<TileKey>,
    q: Seq<TileKey>,
    r: Seq<TileKey>,
    s: Seq<TileKey>,
    t: TileKey,
)
    ensures
        (p + q + r + s).contains(t) <==> p.contains(t) || q.contains(t) || r.contains(t)
            || s.contains(t),
{
    let all = p + q + r + s;
    let (n1, n2, n3) = (p.len() as int, p.len() + q.len(), p.len() + q.len() + r.len());
    if all.contains(t) {
        let i = choose|i: int| 0 <= i < all.len() && all[i] == t;
        if i < n1 {
            assert(p[i] == t);
        } else if i < n2 {
            assert(q[i - n1] == t);
        } else if i < n3 {
            assert(r[i - n2] == t);
        } else {
            assert(s[i - n3] == t);
        }
    }
    if p.contains(t) {
        let i = choose|i: int| 0 <= i < p.len() && p[i] == t;
        assert(all[i] == t);
    }
    if q.contains(t) {
        let i = choose|i: int| 0 <= i < q.len() && q[i] == t;
        assert(all[n1 + i] == t);
    }
    if r.contains(t) {
        let i = choose|i: int| 0 <= i < r.len() && r[i] == t;
        assert(all[n2 + i] == t);
    }
    if s.contains(t) {
        let i = choose|i: int| 0 <= i < s.len() && s[i] == t;
        assert(all[n3 + i] == t);
    }
}

proof fn lemma_selection_iff(n: int, sight: spec_fn(TileKey) -> Sight, t: TileKey)
    requires
        0 <= n <= 6,
    ensures
        selection(n, sight).contains(t) <==> t.face < n && selected(
            root(t.face as int),
            sight,
        ).contains(t),
    decreases n,
{
    if n > 0 {
        lemma_selection_iff(n - 1, sight, t);
        let rest = selection(n - 1, sight);
        let last = selected(root(n - 1), sight);
        let all = selection(n, sight);
        lemma_selected_face(root(n - 1), sight);
        if all.contains(t) {
            let i = choose|i: int| 0 <= i < all.len() && all[i] == t;
            if i < rest.len() {
                assert(rest[i] == t);
            } else {
                assert(last[i - rest.len()] == t);
            }
        }
        if rest.contains(t) {
            let i = choose|i: int| 0 <= i < rest.len() && rest[i] == t;
            assert(all[i] == t);
        }
        if last.contains(t) {
            let i = choose|i: int| 0 <= i < last.len() && last[i] == t;
            assert(all[rest.len() + i] == t);
        }
    }
}

/// The camera decides what is drawn: a tile of the six faces is selected if
/// and only if it is in sight, it is fine enough or of the finest level, which
/// is the twelfth, and every node above it is in sight and too coarse. It is
/// deep just where it lies near the voxel patch, from the ninth level on.
pub proof fn the_camera_decides_the_tiles(sight: spec_fn(TileKey) -> Sight, t: TileKey)
    ensures
        selection(6, sight).contains(t) <==> {
            let own = TileKey { deep: false, ..t };
            &&& t.face < 6 && t.level <= 12
            &&& node_over(t, 0) == (TileKey { face: t.face, level: 0, ix: 0, iy: 0, deep: false })
            &&& forall|l: int|
                0 <= l < t.level ==> !sight(#[trigger] node_over(t, l)).hidden && sight(
                    node_over(t, l),
                ).coarse
            &&& !sight(own).hidden
            &&& !sight(own).coarse || t.level == 12
            &&& t.deep <==> t.level >= 9 && sight(own).near
        },
{
    lemma_selection_iff(6, sight, t);
    assert(pow2(0) == 1);
    lemma_selected_iff(root(t.face as int), sight, t);
}

/// The node of a level over a cell of the finest grid.
pub open spec fn cell_node(face: u8, x: int, y: int, level: int) -> TileKey {
    node_over(
        TileKey { face, level: 12, ix: x as u16, iy: y as u16, deep: false },
        level,
    )
}

proof fn lemma_over_chain(t: TileKey, mid: int, level: int)
    requires
        0 <= level <= mid <= t.level,
    ensures
        node_over(node_over(t, mid), level) == node_over(t, level),
    decreases t.level - mid,
{
    if mid < t.level {
        lemma_over_chain(t.up(), mid, level);
    }
}

proof fn lemma_cell_covered(face: u8, x: int, y: int, level: int)
    requires
        0 <= x < 4096,
        0 <= y < 4096,
        0 <= level <= 12,
    ensures
        ({
            let n = cell_node(face, x, y, level);
            &&& n.face == face && n.level == level && !n.deep
            &&& covers(n, face, x, y)
            &&& n.wf()
        }),
    decreases 12 - level,
{
    let n = cell_node(face, x, y, level);
    let cell = TileKey { face, level: 12, ix: x as u16, iy: y as u16, deep: false };
    assert(pow2(0) == 1);
    assert(pow2(12) == 4096) by {
        reveal_with_fuel(pow2, 13);
    }
    if level < 12 {
        lemma_cell_covered(face, x, y, level + 1);
        let m = cell_node(face, x, y, level + 1);
        lemma_over_step(cell, level);
        assert(n == m.up());
        assert(m.ix == n.ix * 2 + m.ix % 2 && m.iy == n.iy * 2 + m.iy % 2);
        lemma_spans_down(n.ix as int, level, m.ix as int % 2, x);
        lemma_spans_down(n.iy as int, level, m.iy as int % 2, y);
        lemma_pow2(level);
    }
}

/// The first level from `level` on whose node over a cell the camera does not
/// open.
spec fn stop_level(sight: spec_fn(TileKey) -> Sight, face: u8, x: int, y: int, level: int) -> int
    decreases 12 - level,
{
    if level >= 12 || !sight(cell_node(face, x, y, level)).coarse {
        level
    } else {
        stop_level(sight, face, x, y, level + 1)
    }
}

proof fn lemma_stop(sight: spec_fn(TileKey) -> Sight, face: u8, x: int, y: int, level: int)
    requires
        0 <= level <= 12,
    ensures
        ({
            let e = stop_level(sight, face, x, y, level);
            &&& level <= e <= 12
            &&& e == 12 || !sight(cell_node(face, x, y, e)).coarse
            &&& forall|l: int| level <= l < e ==> sight(#[trigger] cell_node(face, x, y, l)).coarse
        }),
    decreases 12 - level,
{
    if level >= 12 || !sight(cell_node(face, x, y, level)).coarse {
    } else {
        lemma_stop(sight, face, x, y, level + 1);
    }
}

/// The ground has no holes: every cell of the finest grid none of whose nodes
/// is hidden lies on a selected tile.
pub proof fn ground_in_sight_is_covered(sight: spec_fn(TileKey) -> Sight, face: u8, x: int, y: int)
    requires
        face < 6,
        0 <= x < 4096,
        0 <= y < 4096,
        forall|l: int| 0 <= l <= 12 ==> !sight(#[trigger] cell_node(face, x, y, l)).hidden,
    ensures
        exists|i: int|
            0 <= i < selection(6, sight).len() && covers(#[trigger] selection(6, sight)[i], face, x, y),
{
    lemma_stop(sight, face, x, y, 0);
    let e = stop_level(sight, face, x, y, 0);
    let own = cell_node(face, x, y, e);
    lemma_cell_covered(face, x, y, e);
    lemma_cell_covered(face, x, y, 0);
    let t = leaf(own, sight(own));
    let cell = TileKey { face, level: 12, ix: x as u16, iy: y as u16, deep: false };
    assert forall|l: int| 0 <= l < t.level implies node_over(t, l) == #[trigger] cell_node(
        face,
        x,
        y,
        l,
    ) by {
        lemma_over_chain(cell, e, l);
        assert(t.up() == own.up());
    }
    assert(node_over(t, 0) == cell_node(face, x, y, 0)) by {
        lemma_over_chain(cell, e, 0);
        if e > 0 {
            assert(t.up() == own.up());
        }
    }
    assert(pow2(0) == 1);
    assert forall|l: int| 0 <= l < t.level implies !sight(#[trigger] node_over(t, l)).hidden && sight(
        node_over(t, l),
    ).coarse by {
        assert(node_over(t, l) == cell_node(face, x, y, l));
    }
    assert(TileKey { deep: false, ..t } == own);
    the_camera_decides_the_tiles(sight, t);
    let i = choose|i: int| 0 <= i < selection(6, sight).len() && selection(6, sight)[i] == t;
    assert(covers(selection(6, sight)[i], face, x, y));
}

/// A tile covers its square: a tile of level `l` is 2 to the power of `12 - l`
/// finest cells wide and lies at that many times its indices.
pub proof fn tiles_cover_their_squares(k: TileKey, x: int, y: int)
    requires
        k.level <= 12,
    ensures
        covers(k, k.face, x, y) <==> k.ix * pow2(12 - k.level) <= x < k.ix * pow2(12 - k.level)
            + pow2(12 - k.level) && k.iy * pow2(12 - k.level) <= y < k.iy * pow2(12 - k.level) + pow2(
            12 - k.level,
        ),
        k.level == 12 ==> (covers(k, k.face, x, y) <==> x == k.ix && y == k.iy),
        pow2(0) == 1,
        k.level < 12 ==> pow2(12 - k.level) == 2 * pow2(11 - k.level),
{
    let p = pow2(12 - k.level);
    assert((k.ix + 1) * p == k.ix * p + p) by (nonlinear_arith);
    assert((k.iy + 1) * p == k.iy * p + p) by (nonlinear_arith);
    assert(pow2(0) == 1);
}

/// Parents and children: a node has four children, two by two, whose parent
/// it is, and which cover it.
pub proof fn children_share_their_parent(k: TileKey, dx: int, dy: int)
    requires
        k.level < 12,
        k.ix < 2048,
        k.iy < 2048,
        0 <= dx <= 1,
        0 <= dy <= 1,
    ensures
        k.down(dx, dy).up() == (TileKey { deep: false, ..k }),
        k.down(dx, dy).level == k.level + 1,
        k.down(dx, dy).ix == 2 * k.ix + dx,
        k.down(dx, dy).iy == 2 * k.iy + dy,
        k.down(dx, dy).face == k.face,
        !k.down(dx, dy).deep,
{
}

/// Detail grows by one octave a level from the seventh on, up to eight.
pub proof fn finer_levels_carry_more_octaves(level: int)
    ensures
        level <= 6 ==> octaves(level) == 0,
        6 <= level < 14 ==> octaves(level + 1) == octaves(level) + 1,
        level >= 14 ==> octaves(level) == 8,
{
}

} // verus!
