//! One frame's draw list: which meshes get a uniform slot, and how far each
//! has eased in.

use vstd::prelude::*;
use crate::body::BodyId;
use crate::chunk::ChunkKey;
use crate::order::push_contains;
use crate::tile::TileKey;

verus! {

/// Uniform slots a frame has for meshes.
pub const MAX_TILES: usize = 8192;

/// Frames over which a fresh mesh eases in.
pub const EASE_FRAMES: u64 = 18;

/// A mesh of the terrain pass.
#[derive(Clone, Copy, PartialEq, Eq, Structural, Debug)]
pub enum DrawKey {
    Tile(TileKey),
    Chunk(ChunkKey),
}

/// The meshes of a frame, in slot order: terrain, then moon tiles, then lunar
/// chunks. The slot after the last one is the Sun's.
pub struct DrawList {
    pub terrain: Vec<DrawKey>,
    pub moon: Vec<TileKey>,
    pub lunar: Vec<ChunkKey>,
}

pub open spec fn saturating(a: int) -> int {
    if a > 0 {
        a
    } else {
        0
    }
}

/// The first `n` elements, or all.
pub open spec fn head<A>(s: Seq<A>, n: int) -> Seq<A> {
    if n < s.len() {
        s.take(saturating(n))
    } else {
        s
    }
}

pub open spec fn on_body(keys: Seq<ChunkKey>, body: BodyId) -> Seq<ChunkKey> {
    keys.filter(|k: ChunkKey| k.body == body)
}

/// Near chunks before distant tiles: when slots run out, tiles are dropped.
pub open spec fn terrain_order(chunks: Seq<ChunkKey>, tiles: Seq<TileKey>) -> Seq<DrawKey> {
    on_body(chunks, BodyId::Neisor).map_values(|k: ChunkKey| DrawKey::Chunk(k))
        + tiles.map_values(|k: TileKey| DrawKey::Tile(k))
}

/// Slots left to the terrain once the moon and the Sun have theirs.
pub open spec fn terrain_slots(moon: int, lunar: int) -> int {
    saturating(MAX_TILES - moon - lunar - 1)
}

fn chunks_on(keys: &Vec<ChunkKey>, body: BodyId) -> (out: Vec<ChunkKey>)
    ensures
        out@ == on_body(keys@, body),
{
    let ghost p = |k: ChunkKey| k.body == body;
    let mut out: Vec<ChunkKey> = Vec::new();
    let mut i: usize = 0;
    proof {
        reveal(Seq::filter);
        assert(keys@.take(0).filter(p) =~= Seq::<ChunkKey>::empty());
    }
    while i < keys.len()
        invariant
            i <= keys@.len(),
            p == (|k: ChunkKey| k.body == body),
            out@ == keys@.take(i as int).filter(p),
        decreases keys@.len() - i,
    {
        proof {
            reveal(Seq::filter);
            assert(keys@.take(i as int + 1).drop_last() =~= keys@.take(i as int));
        }
        if keys[i].body == body {
            out.push(keys[i]);
        }
        i += 1;
    }
    assert(keys@.take(keys@.len() as int) =~= keys@);
    out
}

/// Assign the frame's uniform slots.
pub fn assign_slots(chunks: &Vec<ChunkKey>, tiles: &Vec<TileKey>, moon: &Vec<TileKey>) -> (r:
    DrawList)
    ensures
        ({
            let lunar = on_body(chunks@, BodyId::Moon);
            &&& r.terrain@ == head(
                terrain_order(chunks@, tiles@),
                terrain_slots(moon@.len() as int, lunar.len() as int),
            )
            &&& r.moon@ == head(moon@, MAX_TILES - r.terrain@.len() - 1)
            &&& r.lunar@ == head(lunar, MAX_TILES - r.terrain@.len() - r.moon@.len() - 1)
        }),
{
    let near: Vec<ChunkKey> = chunks_on(chunks, BodyId::Neisor);
    let lunar_all: Vec<ChunkKey> = chunks_on(chunks, BodyId::Moon);
    let taken: usize = if moon.len() >= MAX_TILES || lunar_all.len() >= MAX_TILES {
        MAX_TILES
    } else {
        moon.len() + lunar_all.len()
    };
    let slots: usize = if taken < MAX_TILES {
        MAX_TILES - taken - 1
    } else {
        0
    };
    let ghost order = terrain_order(chunks@, tiles@);
    assert(slots == terrain_slots(moon@.len() as int, lunar_all@.len() as int));
    let mut terrain: Vec<DrawKey> = Vec::new();
    let mut i: usize = 0;
    while i < near.len() && terrain.len() < slots
        invariant
            i <= near@.len(),
            terrain@.len() == i,
            i <= slots,
            near@ == on_body(chunks@, BodyId::Neisor),
            order == terrain_order(chunks@, tiles@),
            terrain@ == order.take(i as int),
        decreases near@.len() - i,
    {
        terrain.push(DrawKey::Chunk(near[i]));
        assert(terrain@ =~= order.take(i as int + 1));
        i += 1;
    }
    let mut j: usize = 0;
    while j < tiles.len() && terrain.len() < slots
        invariant
            j <= tiles@.len(),
            near@ == on_body(chunks@, BodyId::Neisor),
            order == terrain_order(chunks@, tiles@),
            order.len() == near@.len() + tiles@.len(),
            terrain@.len() <= slots,
            terrain@.len() <= order.len(),
            terrain@.len() == near@.len() + j || (terrain@.len() == slots && j == 0),
            terrain@ == order.take(terrain@.len() as int),
        decreases tiles@.len() - j,
    {
        let ghost n = terrain@.len() as int;
        terrain.push(DrawKey::Tile(tiles[j]));
        assert(order[n] == DrawKey::Tile(tiles@[j as int]));
        assert(terrain@ =~= order.take(n + 1));
        j += 1;
    }
    assert(order.take(order.len() as int) =~= order);
    assert(terrain@ =~= head(order, slots as int));
    let mut moon_out: Vec<TileKey> = Vec::new();
    let moon_slots: usize = if terrain.len() < MAX_TILES {
        MAX_TILES - terrain.len() - 1
    } else {
        0
    };
    let mut m: usize = 0;
    while m < moon.len() && m < moon_slots
        invariant
            m <= moon@.len(),
            m <= moon_slots,
            moon_out@ == moon@.take(m as int),
        decreases moon@.len() - m,
    {
        moon_out.push(moon[m]);
        assert(moon_out@ =~= moon@.take(m as int + 1));
        m += 1;
    }
    assert(moon@.take(moon@.len() as int) =~= moon@);
    assert(moon_out@ =~= head(moon@, moon_slots as int));
    assert(terrain@.len() < MAX_TILES);
    let mut lunar: Vec<ChunkKey> = Vec::new();
    let lunar_slots: usize = MAX_TILES - terrain.len() - moon_out.len() - 1;
    let mut l: usize = 0;
    while l < lunar_all.len() && l < lunar_slots
        invariant
            l <= lunar_all@.len(),
            l <= lunar_slots,
            lunar@ == lunar_all@.take(l as int),
        decreases lunar_all@.len() - l,
    {
        lunar.push(lunar_all[l]);
        assert(lunar@ =~= lunar_all@.take(l as int + 1));
        l += 1;
    }
    assert(lunar_all@.take(lunar_all@.len() as int) =~= lunar_all@);
    DrawList { terrain, moon: moon_out, lunar }
}

/// The draw list always leaves the Sun its slot.
pub proof fn slots_suffice(
    chunks: Seq<ChunkKey>,
    tiles: Seq<TileKey>,
    moon: Seq<TileKey>,
    terrain: Seq<DrawKey>,
    moon_drawn: Seq<TileKey>,
    lunar_drawn: Seq<ChunkKey>,
)
    requires
        terrain == head(
            terrain_order(chunks, tiles),
            terrain_slots(moon.len() as int, on_body(chunks, BodyId::Moon).len() as int),
        ),
        moon_drawn == head(moon, MAX_TILES - terrain.len() - 1),
        lunar_drawn == head(
            on_body(chunks, BodyId::Moon),
            MAX_TILES - terrain.len() - moon_drawn.len() - 1,
        ),
    ensures
        terrain.len() + moon_drawn.len() + lunar_drawn.len() < MAX_TILES,
{
}

/// A near chunk is left out only when no tile is drawn at all.
pub proof fn near_chunks_come_first(
    chunks: Seq<ChunkKey>,
    tiles: Seq<TileKey>,
    slots: int,
    i: int,
)
    requires
        slots >= 0,
        0 <= i < on_body(chunks, BodyId::Neisor).len(),
        head(terrain_order(chunks, tiles), slots).len() <= i,
    ensures
        forall|j: int|
            0 <= j < head(terrain_order(chunks, tiles), slots).len() ==> (#[trigger] head(
                terrain_order(chunks, tiles),
                slots,
            )[j]) is Chunk,
{
}

/// Eighteenths that a mesh has still to ease in: 18 when it has just entered
/// the drawn set, 0 when it has settled or is `exempt`.
pub fn ease(frame: u64, shown_at: u64, exempt: bool) -> (r: u64)
    ensures
        r == (if exempt || frame - shown_at >= EASE_FRAMES {
            0int
        } else {
            EASE_FRAMES - saturating(frame - shown_at)
        }),
{
    if exempt {
        return 0;
    }
    let age: u64 = if frame < shown_at {
        0
    } else {
        frame - shown_at
    };
    if age >= EASE_FRAMES {
        0
    } else {
        EASE_FRAMES - age
    }
}

/// Frame times kept for statistics.
pub const WINDOW: usize = 240;

/// Add a frame time (as an opaque sample) to a window of the latest 240.
pub fn record_sample(window: &mut Vec<u32>, sample: u32)
    requires
        old(window)@.len() <= WINDOW,
    ensures
        final(window)@ == (if old(window)@.len() < WINDOW {
            old(window)@.push(sample)
        } else {
            old(window)@.drop_first().push(sample)
        }),
        final(window)@.len() <= WINDOW,
{
    let ghost before = window@;
    window.push(sample);
    if window.len() > WINDOW {
        window.remove(0);
        assert(window@ =~= before.drop_first().push(sample));
    }
}

fn residue32(t: i128) -> (r: u32)
    requires
        -0x1_0000_0000_0000_0000_0000_0000 <= t <= 0x1_0000_0000_0000_0000_0000_0000,
    ensures
        r == t as int % 0x1_0000_0000,
{
    if t >= 0 {
        (t % 0x1_0000_0000) as u32
    } else {
        let n: i128 = -t;
        let q: i128 = n % 0x1_0000_0000;
        proof {
            let m = 0x1_0000_0000int;
            let d = n as int / m;
            vstd::arithmetic::div_mod::lemma_fundamental_div_mod(n as int, m);
            if q == 0 {
                vstd::arithmetic::div_mod::lemma_fundamental_div_mod_converse(t as int, m, -d, 0);
            } else {
                vstd::arithmetic::div_mod::lemma_fundamental_div_mod_converse(
                    t as int,
                    m,
                    -d - 1,
                    m - q,
                );
            }
        }
        if q == 0 {
            0
        } else {
            (0x1_0000_0000 - q) as u32
        }
    }
}

/// The shader's seed of layer `k`: the residue of `(seed + k) * 0x9E3779B1`
/// modulo 2^32.
pub fn layer_seed(seed: i64, k: i64) -> (r: u32)
    ensures
        r == ((seed + k) * 0x9E37_79B1) % 0x1_0000_0000,
{
    residue32((seed as i128 + k as i128) * 0x9E37_79B1)
}

/// The first elements of a list are as many as fit, in the list's order.
pub proof fn heads_are_the_first_that_fit<A>(s: Seq<A>, n: int, i: int)
    ensures
        n <= 0 ==> head(s, n).len() == 0,
        0 <= n <= s.len() ==> head(s, n).len() == n,
        n >= s.len() ==> head(s, n).len() == s.len(),
        0 <= i < head(s, n).len() ==> head(s, n)[i] == s[i],
{
}

/// The chunks of a body are those listed on it.
pub proof fn chunks_are_sorted_by_body(keys: Seq<ChunkKey>, body: BodyId, k: ChunkKey)
    ensures
        on_body(keys, body).contains(k) <==> keys.contains(k) && k.body == body,
    decreases keys.len(),
{
    reveal(Seq::filter);
    if keys.len() > 0 {
        let p = |k: ChunkKey| k.body == body;
        let less = keys.drop_last();
        chunks_are_sorted_by_body(less, body, k);
        push_contains(less, keys.last());
        push_contains(less.filter(p), keys.last());
        assert(less.push(keys.last()) =~= keys);
    }
}

/// The terrain is the planet's chunks and behind them the tiles. It has the
/// slots that the moon, its chunks and the Sun leave of 8192.
pub proof fn terrain_is_chunks_then_tiles(
    chunks: Seq<ChunkKey>,
    tiles: Seq<TileKey>,
    moon: int,
    lunar: int,
    i: int,
)
    requires
        moon >= 0,
        lunar >= 0,
    ensures
        ({
            let near = on_body(chunks, BodyId::Neisor);
            let order = terrain_order(chunks, tiles);
            &&& order.len() == near.len() + tiles.len()
            &&& 0 <= i < near.len() ==> order[i] == DrawKey::Chunk(near[i])
            &&& near.len() <= i < order.len() ==> order[i] == DrawKey::Tile(tiles[i - near.len()])
        }),
        moon + lunar < 8192 ==> terrain_slots(moon, lunar) + moon + lunar + 1 == 8192,
        moon + lunar >= 8192 ==> terrain_slots(moon, lunar) == 0,
{
}

} // verus!
