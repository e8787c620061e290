//! Streaming terrain tiles: which tiles are built now, which in the
//! background, and which stand in for tiles that are not there yet.

use vstd::prelude::*;
use crate::cache::{Resident, Residents, uploaded};
use crate::measure::{below, is_below, Measure};
use crate::order::{first_occurrences, first_occurrences_keep_the_set, push_contains};
use crate::table::Table;
use crate::tile::{MAX_LEVEL, TileKey, covers, ids_differ, node_over, pow2};

verus! {

/// Season-stale tiles that a live frame sends to the background.
pub const STALE_PER_FRAME: usize = 8;

/// Background builds a live frame starts ahead of need.
pub const PREFETCH_BUDGET: usize = 4;

/// Vertical motion, in kilometres a frame, from which the camera counts as
/// climbing or sinking: 0.005.
pub const VERTICAL_MOTION: Measure = 0x3F74_7AE1_47AE_147B;

/// An altitude whose tiles are built ahead of need.
#[derive(Clone, Copy, PartialEq, Eq, Structural, Debug)]
pub enum Forecast {
    /// Where a climb leads.
    Above,
    /// Half the altitude.
    Near,
    /// A quarter of the altitude.
    Far,
}

/// Background builds a live frame may start ahead of need: twice the steady
/// budget while the camera moves vertically by `moved`, taken without its sign.
pub fn live_budget(moved: Measure) -> (r: usize)
    ensures
        r == (if below(VERTICAL_MOTION, moved) {
            2 * PREFETCH_BUDGET
        } else {
            PREFETCH_BUDGET as int
        }),
{
    if is_below(VERTICAL_MOTION, moved) {
        PREFETCH_BUDGET * 2
    } else {
        PREFETCH_BUDGET
    }
}

/// The altitudes forecast, the most urgent first: below while the camera
/// sinks (`delta` is negative), above otherwise.
pub fn forecasts(delta: Measure) -> (r: [Forecast; 3])
    ensures
        r@ == (if below(delta, 0) {
            seq![Forecast::Near, Forecast::Far, Forecast::Above]
        } else {
            seq![Forecast::Above, Forecast::Near, Forecast::Far]
        }),
{
    if is_below(delta, 0) {
        [Forecast::Near, Forecast::Far, Forecast::Above]
    } else {
        [Forecast::Above, Forecast::Near, Forecast::Far]
    }
}

/// A background build: the tile and the request's number.
pub type Request = (TileKey, u64);

/// The resident tiles, and the builds in flight by request number.
pub struct TileStream {
    pub tiles: Residents,
    pub in_flight: Table<u64>,
    pub next_epoch: u64,
}

/// The requests made so far: builds in flight, the next number, and the list.
pub struct Asked {
    pub in_flight: Map<u64, u64>,
    pub next_epoch: u64,
    pub requests: Seq<Request>,
}

/// Request a tile, unless its build is already in flight.
pub open spec fn ask(a: Asked, k: TileKey) -> Asked {
    if a.in_flight.contains_key(k.id()) {
        a
    } else {
        Asked {
            in_flight: a.in_flight.insert(k.id(), a.next_epoch),
            next_epoch: if a.next_epoch == u64::MAX {
                0
            } else {
                (a.next_epoch + 1) as u64
            },
            requests: a.requests.push((k, a.next_epoch)),
        }
    }
}

/// Request the tiles of a list, in order.
pub open spec fn ask_all(a: Asked, keys: Seq<TileKey>) -> Asked
    decreases keys.len(),
{
    if keys.len() == 0 {
        a
    } else {
        ask(ask_all(a, keys.drop_last()), keys.last())
    }
}

// ---------------------------------------------------------------- stand-ins

/// A tile is resident.
pub open spec fn there(m: Map<u64, Resident>, k: TileKey) -> bool {
    m.contains_key(k.id())
}

/// The nearest resident node above a tile, if any.
pub open spec fn nearest_above(m: Map<u64, Resident>, k: TileKey) -> Option<TileKey>
    decreases k.level,
{
    if k.level == 0 {
        None
    } else if there(m, k.up()) {
        Some(k.up())
    } else {
        nearest_above(m, k.up())
    }
}

/// The four nodes below a tile are resident.
pub open spec fn all_below(m: Map<u64, Resident>, k: TileKey) -> bool {
    there(m, k.down(0, 0)) && there(m, k.down(1, 0)) && there(m, k.down(0, 1)) && there(
        m,
        k.down(1, 1),
    )
}

/// Some resident tile, or four of them, can stand in for a tile.
pub open spec fn has_stand_in(m: Map<u64, Resident>, k: TileKey) -> bool {
    nearest_above(m, k) is Some || all_below(m, k)
}

/// What is drawn for a selected tile: itself, else its nearest resident
/// ancestor, else its four children, else itself once it is built.
pub open spec fn drawn_for(m: Map<u64, Resident>, k: TileKey) -> Seq<TileKey> {
    if there(m, k) {
        seq![k]
    } else {
        match nearest_above(m, k) {
            Some(a) => seq![a],
            None => if all_below(m, k) {
                seq![k.down(0, 0), k.down(1, 0), k.down(0, 1), k.down(1, 1)]
            } else {
                seq![k]
            },
        }
    }
}

/// A selected tile that nothing can stand in for.
pub open spec fn must_build(m: Map<u64, Resident>, k: TileKey) -> bool {
    !there(m, k) && !has_stand_in(m, k)
}

/// What is drawn for the selected tiles, with repetitions.
pub open spec fn drawn_for_all(m: Map<u64, Resident>, keys: Seq<TileKey>) -> Seq<TileKey>
    decreases keys.len(),
{
    if keys.len() == 0 {
        Seq::empty()
    } else {
        drawn_for_all(m, keys.drop_last()) + drawn_for(m, keys.last())
    }
}

/// Some node above a tile is among the chosen.
pub open spec fn above_chosen(chosen: Seq<TileKey>, k: TileKey) -> bool
    decreases k.level,
{
    k.level > 0 && (chosen.contains(k.up()) || above_chosen(chosen, k.up()))
}

/// The chosen tiles that no chosen tile stands above: a stand-in ancestor
/// hides its drawn descendants.
pub open spec fn unhidden(chosen: Seq<TileKey>) -> Seq<TileKey> {
    chosen.filter(|k: TileKey| !above_chosen(chosen, k))
}

/// The chosen tiles for a selection.
pub open spec fn chosen_tiles(m: Map<u64, Resident>, keys: Seq<TileKey>) -> Seq<TileKey> {
    first_occurrences(drawn_for_all(m, keys))
}

/// A resident tile that was built for another season.
pub open spec fn stale_tile(m: Map<u64, Resident>, season: u32, k: TileKey) -> bool {
    there(m, k) && m[k.id()].bucket != season
}

/// Tiles that a live frame sends to the background although they are needed:
/// shallow ones that something stands in for. Deep tiles never defer.
pub open spec fn deferrable(m: Map<u64, Resident>, k: TileKey) -> bool {
    !k.deep && has_stand_in(m, k)
}

/// What a frame does about season-stale tiles.
pub enum Refresh {
    /// Rebuild them all before drawing.
    Now(Vec<TileKey>),
    /// Send these to the background and draw the old ones meanwhile.
    Later(Vec<Request>),
}

/// A drawable resolution of a selection.
pub struct Resolved {
    pub draw: Vec<TileKey>,
    /// Tiles that must be built before drawing.
    pub build: Vec<TileKey>,
}

fn listed(keys: &Vec<TileKey>, k: TileKey) -> (r: bool)
    ensures
        r == keys@.contains(k),
{
    let mut i: usize = 0;
    while i < keys.len()
        invariant
            i <= keys@.len(),
            forall|j: int| 0 <= j < i ==> keys@[j] != k,
        decreases keys@.len() - i,
    {
        if keys[i] == k {
            return true;
        }
        i += 1;
    }
    false
}

/// Node indices leave room for a child's.
pub open spec fn room_below(k: TileKey) -> bool {
    k.level < u8::MAX && k.ix <= 0x7FFF && k.iy <= 0x7FFF
}

pub open spec fn all_room_below(keys: Seq<TileKey>) -> bool {
    forall|i: int| 0 <= i < keys.len() ==> room_below(#[trigger] keys[i])
}

/// The tiles that have no mesh yet.
pub fn unbuilt(meshes: &Residents, keys: &Vec<TileKey>) -> (out: Vec<TileKey>)
    ensures
        out@ == keys@.filter(|k: TileKey| !there(meshes@, k)),
{
    let mut out: Vec<TileKey> = Vec::new();
    let mut i: usize = 0;
    let ghost p = |k: TileKey| !there(meshes@, k);
    assert(keys@.take(0).filter(p) =~= Seq::<TileKey>::empty()) by {
        reveal(Seq::filter);
    }
    while i < keys.len()
        invariant
            i <= keys@.len(),
            p == (|k: TileKey| !there(meshes@, k)),
            out@ == keys@.take(i as int).filter(p),
        decreases keys@.len() - i,
    {
        let k: TileKey = keys[i];
        let missing: bool = !meshes.contains(k.code());
        proof {
            assert(missing == p(k));
            lemma_filter_step(keys@, i as int, p);
        }
        if missing {
            out.push(k);
        }
        i += 1;
    }
    assert(keys@.take(keys@.len() as int) =~= keys@);
    out
}

impl TileStream {
    pub fn new() -> (r: Self)
        ensures
            r.tiles@ == Map::<u64, Resident>::empty(),
            r.in_flight@ == Map::<u64, u64>::empty(),
            r.next_epoch == 0,
    {
        TileStream { tiles: Residents::new(), in_flight: Table::new(), next_epoch: 0 }
    }

    /// The state of requests, with a list made so far.
    pub open spec fn asked(self, requests: Seq<Request>) -> Asked {
        Asked { in_flight: self.in_flight@, next_epoch: self.next_epoch, requests }
    }

    /// Is a tile resident?
    pub fn has(&self, k: TileKey) -> (r: bool)
        ensures
            r == there(self.tiles@, k),
    {
        self.tiles.contains(k.code())
    }

    /// Request a background build unless one is in flight; the request is
    /// added to `out`.
    fn request(&mut self, k: TileKey, out: &mut Vec<Request>)
        ensures
            final(self).tiles == old(self).tiles,
            final(self).asked(final(out)@) == ask(old(self).asked(old(out)@), k),
    {
        let id: u64 = k.code();
        if !self.in_flight.contains(id) {
            let epoch: u64 = self.next_epoch;
            self.next_epoch = if epoch == u64::MAX {
                0
            } else {
                epoch + 1
            };
            self.in_flight.insert(id, epoch);
            out.push((k, epoch));
        }
    }

    /// A background build came back. It is taken only if its request is still
    /// the current one for its tile and its season still rules; returns
    /// whether it was.
    pub fn land(
        &mut self,
        k: TileKey,
        epoch: u64,
        bucket: u32,
        season: u32,
        bytes: u64,
        frame: u64,
    ) -> (taken: bool)
        ensures
            ({
                let ours = old(self).in_flight@.contains_key(k.id()) && old(self).in_flight@[k.id()] == epoch;
                &&& taken == (ours && bucket == season)
                &&& final(self).in_flight@ == (if ours {
                    old(self).in_flight@.remove(k.id())
                } else {
                    old(self).in_flight@
                })
                &&& final(self).tiles@ == (if taken {
                    old(self).tiles@.insert(
                        k.id(),
                        uploaded(old(self).tiles@, k.id(), bytes, bucket, frame),
                    )
                } else {
                    old(self).tiles@
                })
                &&& final(self).next_epoch == old(self).next_epoch
            }),
    {
        let id: u64 = k.code();
        let ours: bool = match self.in_flight.get(id) {
            Some(e) => e == epoch,
            None => false,
        };
        if !ours {
            return false;
        }
        self.in_flight.remove(id);
        if bucket != season {
            return false;
        }
        self.tiles.upload(id, bytes, bucket, frame);
        true
    }

    /// A tile was built and uploaded before drawing. A build of the same tile
    /// that is still in flight is forgotten where `forget` says so.
    pub fn built(&mut self, k: TileKey, bytes: u64, bucket: u32, frame: u64, forget: bool)
        ensures
            final(self).tiles@ == old(self).tiles@.insert(
                k.id(),
                uploaded(old(self).tiles@, k.id(), bytes, bucket, frame),
            ),
            final(self).in_flight@ == (if forget {
                old(self).in_flight@.remove(k.id())
            } else {
                old(self).in_flight@
            }),
            final(self).next_epoch == old(self).next_epoch,
    {
        let id: u64 = k.code();
        self.tiles.upload(id, bytes, bucket, frame);
        if forget {
            self.in_flight.remove(id);
        }
    }

    /// The selected tiles that were built for another season.
    pub fn stale(&self, keys: &Vec<TileKey>, season: u32) -> (out: Vec<TileKey>)
        ensures
            out@ == keys@.filter(|k: TileKey| stale_tile(self.tiles@, season, k)),
    {
        let mut out: Vec<TileKey> = Vec::new();
        let mut i: usize = 0;
        let ghost p = |k: TileKey| stale_tile(self.tiles@, season, k);
        assert(keys@.take(0).filter(p) =~= Seq::<TileKey>::empty()) by {
            reveal(Seq::filter);
        }
        while i < keys.len()
            invariant
                i <= keys@.len(),
                p == (|k: TileKey| stale_tile(self.tiles@, season, k)),
                out@ == keys@.take(i as int).filter(p),
            decreases keys@.len() - i,
        {
            let k: TileKey = keys[i];
            let is_stale: bool = match self.tiles.get(k.code()) {
                Some(e) => e.bucket != season,
                None => false,
            };
            proof {
                assert(is_stale == p(k));
                lemma_filter_step(keys@, i as int, p);
            }
            if is_stale {
                out.push(k);
            }
            i += 1;
        }
        assert(keys@.take(keys@.len() as int) =~= keys@);
        out
    }

    /// Season-stale tiles: a settling capture rebuilds them all at once; a
    /// live frame sends the first few to the background.
    pub fn refresh_stale(&mut self, keys: &Vec<TileKey>, season: u32, settling: bool) -> (r: Refresh)
        ensures
            ({
                let stale = keys@.filter(|k: TileKey| stale_tile(old(self).tiles@, season, k));
                &&& final(self).tiles@ == old(self).tiles@
                &&& match r {
                    Refresh::Now(list) => settling && stale.len() > 0 && list@ == stale && final(self).asked(Seq::empty()) == old(self).asked(Seq::empty()),
                    Refresh::Later(list) => (!settling || stale.len() == 0) && final(self).asked(
                        list@,
                    ) == ask_all(
                        old(self).asked(Seq::empty()),
                        if stale.len() > STALE_PER_FRAME {
                            stale.take(STALE_PER_FRAME as int)
                        } else {
                            stale
                        },
                    ),
                }
            }),
    {
        let stale: Vec<TileKey> = self.stale(keys, season);
        if settling && stale.len() > 0 {
            return Refresh::Now(stale);
        }
        let n: usize = if stale.len() > STALE_PER_FRAME {
            STALE_PER_FRAME
        } else {
            stale.len()
        };
        let mut out: Vec<Request> = Vec::new();
        let ghost start = self.asked(Seq::empty());
        let ghost tiles0 = self.tiles;
        let mut i: usize = 0;
        assert(out@ =~= Seq::<Request>::empty());
        while i < n
            invariant
                i <= n <= stale@.len(),
                self.tiles == tiles0,
                self.asked(out@) == ask_all(start, stale@.take(i as int)),
            decreases n - i,
        {
            assert(stale@.take(i as int + 1).drop_last() =~= stale@.take(i as int));
            self.request(stale[i], &mut out);
            i += 1;
        }
        assert(stale@.take(stale@.len() as int) =~= stale@);
        Refresh::Later(out)
    }

    fn find_above(&self, k: TileKey) -> (r: Option<TileKey>)
        ensures
            r == nearest_above(self.tiles@, k),
    {
        let mut cur: TileKey = k;
        while cur.level > 0
            invariant
                nearest_above(self.tiles@, k) == nearest_above(self.tiles@, cur),
            decreases cur.level,
        {
            cur = cur.parent();
            if self.has(cur) {
                return Some(cur);
            }
        }
        None
    }

    fn children_there(&self, k: TileKey) -> (r: bool)
        requires
            room_below(k),
        ensures
            r == all_below(self.tiles@, k),
    {
        self.has(k.child(0, 0)) && self.has(k.child(1, 0)) && self.has(k.child(0, 1)) && self.has(
            k.child(1, 1),
        )
    }

    /// Can a resident ancestor, or the four resident children, stand in for a
    /// tile?
    pub fn covered(&self, k: TileKey) -> (r: bool)
        requires
            room_below(k),
        ensures
            r == has_stand_in(self.tiles@, k),
    {
        self.find_above(k).is_some() || self.children_there(k)
    }

    /// Missing tiles: those that something stands in for go to the
    /// background, the rest must be built before drawing. A settling capture
    /// builds them all.
    pub fn split_missing(&mut self, keys: &Vec<TileKey>, settling: bool) -> (r: (
        Vec<Request>,
        Vec<TileKey>,
    ))
        requires
            all_room_below(keys@),
        ensures
            final(self).tiles@ == old(self).tiles@,
            r.1@ == keys@.filter(
                |k: TileKey|
                    !there(old(self).tiles@, k) && (settling || !deferrable(old(self).tiles@, k)),
            ),
            final(self).asked(r.0@) == ask_all(
                old(self).asked(Seq::empty()),
                keys@.filter(
                    |k: TileKey|
                        !there(old(self).tiles@, k) && !settling && deferrable(
                            old(self).tiles@,
                            k,
                        ),
                ),
            ),
    {
        let ghost m = self.tiles@;
        let ghost p = |k: TileKey| !there(m, k) && (settling || !deferrable(m, k));
        let ghost q = |k: TileKey| !there(m, k) && !settling && deferrable(m, k);
        let ghost start = self.asked(Seq::empty());
        let mut later: Vec<Request> = Vec::new();
        let mut urgent: Vec<TileKey> = Vec::new();
        let mut i: usize = 0;
        proof {
            reveal(Seq::filter);
            assert(keys@.take(0).filter(p) =~= Seq::<TileKey>::empty());
            assert(keys@.take(0).filter(q) =~= Seq::<TileKey>::empty());
            assert(later@ =~= Seq::<Request>::empty());
        }
        while i < keys.len()
            invariant
                i <= keys@.len(),
                all_room_below(keys@),
                self.tiles@ == m,
                p == (|k: TileKey| !there(m, k) && (settling || !deferrable(m, k))),
                q == (|k: TileKey| !there(m, k) && !settling && deferrable(m, k)),
                urgent@ == keys@.take(i as int).filter(p),
                self.asked(later@) == ask_all(start, keys@.take(i as int).filter(q)),
            decreases keys@.len() - i,
        {
            let k: TileKey = keys[i];
            proof {
                lemma_filter_step(keys@, i as int, p);
                lemma_filter_step(keys@, i as int, q);
                assert(room_below(keys@[i as int]));
            }
            if !self.has(k) {
                if !settling && !k.deep && self.covered(k) {
                    let ghost before = keys@.take(i as int).filter(q);
                    assert(before.push(k).drop_last() =~= before);
                    self.request(k, &mut later);
                } else {
                    urgent.push(k);
                }
            }
            i += 1;
        }
        assert(keys@.take(keys@.len() as int) =~= keys@);
        (later, urgent)
    }

    /// Some selected tile is missing or of another season: the frame is not
    /// final.
    pub fn deferred(&self, keys: &Vec<TileKey>, season: u32) -> (r: bool)
        ensures
            r == exists|i: int|
                0 <= i < keys@.len() && (!there(self.tiles@, #[trigger] keys@[i]) || stale_tile(
                    self.tiles@,
                    season,
                    keys@[i],
                )),
    {
        let mut i: usize = 0;
        while i < keys.len()
            invariant
                i <= keys@.len(),
                forall|j: int|
                    0 <= j < i ==> there(self.tiles@, #[trigger] keys@[j]) && !stale_tile(
                        self.tiles@,
                        season,
                        keys@[j],
                    ),
            decreases keys@.len() - i,
        {
            let k: TileKey = keys[i];
            let late: bool = match self.tiles.get(k.code()) {
                Some(e) => e.bucket != season,
                None => true,
            };
            if late {
                assert(!there(self.tiles@, keys@[i as int]) || stale_tile(
                    self.tiles@,
                    season,
                    keys@[i as int],
                ));
                return true;
            }
            i += 1;
        }
        false
    }

    /// Start background builds of forecast tiles until `budget` requests were
    /// made; `spent` of them are used already. Returns the requests.
    pub fn prefetch(&mut self, forecast: &Vec<TileKey>, spent: usize, budget: usize) -> (r: Vec<
        Request,
    >)
        ensures
            final(self).tiles@ == old(self).tiles@,
            spent + r@.len() <= budget || r@.len() == 0,
            final(self).asked(r@) == prefetched(
                old(self).asked(Seq::empty()),
                old(self).tiles@,
                forecast@,
                budget - spent,
            ),
    {
        let mut out: Vec<Request> = Vec::new();
        let ghost start = self.asked(Seq::empty());
        let ghost m = self.tiles@;
        let mut i: usize = 0;
        assert(out@ =~= Seq::<Request>::empty());
        while i < forecast.len()
            invariant
                i <= forecast@.len(),
                self.tiles@ == m,
                start.requests.len() == 0,
                spent + out@.len() <= budget || out@.len() == 0,
                out@.len() <= i,
                self.asked(out@) == prefetched(start, m, forecast@.take(i as int), budget - spent),
            decreases forecast@.len() - i,
        {
            let k: TileKey = forecast[i];
            assert(forecast@.take(i as int + 1).drop_last() =~= forecast@.take(i as int));
            let room: bool = spent < budget && out.len() < budget - spent;
            if room && !self.has(k) {
                self.request(k, &mut out);
            }
            i += 1;
        }
        assert(forecast@.take(forecast@.len() as int) =~= forecast@);
        out
    }

    /// The parents of the selected tiles, for prefetching: coarsening then
    /// finds them ready.
    pub fn parents(keys: &Vec<TileKey>) -> (r: Vec<TileKey>)
        ensures
            r@ == parents_of(keys@),
    {
        let mut out: Vec<TileKey> = Vec::new();
        let mut i: usize = 0;
        while i < keys.len()
            invariant
                i <= keys@.len(),
                out@ == parents_of(keys@.take(i as int)),
            decreases keys@.len() - i,
        {
            assert(keys@.take(i as int + 1).drop_last() =~= keys@.take(i as int));
            if keys[i].level > 0 {
                out.push(keys[i].parent());
            }
            i += 1;
        }
        assert(keys@.take(keys@.len() as int) =~= keys@);
        out
    }

    /// Resolve a selection into tiles to draw: stand-ins for what is missing,
    /// no tile twice, and no tile under a drawn ancestor.
    pub fn resolve(&self, keys: &Vec<TileKey>) -> (r: Resolved)
        requires
            all_room_below(keys@),
        ensures
            r.draw@ == unhidden(chosen_tiles(self.tiles@, keys@)),
            r.build@ == keys@.filter(|k: TileKey| must_build(self.tiles@, k)),
    {
        let ghost m = self.tiles@;
        let ghost p = |k: TileKey| must_build(m, k);
        let mut chosen: Vec<TileKey> = Vec::new();
        let mut build: Vec<TileKey> = Vec::new();
        let mut i: usize = 0;
        proof {
            reveal(Seq::filter);
            assert(keys@.take(0).filter(p) =~= Seq::<TileKey>::empty());
            assert(drawn_for_all(m, keys@.take(0)) =~= Seq::<TileKey>::empty());
        }
        while i < keys.len()
            invariant
                i <= keys@.len(),
                all_room_below(keys@),
                m == self.tiles@,
                p == (|k: TileKey| must_build(m, k)),
                chosen@ == chosen_tiles(m, keys@.take(i as int)),
                build@ == keys@.take(i as int).filter(p),
            decreases keys@.len() - i,
        {
            let k: TileKey = keys[i];
            let ghost earlier = drawn_for_all(m, keys@.take(i as int));
            proof {
                lemma_filter_step(keys@, i as int, p);
                assert(keys@.take(i as int + 1).drop_last() =~= keys@.take(i as int));
                assert(room_below(keys@[i as int]));
            }
            if self.has(k) {
                push_new(&mut chosen, k, Ghost(earlier));
                assert(earlier.push(k) =~= earlier + drawn_for(m, k));
            } else {
                match self.find_above(k) {
                    Some(a) => {
                        push_new(&mut chosen, a, Ghost(earlier));
                        assert(earlier.push(a) =~= earlier + drawn_for(m, k));
                    },
                    None => {
                        if self.children_there(k) {
                            let (c0, c1, c2, c3): (TileKey, TileKey, TileKey, TileKey) = (
                                k.child(0, 0),
                                k.child(1, 0),
                                k.child(0, 1),
                                k.child(1, 1),
                            );
                            push_new(&mut chosen, c0, Ghost(earlier));
                            push_new(&mut chosen, c1, Ghost(earlier.push(c0)));
                            push_new(&mut chosen, c2, Ghost(earlier.push(c0).push(c1)));
                            push_new(&mut chosen, c3, Ghost(earlier.push(c0).push(c1).push(c2)));
                            assert(earlier.push(c0).push(c1).push(c2).push(c3) =~= earlier
                                + drawn_for(m, k));
                        } else {
                            build.push(k);
                            push_new(&mut chosen, k, Ghost(earlier));
                            assert(earlier.push(k) =~= earlier + drawn_for(m, k));
                        }
                    },
                }
            }
            i += 1;
        }
        assert(keys@.take(keys@.len() as int) =~= keys@);
        let draw: Vec<TileKey> = drop_hidden(&chosen);
        Resolved { draw, build }
    }
}

/// Requests made for a forecast: wanted tiles in order, while fewer than
/// `room` were made.
pub open spec fn prefetched(
    a: Asked,
    m: Map<u64, Resident>,
    forecast: Seq<TileKey>,
    room: int,
) -> Asked
    decreases forecast.len(),
{
    if forecast.len() == 0 {
        a
    } else {
        let b = prefetched(a, m, forecast.drop_last(), room);
        let k = forecast.last();
        if b.requests.len() - a.requests.len() < room && !there(m, k) {
            ask(b, k)
        } else {
            b
        }
    }
}

pub open spec fn parents_of(keys: Seq<TileKey>) -> Seq<TileKey>
    decreases keys.len(),
{
    if keys.len() == 0 {
        Seq::empty()
    } else {
        let rest = parents_of(keys.drop_last());
        if keys.last().level > 0 {
            rest.push(keys.last().up())
        } else {
            rest
        }
    }
}

fn push_new(keys: &mut Vec<TileKey>, key: TileKey, Ghost(seen): Ghost<Seq<TileKey>>)
    requires
        old(keys)@ == first_occurrences(seen),
    ensures
        final(keys)@ == first_occurrences(seen.push(key)),
{
    assert(seen.push(key).drop_last() =~= seen);
    if !listed(keys, key) {
        keys.push(key);
    }
}

fn under_chosen(chosen: &Vec<TileKey>, k: TileKey) -> (r: bool)
    ensures
        r == above_chosen(chosen@, k),
{
    let mut cur: TileKey = k;
    while cur.level > 0
        invariant
            above_chosen(chosen@, k) == above_chosen(chosen@, cur),
        decreases cur.level,
    {
        cur = cur.parent();
        if listed(chosen, cur) {
            return true;
        }
    }
    false
}

fn drop_hidden(chosen: &Vec<TileKey>) -> (out: Vec<TileKey>)
    ensures
        out@ == unhidden(chosen@),
{
    let ghost p = |k: TileKey| !above_chosen(chosen@, k);
    let mut out: Vec<TileKey> = Vec::new();
    let mut i: usize = 0;
    proof {
        reveal(Seq::filter);
        assert(chosen@.take(0).filter(p) =~= Seq::<TileKey>::empty());
    }
    while i < chosen.len()
        invariant
            i <= chosen@.len(),
            p == (|k: TileKey| !above_chosen(chosen@, k)),
            out@ == chosen@.take(i as int).filter(p),
        decreases chosen@.len() - i,
    {
        proof {
            lemma_filter_step(chosen@, i as int, p);
        }
        if !under_chosen(chosen, chosen[i]) {
            out.push(chosen[i]);
        }
        i += 1;
    }
    assert(chosen@.take(chosen@.len() as int) =~= chosen@);
    out
}

proof fn lemma_filter_step(s: Seq<TileKey>, i: int, p: spec_fn(TileKey) -> bool)
    requires
        0 <= i < s.len(),
    ensures
        s.take(i + 1).filter(p) == (if p(s[i]) {
            s.take(i).filter(p).push(s[i])
        } else {
            s.take(i).filter(p)
        }),
{
    reveal(Seq::filter);
    assert(s.take(i + 1).drop_last() =~= s.take(i));
}

// --------------------------------------------------------------------- laws

/// A drawn tile never lies under another drawn tile.
pub proof fn drawn_tiles_have_no_drawn_ancestor(m: Map<u64, Resident>, keys: Seq<TileKey>, k: TileKey)
    requires
        unhidden(chosen_tiles(m, keys)).contains(k),
    ensures
        !above_chosen(unhidden(chosen_tiles(m, keys)), k),
{
    let chosen = chosen_tiles(m, keys);
    let p = |t: TileKey| !above_chosen(chosen, t);
    lemma_filter_contains(chosen, p);
    assert(p(k));
    lemma_fewer_above(unhidden(chosen), chosen, k);
}

/// A tile that is drawn is resident, or is among those that the resolution
/// has built before drawing.
pub proof fn drawn_tiles_are_ready(m: Map<u64, Resident>, keys: Seq<TileKey>, t: TileKey)
    requires
        unhidden(chosen_tiles(m, keys)).contains(t),
    ensures
        there(m, t) || keys.filter(|k: TileKey| must_build(m, k)).contains(t),
{
    let chosen = chosen_tiles(m, keys);
    lemma_filter_contains(chosen, |k: TileKey| !above_chosen(chosen, k));
    first_occurrences_keep_the_set(drawn_for_all(m, keys));
    assert(drawn_for_all(m, keys).contains(t));
    lemma_drawn_ready(m, keys, t);
    lemma_filter_contains(keys, |k: TileKey| must_build(m, k));
}

proof fn lemma_drawn_ready(m: Map<u64, Resident>, keys: Seq<TileKey>, t: TileKey)
    requires
        drawn_for_all(m, keys).contains(t),
    ensures
        there(m, t) || (keys.contains(t) && must_build(m, t)),
    decreases keys.len(),
{
    if keys.len() > 0 {
        let k = keys.last();
        let rest = drawn_for_all(m, keys.drop_last());
        let own = drawn_for(m, k);
        if rest.contains(t) {
            lemma_drawn_ready(m, keys.drop_last(), t);
            push_contains(keys.drop_last(), k);
            assert(keys.drop_last().push(k) =~= keys);
        } else {
            let i = choose|i: int| 0 <= i < (rest + own).len() && (rest + own)[i] == t;
            if i < rest.len() {
                assert(rest[i] == t);
            }
            assert(own[i - rest.len()] == t);
            lemma_above_there(m, k);
        }
    }
}

proof fn lemma_above_there(m: Map<u64, Resident>, k: TileKey)
    ensures
        nearest_above(m, k) matches Some(a) ==> there(m, a),
    decreases k.level,
{
    if k.level > 0 && !there(m, k.up()) {
        lemma_above_there(m, k.up());
    }
}

/// A filtered list holds the listed tiles that pass.
pub proof fn lemma_filter_contains(s: Seq<TileKey>, p: spec_fn(TileKey) -> bool)
    ensures
        forall|k: TileKey| #[trigger] s.filter(p).contains(k) <==> (s.contains(k) && p(k)),
    decreases s.len(),
{
    reveal(Seq::filter);
    if s.len() > 0 {
        lemma_filter_contains(s.drop_last(), p);
        push_contains(s.drop_last(), s.last());
        push_contains(s.drop_last().filter(p), s.last());
        assert(s.drop_last().push(s.last()) =~= s);
    }
}

proof fn lemma_fewer_above(few: Seq<TileKey>, many: Seq<TileKey>, k: TileKey)
    requires
        forall|t: TileKey| #[trigger] few.contains(t) ==> many.contains(t),
    ensures
        above_chosen(few, k) ==> above_chosen(many, k),
    decreases k.level,
{
    if k.level > 0 {
        lemma_fewer_above(few, many, k.up());
    }
}

/// `d` is `k` or stands above it.
pub open spec fn at_or_above(d: TileKey, k: TileKey) -> bool
    decreases k.level,
{
    d == k || (k.level > 0 && at_or_above(d, k.up()))
}

proof fn lemma_top_chosen(chosen: Seq<TileKey>, k: TileKey)
    requires
        chosen.contains(k) || above_chosen(chosen, k),
    ensures
        exists|d: TileKey| #[trigger] unhidden(chosen).contains(d) && at_or_above(d, k),
    decreases k.level,
{
    let p = |t: TileKey| !above_chosen(chosen, t);
    lemma_filter_contains(chosen, p);
    if above_chosen(chosen, k) {
        lemma_top_chosen(chosen, k.up());
        let d = choose|d: TileKey| #[trigger] unhidden(chosen).contains(d) && at_or_above(d, k.up());
        assert(at_or_above(d, k));
    } else {
        assert(p(k));
        assert(unhidden(chosen).contains(k));
        assert(at_or_above(k, k));
    }
}

proof fn lemma_up_covers(k: TileKey, face: u8, x: int, y: int)
    requires
        0 < k.level <= MAX_LEVEL,
        covers(k, face, x, y),
    ensures
        covers(k.up(), face, x, y),
{
    lemma_half_spans(k.ix as int, k.level as int, x);
    lemma_half_spans(k.iy as int, k.level as int, y);
}

proof fn lemma_half_spans(index: int, level: int, x: int)
    requires
        0 < level <= MAX_LEVEL,
        index >= 0,
        crate::tile::spans(index, level, x),
    ensures
        crate::tile::spans(index / 2, level - 1, x),
{
    let p = pow2(MAX_LEVEL - level);
    let h = index / 2;
    let d = index % 2;
    assert(pow2(MAX_LEVEL - (level - 1)) == 2 * p);
    lemma_pow2_positive(MAX_LEVEL - level);
    assert(index == 2 * h + d);
    assert(index * p == 2 * (h * p) + d * p) by (nonlinear_arith)
        requires
            index == 2 * h + d,
    ;
    assert((index + 1) * p == 2 * (h * p) + d * p + p) by (nonlinear_arith)
        requires
            index == 2 * h + d,
    ;
    assert(h * (2 * p) == 2 * (h * p)) by (nonlinear_arith);
    assert((h + 1) * (2 * p) == 2 * (h * p) + 2 * p) by (nonlinear_arith);
    assert(0 <= d * p <= p) by (nonlinear_arith)
        requires
            0 <= d <= 1,
            p >= 1,
    ;
}

proof fn lemma_pow2_positive(n: int)
    ensures
        pow2(n) >= 1,
    decreases n,
{
    if n > 0 {
        lemma_pow2_positive(n - 1);
    }
}

proof fn lemma_above_covers(d: TileKey, k: TileKey, face: u8, x: int, y: int)
    requires
        at_or_above(d, k),
        k.level <= MAX_LEVEL,
        covers(k, face, x, y),
    ensures
        covers(d, face, x, y),
    decreases k.level,
{
    if d != k {
        lemma_up_covers(k, face, x, y);
        lemma_above_covers(d, k.up(), face, x, y);
    }
}

proof fn lemma_nearest_above(m: Map<u64, Resident>, k: TileKey)
    ensures
        nearest_above(m, k) matches Some(a) ==> at_or_above(a, k),
    decreases k.level,
{
    if k.level > 0 {
        if there(m, k.up()) {
            assert(at_or_above(k.up(), k.up()));
        } else {
            lemma_nearest_above(m, k.up());
        }
    }
}

proof fn lemma_quarter_spans(index: int, level: int, x: int)
    requires
        0 <= level < MAX_LEVEL,
        crate::tile::spans(index, level, x),
    ensures
        crate::tile::spans(2 * index, level + 1, x) || crate::tile::spans(
            2 * index + 1,
            level + 1,
            x,
        ),
{
    let p = pow2(MAX_LEVEL - level - 1);
    assert(pow2(MAX_LEVEL - level) == 2 * p);
    assert(index * (2 * p) == (2 * index) * p) by (nonlinear_arith);
    assert((index + 1) * (2 * p) == (2 * index + 1 + 1) * p) by (nonlinear_arith);
}

proof fn lemma_drawn_for_covers(m: Map<u64, Resident>, k: TileKey, face: u8, x: int, y: int)
    requires
        k.wf(),
        k.level < MAX_LEVEL || !all_below(m, k),
        covers(k, face, x, y),
    ensures
        exists|i: int|
            0 <= i < drawn_for(m, k).len() && covers(#[trigger] drawn_for(m, k)[i], face, x, y)
                && drawn_for(m, k)[i].level <= MAX_LEVEL,
{
    let s = drawn_for(m, k);
    if there(m, k) {
        assert(s[0] == k);
    } else {
        match nearest_above(m, k) {
            Some(a) => {
                lemma_nearest_above(m, k);
                lemma_above_covers(a, k, face, x, y);
                lemma_level_above(a, k);
                assert(s[0] == a);
            },
            None => {
                if all_below(m, k) {
                    lemma_quarter_spans(k.ix as int, k.level as int, x);
                    lemma_quarter_spans(k.iy as int, k.level as int, y);
                    lemma_pow2_small(k.level as int);
                    assert(s[0] == k.down(0, 0) && s[1] == k.down(1, 0) && s[2] == k.down(0, 1)
                        && s[3] == k.down(1, 1));
                    assert(covers(s[0], face, x, y) || covers(s[1], face, x, y) || covers(
                        s[2],
                        face,
                        x,
                        y,
                    ) || covers(s[3], face, x, y));
                } else {
                    assert(s[0] == k);
                }
            },
        }
    }
}

proof fn lemma_pow2_small(n: int)
    requires
        0 <= n < MAX_LEVEL,
    ensures
        pow2(n) <= 2048,
{
    lemma_pow2_step(n, 11);
    assert(pow2(11) == 2048) by {
        reveal_with_fuel(pow2, 12);
    }
}

proof fn lemma_pow2_step(n: int, m: int)
    requires
        n <= m,
    ensures
        pow2(n) <= pow2(m),
    decreases m - n,
{
    if n < m {
        lemma_pow2_step(n, m - 1);
        lemma_pow2_positive(m - 1);
    }
}

proof fn lemma_level_above(a: TileKey, k: TileKey)
    requires
        at_or_above(a, k),
    ensures
        a.level <= k.level,
    decreases k.level,
{
    if a != k {
        lemma_level_above(a, k.up());
    }
}

proof fn lemma_drawn_member(m: Map<u64, Resident>, keys: Seq<TileKey>, i: int, t: TileKey)
    requires
        0 <= i < keys.len(),
        drawn_for(m, keys[i]).contains(t),
    ensures
        drawn_for_all(m, keys).contains(t),
    decreases keys.len(),
{
    let rest = drawn_for_all(m, keys.drop_last());
    let last = drawn_for(m, keys.last());
    let all = rest + last;
    if i == keys.len() - 1 {
        let j = choose|j: int| 0 <= j < last.len() && last[j] == t;
        assert(all[rest.len() + j] == t);
    } else {
        lemma_drawn_member(m, keys.drop_last(), i, t);
        let j = choose|j: int| 0 <= j < rest.len() && rest[j] == t;
        assert(all[j] == t);
    }
}

/// The ground stays covered: whatever cell of the finest grid a selected tile
/// covers, some drawn tile covers it too.
pub proof fn drawn_tiles_cover_the_selection(
    m: Map<u64, Resident>,
    keys: Seq<TileKey>,
    i: int,
    face: u8,
    x: int,
    y: int,
)
    requires
        0 <= i < keys.len(),
        keys[i].wf(),
        keys[i].level < MAX_LEVEL || !all_below(m, keys[i]),
        covers(keys[i], face, x, y),
    ensures
        exists|d: TileKey| #[trigger]
            unhidden(chosen_tiles(m, keys)).contains(d) && covers(d, face, x, y),
{
    let k = keys[i];
    let chosen = chosen_tiles(m, keys);
    lemma_drawn_for_covers(m, k, face, x, y);
    let s = drawn_for(m, k);
    let j = choose|j: int|
        0 <= j < s.len() && covers(#[trigger] s[j], face, x, y) && s[j].level <= MAX_LEVEL;
    let t = s[j];
    assert(s.contains(t));
    lemma_drawn_member(m, keys, i, t);
    first_occurrences_keep_the_set(drawn_for_all(m, keys));
    assert(chosen.contains(t));
    lemma_top_chosen(chosen, t);
    let d = choose|d: TileKey| #[trigger] unhidden(chosen).contains(d) && at_or_above(d, t);
    lemma_above_covers(d, t, face, x, y);
}

/// A background build that was requested before its request was forgotten or
/// renewed never lands: only the current request's number is taken.
pub proof fn renewed_requests_have_new_numbers(a: Asked, k: TileKey, other: TileKey)
    requires
        !a.in_flight.contains_key(k.id()),
        other != k,
    ensures
        ask(a, k).in_flight[k.id()] == a.next_epoch,
        ask(a, k).in_flight.contains_key(other.id()) == a.in_flight.contains_key(other.id()),
        a.in_flight.contains_key(other.id()) ==> ask(a, k).in_flight[other.id()]
            == a.in_flight[other.id()],
{
    ids_differ(k, other);
}

/// The stand-in above a tile is the nearest: it is resident, lies over the
/// tile, and no node between the two is resident. There is none just where no
/// node over the tile is resident.
pub proof fn stand_ins_are_the_nearest(m: Map<u64, Resident>, k: TileKey, level: int)
    requires
        0 <= level < k.level,
    ensures
        nearest_above(m, k) is None ==> !there(m, node_over(k, level)),
        nearest_above(m, k) matches Some(a) ==> a.level < k.level && a == node_over(k, a.level as int)
            && there(m, a) && (level > a.level ==> !there(m, node_over(k, level))),
    decreases k.level,
{
    let u = k.up();
    assert(node_over(k, level) == node_over(u, level));
    if there(m, u) {
        assert(node_over(u, u.level as int) == u);
        assert(node_over(k, u.level as int) == node_over(u, u.level as int));
    } else {
        if level < u.level {
            stand_ins_are_the_nearest(m, u, level);
        } else {
            assert(node_over(u, level) == u);
            if u.level > 0 {
                stand_ins_are_the_nearest(m, u, 0);
            }
        }
        if let Some(a) = nearest_above(m, u) {
            assert(node_over(k, a.level as int) == node_over(u, a.level as int));
        }
    }
}

/// What is drawn for a selected tile: the tile itself where it is resident;
/// else the nearest resident node over it; else its four children where all
/// are resident; else the tile itself, which must then be built. A live frame
/// leaves a missing tile to the background exactly where something stands in
/// for it and it is not deep.
pub proof fn missing_tiles_are_stood_in_for(m: Map<u64, Resident>, k: TileKey)
    ensures
        ({
            let children = there(m, k.down(0, 0)) && there(m, k.down(1, 0)) && there(m, k.down(0, 1))
                && there(m, k.down(1, 1));
            let above = nearest_above(m, k);
            &&& there(m, k) ==> drawn_for(m, k) == seq![k] && !must_build(m, k)
            &&& !there(m, k) && above is Some ==> drawn_for(m, k) == seq![above->0] && !must_build(m, k)
            &&& !there(m, k) && above is None && children ==> drawn_for(m, k) == seq![
                k.down(0, 0),
                k.down(1, 0),
                k.down(0, 1),
                k.down(1, 1),
            ] && !must_build(m, k)
            &&& !there(m, k) && above is None && !children ==> drawn_for(m, k) == seq![k] && must_build(
                m,
                k,
            )
            &&& deferrable(m, k) <==> !k.deep && (above is Some || children)
        }),
{
}

/// A tile is requested once: where no build of it is in flight, under the next
/// number, and other builds go on.
pub proof fn tiles_are_requested_once(a: Asked, k: TileKey, other: TileKey)
    ensures
        ({
            let b = ask(a, k);
            &&& a.in_flight.contains_key(k.id()) ==> b == a
            &&& !a.in_flight.contains_key(k.id()) ==> b.requests == a.requests.push((k, a.next_epoch))
                && b.in_flight.contains_key(k.id()) && b.in_flight[k.id()] == a.next_epoch
                && b.next_epoch == (if a.next_epoch < u64::MAX {
                (a.next_epoch + 1) as u64
            } else {
                0
            })
            &&& other != k ==> b.in_flight.contains_key(other.id()) == a.in_flight.contains_key(other.id())
            &&& other != k && a.in_flight.contains_key(other.id()) ==> b.in_flight[other.id()]
                == a.in_flight[other.id()]
        }),
{
    ids_differ(k, other);
}

/// After a list is asked for, every tile of it is in flight, nothing else was
/// requested, and nothing that was in flight was requested again.
pub proof fn lists_are_asked_for_whole(a: Asked, keys: Seq<TileKey>, k: TileKey)
    ensures
        keys.contains(k) ==> ask_all(a, keys).in_flight.contains_key(k.id()),
        !keys.contains(k) ==> ask_all(a, keys).in_flight.contains_key(k.id()) == a.in_flight.contains_key(
            k.id(),
        ),
        a.requests.len() <= ask_all(a, keys).requests.len() <= a.requests.len() + keys.len(),
        forall|i: int|
            a.requests.len() <= i < ask_all(a, keys).requests.len() ==> keys.contains(
                (#[trigger] ask_all(a, keys).requests[i]).0,
            ) && !a.in_flight.contains_key(ask_all(a, keys).requests[i].0.id()),
        forall|i: int|
            0 <= i < a.requests.len() ==> #[trigger] ask_all(a, keys).requests[i] == a.requests[i],
    decreases keys.len(),
{
    if keys.len() > 0 {
        let head = keys.drop_last();
        let last = keys.last();
        lists_are_asked_for_whole(a, head, k);
        lists_are_asked_for_whole(a, head, last);
        tiles_are_requested_once(ask_all(a, head), last, k);
        assert(keys =~= head.push(last));
        push_contains(head, last);
        let b = ask_all(a, head);
        let c = ask_all(a, keys);
        assert forall|i: int| a.requests.len() <= i < c.requests.len() implies keys.contains(
            (#[trigger] c.requests[i]).0,
        ) && !a.in_flight.contains_key(c.requests[i].0.id()) by {
            if i < b.requests.len() {
                assert(c.requests[i] == b.requests[i]);
            } else if a.in_flight.contains_key(last.id()) {
                lemma_in_flight_stays(a, head, last.id());
            }
        }
    }
}

proof fn lemma_in_flight_stays(a: Asked, keys: Seq<TileKey>, id: u64)
    ensures
        a.in_flight.contains_key(id) ==> ask_all(a, keys).in_flight.contains_key(id),
    decreases keys.len(),
{
    if keys.len() > 0 {
        lemma_in_flight_stays(a, keys.drop_last(), id);
    }
}

/// Looking ahead stays within its budget, requests only forecast tiles that
/// are not resident, and leaves none of those out while there is budget.
pub proof fn forecasts_stay_within_budget(
    a: Asked,
    m: Map<u64, Resident>,
    forecast: Seq<TileKey>,
    room: int,
    k: TileKey,
)
    requires
        room >= 0,
    ensures
        ({
            let b = prefetched(a, m, forecast, room);
            &&& a.requests.len() <= b.requests.len() <= a.requests.len() + room
            &&& forall|i: int|
                a.requests.len() <= i < b.requests.len() ==> forecast.contains(
                    (#[trigger] b.requests[i]).0,
                ) && !there(m, b.requests[i].0)
            &&& forecast.contains(k) && !there(m, k) && b.requests.len() - a.requests.len() < room
                ==> b.in_flight.contains_key(k.id())
        }),
    decreases forecast.len(),
{
    if forecast.len() > 0 {
        let head = forecast.drop_last();
        let last = forecast.last();
        forecasts_stay_within_budget(a, m, head, room, k);
        assert(forecast =~= head.push(last));
        push_contains(head, last);
        let b = prefetched(a, m, head, room);
        let c = prefetched(a, m, forecast, room);
        tiles_are_requested_once(b, last, k);
        assert forall|i: int| a.requests.len() <= i < c.requests.len() implies forecast.contains(
            (#[trigger] c.requests[i]).0,
        ) && !there(m, c.requests[i].0) by {
            if i < b.requests.len() {
                assert(c.requests[i] == b.requests[i]);
            }
        }
    }
}

/// The tiles prefetched for coarsening are the selected tiles' parents.
pub proof fn parents_are_of_the_selection(keys: Seq<TileKey>, p: TileKey)
    ensures
        parents_of(keys).contains(p) <==> exists|i: int|
            0 <= i < keys.len() && (#[trigger] keys[i]).level > 0 && p == keys[i].up(),
    decreases keys.len(),
{
    if keys.len() > 0 {
        let head = keys.drop_last();
        let last = keys.last();
        parents_are_of_the_selection(head, p);
        let rest = parents_of(head);
        if last.level > 0 {
            push_contains(rest, last.up());
        }
        assert(keys[keys.len() - 1] == last);
        if exists|i: int| 0 <= i < head.len() && (#[trigger] head[i]).level > 0 && p == head[i].up() {
            let i = choose|i: int| 0 <= i < head.len() && (#[trigger] head[i]).level > 0 && p == head[i].up();
            assert(keys[i] == head[i]);
        }
        if exists|i: int| 0 <= i < keys.len() && (#[trigger] keys[i]).level > 0 && p == keys[i].up() {
            let i = choose|i: int| 0 <= i < keys.len() && (#[trigger] keys[i]).level > 0 && p == keys[i].up();
            if i < head.len() {
                assert(head[i] == keys[i]);
            }
        }
    }
}

/// A tile is stale where it is resident and was built for another season; a
/// tile is there where its number is resident.
pub proof fn other_seasons_are_stale(m: Map<u64, Resident>, season: u32, k: TileKey)
    ensures
        stale_tile(m, season, k) ==> m.contains_key(k.id()) && m[k.id()].bucket != season,
        m.contains_key(k.id()) && m[k.id()].bucket != season ==> stale_tile(m, season, k),
        there(m, k) <==> m.contains_key(k.id()),
{
}

/// A chosen tile is hidden exactly by a chosen tile right above it, or by one
/// that hides its parent. Nothing stands above the coarsest tiles.
pub proof fn chosen_tiles_hide_what_is_below(chosen: Seq<TileKey>, k: TileKey)
    ensures
        k.level == 0 ==> !above_chosen(chosen, k),
        k.level > 0 && chosen.contains(k.up()) ==> above_chosen(chosen, k),
        k.level > 0 && !chosen.contains(k.up()) ==> above_chosen(chosen, k) == above_chosen(
            chosen,
            k.up(),
        ),
        unhidden(chosen).contains(k) <==> chosen.contains(k) && !above_chosen(chosen, k),
{
    lemma_filter_contains(chosen, |k: TileKey| !above_chosen(chosen, k));
}

} // verus!
