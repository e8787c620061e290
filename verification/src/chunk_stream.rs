//! Streaming voxel chunks: invalidation after edits, background builds, and
//! what is drawn meanwhile.

use vstd::prelude::*;
use crate::body::BodyId;
use crate::cache::{Resident, Residents, uploaded};
use crate::chunk::ChunkKey;
use crate::table::Table;

verus! {

/// Chunks that a frame rebuilds only because the season changed.
pub const SEASON_REFRESHES: usize = 16;

/// Chunk indices stay below this, far beyond any lattice.
pub const CHUNK_INDEX_LIMIT: u64 = 0x0400_0000;

/// A background build: the chunk and the request's number.
pub type ChunkRequest = (ChunkKey, u64);

pub open spec fn key_ok(k: ChunkKey) -> bool {
    k.cx < CHUNK_INDEX_LIMIT && k.cy < CHUNK_INDEX_LIMIT
}

pub open spec fn keys_ok(keys: Seq<ChunkKey>) -> bool {
    forall|i: int| 0 <= i < keys.len() ==> key_ok(#[trigger] keys[i])
}

pub open spec fn body_number(body: BodyId) -> int {
    match body {
        BodyId::Sun => 0,
        BodyId::Neisor => 1,
        BodyId::Moon => 2,
    }
}

/// A number that identifies a chunk.
pub open spec fn chunk_id(k: ChunkKey) -> u64 {
    (((body_number(k.body) * 256 + k.face) * CHUNK_INDEX_LIMIT + k.cx) * CHUNK_INDEX_LIMIT
        + k.cy) as u64
}

/// Different chunks have different numbers.
pub proof fn chunk_ids_differ(a: ChunkKey, b: ChunkKey)
    requires
        key_ok(a),
        key_ok(b),
    ensures
        chunk_id(a) == chunk_id(b) ==> a == b,
{
    let fa = body_number(a.body) * 256 + a.face;
    let fb = body_number(b.body) * 256 + b.face;
    let xa = fa * CHUNK_INDEX_LIMIT + a.cx;
    let xb = fb * CHUNK_INDEX_LIMIT + b.cx;
    if chunk_id(a) == chunk_id(b) {
        assert(xa == xb && a.cy == b.cy);
        assert(fa == fb && a.cx == b.cx);
    }
}

/// A chunk's number.
pub fn chunk_code(k: ChunkKey) -> (r: u64)
    requires
        key_ok(k),
    ensures
        r == chunk_id(k),
{
    let body: u64 = match k.body {
        BodyId::Sun => 0,
        BodyId::Neisor => 1,
        BodyId::Moon => 2,
    };
    ((body * 256 + k.face as u64) * CHUNK_INDEX_LIMIT + k.cx) * CHUNK_INDEX_LIMIT + k.cy
}

/// The streaming state: resident chunks, builds in flight by request number,
/// resident chunks whose mesh an edit has outdated, and the next number.
#[verifier::ext_equal]
pub struct Streaming {
    pub chunks: Map<u64, Resident>,
    pub in_flight: Map<u64, u64>,
    pub outdated: Set<u64>,
    pub next_epoch: u64,
}

pub open spec fn following(epoch: u64) -> u64 {
    if epoch == u64::MAX {
        0
    } else {
        (epoch + 1) as u64
    }
}

/// An edit outdates a chunk: its build in flight is orphaned, and its mesh is
/// drawn on until a new one lands.
pub open spec fn invalidated(s: Streaming, k: ChunkKey) -> Streaming {
    Streaming {
        in_flight: s.in_flight.remove(chunk_id(k)),
        outdated: if s.chunks.contains_key(chunk_id(k)) {
            s.outdated.insert(chunk_id(k))
        } else {
            s.outdated
        },
        ..s
    }
}

pub open spec fn all_invalidated(s: Streaming, keys: Seq<ChunkKey>) -> Streaming
    decreases keys.len(),
{
    if keys.len() == 0 {
        s
    } else {
        invalidated(all_invalidated(s, keys.drop_last()), keys.last())
    }
}

/// A build lands if its request is still the chunk's current one.
pub open spec fn lands(s: Streaming, k: ChunkKey, epoch: u64) -> bool {
    s.in_flight.contains_key(chunk_id(k)) && s.in_flight[chunk_id(k)] == epoch
}

pub open spec fn landed(
    s: Streaming,
    k: ChunkKey,
    epoch: u64,
    bucket: u32,
    bytes: u64,
    frame: u64,
) -> Streaming {
    if lands(s, k, epoch) {
        Streaming {
            in_flight: s.in_flight.remove(chunk_id(k)),
            chunks: s.chunks.insert(
                chunk_id(k),
                uploaded(s.chunks, chunk_id(k), bytes, bucket, frame),
            ),
            ..s
        }
    } else {
        s
    }
}

/// Request a build of a chunk with the current edits.
pub open spec fn requested(s: Streaming, k: ChunkKey) -> Streaming {
    Streaming {
        in_flight: s.in_flight.insert(chunk_id(k), s.next_epoch),
        outdated: s.outdated.remove(chunk_id(k)),
        next_epoch: following(s.next_epoch),
        ..s
    }
}

pub open spec fn wrong_season(s: Streaming, k: ChunkKey, season: u32) -> bool {
    s.chunks.contains_key(chunk_id(k)) && s.chunks[chunk_id(k)].bucket != season
}

/// A chunk needs a build: it is missing, outdated or of another season.
pub open spec fn needs_build(s: Streaming, k: ChunkKey, season: u32) -> bool {
    !s.chunks.contains_key(chunk_id(k)) || s.outdated.contains(chunk_id(k)) || wrong_season(
        s,
        k,
        season,
    )
}

/// A build is due only because the season changed.
pub open spec fn seasonal(s: Streaming, k: ChunkKey, season: u32) -> bool {
    wrong_season(s, k, season) && !s.outdated.contains(chunk_id(k))
}

/// One frame's requests so far.
#[verifier::ext_equal]
pub struct Queue {
    pub state: Streaming,
    pub requests: Seq<ChunkRequest>,
    pub missing: Seq<ChunkKey>,
    pub refreshes: int,
}

/// What a frame does about one selected chunk: note it while it has no mesh,
/// and request a build unless one is in flight or the season's share of
/// refreshes is used up.
pub open spec fn queue_one(q: Queue, k: ChunkKey, season: u32) -> Queue {
    let s = q.state;
    if !needs_build(s, k, season) {
        q
    } else {
        let missing = if s.chunks.contains_key(chunk_id(k)) {
            q.missing
        } else {
            q.missing.push(k)
        };
        if s.in_flight.contains_key(chunk_id(k)) || (seasonal(s, k, season) && q.refreshes
            >= SEASON_REFRESHES) {
            Queue { missing, ..q }
        } else {
            Queue {
                state: requested(s, k),
                requests: q.requests.push((k, s.next_epoch)),
                missing,
                refreshes: q.refreshes + if seasonal(s, k, season) {
                    1int
                } else {
                    0
                },
            }
        }
    }
}

pub open spec fn queue_all(q: Queue, keys: Seq<ChunkKey>, season: u32) -> Queue
    decreases keys.len(),
{
    if keys.len() == 0 {
        q
    } else {
        queue_one(queue_all(q, keys.drop_last(), season), keys.last(), season)
    }
}

/// The chunks of a body that are resident, being built, or outdated.
pub struct ChunkStream {
    pub chunks: Residents,
    pub in_flight: Table<u64>,
    pub outdated: Table<bool>,
    pub next_epoch: u64,
}

impl View for ChunkStream {
    type V = Streaming;

    open spec fn view(&self) -> Streaming {
        Streaming {
            chunks: self.chunks@,
            in_flight: self.in_flight@,
            outdated: self.outdated@.dom(),
            next_epoch: self.next_epoch,
        }
    }
}

impl ChunkStream {
    pub fn new() -> (r: Self)
        ensures
            r@ == (Streaming {
                chunks: Map::empty(),
                in_flight: Map::empty(),
                outdated: Set::empty(),
                next_epoch: 0,
            }),
    {
        let r = ChunkStream {
            chunks: Residents::new(),
            in_flight: Table::new(),
            outdated: Table::new(),
            next_epoch: 0,
        };
        assert(r@.outdated =~= Set::<u64>::empty());
        r
    }

    /// Outdate edited chunks so that they are rebuilt.
    pub fn invalidate_chunks(&mut self, keys: &Vec<ChunkKey>)
        requires
            keys_ok(keys@),
        ensures
            final(self)@ == all_invalidated(old(self)@, keys@),
    {
        let ghost start = self@;
        let mut i: usize = 0;
        while i < keys.len()
            invariant
                i <= keys@.len(),
                keys_ok(keys@),
                self@ == all_invalidated(start, keys@.take(i as int)),
            decreases keys@.len() - i,
        {
            assert(keys@.take(i as int + 1).drop_last() =~= keys@.take(i as int));
            assert(key_ok(keys@[i as int]));
            let ghost before = self@;
            let id: u64 = chunk_code(keys[i]);
            self.in_flight.remove(id);
            if self.chunks.contains(id) {
                self.outdated.insert(id, true);
            }
            assert(self@ =~= invalidated(before, keys@[i as int]));
            i += 1;
        }
        assert(keys@.take(keys@.len() as int) =~= keys@);
    }

    /// A background build came back; returns whether it was taken.
    pub fn land(&mut self, k: ChunkKey, epoch: u64, bucket: u32, bytes: u64, frame: u64) -> (taken:
        bool)
        requires
            key_ok(k),
        ensures
            taken == lands(old(self)@, k, epoch),
            final(self)@ == landed(old(self)@, k, epoch, bucket, bytes, frame),
    {
        let ghost before = self@;
        let id: u64 = chunk_code(k);
        let ours: bool = match self.in_flight.get(id) {
            Some(e) => e == epoch,
            None => false,
        };
        if !ours {
            return false;
        }
        self.in_flight.remove(id);
        self.chunks.upload(id, bytes, bucket, frame);
        assert(self@ =~= landed(before, k, epoch, bucket, bytes, frame));
        true
    }

    /// Another world replaces this one: nothing built from the old edits
    /// survives.
    pub fn replace_world(&mut self)
        ensures
            final(self)@ == (Streaming {
                chunks: Map::empty(),
                in_flight: Map::empty(),
                outdated: Set::empty(),
                next_epoch: following(old(self).next_epoch),
            }),
    {
        self.next_epoch = if self.next_epoch == u64::MAX {
            0
        } else {
            self.next_epoch + 1
        };
        self.in_flight.clear();
        self.outdated.clear();
        self.chunks.clear();
        assert(self@.outdated =~= Set::<u64>::empty());
    }

    /// Queue builds for the selected chunks, nearest first. Returns the
    /// requests and the chunks that have no mesh at all yet.
    pub fn queue(&mut self, keys: &Vec<ChunkKey>, season: u32) -> (r: (
        Vec<ChunkRequest>,
        Vec<ChunkKey>,
    ))
        requires
            keys_ok(keys@),
        ensures
            ({
                let q = queue_all(
                    Queue {
                        state: old(self)@,
                        requests: Seq::empty(),
                        missing: Seq::empty(),
                        refreshes: 0,
                    },
                    keys@,
                    season,
                );
                final(self)@ == q.state && r.0@ == q.requests && r.1@ == q.missing
            }),
    {
        let mut requests: Vec<ChunkRequest> = Vec::new();
        let mut missing: Vec<ChunkKey> = Vec::new();
        let mut refreshes: usize = 0;
        let ghost start = Queue {
            state: self@,
            requests: Seq::empty(),
            missing: Seq::empty(),
            refreshes: 0,
        };
        let mut i: usize = 0;
        assert(Queue {
            state: self@,
            requests: requests@,
            missing: missing@,
            refreshes: refreshes as int,
        } =~= start);
        while i < keys.len()
            invariant
                i <= keys@.len(),
                keys_ok(keys@),
                refreshes <= SEASON_REFRESHES,
                (Queue {
                    state: self@,
                    requests: requests@,
                    missing: missing@,
                    refreshes: refreshes as int,
                }) == queue_all(start, keys@.take(i as int), season),
            decreases keys@.len() - i,
        {
            let k: ChunkKey = keys[i];
            assert(keys@.take(i as int + 1).drop_last() =~= keys@.take(i as int));
            assert(key_ok(keys@[i as int]));
            let ghost q = queue_all(start, keys@.take(i as int), season);
            let ghost before = self@;
            let id: u64 = chunk_code(k);
            let entry: Option<Resident> = self.chunks.get(id);
            let edit_stale: bool = self.outdated.contains(id);
            let season_stale: bool = match entry {
                Some(e) => e.bucket != season,
                None => false,
            };
            assert(edit_stale == before.outdated.contains(id));
            if entry.is_none() || edit_stale || season_stale {
                if entry.is_none() {
                    missing.push(k);
                }
                let share: bool = season_stale && !edit_stale;
                if !self.in_flight.contains(id) && !(share && refreshes >= SEASON_REFRESHES) {
                    if share {
                        refreshes += 1;
                    }
                    let epoch: u64 = self.next_epoch;
                    self.next_epoch = if epoch == u64::MAX {
                        0
                    } else {
                        epoch + 1
                    };
                    self.in_flight.insert(id, epoch);
                    self.outdated.remove(id);
                    requests.push((k, epoch));
                    assert(self@ =~= requested(before, k));
                }
            }
            assert(Queue {
                state: self@,
                requests: requests@,
                missing: missing@,
                refreshes: refreshes as int,
            } =~= queue_one(q, k, season));
            i += 1;
        }
        assert(keys@.take(keys@.len() as int) =~= keys@);
        (requests, missing)
    }

    /// Some selected chunk is being built or of another season: the frame is
    /// not final.
    pub fn deferred(&self, keys: &Vec<ChunkKey>, season: u32) -> (r: bool)
        requires
            keys_ok(keys@),
        ensures
            r == exists|i: int|
                0 <= i < keys@.len() && (self@.in_flight.contains_key(
                    chunk_id(#[trigger] keys@[i]),
                ) || wrong_season(self@, keys@[i], season)),
    {
        let mut i: usize = 0;
        while i < keys.len()
            invariant
                i <= keys@.len(),
                keys_ok(keys@),
                forall|j: int|
                    0 <= j < i ==> !self@.in_flight.contains_key(chunk_id(#[trigger] keys@[j]))
                        && !wrong_season(self@, keys@[j], season),
            decreases keys@.len() - i,
        {
            assert(key_ok(keys@[i as int]));
            let id: u64 = chunk_code(keys[i]);
            let late: bool = match self.chunks.get(id) {
                Some(e) => e.bucket != season,
                None => false,
            };
            if self.in_flight.contains(id) || late {
                assert(self@.in_flight.contains_key(chunk_id(keys@[i as int])) || wrong_season(
                    self@,
                    keys@[i as int],
                    season,
                ));
                return true;
            }
            i += 1;
        }
        false
    }

    /// The selected chunks that have a mesh to draw.
    pub fn drawable(&self, keys: &Vec<ChunkKey>) -> (out: Vec<ChunkKey>)
        requires
            keys_ok(keys@),
        ensures
            out@ == keys@.filter(|k: ChunkKey| self@.chunks.contains_key(chunk_id(k))),
    {
        let ghost p = |k: ChunkKey| self@.chunks.contains_key(chunk_id(k));
        let mut out: Vec<ChunkKey> = Vec::new();
        let mut i: usize = 0;
        proof {
            reveal(Seq::filter);
            assert(keys@.take(0).filter(p) =~= Seq::<ChunkKey>::empty());
        }
        while i < keys.len()
            invariant
                i <= keys@.len(),
                keys_ok(keys@),
                p == (|k: ChunkKey| self@.chunks.contains_key(chunk_id(k))),
                out@ == keys@.take(i as int).filter(p),
            decreases keys@.len() - i,
        {
            proof {
                reveal(Seq::filter);
                assert(keys@.take(i as int + 1).drop_last() =~= keys@.take(i as int));
                assert(key_ok(keys@[i as int]));
            }
            if self.chunks.contains(chunk_code(keys[i])) {
                out.push(keys[i]);
            }
            i += 1;
        }
        assert(keys@.take(keys@.len() as int) =~= keys@);
        out
    }
}

/// A build from before an edit never lands: once its chunk is invalidated its
/// result is rejected, and stays rejected after the chunk is requested anew.
pub proof fn orphaned_builds_never_land(s: Streaming, k: ChunkKey, epoch: u64)
    requires
        lands(s, k, epoch),
        epoch != s.next_epoch,
    ensures
        !lands(invalidated(s, k), k, epoch),
        !lands(requested(invalidated(s, k), k), k, epoch),
        lands(requested(invalidated(s, k), k), k, s.next_epoch),
{
}

/// Invalidating a chunk keeps its mesh on screen, and the next frame that
/// selects it requests a build, whatever the season.
pub proof fn invalidated_chunks_stay_drawn_and_are_requested(
    q: Queue,
    k: ChunkKey,
    season: u32,
)
    requires
        q.state.chunks.contains_key(chunk_id(k)),
    ensures
        ({
            let after = Queue { state: invalidated(q.state, k), ..q };
            &&& after.state.chunks == q.state.chunks
            &&& queue_one(after, k, season).requests == q.requests.push(
                (k, q.state.next_epoch),
            )
            &&& queue_one(after, k, season).state.chunks == q.state.chunks
        }),
{
}

/// Edits of one chunk leave every other chunk's build in flight.
pub proof fn invalidation_is_local(s: Streaming, k: ChunkKey, other: ChunkKey, epoch: u64)
    requires
        key_ok(k),
        key_ok(other),
        other != k,
    ensures
        lands(invalidated(s, k), other, epoch) == lands(s, other, epoch),
{
    chunk_ids_differ(k, other);
}

/// Replacing the world orphans every build in flight.
pub proof fn replaced_worlds_take_no_old_build(s: Streaming, k: ChunkKey, epoch: u64)
    ensures
        !lands(
            Streaming {
                chunks: Map::empty(),
                in_flight: Map::empty(),
                outdated: Set::empty(),
                next_epoch: following(s.next_epoch),
            },
            k,
            epoch,
        ),
{
}

/// What a frame does about a selected chunk. A chunk that is resident, of this
/// season and not outdated is left alone. Any other is requested, unless a
/// build of it is in flight already, or only its season is old and sixteen such
/// chunks were requested before it. It is noted as missing where it has no mesh.
pub proof fn frames_request_what_is_due(q: Queue, k: ChunkKey, season: u32)
    ensures
        ({
            let id = chunk_id(k);
            let resident = q.state.chunks.contains_key(id);
            let old_edit = q.state.outdated.contains(id);
            let old_season = resident && q.state.chunks[id].bucket != season;
            let flying = q.state.in_flight.contains_key(id);
            let only_season = old_season && !old_edit;
            let after = queue_one(q, k, season);
            &&& resident && !old_edit && !old_season ==> after == q
            &&& !resident ==> after.missing == q.missing.push(k)
            &&& resident ==> after.missing == q.missing
            &&& flying || (only_season && q.refreshes >= 16) ==> after.requests == q.requests
                && after.state == q.state
            &&& (!resident || old_edit) && !flying ==> after.requests == q.requests.push(
                (k, q.state.next_epoch),
            ) && after.refreshes == q.refreshes
            &&& only_season && !flying && q.refreshes < 16 ==> after.requests == q.requests.push(
                (k, q.state.next_epoch),
            ) && after.refreshes == q.refreshes + 1
            &&& after.requests != q.requests ==> {
                &&& after.state.in_flight == q.state.in_flight.insert(id, q.state.next_epoch)
                &&& !after.state.outdated.contains(id)
                &&& after.state.chunks == q.state.chunks
                &&& after.state.next_epoch != q.state.next_epoch
            }
        }),
{
    let after = queue_one(q, k, season);
    assert(q.requests.push((k, q.state.next_epoch)).len() == q.requests.len() + 1);
}

/// Requests of one chunk leave every other chunk as it was.
pub proof fn requests_are_local(s: Streaming, k: ChunkKey, other: ChunkKey, epoch: u64)
    requires
        key_ok(k),
        key_ok(other),
        other != k,
    ensures
        lands(requested(s, k), other, epoch) == lands(s, other, epoch),
        requested(s, k).outdated.contains(chunk_id(other)) == s.outdated.contains(chunk_id(other)),
        lands(requested(s, k), k, epoch) <==> epoch == s.next_epoch,
{
    chunk_ids_differ(k, other);
}

/// A build that lands becomes the chunk's mesh, of its season and size, and is
/// no longer in flight; every other chunk stays. A build that does not land
/// changes nothing.
pub proof fn landed_builds_are_drawn(
    s: Streaming,
    k: ChunkKey,
    other: ChunkKey,
    epoch: u64,
    bucket: u32,
    bytes: u64,
    frame: u64,
)
    requires
        key_ok(k),
        key_ok(other),
    ensures
        ({
            let id = chunk_id(k);
            let after = landed(s, k, epoch, bucket, bytes, frame);
            let current = s.in_flight.contains_key(id) && s.in_flight[id] == epoch;
            &&& !current ==> after == s
            &&& current ==> after.chunks.contains_key(id) && after.chunks[id].bucket == bucket
                && after.chunks[id].bytes == bytes && !after.in_flight.contains_key(id)
            &&& other != k ==> after.chunks.contains_key(chunk_id(other)) == s.chunks.contains_key(
                chunk_id(other),
            ) && (s.chunks.contains_key(chunk_id(other)) ==> after.chunks[chunk_id(other)]
                == s.chunks[chunk_id(other)]) && lands(after, other, epoch) == lands(s, other, epoch)
            &&& after.outdated == s.outdated
        }),
{
    if other != k {
        chunk_ids_differ(k, other);
    }
}

proof fn lemma_all_invalidated(s: Streaming, keys: Seq<ChunkKey>)
    ensures
        all_invalidated(s, keys).chunks == s.chunks,
        all_invalidated(s, keys).next_epoch == s.next_epoch,
    decreases keys.len(),
{
    if keys.len() > 0 {
        lemma_all_invalidated(s, keys.drop_last());
    }
}

/// After an edit, no edited chunk has a build in flight, every edited chunk
/// with a mesh is outdated and drawn on; every other chunk is as it was.
pub proof fn edits_outdate_their_chunks(s: Streaming, keys: Seq<ChunkKey>, k: ChunkKey)
    requires
        keys_ok(keys),
        key_ok(k),
    ensures
        ({
            let id = chunk_id(k);
            let after = all_invalidated(s, keys);
            &&& after.chunks == s.chunks
            &&& keys.contains(k) ==> !after.in_flight.contains_key(id)
            &&& keys.contains(k) && s.chunks.contains_key(id) ==> after.outdated.contains(id)
            &&& !keys.contains(k) ==> {
                &&& after.in_flight.contains_key(id) == s.in_flight.contains_key(id)
                &&& s.in_flight.contains_key(id) ==> after.in_flight[id] == s.in_flight[id]
                &&& after.outdated.contains(id) == s.outdated.contains(id)
            }
        }),
    decreases keys.len(),
{
    lemma_all_invalidated(s, keys);
    if keys.len() > 0 {
        let head = keys.drop_last();
        let last = keys.last();
        assert forall|i: int| 0 <= i < head.len() implies key_ok(#[trigger] head[i]) by {
            assert(key_ok(keys[i]));
        }
        assert(key_ok(keys[keys.len() - 1]));
        edits_outdate_their_chunks(s, head, k);
        lemma_all_invalidated(s, head);
        if k != last {
            chunk_ids_differ(k, last);
        }
        assert(keys.contains(k) <==> head.contains(k) || k == last) by {
            assert(keys =~= head.push(last));
            crate::order::push_contains(head, last);
        }
    }
}

/// A frame rebuilds at most sixteen chunks for the season alone.
pub proof fn seasons_change_by_degrees(q: Queue, keys: Seq<ChunkKey>, season: u32)
    requires
        q.refreshes <= 16,
    ensures
        q.refreshes <= queue_all(q, keys, season).refreshes <= 16,
    decreases keys.len(),
{
    if keys.len() > 0 {
        seasons_change_by_degrees(q, keys.drop_last(), season);
    }
}

/// Requests are numbered one after the other, and wrap at the end.
pub proof fn requests_are_numbered(s: Streaming, k: ChunkKey)
    ensures
        s.next_epoch < u64::MAX ==> requested(s, k).next_epoch == s.next_epoch + 1,
        s.next_epoch == u64::MAX ==> requested(s, k).next_epoch == 0,
{
}

} // verus!
