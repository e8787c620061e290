//! Meshes resident on the graphics card: recency, ease-in and memory budgets.
//!
//! The buffers themselves live with the renderer; here is the bookkeeping that
//! decides which of them stay.

use vstd::prelude::*;
use crate::table::{Table, as_map, entry_is_mapped, increasing, index_of};

verus! {

/// Bytes of terrain or chunk meshes past which the oldest are dropped.
pub const MESH_BUDGET: u64 = 536_870_912;

/// Bytes kept when the budget is enforced, so that a streamed batch finds
/// headroom.
pub const MESH_RETAIN: u64 = 402_653_184;

/// Bytes that even recently used meshes may not exceed.
pub const MESH_HARD: u64 = 1_073_741_824;

/// Bytes of moon meshes past which the oldest are dropped.
pub const MOON_BUDGET: u64 = 402_653_184;

/// Frames during which a used mesh is protected from the budget.
pub const PROTECT_FRAMES: u64 = 180;

/// Frames after which a crowded cache forgets an unused mesh.
pub const FORGET_FRAMES: u64 = 120;

/// Most terrain tiles, moon tiles and chunks kept whatever their age.
pub const TILE_CROWD: usize = 1500;

pub const MOON_CROWD: usize = 2400;

pub const CHUNK_CROWD: usize = 4000;

/// What is known of one resident mesh.
#[derive(Clone, Copy, PartialEq, Eq, Structural, Debug)]
pub struct Resident {
    pub bytes: u64,
    /// The last frame that drew it.
    pub last_used: u64,
    /// The frame it last entered the drawn set; it eases in from there.
    pub shown_at: u64,
    /// The season it was built for.
    pub bucket: u32,
}

/// How a budget is enforced: nothing happens up to `limit` bytes; past it,
/// meshes are kept newest first while they fit `retain`, and meshes last used
/// in frames `from..=to` while they fit `hard`, where there is such a ceiling.
#[derive(Clone, Copy)]
pub struct BudgetRule {
    pub limit: u64,
    pub retain: u64,
    pub hard: Option<u64>,
    pub from: u64,
    pub to: u64,
}

/// Terrain tiles and voxel chunks: recent meshes are protected up to a hard
/// ceiling; a settling capture protects only the current frame.
pub open spec fn mesh_rule_spec(frame: u64, settling: bool) -> BudgetRule {
    BudgetRule {
        limit: MESH_BUDGET,
        retain: MESH_RETAIN,
        hard: Some(MESH_HARD),
        from: if settling {
            frame
        } else if frame < PROTECT_FRAMES {
            0
        } else {
            (frame - PROTECT_FRAMES) as u64
        },
        to: u64::MAX,
    }
}

pub fn mesh_rule(frame: u64, settling: bool) -> (r: BudgetRule)
    ensures
        r == mesh_rule_spec(frame, settling),
{
    let window: u64 = if settling {
        0
    } else {
        PROTECT_FRAMES
    };
    let from: u64 = if frame < window {
        0
    } else {
        frame - window
    };
    BudgetRule {
        limit: MESH_BUDGET,
        retain: MESH_RETAIN,
        hard: Some(MESH_HARD),
        from,
        to: u64::MAX,
    }
}

/// Moon tiles: everything drawn this frame stays.
pub open spec fn moon_rule_spec(frame: u64) -> BudgetRule {
    BudgetRule { limit: MOON_BUDGET, retain: MOON_BUDGET, hard: None, from: frame, to: frame }
}

pub fn moon_rule(frame: u64) -> (r: BudgetRule)
    ensures
        r == moon_rule_spec(frame),
{
    BudgetRule { limit: MOON_BUDGET, retain: MOON_BUDGET, hard: None, from: frame, to: frame }
}

pub type Entry = (u64, Resident);

/// All bytes of the first `n` entries.
pub open spec fn total_bytes(s: Seq<Entry>, n: int) -> int
    decreases n,
{
    if n <= 0 {
        0
    } else {
        total_bytes(s, n - 1) + s[n - 1].1.bytes
    }
}

/// The `i`-th entry is kept, given the bytes of the entries kept before it.
pub open spec fn keeps(rule: BudgetRule, order: Seq<Entry>, i: int) -> bool
    decreases i, 1int,
{
    let e = order[i].1;
    let sum = kept_bytes(rule, order, i) + e.bytes;
    sum <= rule.retain || (rule.from <= e.last_used <= rule.to && (rule.hard matches Some(h) ==> sum
        <= h))
}

/// The bytes kept among the first `n` entries.
pub open spec fn kept_bytes(rule: BudgetRule, order: Seq<Entry>, n: int) -> int
    decreases n, 0int,
{
    if n <= 0 {
        0
    } else {
        kept_bytes(rule, order, n - 1) + if keeps(rule, order, n - 1) {
            order[n - 1].1.bytes as int
        } else {
            0
        }
    }
}

/// `order` lists the entries of `s`, most recently used first.
pub open spec fn newest_first(s: Seq<Entry>, order: Seq<Entry>) -> bool {
    &&& order.to_multiset() == s.to_multiset()
    &&& forall|i: int, j: int|
        0 <= i < j < order.len() ==> (#[trigger] order[i]).1.last_used >= (
        #[trigger] order[j]).1.last_used
}

/// Some entry with key `k` among the first `n` is kept.
pub open spec fn survives(rule: BudgetRule, order: Seq<Entry>, k: u64, n: int) -> bool {
    exists|i: int| 0 <= i < n && (#[trigger] order[i]).0 == k && keeps(rule, order, i)
}

/// Resident meshes by key.
pub struct Residents {
    pub table: Table<Resident>,
}

impl View for Residents {
    type V = Map<u64, Resident>;

    open spec fn view(&self) -> Map<u64, Resident> {
        self.table@
    }
}

/// What a mesh is recorded as when it is uploaded: a mesh that replaces a
/// resident one keeps its ease state.
pub open spec fn uploaded(
    m: Map<u64, Resident>,
    key: u64,
    bytes: u64,
    bucket: u32,
    frame: u64,
) -> Resident {
    Resident {
        bytes,
        last_used: frame,
        shown_at: if m.contains_key(key) {
            m[key].shown_at
        } else {
            frame
        },
        bucket,
    }
}

/// A mesh drawn in a frame: it eases in anew after any absence.
pub open spec fn touched(e: Resident, frame: u64) -> Resident {
    Resident {
        last_used: frame,
        shown_at: if e.last_used + 1 < frame {
            frame
        } else {
            e.shown_at
        },
        ..e
    }
}

/// The meshes that were used in the last `FORGET_FRAMES`.
pub open spec fn remembered(m: Map<u64, Resident>, frame: u64) -> Map<u64, Resident> {
    m.restrict(
        Set::new(|k: u64| m.contains_key(k) && m[k].last_used >= frame - FORGET_FRAMES),
    )
}

impl Residents {
    pub fn new() -> (r: Self)
        ensures
            r@ == Map::<u64, Resident>::empty(),
    {
        Residents { table: Table::new() }
    }

    pub fn contains(&self, key: u64) -> (r: bool)
        ensures
            r == self@.contains_key(key),
    {
        self.table.contains(key)
    }

    pub fn get(&self, key: u64) -> (r: Option<Resident>)
        ensures
            r == (if self@.contains_key(key) {
                Some(self@[key])
            } else {
                None
            }),
    {
        self.table.get(key)
    }

    /// Record an uploaded mesh.
    pub fn upload(&mut self, key: u64, bytes: u64, bucket: u32, frame: u64)
        ensures
            final(self)@ == old(self)@.insert(
                key,
                uploaded(old(self)@, key, bytes, bucket, frame),
            ),
    {
        let shown_at: u64 = match self.table.get(key) {
            Some(old_entry) => old_entry.shown_at,
            None => frame,
        };
        self.table.insert(key, Resident { bytes, last_used: frame, shown_at, bucket });
    }

    /// Mark a resident mesh as drawn, and say which frame it eases in from.
    pub fn touch(&mut self, key: u64, frame: u64) -> (shown_at: u64)
        requires
            old(self)@.contains_key(key),
        ensures
            final(self)@ == old(self)@.insert(key, touched(old(self)@[key], frame)),
            shown_at == touched(old(self)@[key], frame).shown_at,
    {
        let e: Resident = self.table.get(key).unwrap();
        let shown_at: u64 = if frame > 0 && e.last_used < frame - 1 {
            frame
        } else {
            e.shown_at
        };
        self.table.insert(
            key,
            Resident { bytes: e.bytes, last_used: frame, shown_at, bucket: e.bucket },
        );
        shown_at
    }

    pub fn clear(&mut self)
        ensures
            final(self)@ == Map::<u64, Resident>::empty(),
    {
        self.table.clear();
    }

    /// In a crowded cache, forget every mesh unused for `FORGET_FRAMES`.
    pub fn forget_old(&mut self, crowd: usize, frame: u64)
        ensures
            final(self)@ == (if old(self).table.list().len() > crowd {
                remembered(old(self)@, frame)
            } else {
                old(self)@
            }),
    {
        let cutoff: u64 = if frame < FORGET_FRAMES {
            0
        } else {
            frame - FORGET_FRAMES
        };
        let n: usize = self.table.len();
        if n <= crowd {
            return ;
        }
        let ghost before = self.table.list();
        let ghost m0 = self@;
        let mut kept: Table<Resident> = Table::new();
        let mut i: usize = 0;
        while i < n
            invariant
                i <= n,
                n == before.len(),
                before == self.table.list(),
                increasing(before),
                m0 == as_map(before),
                cutoff == (if frame < FORGET_FRAMES {
                    0
                } else {
                    frame - FORGET_FRAMES
                }),
                forall|k: u64| #[trigger]
                    kept@.contains_key(k) <==> exists|j: int|
                        0 <= j < i && (#[trigger] before[j]).0 == k && before[j].1.last_used
                            >= cutoff,
                forall|k: u64| #[trigger] kept@.contains_key(k) ==> kept@[k] == m0[k],
            decreases n - i,
        {
            let (key, e): Entry = self.table.entry(i);
            proof {
                entry_is_mapped(before, i as int);
            }
            if e.last_used >= cutoff {
                kept.insert(key, e);
            }
            i += 1;
        }
        proof {
            let want = Set::new(
                |k: u64| m0.contains_key(k) && m0[k].last_used >= frame - FORGET_FRAMES,
            );
            assert forall|k: u64| #[trigger] kept@.contains_key(k) <==> m0.restrict(want).contains_key(
                k,
            ) by {
                if kept@.contains_key(k) {
                    let j = choose|j: int|
                        0 <= j < n && (#[trigger] before[j]).0 == k && before[j].1.last_used
                            >= cutoff;
                    entry_is_mapped(before, j);
                }
                if m0.contains_key(k) && m0[k].last_used >= frame - FORGET_FRAMES {
                    let j = index_of(before, k);
                    assert(before[j].0 == k);
                    entry_is_mapped(before, j);
                }
            }
            assert(kept@ =~= m0.restrict(want));
        }
        self.table = kept;
    }

    /// Enforce a memory budget: past the limit, walk the meshes newest first
    /// and keep what the rule keeps.
    pub fn enforce(&mut self, rule: BudgetRule)
        ensures
            total_bytes(old(self).table.list(), old(self).table.list().len() as int) <= rule.limit
                ==> final(self)@ == old(self)@,
            total_bytes(old(self).table.list(), old(self).table.list().len() as int) > rule.limit
                ==> exists|order: Seq<Entry>| #[trigger]
                newest_first(old(self).table.list(), order) && final(self)@ == old(self)@.restrict(
                    Set::new(|k: u64| survives(rule, order, k, order.len() as int)),
                ),
    {
        let n: usize = self.table.len();
        let ghost before = self.table.list();
        let ghost m0 = self@;
        let mut total: u128 = 0;
        let mut order: Vec<Entry> = Vec::new();
        assert(order@ =~= before.take(0));
        let mut i: usize = 0;
        while i < n
            invariant
                i <= n,
                n == before.len(),
                before == self.table.list(),
                total == total_bytes(before, i as int),
                total <= i * u64::MAX,
                order@.to_multiset() == before.take(i as int).to_multiset(),
                order@.len() == i,
                forall|a: int, b: int|
                    0 <= a < b < order@.len() ==> (#[trigger] order@[a]).1.last_used >= (
                    #[trigger] order@[b]).1.last_used,
            decreases n - i,
        {
            let e: Entry = self.table.entry(i);
            assert(i * u64::MAX + u64::MAX == (i + 1) * u64::MAX) by (nonlinear_arith);
            assert((i + 1) * u64::MAX <= u64::MAX * u64::MAX) by (nonlinear_arith)
                requires
                    i + 1 <= u64::MAX,
            ;
            total = total + e.1.bytes as u128;
            let ghost was = order@;
            let p: usize = newest_place(&order, e.1.last_used);
            order.insert(p, e);
            proof {
                lemma_multiset_insert(was, p as int, e);
                assert(before.take(i as int + 1) =~= before.take(i as int).push(e));
                broadcast use vstd::seq_lib::group_to_multiset_ensures;
                assert(order@.to_multiset() =~= before.take(i as int + 1).to_multiset());
                assert forall|a: int, b: int| 0 <= a < b < order@.len() implies (
                #[trigger] order@[a]).1.last_used >= (#[trigger] order@[b]).1.last_used by {
                    let a0 = if a < p { a } else { a - 1 };
                    let b0 = if b < p { b } else { b - 1 };
                    if a != p {
                        assert(order@[a] == was[a0]);
                    }
                    if b != p {
                        assert(order@[b] == was[b0]);
                    }
                }
            }
            i += 1;
        }
        assert(before.take(n as int) =~= before);
        if total <= rule.limit as u128 {
            return ;
        }
        let mut kept: Table<Resident> = Table::new();
        let mut acc: u128 = 0;
        let mut k: usize = 0;
        while k < order.len()
            invariant
                k <= order@.len(),
                acc == kept_bytes(rule, order@, k as int),
                acc <= k * u64::MAX,
                order@.to_multiset() == before.to_multiset(),
                increasing(before),
                m0 == as_map(before),
                forall|q: u64| #[trigger]
                    kept@.contains_key(q) <==> survives(rule, order@, q, k as int),
                forall|q: u64| #[trigger]
                    kept@.contains_key(q) ==> m0.contains_key(q) && kept@[q] == m0[q],
            decreases order@.len() - k,
        {
            let (key, e): Entry = order[k];
            assert(k * u64::MAX + u64::MAX == (k + 1) * u64::MAX) by (nonlinear_arith);
            assert((k + 1) * u64::MAX <= u64::MAX * u64::MAX) by (nonlinear_arith)
                requires
                    k + 1 <= u64::MAX,
            ;
            let sum: u128 = acc + e.bytes as u128;
            let fits_retain: bool = sum <= rule.retain as u128;
            let fits_hard: bool = match rule.hard {
                Some(h) => sum <= h as u128,
                None => true,
            };
            proof {
                lemma_in_before(before, order@, k as int);
            }
            let ghost was = kept@;
            let keep: bool = fits_retain || (rule.from <= e.last_used && e.last_used <= rule.to
                && fits_hard);
            assert(keep == keeps(rule, order@, k as int));
            if keep {
                acc = sum;
                kept.insert(key, e);
            }
            proof {
                assert forall|q: u64| #[trigger] kept@.contains_key(q) <==> survives(
                    rule,
                    order@,
                    q,
                    k + 1,
                ) by {
                    if survives(rule, order@, q, k as int) {
                        let j = choose|j: int|
                            0 <= j < k && (#[trigger] order@[j]).0 == q && keeps(rule, order@, j);
                        assert(order@[j].0 == q);
                    }
                    if survives(rule, order@, q, k + 1) && !survives(rule, order@, q, k as int) {
                        let j = choose|j: int|
                            0 <= j < k + 1 && (#[trigger] order@[j]).0 == q && keeps(
                                rule,
                                order@,
                                j,
                            );
                        assert(j == k);
                    }
                    assert(order@[k as int].0 == key);
                }
            }
            k += 1;
        }
        proof {
            let want = Set::new(|q: u64| survives(rule, order@, q, order@.len() as int));
            assert(kept@ =~= m0.restrict(want));
            assert(newest_first(before, order@));
        }
        self.table = kept;
    }
}

fn newest_place(order: &Vec<Entry>, last_used: u64) -> (p: usize)
    ensures
        p <= order@.len(),
        forall|a: int| p <= a < order@.len() ==> (#[trigger] order@[a]).1.last_used < last_used,
        p > 0 ==> order@[p - 1].1.last_used >= last_used,
{
    let mut p: usize = order.len();
    while p > 0 && order[p - 1].1.last_used < last_used
        invariant
            p <= order@.len(),
            forall|a: int| p <= a < order@.len() ==> (#[trigger] order@[a]).1.last_used < last_used,
        decreases p,
    {
        p -= 1;
    }
    p
}

proof fn lemma_multiset_insert(s: Seq<Entry>, p: int, e: Entry)
    requires
        0 <= p <= s.len(),
    ensures
        s.insert(p, e).to_multiset() == s.to_multiset().insert(e),
{
    vstd::seq_lib::to_multiset_insert(s, p, e);
}

proof fn lemma_in_before(before: Seq<Entry>, order: Seq<Entry>, k: int)
    requires
        order.to_multiset() == before.to_multiset(),
        increasing(before),
        0 <= k < order.len(),
    ensures
        as_map(before).contains_key(order[k].0),
        as_map(before)[order[k].0] == order[k].1,
{
    broadcast use vstd::seq_lib::group_to_multiset_ensures;

    assert(order.contains(order[k]));
    assert(order.to_multiset().count(order[k]) > 0);
    assert(before.contains(order[k]));
    let j = choose|j: int| 0 <= j < before.len() && before[j] == order[k];
    entry_is_mapped(before, j);
}

/// Enforcing the budget of terrain tiles or chunks never leaves more than the
/// hard ceiling resident.
pub proof fn kept_meshes_fit_the_ceiling(
    frame: u64,
    settling: bool,
    order: Seq<Entry>,
    n: int,
)
    ensures
        0 <= kept_bytes(mesh_rule_spec(frame, settling), order, n) <= MESH_HARD,
    decreases n,
{
    if n > 0 {
        let rule = mesh_rule_spec(frame, settling);
        kept_meshes_fit_the_ceiling(frame, settling, order, n - 1);
        assert(keeps(rule, order, n - 1) ==> kept_bytes(rule, order, n - 1) + order[n - 1].1.bytes
            <= MESH_HARD);
    }
}

/// Recency is sacred: while everything fits the hard ceiling, enforcing the
/// budget keeps every mesh used within the protected frames.
pub proof fn recent_meshes_survive(
    frame: u64,
    settling: bool,
    order: Seq<Entry>,
    i: int,
)
    requires
        0 <= i < order.len(),
        mesh_rule_spec(frame, settling).from <= order[i].1.last_used,
        total_bytes(order, order.len() as int) <= MESH_HARD,
    ensures
        survives(mesh_rule_spec(frame, settling), order, order[i].0, order.len() as int),
{
    let rule = mesh_rule_spec(frame, settling);
    lemma_kept_at_most_total(rule, order, i);
    lemma_total_monotone(order, i + 1, order.len() as int);
    assert(keeps(rule, order, i));
}

/// Every moon mesh drawn this frame survives its budget.
pub proof fn drawn_moon_meshes_survive(frame: u64, order: Seq<Entry>, i: int)
    requires
        0 <= i < order.len(),
        order[i].1.last_used == frame,
    ensures
        survives(moon_rule_spec(frame), order, order[i].0, order.len() as int),
{
    assert(keeps(moon_rule_spec(frame), order, i));
}

proof fn lemma_kept_at_most_total(rule: BudgetRule, order: Seq<Entry>, n: int)
    ensures
        0 <= kept_bytes(rule, order, n) <= total_bytes(order, n),
    decreases n,
{
    if n > 0 {
        lemma_kept_at_most_total(rule, order, n - 1);
    }
}

proof fn lemma_total_monotone(order: Seq<Entry>, a: int, b: int)
    requires
        0 <= a <= b,
    ensures
        total_bytes(order, a) <= total_bytes(order, b),
    decreases b - a,
{
    if a < b {
        lemma_total_monotone(order, a, b - 1);
    }
}

/// How the budgets are set. Terrain tiles and chunks are trimmed past 512 MiB,
/// down to 384 MiB; what was used in the last 180 frames stays up to 1 GiB. A
/// settling capture protects only what its own frame uses. Moon tiles are
/// trimmed past and down to 384 MiB, except what this frame drew.
pub proof fn budgets_are_set(frame: u64, settling: bool)
    ensures
        ({
            let r = mesh_rule_spec(frame, settling);
            &&& r.limit == 512 * 1024 * 1024 && r.retain == 384 * 1024 * 1024
            &&& r.hard == Some(1_073_741_824u64)
            &&& r.to == u64::MAX
            &&& settling ==> r.from == frame
            &&& !settling && frame >= 180 ==> r.from == frame - 180
            &&& !settling && frame < 180 ==> r.from == 0
        }),
        ({
            let r = moon_rule_spec(frame);
            r.limit == 384 * 1024 * 1024 && r.retain == r.limit && r.hard is None && r.from == frame
                && r.to == frame
        }),
{
}

/// The newest meshes stay: a mesh survives where it and everything used later
/// fit the retained share.
pub proof fn newest_meshes_survive(rule: BudgetRule, order: Seq<Entry>, i: int)
    requires
        0 <= i < order.len(),
        total_bytes(order, i + 1) <= rule.retain,
    ensures
        survives(rule, order, order[i].0, order.len() as int),
{
    lemma_kept_at_most_total(rule, order, i);
    assert(keeps(rule, order, i));
}

/// Old meshes go: one that is not protected stays only where the meshes kept
/// before it leave room for it in the retained share, and no mesh is kept
/// beyond the hard ceiling. Kept bytes are the bytes of what is kept.
pub proof fn old_meshes_make_room(rule: BudgetRule, order: Seq<Entry>, i: int)
    requires
        0 <= i < order.len(),
    ensures
        ({
            let e = order[i].1;
            let room = kept_bytes(rule, order, i) + e.bytes;
            let recent = rule.from <= e.last_used <= rule.to;
            &&& !recent ==> (keeps(rule, order, i) <==> room <= rule.retain)
            &&& recent && rule.hard is None ==> keeps(rule, order, i)
            &&& recent && rule.hard is Some && rule.retain <= rule.hard->0 ==> (keeps(rule, order, i)
                <==> room <= rule.hard->0)
            &&& keeps(rule, order, i) ==> kept_bytes(rule, order, i + 1) == room
            &&& !keeps(rule, order, i) ==> kept_bytes(rule, order, i + 1) == kept_bytes(rule, order, i)
        }),
{
}

/// The bytes of a list are the sum of its meshes'.
pub proof fn bytes_add_up(s: Seq<Entry>, n: int)
    ensures
        total_bytes(s, 0) == 0,
        0 <= n < s.len() ==> total_bytes(s, n + 1) == total_bytes(s, n) + s[n].1.bytes,
{
}

/// A new mesh is shown from the frame that it arrives in; one that replaces a
/// resident mesh goes on from when that was shown. Either is used now, and has
/// its own size and season.
pub proof fn uploads_keep_the_ease(m: Map<u64, Resident>, key: u64, bytes: u64, bucket: u32, frame: u64)
    ensures
        ({
            let e = uploaded(m, key, bytes, bucket, frame);
            &&& e.bytes == bytes && e.bucket == bucket && e.last_used == frame
            &&& m.contains_key(key) ==> e.shown_at == m[key].shown_at
            &&& !m.contains_key(key) ==> e.shown_at == frame
        }),
{
}

/// A drawn mesh is used now. It eases in anew where the frame before did not
/// draw it, and goes on otherwise; its size and season stay.
pub proof fn absent_meshes_ease_in_anew(e: Resident, frame: u64)
    ensures
        touched(e, frame).last_used == frame,
        touched(e, frame).bytes == e.bytes && touched(e, frame).bucket == e.bucket,
        e.last_used == frame || e.last_used + 1 == frame ==> touched(e, frame).shown_at == e.shown_at,
        e.last_used + 1 < frame ==> touched(e, frame).shown_at == frame,
{
}

/// A crowded cache forgets what the last 120 frames did not use, and nothing
/// else; what stays is unchanged.
pub proof fn unused_meshes_are_forgotten(m: Map<u64, Resident>, frame: u64, k: u64)
    ensures
        remembered(m, frame).contains_key(k) <==> m.contains_key(k) && m[k].last_used + 120 >= frame,
        remembered(m, frame).contains_key(k) ==> remembered(m, frame)[k] == m[k],
{
}

} // verus!
