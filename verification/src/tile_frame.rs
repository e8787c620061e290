//! One frame of terrain tiles, step by step: what is sent to the background,
//! what is built before drawing, where to look ahead, and what is drawn.

use vstd::prelude::*;
use crate::measure::{below, Measure};
use crate::tile::TileKey;
use crate::tile_stream::{
    all_room_below, ask_all, deferrable, forecasts, live_budget, must_build, parents_of, prefetched,
    stale_tile, there, unhidden, chosen_tiles, Forecast, Refresh, Request, Resolved, TileStream,
    PREFETCH_BUDGET, STALE_PER_FRAME, VERTICAL_MOTION,
};
use crate::tile_stream::{forecasts_stay_within_budget, lemma_filter_contains, lists_are_asked_for_whole};

verus! {

/// The camera's vertical motion since the last frame.
#[derive(Clone, Copy, PartialEq, Eq, Structural, Debug)]
pub struct Motion {
    pub delta: Measure,
    /// The motion without its sign.
    pub moved: Measure,
}

/// How far a frame has come.
#[derive(Clone, Copy, PartialEq, Eq, Structural, Debug)]
pub enum Stage {
    /// Tiles of another season are next.
    Stale,
    /// Missing tiles are next.
    Missing,
    /// Whether the frame is final is next.
    Judge,
    /// The tiles seen from the first, second or third forecast are next.
    First,
    Second,
    Third,
    /// The parents of the selected tiles are next.
    Parents,
    /// What is drawn is next.
    Resolve,
    /// The frame's tiles are known.
    Done,
}

/// What a step asks for: requests to send to the background, tiles to build
/// now, an altitude to look from for the next step, and at the end what is
/// drawn.
pub struct Work {
    pub spawn: Vec<Request>,
    pub build: Vec<TileKey>,
    /// Builds of these tiles that are in flight are forgotten.
    pub forget: bool,
    pub look: Option<Forecast>,
    pub draw: Option<Vec<TileKey>>,
}

/// A frame under way.
#[derive(Clone, Copy)]
pub struct TileFrame {
    pub stage: Stage,
    pub settling: bool,
    /// There are forecasts, in this order.
    pub ahead: bool,
    pub order: [Forecast; 3],
    /// Requests made ahead of need, and how many may be.
    pub spent: usize,
    pub budget: usize,
    /// The frame is not final.
    pub deferred: bool,
}

/// Steps that a frame has still to take.
pub open spec fn steps_left(stage: Stage) -> nat {
    match stage {
        Stage::Stale => 8,
        Stage::Missing => 7,
        Stage::Judge => 6,
        Stage::First => 5,
        Stage::Second => 4,
        Stage::Third => 3,
        Stage::Parents => 2,
        Stage::Resolve => 1,
        Stage::Done => 0,
    }
}

/// The stage that follows.
pub open spec fn next_stage(f: TileFrame) -> Stage {
    match f.stage {
        Stage::Stale => Stage::Missing,
        Stage::Missing => Stage::Judge,
        Stage::Judge => if f.settling {
            Stage::Resolve
        } else if f.ahead {
            Stage::First
        } else {
            Stage::Parents
        },
        Stage::First => Stage::Second,
        Stage::Second => Stage::Third,
        Stage::Third => Stage::Parents,
        Stage::Parents => Stage::Resolve,
        Stage::Resolve => Stage::Done,
        Stage::Done => Stage::Done,
    }
}

/// The altitude that the next stage looks from.
pub open spec fn next_look(f: TileFrame) -> Option<Forecast> {
    match next_stage(f) {
        Stage::First => Some(f.order@[0]),
        Stage::Second => Some(f.order@[1]),
        Stage::Third => Some(f.order@[2]),
        _ => None,
    }
}

/// The first few stale tiles, or all.
pub open spec fn some_stale(stream: TileStream, keys: Seq<TileKey>, season: u32) -> Seq<TileKey> {
    let stale = keys.filter(|k: TileKey| stale_tile(stream.tiles@, season, k));
    if stale.len() > STALE_PER_FRAME {
        stale.take(STALE_PER_FRAME as int)
    } else {
        stale
    }
}

/// A step: what it asks for, and the requests it leaves in flight.
pub open spec fn step_done(
    f: TileFrame,
    stream: TileStream,
    keys: Seq<TileKey>,
    season: u32,
    seen: Seq<TileKey>,
    after: TileStream,
    w: Work,
) -> bool {
    let m = stream.tiles@;
    let idle = stream.asked(Seq::empty());
    &&& after.tiles@ == m
    &&& match f.stage {
        Stage::Stale => {
            let stale = keys.filter(|k: TileKey| stale_tile(m, season, k));
            if f.settling && stale.len() > 0 {
                &&& w.build@ == stale
                &&& w.forget
                &&& w.spawn@ == Seq::<Request>::empty()
                &&& after.asked(Seq::empty()) == idle
            } else {
                &&& w.build@ == Seq::<TileKey>::empty()
                &&& !w.forget
                &&& after.asked(w.spawn@) == ask_all(idle, some_stale(stream, keys, season))
            }
        },
        Stage::Missing => {
            &&& w.build@ == keys.filter(
                |k: TileKey| !there(m, k) && (f.settling || !deferrable(m, k)),
            )
            &&& !w.forget
            &&& after.asked(w.spawn@) == ask_all(
                idle,
                keys.filter(|k: TileKey| !there(m, k) && !f.settling && deferrable(m, k)),
            )
        },
        Stage::First | Stage::Second | Stage::Third => {
            &&& w.build@ == Seq::<TileKey>::empty()
            &&& !w.forget
            &&& after.asked(w.spawn@) == prefetched(idle, m, seen, f.budget - f.spent)
        },
        Stage::Parents => {
            &&& w.build@ == Seq::<TileKey>::empty()
            &&& !w.forget
            &&& after.asked(w.spawn@) == prefetched(
                idle,
                m,
                parents_of(keys),
                f.budget - f.spent,
            )
        },
        Stage::Resolve => {
            &&& w.build@ == keys.filter(|k: TileKey| must_build(m, k))
            &&& !w.forget
            &&& w.spawn@ == Seq::<Request>::empty()
            &&& after.asked(Seq::empty()) == idle
        },
        _ => {
            &&& w.build@ == Seq::<TileKey>::empty()
            &&& !w.forget
            &&& w.spawn@ == Seq::<Request>::empty()
            &&& after.asked(Seq::empty()) == idle
        },
    }
    &&& w.look == next_look(f)
    &&& (w.draw is Some <==> f.stage == Stage::Resolve)
    &&& w.draw matches Some(d) ==> d@ == unhidden(chosen_tiles(m, keys))
}

/// The selected tiles leave the frame open: one is missing, or of another
/// season.
pub open spec fn open_ends(stream: TileStream, keys: Seq<TileKey>, season: u32) -> bool {
    exists|i: int|
        0 <= i < keys.len() && (!there(stream.tiles@, #[trigger] keys[i]) || stale_tile(
            stream.tiles@,
            season,
            keys[i],
        ))
}

fn nothing() -> (w: Work)
    ensures
        w.spawn@ == Seq::<Request>::empty(),
        w.build@ == Seq::<TileKey>::empty(),
        !w.forget,
        w.look is None,
        w.draw is None,
{
    Work { spawn: Vec::new(), build: Vec::new(), forget: false, look: None, draw: None }
}

impl TileFrame {
    /// Requests ahead of need stay within their budget.
    pub open spec fn wf(self) -> bool {
        self.spent <= self.budget <= 2 * PREFETCH_BUDGET
    }

    /// A frame begins. Over the planet its `motion` decides the forecasts and
    /// their budget.
    pub fn new(settling: bool, motion: Option<Motion>) -> (f: Self)
        ensures
            f.wf(),
            f.stage == Stage::Stale,
            f.settling == settling,
            f.spent == 0,
            !f.deferred,
            f.ahead == (motion is Some),
            f.budget == (if motion matches Some(v) && below(VERTICAL_MOTION, v.moved) {
                2 * PREFETCH_BUDGET
            } else {
                PREFETCH_BUDGET as int
            }),
            motion matches Some(v) ==> f.order@ == (if below(v.delta, 0) {
                seq![Forecast::Near, Forecast::Far, Forecast::Above]
            } else {
                seq![Forecast::Above, Forecast::Near, Forecast::Far]
            }),
    {
        match motion {
            Some(v) => TileFrame {
                stage: Stage::Stale,
                settling,
                ahead: true,
                order: forecasts(v.delta),
                spent: 0,
                budget: live_budget(v.moved),
                deferred: false,
            },
            None => TileFrame {
                stage: Stage::Stale,
                settling,
                ahead: false,
                order: [Forecast::Above, Forecast::Near, Forecast::Far],
                spent: 0,
                budget: PREFETCH_BUDGET,
                deferred: false,
            },
        }
    }

    fn prefetch(&mut self, stream: &mut TileStream, wanted: &Vec<TileKey>) -> (r: Vec<Request>)
        requires
            old(self).wf(),
        ensures
            *final(self) == (TileFrame { spent: (old(self).spent + r@.len()) as usize, ..*old(self) }),
            final(self).wf(),
            final(self).spent == old(self).spent + r@.len(),
            final(stream).tiles@ == old(stream).tiles@,
            final(stream).asked(r@) == prefetched(
                old(stream).asked(Seq::empty()),
                old(stream).tiles@,
                wanted@,
                old(self).budget - old(self).spent,
            ),
    {
        let r: Vec<Request> = stream.prefetch(wanted, self.spent, self.budget);
        self.spent = self.spent + r.len();
        r
    }

    /// Take one step. `seen` are the tiles that the last step's look found;
    /// other steps do not read them. What the step asks for is done before the
    /// next one.
    pub fn step(
        &mut self,
        stream: &mut TileStream,
        keys: &Vec<TileKey>,
        season: u32,
        seen: &Vec<TileKey>,
    ) -> (w: Work)
        requires
            old(self).wf(),
            all_room_below(keys@),
        ensures
            final(self).wf(),
            step_done(*old(self), *old(stream), keys@, season, seen@, *final(stream), w),
            final(self).stage == next_stage(*old(self)),
            final(self).settling == old(self).settling,
            final(self).ahead == old(self).ahead,
            final(self).order == old(self).order,
            final(self).budget == old(self).budget,
            final(self).spent == old(self).spent + (match old(self).stage {
                Stage::First | Stage::Second | Stage::Third | Stage::Parents => w.spawn@.len(),
                _ => 0,
            }),
            final(self).deferred == (if old(self).stage == Stage::Judge {
                open_ends(*old(stream), keys@, season)
            } else {
                old(self).deferred
            }),
    {
        let mut w: Work = nothing();
        match self.stage {
            Stage::Stale => {
                match stream.refresh_stale(keys, season, self.settling) {
                    Refresh::Now(list) => {
                        w.build = list;
                        w.forget = true;
                    },
                    Refresh::Later(requests) => {
                        w.spawn = requests;
                    },
                }
                self.stage = Stage::Missing;
            },
            Stage::Missing => {
                let (requests, urgent): (Vec<Request>, Vec<TileKey>) = stream.split_missing(
                    keys,
                    self.settling,
                );
                w.spawn = requests;
                w.build = urgent;
                self.stage = Stage::Judge;
            },
            Stage::Judge => {
                self.deferred = stream.deferred(keys, season);
                if self.settling {
                    self.stage = Stage::Resolve;
                } else if self.ahead {
                    w.look = Some(self.order[0]);
                    self.stage = Stage::First;
                } else {
                    self.stage = Stage::Parents;
                }
            },
            Stage::First => {
                w.spawn = self.prefetch(stream, seen);
                w.look = Some(self.order[1]);
                self.stage = Stage::Second;
            },
            Stage::Second => {
                w.spawn = self.prefetch(stream, seen);
                w.look = Some(self.order[2]);
                self.stage = Stage::Third;
            },
            Stage::Third => {
                w.spawn = self.prefetch(stream, seen);
                self.stage = Stage::Parents;
            },
            Stage::Parents => {
                let wanted: Vec<TileKey> = TileStream::parents(keys);
                w.spawn = self.prefetch(stream, &wanted);
                self.stage = Stage::Resolve;
            },
            Stage::Resolve => {
                let r: Resolved = stream.resolve(keys);
                w.build = r.build;
                w.draw = Some(r.draw);
                self.stage = Stage::Done;
            },
            Stage::Done => {},
        }
        w
    }
}

/// A frame comes to its end: every step before the end leaves fewer to take.
pub proof fn frames_end(f: TileFrame)
    ensures
        f.stage != Stage::Done ==> steps_left(next_stage(f)) < steps_left(f.stage),
        next_stage(f) == Stage::Done <==> f.stage == Stage::Resolve || f.stage == Stage::Done,
{
}

/// A settling capture asks for nothing ahead of need: no look, and no stage
/// of a forecast or of parents.
pub proof fn captures_look_nowhere(f: TileFrame)
    requires
        f.settling,
        f.stage == Stage::Stale || f.stage == Stage::Missing || f.stage == Stage::Judge,
    ensures
        next_look(f) is None,
        next_stage(f) == Stage::Missing || next_stage(f) == Stage::Judge || next_stage(f)
            == Stage::Resolve,
{
}

/// A frame takes its steps in order: stale tiles, missing tiles, whether it is
/// final; then over the planet three looks ahead, the parents of what is
/// selected, and what is drawn. A settling capture skips what is ahead of need,
/// and a frame without forecasts the looks.
pub proof fn frames_take_their_steps_in_order(f: TileFrame)
    ensures
        f.stage == Stage::Stale ==> next_stage(f) == Stage::Missing,
        f.stage == Stage::Missing ==> next_stage(f) == Stage::Judge,
        f.stage == Stage::Judge && f.settling ==> next_stage(f) == Stage::Resolve,
        f.stage == Stage::Judge && !f.settling && f.ahead ==> next_stage(f) == Stage::First && next_look(f)
            == Some(f.order@[0]),
        f.stage == Stage::Judge && !f.settling && !f.ahead ==> next_stage(f) == Stage::Parents,
        f.stage == Stage::First ==> next_stage(f) == Stage::Second && next_look(f) == Some(f.order@[1]),
        f.stage == Stage::Second ==> next_stage(f) == Stage::Third && next_look(f) == Some(f.order@[2]),
        f.stage == Stage::Third ==> next_stage(f) == Stage::Parents && next_look(f) is None,
        f.stage == Stage::Parents ==> next_stage(f) == Stage::Resolve,
        f.stage == Stage::Resolve ==> next_stage(f) == Stage::Done,
        f.stage == Stage::Stale || f.stage == Stage::Missing || f.stage == Stage::Parents || f.stage
            == Stage::Resolve ==> next_look(f) is None,
{
}

/// A settling capture builds every selected tile that is missing or of another
/// season before it draws.
pub proof fn captures_build_all_they_draw(
    f: TileFrame,
    stream: TileStream,
    keys: Seq<TileKey>,
    season: u32,
    seen: Seq<TileKey>,
    after: TileStream,
    w: Work,
    k: TileKey,
)
    requires
        f.settling,
        step_done(f, stream, keys, season, seen, after, w),
        keys.contains(k),
    ensures
        f.stage == Stage::Stale && stale_tile(stream.tiles@, season, k) ==> w.build@.contains(k) && w.forget,
        f.stage == Stage::Missing && !there(stream.tiles@, k) ==> w.build@.contains(k),
{
    let m = stream.tiles@;
    let stale = |k: TileKey| stale_tile(m, season, k);
    let missing = |k: TileKey| !there(m, k) && (f.settling || !deferrable(m, k));
    lemma_filter_contains(keys, stale);
    lemma_filter_contains(keys, missing);
    if stale(k) {
        assert(keys.filter(stale).contains(k));
        assert(keys.filter(stale).len() > 0);
    }
    assert(missing(k) ==> keys.filter(missing).contains(k));
}

/// A live frame draws on with what it has: a selected tile that is missing is
/// sent to the background where something stands in for it and it is not deep,
/// and built before drawing otherwise; nothing else is built. At most eight
/// stale tiles are sent a frame, and they are selected and stale.
pub proof fn live_frames_send_to_the_background(
    f: TileFrame,
    stream: TileStream,
    keys: Seq<TileKey>,
    season: u32,
    seen: Seq<TileKey>,
    after: TileStream,
    w: Work,
    k: TileKey,
)
    requires
        !f.settling,
        step_done(f, stream, keys, season, seen, after, w),
    ensures
        ({
            let m = stream.tiles@;
            &&& f.stage == Stage::Missing && keys.contains(k) && !there(m, k) && !deferrable(m, k)
                ==> w.build@.contains(k)
            &&& f.stage == Stage::Missing && keys.contains(k) && !there(m, k) && deferrable(m, k)
                ==> after.in_flight@.contains_key(k.id())
            &&& f.stage == Stage::Missing && w.build@.contains(k) ==> keys.contains(k) && !there(m, k)
                && !deferrable(m, k)
            &&& f.stage == Stage::Stale ==> w.build@.len() == 0 && w.spawn@.len() <= 8 && forall|i: int|
                0 <= i < w.spawn@.len() ==> keys.contains((#[trigger] w.spawn@[i]).0) && stale_tile(
                    m,
                    season,
                    w.spawn@[i].0,
                )
        }),
{
    let m = stream.tiles@;
    let idle = stream.asked(Seq::empty());
    let stale = |k: TileKey| stale_tile(m, season, k);
    let urgent = |k: TileKey| !there(m, k) && (f.settling || !deferrable(m, k));
    let later = |k: TileKey| !there(m, k) && !f.settling && deferrable(m, k);
    lemma_filter_contains(keys, stale);
    lemma_filter_contains(keys, urgent);
    lemma_filter_contains(keys, later);
    if f.stage == Stage::Missing {
        assert(urgent(k) && keys.contains(k) ==> w.build@.contains(k));
        lists_are_asked_for_whole(idle, keys.filter(later), k);
        assert(after.asked(w.spawn@).in_flight == after.in_flight@);
        if keys.contains(k) && later(k) {
            assert(keys.filter(later).contains(k));
        }
        if w.build@.contains(k) {
            assert(keys.filter(urgent).contains(k));
        }
    }
    if f.stage == Stage::Stale {
        let some = some_stale(stream, keys, season);
        let all = keys.filter(stale);
        assert(some.len() <= 8);
        lists_are_asked_for_whole(idle, some, k);
        assert(after.asked(w.spawn@).requests == w.spawn@);
        assert forall|i: int| 0 <= i < w.spawn@.len() implies keys.contains((#[trigger] w.spawn@[i]).0)
            && stale_tile(m, season, w.spawn@[i].0) by {
            let t = w.spawn@[i].0;
            assert(some.contains(t));
            let j = choose|j: int| 0 <= j < some.len() && some[j] == t;
            assert(all[j] == t);
            assert(all.contains(t));
            assert(stale(t));
        }
    }
}

/// What is looked at ahead of need never exceeds the frame's budget.
pub proof fn looks_ahead_stay_within_budget(
    f: TileFrame,
    stream: TileStream,
    keys: Seq<TileKey>,
    season: u32,
    seen: Seq<TileKey>,
    after: TileStream,
    w: Work,
)
    requires
        f.wf(),
        f.stage == Stage::First || f.stage == Stage::Second || f.stage == Stage::Third || f.stage
            == Stage::Parents,
        step_done(f, stream, keys, season, seen, after, w),
    ensures
        f.spent + w.spawn@.len() <= f.budget,
        f.budget <= 8,
        forall|i: int| 0 <= i < w.spawn@.len() ==> !there(stream.tiles@, (#[trigger] w.spawn@[i]).0),
        w.build@.len() == 0,
{
    let idle = stream.asked(Seq::empty());
    let wanted = if f.stage == Stage::Parents {
        parents_of(keys)
    } else {
        seen
    };
    forecasts_stay_within_budget(
        idle,
        stream.tiles@,
        wanted,
        f.budget - f.spent,
        TileKey { face: 0, level: 0, ix: 0, iy: 0, deep: false },
    );
    assert(after.asked(w.spawn@).requests == w.spawn@);
}

} // verus!
