//! Offscreen captures: waiting until a frame is complete, and turning the
//! read-back buffer into pixels.

use vstd::prelude::*;

verus! {

/// Redraws after which a capture gives up: enough for the whole selected set
/// at eight stale tiles per draw.
pub const CAPTURE_ROUNDS: u32 = 1024;

/// Arrivals awaited of one stream between two redraws.
pub const CAPTURE_ARRIVALS: u32 = 8192;

/// Chunks that land between two trims of the chunk cache.
pub const TRIM_EVERY: u32 = 16;

/// Where a settling capture stands.
#[derive(Clone, Copy, PartialEq, Eq, Structural, Debug)]
pub enum Phase {
    /// A frame was just drawn.
    Drawn,
    /// Waiting for chunks.
    Chunks,
    /// Waiting for tiles.
    Tiles,
    /// About to draw again.
    Redraw,
    /// The frame is complete.
    Done,
    /// The capture failed.
    Stuck,
}

/// What a drawn frame leaves open.
#[derive(Clone, Copy)]
pub struct Streams {
    /// Chunk builds are in flight.
    pub chunks_pending: bool,
    /// Tile builds are in flight.
    pub tiles_pending: bool,
    /// Some selected mesh is missing or of another season.
    pub deferred: bool,
}

/// A frame is complete when nothing selected is outstanding. Tile builds ahead
/// of need may go on.
pub open spec fn complete(o: Streams) -> bool {
    !o.chunks_pending && !o.deferred
}

/// What to do next.
#[derive(Clone, Copy, PartialEq, Eq, Structural, Debug)]
pub enum Action {
    AwaitChunk,
    AwaitTile,
    TrimChunks,
    Redraw,
    Finish,
    GiveUp,
}

/// A capture that settles: redraws so far, phase, and arrivals and landed
/// chunks in it.
#[derive(Clone, Copy, PartialEq, Eq, Structural, Debug)]
pub struct Settle {
    pub round: u32,
    pub phase: Phase,
    pub arrivals: u32,
    pub landed: u32,
}

/// Waiting for tiles, with the arrivals so far.
pub open spec fn in_tiles(s: Settle, o: Streams) -> (Settle, Action) {
    if s.arrivals < CAPTURE_ARRIVALS && o.deferred && o.tiles_pending {
        (s, Action::AwaitTile)
    } else {
        (Settle { phase: Phase::Redraw, ..s }, Action::Redraw)
    }
}

/// Waiting for chunks, with the arrivals so far.
pub open spec fn in_chunks(s: Settle, o: Streams) -> (Settle, Action) {
    if s.arrivals < CAPTURE_ARRIVALS && o.chunks_pending {
        (s, Action::AwaitChunk)
    } else {
        let t = Settle { phase: Phase::Tiles, arrivals: 0, landed: 0, ..s };
        if s.landed > 0 {
            (t, Action::TrimChunks)
        } else {
            in_tiles(t, o)
        }
    }
}

/// The next action and the state it is taken in.
pub open spec fn decided(s: Settle, o: Streams) -> (Settle, Action) {
    match s.phase {
        Phase::Drawn => if complete(o) {
            (Settle { phase: Phase::Done, ..s }, Action::Finish)
        } else if s.round >= CAPTURE_ROUNDS {
            (Settle { phase: Phase::Stuck, ..s }, Action::GiveUp)
        } else {
            in_chunks(Settle { phase: Phase::Chunks, arrivals: 0, landed: 0, ..s }, o)
        },
        Phase::Chunks => in_chunks(s, o),
        Phase::Tiles => in_tiles(s, o),
        Phase::Redraw => (s, Action::Redraw),
        Phase::Done => (s, Action::Finish),
        Phase::Stuck => if s.landed > 0 {
            (Settle { landed: 0, ..s }, Action::TrimChunks)
        } else {
            (s, Action::GiveUp)
        },
    }
}

pub open spec fn phase_rank(p: Phase) -> int {
    match p {
        Phase::Drawn => 3,
        Phase::Chunks => 2,
        Phase::Tiles => 1,
        _ => 0,
    }
}

/// Events a capture can still see.
pub open spec fn events_left(s: Settle) -> int {
    (CAPTURE_ROUNDS + 1 - s.round) * (4 * CAPTURE_ARRIVALS + 8) + phase_rank(s.phase) * (
    CAPTURE_ARRIVALS + 2) - s.arrivals
}

impl Settle {
    pub open spec fn wf(self) -> bool {
        &&& self.round <= CAPTURE_ROUNDS
        &&& self.arrivals <= CAPTURE_ARRIVALS
        &&& self.landed <= self.arrivals
        &&& self.phase == Phase::Chunks || self.phase == Phase::Stuck || self.landed == 0
        &&& self.phase == Phase::Chunks || self.phase == Phase::Tiles || self.phase == Phase::Redraw
            ==> self.round < CAPTURE_ROUNDS
    }

    /// A capture whose first frame was drawn. A raw capture takes that frame
    /// as it is.
    pub fn new(raw: bool) -> (s: Self)
        ensures
            s.wf(),
            s == (Settle {
                round: 0,
                phase: if raw {
                    Phase::Done
                } else {
                    Phase::Drawn
                },
                arrivals: 0,
                landed: 0,
            }),
    {
        Settle {
            round: 0,
            phase: if raw {
                Phase::Done
            } else {
                Phase::Drawn
            },
            arrivals: 0,
            landed: 0,
        }
    }

    /// Decide what to do, given what the last drawn frame leaves open.
    pub fn decide(&mut self, o: Streams) -> (a: Action)
        requires
            old(self).wf(),
        ensures
            (*final(self), a) == decided(*old(self), o),
            final(self).wf(),
            a == Action::AwaitChunk ==> final(self).phase == Phase::Chunks && final(self).arrivals
                < CAPTURE_ARRIVALS,
            a == Action::AwaitTile ==> final(self).phase == Phase::Tiles && final(self).arrivals
                < CAPTURE_ARRIVALS,
            a == Action::Redraw ==> final(self).phase == Phase::Redraw,
    {
        if self.phase == Phase::Drawn {
            if !o.chunks_pending && !o.deferred {
                self.phase = Phase::Done;
                return Action::Finish;
            }
            if self.round >= CAPTURE_ROUNDS {
                self.phase = Phase::Stuck;
                return Action::GiveUp;
            }
            self.phase = Phase::Chunks;
            self.arrivals = 0;
            self.landed = 0;
        }
        if self.phase == Phase::Chunks {
            if self.arrivals < CAPTURE_ARRIVALS && o.chunks_pending {
                return Action::AwaitChunk;
            }
            let trim: bool = self.landed > 0;
            self.phase = Phase::Tiles;
            self.arrivals = 0;
            self.landed = 0;
            if trim {
                return Action::TrimChunks;
            }
        }
        if self.phase == Phase::Tiles {
            if self.arrivals < CAPTURE_ARRIVALS && o.deferred && o.tiles_pending {
                return Action::AwaitTile;
            }
            self.phase = Phase::Redraw;
        }
        if self.phase == Phase::Stuck && self.landed > 0 {
            self.landed = 0;
            return Action::TrimChunks;
        }
        match self.phase {
            Phase::Redraw => Action::Redraw,
            Phase::Done => Action::Finish,
            _ => Action::GiveUp,
        }
    }

    /// An awaited chunk arrived, `taken` or rejected as outdated. Says whether
    /// the chunk cache is to be trimmed now.
    pub fn chunk_arrived(&mut self, taken: bool) -> (trim: bool)
        requires
            old(self).wf(),
            old(self).phase == Phase::Chunks,
            old(self).arrivals < CAPTURE_ARRIVALS,
        ensures
            final(self).wf(),
            *final(self) == (Settle {
                arrivals: (old(self).arrivals + 1) as u32,
                landed: if taken {
                    (old(self).landed + 1) as u32
                } else {
                    old(self).landed
                },
                ..*old(self)
            }),
            trim == (taken && final(self).landed % TRIM_EVERY == 0),
            events_left(*final(self)) < events_left(*old(self)),
    {
        self.arrivals = self.arrivals + 1;
        if taken {
            self.landed = self.landed + 1;
        }
        taken && self.landed % TRIM_EVERY == 0
    }

    /// An awaited tile arrived.
    pub fn tile_arrived(&mut self)
        requires
            old(self).wf(),
            old(self).phase == Phase::Tiles,
            old(self).arrivals < CAPTURE_ARRIVALS,
        ensures
            final(self).wf(),
            *final(self) == (Settle { arrivals: (old(self).arrivals + 1) as u32, ..*old(self) }),
            events_left(*final(self)) < events_left(*old(self)),
    {
        self.arrivals = self.arrivals + 1;
    }

    /// A stream stalled: the capture fails. Chunks that landed before are
    /// trimmed first.
    pub fn stalled(&mut self)
        requires
            old(self).wf(),
        ensures
            final(self).wf(),
            *final(self) == (Settle { phase: Phase::Stuck, ..*old(self) }),
    {
        self.phase = Phase::Stuck;
    }

    /// The frame was drawn again.
    pub fn redrawn(&mut self)
        requires
            old(self).wf(),
            old(self).phase == Phase::Redraw,
        ensures
            final(self).wf(),
            *final(self) == (Settle {
                round: (old(self).round + 1) as u32,
                phase: Phase::Drawn,
                arrivals: 0,
                landed: 0,
            }),
            events_left(*final(self)) < events_left(*old(self)),
    {
        let ghost r = self.round as int;
        assert((1025 - (r + 1)) * 32776 == (1025 - r) * 32776 - 32776) by (nonlinear_arith);
        self.round = self.round + 1;
        self.phase = Phase::Drawn;
        self.arrivals = 0;
        self.landed = 0;
    }
}

/// A settling capture finishes only on a complete frame.
pub proof fn captures_finish_complete(s: Settle, o: Streams)
    requires
        s.phase == Phase::Drawn,
        decided(s, o).1 == Action::Finish,
    ensures
        complete(o),
{
}

/// Deciding never adds events, so every capture comes to an end: each arrival
/// and each redraw uses up one of finitely many.
pub proof fn captures_come_to_an_end(s: Settle, o: Streams)
    requires
        s.wf(),
    ensures
        events_left(decided(s, o).0) <= events_left(s),
        events_left(s) >= 0,
{
    assert((CAPTURE_ROUNDS + 1 - s.round) * (4 * CAPTURE_ARRIVALS + 8) >= 4 * CAPTURE_ARRIVALS + 8)
        by (nonlinear_arith)
        requires
            s.round <= 1024,
            CAPTURE_ROUNDS == 1024,
            CAPTURE_ARRIVALS == 8192,
    ;
}

/// A stalled capture trims the chunks that landed, then gives up.
pub proof fn stalled_captures_trim_and_give_up(s: Settle, o: Streams, later: Streams)
    requires
        s.phase == Phase::Stuck,
    ensures
        s.landed == 0 ==> decided(s, o).1 == Action::GiveUp,
        s.landed > 0 ==> decided(s, o).1 == Action::TrimChunks && decided(decided(s, o).0, later).1
            == Action::GiveUp,
{
}

/// A complete frame is recognised at once.
pub proof fn complete_frames_finish(s: Settle, o: Streams)
    requires
        s.phase == Phase::Drawn,
        complete(o),
    ensures
        decided(s, o).1 == Action::Finish,
{
}

// ------------------------------------------------------------------- pixels

/// Bytes of one row of the read-back buffer: rows start at multiples of 256.
pub open spec fn row_bytes(w: int) -> int {
    (w * 4 + 255) / 256 * 256
}

pub fn bytes_per_row(w: u32) -> (r: u32)
    requires
        w <= 0x3FFF_FF00,
    ensures
        r == row_bytes(w as int),
        r >= w * 4,
        r % 256 == 0,
{
    (w * 4 + 255) / 256 * 256
}

/// Byte `c` of a pixel: read in the buffer's channel order, always opaque.
pub open spec fn pixel_byte(data: Seq<u8>, w: int, bgra: bool, x: int, y: int, c: int) -> u8 {
    let at = y * row_bytes(w) + x * 4;
    if c == 3 {
        255
    } else if bgra {
        data[at + 2 - c]
    } else {
        data[at + c]
    }
}

/// The pixels of a read-back buffer as RGBA, row padding stripped.
pub open spec fn pixels_of(data: Seq<u8>, w: int, h: int, bgra: bool) -> Seq<u8> {
    Seq::new(
        (w * h * 4) as nat,
        |k: int| pixel_byte(data, w, bgra, (k / 4) % w, (k / 4) / w, k % 4),
    )
}

/// Strip row padding and put channels into RGBA order.
pub fn strip_rows(data: &[u8], w: u32, h: u32, bgra: bool) -> (out: Vec<u8>)
    requires
        0 < w <= 0x3FFF_FF00,
        h * row_bytes(w as int) <= data@.len(),
    ensures
        out@ == pixels_of(data@, w as int, h as int, bgra),
{
    let stride: usize = bytes_per_row(w) as usize;
    let len: usize = data.len();
    let mut out: Vec<u8> = Vec::new();
    let mut y: u32 = 0;
    while y < h
        invariant
            0 < w <= 0x3FFF_FF00,
            y <= h,
            stride == row_bytes(w as int),
            stride >= w * 4,
            h * stride <= len == data@.len(),
            out@.len() == y * w * 4,
            forall|k: int|
                0 <= k < out@.len() ==> #[trigger] out@[k] == pixel_byte(
                    data@,
                    w as int,
                    bgra,
                    (k / 4) % (w as int),
                    (k / 4) / (w as int),
                    k % 4,
                ),
        decreases h - y,
    {
        assert(y * stride + stride <= h * stride) by (nonlinear_arith)
            requires
                y < h,
                stride >= 0,
        ;
        assert(0 <= y * stride) by (nonlinear_arith)
            requires
                y >= 0,
                stride >= 0,
        ;
        let start: usize = y as usize * stride;
        let mut x: u32 = 0;
        while x < w
            invariant
                0 < w <= 0x3FFF_FF00,
                x <= w,
                y < h,
                stride == row_bytes(w as int),
                stride >= w * 4,
                start == y * stride,
                start + stride <= len == data@.len(),
                out@.len() == (y * w + x) * 4,
                forall|k: int|
                    0 <= k < out@.len() ==> #[trigger] out@[k] == pixel_byte(
                        data@,
                        w as int,
                        bgra,
                        (k / 4) % (w as int),
                        (k / 4) / (w as int),
                        k % 4,
                    ),
            decreases w - x,
        {
            let at: usize = start + x as usize * 4;
            let ghost before = out@;
            if bgra {
                out.push(data[at + 2]);
                out.push(data[at + 1]);
                out.push(data[at]);
            } else {
                out.push(data[at]);
                out.push(data[at + 1]);
                out.push(data[at + 2]);
            }
            out.push(255);
            proof {
                let p = y * w + x;
                assert((p + 1) * 4 == p * 4 + 4);
                assert(y * w + (x + 1) == p + 1);
                vstd::arithmetic::div_mod::lemma_fundamental_div_mod_converse(
                    p,
                    w as int,
                    y as int,
                    x as int,
                );
                assert forall|k: int| 0 <= k < out@.len() implies #[trigger] out@[k] == pixel_byte(
                    data@,
                    w as int,
                    bgra,
                    (k / 4) % (w as int),
                    (k / 4) / (w as int),
                    k % 4,
                ) by {
                    if k < before.len() {
                        assert(out@[k] == before[k]);
                    } else {
                        assert(k / 4 == p && k % 4 == k - p * 4);
                    }
                }
            }
            x += 1;
        }
        assert((y * w + w) * 4 == (y + 1) * w * 4) by (nonlinear_arith);
        y += 1;
    }
    assert(w * h * 4 == h * w * 4) by (nonlinear_arith);
    assert(out@ =~= pixels_of(data@, w as int, h as int, bgra));
    out
}

/// A new surface size is taken only if neither side is zero.
pub fn usable_size(w: u32, h: u32) -> (r: bool)
    ensures
        r == (w > 0 && h > 0),
{
    w > 0 && h > 0
}

/// What an incomplete frame waits for: its chunks first; then the chunks that
/// landed are trimmed; then its tiles, while some selected mesh is still
/// missing; and then it is drawn again. No more than 8192 arrivals are awaited
/// of either, and no more than 1024 redraws are made.
pub proof fn captures_wait_in_order(s: Settle, o: Streams)
    requires
        s.wf(),
    ensures
        ({
            let (next, act) = decided(s, o);
            let open = o.chunks_pending || o.deferred;
            &&& s.phase == Phase::Drawn && open && s.round >= 1024 ==> act == Action::GiveUp
            &&& s.phase == Phase::Drawn && !open ==> act == Action::Finish
            &&& s.phase == Phase::Drawn && open && s.round < 1024 ==> act == (if o.chunks_pending {
                Action::AwaitChunk
            } else if o.tiles_pending {
                Action::AwaitTile
            } else {
                Action::Redraw
            })
            &&& s.phase == Phase::Chunks && s.arrivals < 8192 && o.chunks_pending ==> act
                == Action::AwaitChunk && next == s
            &&& s.phase == Phase::Chunks && (s.arrivals >= 8192 || !o.chunks_pending) && s.landed > 0
                ==> act == Action::TrimChunks && next.phase == Phase::Tiles && next.arrivals == 0
            &&& s.phase == Phase::Chunks && (s.arrivals >= 8192 || !o.chunks_pending) && s.landed == 0
                ==> act == (if o.deferred && o.tiles_pending {
                Action::AwaitTile
            } else {
                Action::Redraw
            })
            &&& s.phase == Phase::Tiles && s.arrivals < 8192 && o.deferred && o.tiles_pending ==> act
                == Action::AwaitTile && next == s
            &&& s.phase == Phase::Tiles && !(s.arrivals < 8192 && o.deferred && o.tiles_pending) ==> act
                == Action::Redraw
            &&& s.phase == Phase::Redraw ==> act == Action::Redraw
            &&& s.phase == Phase::Done ==> act == Action::Finish
            &&& act == Action::Redraw ==> next.phase == Phase::Redraw
            &&& next.round == s.round
        }),
{
}

/// A captured picture keeps its pixels: each is read from its own place in the
/// buffer, whose rows start at multiples of 256 bytes, with red, green and blue
/// put in that order, and is opaque.
pub proof fn captures_keep_their_pixels(data: Seq<u8>, w: int, h: int, bgra: bool, x: int, y: int)
    requires
        0 <= x < w,
        0 <= y < h,
    ensures
        ({
            let p = pixels_of(data, w, h, bgra);
            let at = 4 * (y * w + x);
            let from = y * row_bytes(w) + 4 * x;
            &&& p.len() == w * h * 4
            &&& 0 <= at && at + 3 < p.len()
            &&& p[at] == (if bgra {
                data[from + 2]
            } else {
                data[from]
            })
            &&& p[at + 1] == data[from + 1]
            &&& p[at + 2] == (if bgra {
                data[from]
            } else {
                data[from + 2]
            })
            &&& p[at + 3] == 255
        }),
        row_bytes(w) % 256 == 0,
        4 * w <= row_bytes(w) < 4 * w + 256,
{
    let k = y * w + x;
    vstd::arithmetic::div_mod::lemma_fundamental_div_mod_converse(k, w, y, x);
    assert(k < w * h) by (nonlinear_arith)
        requires
            k == y * w + x,
            0 <= x < w,
            0 <= y < h,
    ;
    assert(0 <= k) by (nonlinear_arith)
        requires
            k == y * w + x,
            0 <= x < w,
            0 <= y,
    ;
    assert(w * h * 4 == 4 * (w * h)) by (nonlinear_arith);
    assert((4 * k) / 4 == k && (4 * k) % 4 == 0);
    assert((4 * k + 1) / 4 == k && (4 * k + 1) % 4 == 1);
    assert((4 * k + 2) / 4 == k && (4 * k + 2) % 4 == 2);
    assert((4 * k + 3) / 4 == k && (4 * k + 3) % 4 == 3);
}

/// A round begins with no arrivals and nothing landed. Chunks are awaited
/// first, and tiles start their own count once chunks are no longer awaited.
pub proof fn rounds_count_from_nothing(s: Settle, o: Streams)
    ensures
        s.phase == Phase::Drawn && (o.chunks_pending || o.deferred) && s.round < CAPTURE_ROUNDS ==> {
            let (t, a) = decided(s, o);
            &&& t.arrivals == 0 && t.landed == 0 && t.round == s.round
            &&& a == Action::AwaitChunk <==> o.chunks_pending
            &&& a == Action::AwaitTile <==> !o.chunks_pending && o.tiles_pending
            &&& a == Action::Redraw <==> !o.chunks_pending && !o.tiles_pending
        },
        s.phase == Phase::Chunks && decided(s, o).0.phase != Phase::Chunks ==> decided(s, o).0.arrivals
            == 0 && decided(s, o).0.landed == 0,
        decided(s, o).0.round == s.round,
{
}

} // verus!
