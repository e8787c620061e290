//! The baked river file: drainage segments and lake cells.
//!
//! A file is the four bytes `RIV1`, the number of segments and of lake cells,
//! then nine words for every segment and six for every lake cell. Words are
//! little-endian; values are the bit patterns of 32-bit floating-point
//! numbers.

use vstd::prelude::*;

verus! {

/// Bytes before the first segment.
pub const HEADER: usize = 12;

/// Bytes of one segment.
pub const SEGMENT_BYTES: usize = 36;

/// Bytes of one lake cell.
pub const LAKE_BYTES: usize = 24;

/// Why a river file is refused.
#[derive(Clone, Copy, PartialEq, Eq, Structural, Debug)]
pub enum RiverFault {
    /// Too short, or not a river file.
    BadHeader,
    /// Its length does not match its counts.
    SizeMismatch,
}

impl RiverFault {
    /// The message shown for a refused file.
    pub fn message(&self) -> (s: &'static str)
        ensures
            s@ == (match self {
                RiverFault::BadHeader => "bad rivers.bin header"@,
                RiverFault::SizeMismatch =>
                    "rivers.bin size mismatch - rerun scripts/bake_rivers.py"@,
            }),
    {
        match self {
            RiverFault::BadHeader => "bad rivers.bin header",
            RiverFault::SizeMismatch => "rivers.bin size mismatch - rerun scripts/bake_rivers.py",
        }
    }
}

/// A node of the drainage graph: the bit patterns of its unit vector.
#[derive(Clone, Copy, PartialEq, Eq, Structural, Debug)]
pub struct Node {
    pub x: u32,
    pub y: u32,
    pub z: u32,
}

/// A drainage segment, upstream end first.
#[derive(Clone, Copy, PartialEq, Eq, Structural, Debug)]
pub struct SegmentRecord {
    pub a: Node,
    pub b: Node,
    pub flow_log: u32,
    pub level_a: u32,
    pub level_b: u32,
}

/// A lake cell or a dry cell of its rim.
#[derive(Clone, Copy, PartialEq, Eq, Structural, Debug)]
pub struct LakeRecord {
    pub center: Node,
    pub radius: u32,
    pub level: u32,
    pub flags: u32,
}

/// The bit patterns of 0.75, 1.25, 1.5 and infinity.
pub const BITS_0_75: u32 = 0x3F40_0000;

pub const BITS_1_25: u32 = 0x3FA0_0000;

pub const BITS_1_5: u32 = 0x3FC0_0000;

pub const BITS_INFINITY: u32 = 0x7F80_0000;

impl LakeRecord {
    /// The flag word is close to one.
    pub open spec fn is_salt(self) -> bool {
        BITS_0_75 < self.flags < BITS_1_25
    }

    /// The flag word is above one and a half.
    pub open spec fn is_rim(self) -> bool {
        BITS_1_5 < self.flags <= BITS_INFINITY
    }

    /// A salt lake.
    pub fn salt(&self) -> (r: bool)
        ensures
            r == self.is_salt(),
    {
        BITS_0_75 < self.flags && self.flags < BITS_1_25
    }

    /// A dry cell bordering the lake.
    pub fn rim(&self) -> (r: bool)
        ensures
            r == self.is_rim(),
    {
        BITS_1_5 < self.flags && self.flags <= BITS_INFINITY
    }
}

/// The contents of a river file.
pub struct RiverFile {
    pub segments: Vec<SegmentRecord>,
    pub lakes: Vec<LakeRecord>,
}

/// The little-endian word at an offset.
pub open spec fn word(raw: Seq<u8>, o: int) -> u32 {
    (raw[o] + raw[o + 1] * 0x100 + raw[o + 2] * 0x1_0000 + raw[o + 3] * 0x100_0000) as u32
}

fn read_word(raw: &[u8], o: usize) -> (r: u32)
    requires
        o + 4 <= raw@.len(),
    ensures
        r == word(raw@, o as int),
{
    let len: usize = raw.len();
    raw[o] as u32 + raw[o + 1] as u32 * 0x100 + raw[o + 2] as u32 * 0x1_0000 + raw[o + 3] as u32
        * 0x100_0000
}

pub open spec fn node_at(raw: Seq<u8>, o: int) -> Node {
    Node { x: word(raw, o), y: word(raw, o + 4), z: word(raw, o + 8) }
}

fn read_node(raw: &[u8], o: usize) -> (r: Node)
    requires
        o + 12 <= raw@.len(),
    ensures
        r == node_at(raw@, o as int),
{
    let len: usize = raw.len();
    Node { x: read_word(raw, o), y: read_word(raw, o + 4), z: read_word(raw, o + 8) }
}

/// The `i`-th segment of a file.
pub open spec fn segment_at(raw: Seq<u8>, i: int) -> SegmentRecord {
    let o = HEADER + i * SEGMENT_BYTES;
    SegmentRecord {
        a: node_at(raw, o),
        b: node_at(raw, o + 12),
        flow_log: word(raw, o + 24),
        level_a: word(raw, o + 28),
        level_b: word(raw, o + 32),
    }
}

/// The `i`-th lake cell of a file with `n_seg` segments.
pub open spec fn lake_cell_at(raw: Seq<u8>, n_seg: int, i: int) -> LakeRecord {
    let o = HEADER + n_seg * SEGMENT_BYTES + i * LAKE_BYTES;
    LakeRecord {
        center: node_at(raw, o),
        radius: word(raw, o + 12),
        level: word(raw, o + 16),
        flags: word(raw, o + 20),
    }
}

/// The file starts with its mark and is long enough for its counts.
pub open spec fn has_header(raw: Seq<u8>) -> bool {
    raw.len() >= HEADER && raw[0] == 0x52 && raw[1] == 0x49 && raw[2] == 0x56 && raw[3] == 0x31
}

/// The length that a file's counts call for.
pub open spec fn expected_len(raw: Seq<u8>) -> int {
    HEADER + word(raw, 4) * SEGMENT_BYTES + word(raw, 8) * LAKE_BYTES
}

/// What a file holds.
pub open spec fn holds(f: RiverFile, raw: Seq<u8>) -> bool {
    &&& f.segments@ == Seq::new(word(raw, 4) as nat, |i: int| segment_at(raw, i))
    &&& f.lakes@ == Seq::new(
        word(raw, 8) as nat,
        |i: int| lake_cell_at(raw, word(raw, 4) as int, i),
    )
}

/// Read a river file.
pub fn parse_rivers(raw: &[u8]) -> (r: Result<RiverFile, RiverFault>)
    ensures
        match r {
            Ok(f) => has_header(raw@) && raw@.len() == expected_len(raw@) && holds(f, raw@),
            Err(RiverFault::BadHeader) => !has_header(raw@),
            Err(RiverFault::SizeMismatch) => has_header(raw@) && raw@.len() != expected_len(raw@),
        },
{
    let len: usize = raw.len();
    if len < HEADER || raw[0] != 0x52 || raw[1] != 0x49 || raw[2] != 0x56 || raw[3] != 0x31 {
        return Err(RiverFault::BadHeader);
    }
    let n_seg: u32 = read_word(raw, 4);
    let n_lake: u32 = read_word(raw, 8);
    let expected: u64 = 12 + n_seg as u64 * 36 + n_lake as u64 * 24;
    if len as u64 != expected {
        return Err(RiverFault::SizeMismatch);
    }
    let mut segments: Vec<SegmentRecord> = Vec::new();
    let mut i: u32 = 0;
    while i < n_seg
        invariant
            i <= n_seg,
            len == raw@.len(),
            len == 12 + n_seg * 36 + n_lake * 24,
            segments@ == Seq::new(i as nat, |k: int| segment_at(raw@, k)),
        decreases n_seg - i,
    {
        let o: usize = 12 + i as usize * 36;
        segments.push(
            SegmentRecord {
                a: read_node(raw, o),
                b: read_node(raw, o + 12),
                flow_log: read_word(raw, o + 24),
                level_a: read_word(raw, o + 28),
                level_b: read_word(raw, o + 32),
            },
        );
        assert(segments@ =~= Seq::new((i + 1) as nat, |k: int| segment_at(raw@, k)));
        i += 1;
    }
    let base: usize = 12 + n_seg as usize * 36;
    let mut lakes: Vec<LakeRecord> = Vec::new();
    let mut j: u32 = 0;
    while j < n_lake
        invariant
            j <= n_lake,
            len == raw@.len(),
            base == 12 + n_seg * 36,
            len == base + n_lake * 24,
            lakes@ == Seq::new(j as nat, |k: int| lake_cell_at(raw@, n_seg as int, k)),
        decreases n_lake - j,
    {
        let o: usize = base + j as usize * 24;
        lakes.push(
            LakeRecord {
                center: read_node(raw, o),
                radius: read_word(raw, o + 12),
                level: read_word(raw, o + 16),
                flags: read_word(raw, o + 20),
            },
        );
        assert(lakes@ =~= Seq::new((j + 1) as nat, |k: int| lake_cell_at(raw@, n_seg as int, k)));
        j += 1;
    }
    Ok(RiverFile { segments, lakes })
}

/// A cell is never both a salt lake and a rim.
pub proof fn salt_lakes_are_not_rims(l: LakeRecord)
    ensures
        !(l.is_salt() && l.is_rim()),
{
}

/// The file holds a word at an offset.
pub open spec fn holds_word(raw: Seq<u8>, o: int, w: u32) -> bool {
    &&& raw[o] == w as int % 256
    &&& raw[o + 1] == w as int / 256 % 256
    &&& raw[o + 2] == w as int / 65536 % 256
    &&& raw[o + 3] == w as int / 16777216
}

/// A segment is read as it was written: nine words from byte 12 on, 36 bytes
/// to a segment, the upstream end, the downstream end, the flow and the two
/// levels.
pub proof fn segments_are_read_as_written(raw: Seq<u8>, i: int, s: SegmentRecord)
    requires
        i >= 0,
        holds_word(raw, 12 + 36 * i, s.a.x),
        holds_word(raw, 16 + 36 * i, s.a.y),
        holds_word(raw, 20 + 36 * i, s.a.z),
        holds_word(raw, 24 + 36 * i, s.b.x),
        holds_word(raw, 28 + 36 * i, s.b.y),
        holds_word(raw, 32 + 36 * i, s.b.z),
        holds_word(raw, 36 + 36 * i, s.flow_log),
        holds_word(raw, 40 + 36 * i, s.level_a),
        holds_word(raw, 44 + 36 * i, s.level_b),
    ensures
        segment_at(raw, i) == s,
{
    lemma_word_read(raw, 12 + 36 * i, s.a.x);
    lemma_word_read(raw, 16 + 36 * i, s.a.y);
    lemma_word_read(raw, 20 + 36 * i, s.a.z);
    lemma_word_read(raw, 24 + 36 * i, s.b.x);
    lemma_word_read(raw, 28 + 36 * i, s.b.y);
    lemma_word_read(raw, 32 + 36 * i, s.b.z);
    lemma_word_read(raw, 36 + 36 * i, s.flow_log);
    lemma_word_read(raw, 40 + 36 * i, s.level_a);
    lemma_word_read(raw, 44 + 36 * i, s.level_b);
}

proof fn lemma_word_read(raw: Seq<u8>, o: int, w: u32)
    requires
        holds_word(raw, o, w),
    ensures
        word(raw, o) == w,
{
    let v = w as int;
    assert(v == v % 256 + (v / 256 % 256) * 256 + (v / 65536 % 256) * 65536 + (v / 16777216) * 16777216);
}

/// A lake cell is read as it was written: six words after the segments, 24
/// bytes to a cell, its centre, radius, level and flags.
pub proof fn lakes_are_read_as_written(raw: Seq<u8>, n_seg: int, i: int, l: LakeRecord)
    requires
        i >= 0,
        n_seg >= 0,
        holds_word(raw, 12 + 36 * n_seg + 24 * i, l.center.x),
        holds_word(raw, 16 + 36 * n_seg + 24 * i, l.center.y),
        holds_word(raw, 20 + 36 * n_seg + 24 * i, l.center.z),
        holds_word(raw, 24 + 36 * n_seg + 24 * i, l.radius),
        holds_word(raw, 28 + 36 * n_seg + 24 * i, l.level),
        holds_word(raw, 32 + 36 * n_seg + 24 * i, l.flags),
    ensures
        lake_cell_at(raw, n_seg, i) == l,
{
    let o = 36 * n_seg + 24 * i;
    lemma_word_read(raw, 12 + o, l.center.x);
    lemma_word_read(raw, 16 + o, l.center.y);
    lemma_word_read(raw, 20 + o, l.center.z);
    lemma_word_read(raw, 24 + o, l.radius);
    lemma_word_read(raw, 28 + o, l.level);
    lemma_word_read(raw, 32 + o, l.flags);
}

/// A river file is its mark, two counts, and as many records as they say: one
/// that holds them is accepted at exactly that length, and read whole.
pub proof fn files_hold_what_they_count(raw: Seq<u8>, n_seg: u32, n_lake: u32, f: RiverFile)
    requires
        raw.len() >= 12,
        holds_word(raw, 4, n_seg),
        holds_word(raw, 8, n_lake),
    ensures
        expected_len(raw) == 12 + 36 * n_seg + 24 * n_lake,
        has_header(raw) <==> raw[0] == 82 && raw[1] == 73 && raw[2] == 86 && raw[3] == 49,
        holds(f, raw) ==> f.segments@.len() == n_seg && f.lakes@.len() == n_lake && (forall|i: int|
            0 <= i < n_seg ==> #[trigger] f.segments@[i] == segment_at(raw, i)) && (forall|i: int|
            0 <= i < n_lake ==> #[trigger] f.lakes@[i] == lake_cell_at(raw, n_seg as int, i)),
{
    lemma_word_read(raw, 4, n_seg);
    lemma_word_read(raw, 8, n_lake);
}

/// The flags of a cell: one is a salt lake, two a rim, none a fresh lake.
pub proof fn flags_tell_lakes_apart(l: LakeRecord)
    ensures
        l.flags == 0 ==> !l.is_salt() && !l.is_rim(),
        l.flags == 0x3F80_0000 ==> l.is_salt() && !l.is_rim(),
        l.flags == 0x4000_0000 ==> l.is_rim() && !l.is_salt(),
        l.is_salt() <==> 0x3F40_0000 < l.flags < 0x3FA0_0000,
        l.is_rim() <==> 0x3FC0_0000 < l.flags <= 0x7F80_0000,
{
}

} // verus!
