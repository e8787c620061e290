//! Remote players: the glyphs of their name labels and the budget of their
//! block figures.

use vstd::prelude::*;
use crate::body::BodyId;
use crate::measure::Measure;

verus! {

/// Most remote players drawn.
pub const MAX_REMOTE_AVATARS: usize = 16;

/// Most vertices of all remote players together.
pub const MAX_AVATAR_VERTICES: usize = 131_072;

/// The nearest that a player is drawn (a quarter of a metre, in kilometres).
pub const NEAREST_AVATAR: Measure = 0x3F30_624D_D2F1_A9FC;

/// The farthest that a player is drawn (ten kilometres).
pub const FARTHEST_AVATAR: Measure = 0x4024_0000_0000_0000;

/// Characters of a name that a label shows.
pub const LABEL_CHARS: usize = 12;

/// A five by seven glyph, top row first; bit 4 is the leftmost column. Letters
/// share one case, and unknown characters look like a question mark.
pub open spec fn glyph(ch: char) -> Seq<u8> {
    match ch {
        'A' | 'a' => seq![0x0eu8, 0x11u8, 0x11u8, 0x1fu8, 0x11u8, 0x11u8, 0x11u8],
        'B' | 'b' => seq![0x1eu8, 0x11u8, 0x11u8, 0x1eu8, 0x11u8, 0x11u8, 0x1eu8],
        'C' | 'c' => seq![0x0fu8, 0x10u8, 0x10u8, 0x10u8, 0x10u8, 0x10u8, 0x0fu8],
        'D' | 'd' => seq![0x1eu8, 0x11u8, 0x11u8, 0x11u8, 0x11u8, 0x11u8, 0x1eu8],
        'E' | 'e' => seq![0x1fu8, 0x10u8, 0x10u8, 0x1eu8, 0x10u8, 0x10u8, 0x1fu8],
        'F' | 'f' => seq![0x1fu8, 0x10u8, 0x10u8, 0x1eu8, 0x10u8, 0x10u8, 0x10u8],
        'G' | 'g' => seq![0x0fu8, 0x10u8, 0x10u8, 0x17u8, 0x11u8, 0x11u8, 0x0fu8],
        'H' | 'h' => seq![0x11u8, 0x11u8, 0x11u8, 0x1fu8, 0x11u8, 0x11u8, 0x11u8],
        'I' | 'i' => seq![0x1fu8, 0x04u8, 0x04u8, 0x04u8, 0x04u8, 0x04u8, 0x1fu8],
        'J' | 'j' => seq![0x01u8, 0x01u8, 0x01u8, 0x01u8, 0x11u8, 0x11u8, 0x0eu8],
        'K' | 'k' => seq![0x11u8, 0x12u8, 0x14u8, 0x18u8, 0x14u8, 0x12u8, 0x11u8],
        'L' | 'l' => seq![0x10u8, 0x10u8, 0x10u8, 0x10u8, 0x10u8, 0x10u8, 0x1fu8],
        'M' | 'm' => seq![0x11u8, 0x1bu8, 0x15u8, 0x15u8, 0x11u8, 0x11u8, 0x11u8],
        'N' | 'n' => seq![0x11u8, 0x19u8, 0x15u8, 0x13u8, 0x11u8, 0x11u8, 0x11u8],
        'O' | 'o' => seq![0x0eu8, 0x11u8, 0x11u8, 0x11u8, 0x11u8, 0x11u8, 0x0eu8],
        'P' | 'p' => seq![0x1eu8, 0x11u8, 0x11u8, 0x1eu8, 0x10u8, 0x10u8, 0x10u8],
        'Q' | 'q' => seq![0x0eu8, 0x11u8, 0x11u8, 0x11u8, 0x15u8, 0x12u8, 0x0du8],
        'R' | 'r' => seq![0x1eu8, 0x11u8, 0x11u8, 0x1eu8, 0x14u8, 0x12u8, 0x11u8],
        'S' | 's' => seq![0x0fu8, 0x10u8, 0x10u8, 0x0eu8, 0x01u8, 0x01u8, 0x1eu8],
        'T' | 't' => seq![0x1fu8, 0x04u8, 0x04u8, 0x04u8, 0x04u8, 0x04u8, 0x04u8],
        'U' | 'u' => seq![0x11u8, 0x11u8, 0x11u8, 0x11u8, 0x11u8, 0x11u8, 0x0eu8],
        'V' | 'v' => seq![0x11u8, 0x11u8, 0x11u8, 0x11u8, 0x11u8, 0x0au8, 0x04u8],
        'W' | 'w' => seq![0x11u8, 0x11u8, 0x11u8, 0x15u8, 0x15u8, 0x15u8, 0x0au8],
        'X' | 'x' => seq![0x11u8, 0x11u8, 0x0au8, 0x04u8, 0x0au8, 0x11u8, 0x11u8],
        'Y' | 'y' => seq![0x11u8, 0x11u8, 0x0au8, 0x04u8, 0x04u8, 0x04u8, 0x04u8],
        'Z' | 'z' => seq![0x1fu8, 0x01u8, 0x02u8, 0x04u8, 0x08u8, 0x10u8, 0x1fu8],
        '0' => seq![0x0eu8, 0x11u8, 0x13u8, 0x15u8, 0x19u8, 0x11u8, 0x0eu8],
        '1' => seq![0x04u8, 0x0cu8, 0x14u8, 0x04u8, 0x04u8, 0x04u8, 0x1fu8],
        '2' => seq![0x0eu8, 0x11u8, 0x01u8, 0x02u8, 0x04u8, 0x08u8, 0x1fu8],
        '3' => seq![0x1eu8, 0x01u8, 0x01u8, 0x0eu8, 0x01u8, 0x01u8, 0x1eu8],
        '4' => seq![0x02u8, 0x06u8, 0x0au8, 0x12u8, 0x1fu8, 0x02u8, 0x02u8],
        '5' => seq![0x1fu8, 0x10u8, 0x10u8, 0x1eu8, 0x01u8, 0x01u8, 0x1eu8],
        '6' => seq![0x0eu8, 0x10u8, 0x10u8, 0x1eu8, 0x11u8, 0x11u8, 0x0eu8],
        '7' => seq![0x1fu8, 0x01u8, 0x02u8, 0x04u8, 0x08u8, 0x08u8, 0x08u8],
        '8' => seq![0x0eu8, 0x11u8, 0x11u8, 0x0eu8, 0x11u8, 0x11u8, 0x0eu8],
        '9' => seq![0x0eu8, 0x11u8, 0x11u8, 0x0fu8, 0x01u8, 0x01u8, 0x0eu8],
        '-' => seq![0x00u8, 0x00u8, 0x00u8, 0x1fu8, 0x00u8, 0x00u8, 0x00u8],
        '_' => seq![0x00u8, 0x00u8, 0x00u8, 0x00u8, 0x00u8, 0x00u8, 0x1fu8],
        ' ' => seq![0x00u8, 0x00u8, 0x00u8, 0x00u8, 0x00u8, 0x00u8, 0x00u8],
        _ => seq![0x0eu8, 0x11u8, 0x02u8, 0x04u8, 0x04u8, 0x00u8, 0x04u8],
    }
}

pub fn glyph_rows(ch: char) -> (r: [u8; 7])
    ensures
        r@ == glyph(ch),
{
    let r: [u8; 7] = match ch {
        'A' | 'a' => [0x0e, 0x11, 0x11, 0x1f, 0x11, 0x11, 0x11],
        'B' | 'b' => [0x1e, 0x11, 0x11, 0x1e, 0x11, 0x11, 0x1e],
        'C' | 'c' => [0x0f, 0x10, 0x10, 0x10, 0x10, 0x10, 0x0f],
        'D' | 'd' => [0x1e, 0x11, 0x11, 0x11, 0x11, 0x11, 0x1e],
        'E' | 'e' => [0x1f, 0x10, 0x10, 0x1e, 0x10, 0x10, 0x1f],
        'F' | 'f' => [0x1f, 0x10, 0x10, 0x1e, 0x10, 0x10, 0x10],
        'G' | 'g' => [0x0f, 0x10, 0x10, 0x17, 0x11, 0x11, 0x0f],
        'H' | 'h' => [0x11, 0x11, 0x11, 0x1f, 0x11, 0x11, 0x11],
        'I' | 'i' => [0x1f, 0x04, 0x04, 0x04, 0x04, 0x04, 0x1f],
        'J' | 'j' => [0x01, 0x01, 0x01, 0x01, 0x11, 0x11, 0x0e],
        'K' | 'k' => [0x11, 0x12, 0x14, 0x18, 0x14, 0x12, 0x11],
        'L' | 'l' => [0x10, 0x10, 0x10, 0x10, 0x10, 0x10, 0x1f],
        'M' | 'm' => [0x11, 0x1b, 0x15, 0x15, 0x11, 0x11, 0x11],
        'N' | 'n' => [0x11, 0x19, 0x15, 0x13, 0x11, 0x11, 0x11],
        'O' | 'o' => [0x0e, 0x11, 0x11, 0x11, 0x11, 0x11, 0x0e],
        'P' | 'p' => [0x1e, 0x11, 0x11, 0x1e, 0x10, 0x10, 0x10],
        'Q' | 'q' => [0x0e, 0x11, 0x11, 0x11, 0x15, 0x12, 0x0d],
        'R' | 'r' => [0x1e, 0x11, 0x11, 0x1e, 0x14, 0x12, 0x11],
        'S' | 's' => [0x0f, 0x10, 0x10, 0x0e, 0x01, 0x01, 0x1e],
        'T' | 't' => [0x1f, 0x04, 0x04, 0x04, 0x04, 0x04, 0x04],
        'U' | 'u' => [0x11, 0x11, 0x11, 0x11, 0x11, 0x11, 0x0e],
        'V' | 'v' => [0x11, 0x11, 0x11, 0x11, 0x11, 0x0a, 0x04],
        'W' | 'w' => [0x11, 0x11, 0x11, 0x15, 0x15, 0x15, 0x0a],
        'X' | 'x' => [0x11, 0x11, 0x0a, 0x04, 0x0a, 0x11, 0x11],
        'Y' | 'y' => [0x11, 0x11, 0x0a, 0x04, 0x04, 0x04, 0x04],
        'Z' | 'z' => [0x1f, 0x01, 0x02, 0x04, 0x08, 0x10, 0x1f],
        '0' => [0x0e, 0x11, 0x13, 0x15, 0x19, 0x11, 0x0e],
        '1' => [0x04, 0x0c, 0x14, 0x04, 0x04, 0x04, 0x1f],
        '2' => [0x0e, 0x11, 0x01, 0x02, 0x04, 0x08, 0x1f],
        '3' => [0x1e, 0x01, 0x01, 0x0e, 0x01, 0x01, 0x1e],
        '4' => [0x02, 0x06, 0x0a, 0x12, 0x1f, 0x02, 0x02],
        '5' => [0x1f, 0x10, 0x10, 0x1e, 0x01, 0x01, 0x1e],
        '6' => [0x0e, 0x10, 0x10, 0x1e, 0x11, 0x11, 0x0e],
        '7' => [0x1f, 0x01, 0x02, 0x04, 0x08, 0x08, 0x08],
        '8' => [0x0e, 0x11, 0x11, 0x0e, 0x11, 0x11, 0x0e],
        '9' => [0x0e, 0x11, 0x11, 0x0f, 0x01, 0x01, 0x0e],
        '-' => [0x00, 0x00, 0x00, 0x1f, 0x00, 0x00, 0x00],
        '_' => [0x00, 0x00, 0x00, 0x00, 0x00, 0x00, 0x1f],
        ' ' => [0x00, 0x00, 0x00, 0x00, 0x00, 0x00, 0x00],
        _ => [0x0e, 0x11, 0x02, 0x04, 0x04, 0x00, 0x04],
    };
    assert(r@ =~= glyph(ch));
    r
}

/// Every glyph has seven rows of five columns.
pub proof fn glyphs_are_five_by_seven(ch: char, row: int)
    requires
        0 <= row < 7,
    ensures
        glyph(ch).len() == 7,
        glyph(ch)[row] < 32,
{
}

/// A lit pixel of a label: character, row and column.
pub type LabelPixel = (usize, usize, usize);

/// The pixel at place `k` of a label, counted by character, row and column,
/// is lit.
pub open spec fn lit(name: Seq<char>, k: int) -> bool {
    (glyph(name[k / 35])[(k % 35) / 5] >> ((4 - k % 5) as u8)) & 1u8 != 0
}

/// The lit pixels among the first `n` places.
pub open spec fn lit_pixels(name: Seq<char>, n: int) -> Seq<LabelPixel>
    decreases n,
{
    if n <= 0 {
        Seq::empty()
    } else {
        let k = n - 1;
        let rest = lit_pixels(name, k);
        if lit(name, k) {
            rest.push(((k / 35) as usize, ((k % 35) / 5) as usize, (k % 5) as usize))
        } else {
            rest
        }
    }
}

/// Characters that a label of a name shows.
pub open spec fn shown(name: Seq<char>) -> int {
    if name.len() < LABEL_CHARS {
        name.len() as int
    } else {
        LABEL_CHARS as int
    }
}

/// The lit pixels of a player's label, character by character.
pub fn label_pixels(name: &str) -> (out: Vec<LabelPixel>)
    ensures
        out@ == lit_pixels(name@, 35 * shown(name@)),
{
    let len: usize = name.unicode_len();
    let n: usize = if len < LABEL_CHARS {
        len
    } else {
        LABEL_CHARS
    };
    let mut out: Vec<LabelPixel> = Vec::new();
    let mut c: usize = 0;
    while c < n
        invariant
            c <= n <= 12,
            n <= name@.len(),
            out@ == lit_pixels(name@, 35 * c),
        decreases n - c,
    {
        let rows: [u8; 7] = glyph_rows(name.get_char(c));
        let mut p: usize = 0;
        while p < 35
            invariant
                p <= 35,
                c < n <= 12,
                n <= name@.len(),
                rows@ == glyph(name@[c as int]),
                out@ == lit_pixels(name@, 35 * c + p),
            decreases 35 - p,
        {
            let row: usize = p / 5;
            let col: usize = p % 5;
            let bits: u8 = rows[row];
            let shift: u8 = (4 - col) as u8;
            proof {
                let k = 35 * c + p;
                assert(k / 35 == c && k % 35 == p && k % 5 == col);
            }
            if (bits >> shift) & 1 != 0 {
                out.push((c, row, col));
            }
            p += 1;
        }
        c += 1;
    }
    out
}

/// How many of a quad's six vertices still fit the budget.
pub open spec fn room(vertices: int) -> int {
    if vertices + 6 <= MAX_AVATAR_VERTICES {
        6
    } else if vertices < MAX_AVATAR_VERTICES {
        MAX_AVATAR_VERTICES - vertices
    } else {
        0
    }
}

/// How many of a quad's six vertices still fit the budget.
pub fn quad_room(vertices: usize) -> (r: usize)
    ensures
        r == room(vertices as int),
{
    if vertices >= MAX_AVATAR_VERTICES {
        0
    } else if MAX_AVATAR_VERTICES - vertices >= 6 {
        6
    } else {
        MAX_AVATAR_VERTICES - vertices
    }
}

/// The corners that a quad's six vertices name, in order: two triangles.
pub open spec fn quad_corner(k: int) -> int {
    if k == 0 || k == 3 {
        0
    } else if k == 1 {
        1
    } else if k == 2 || k == 4 {
        2
    } else {
        3
    }
}

/// Corner indices of the vertices that fit the budget.
pub fn quad_corners(vertices: usize) -> (out: Vec<usize>)
    ensures
        out@.len() == room(vertices as int),
        forall|k: int| 0 <= k < out@.len() ==> #[trigger] out@[k] == quad_corner(k),
{
    let n: usize = quad_room(vertices);
    let corners: [usize; 6] = [0, 1, 2, 0, 2, 3];
    let mut out: Vec<usize> = Vec::new();
    let mut k: usize = 0;
    while k < n
        invariant
            k <= n <= 6,
            corners@ == seq![0usize, 1usize, 2usize, 0usize, 2usize, 3usize],
            out@.len() == k,
            forall|j: int| 0 <= j < k ==> #[trigger] out@[j] == quad_corner(j),
        decreases n - k,
    {
        out.push(corners[k]);
        k += 1;
    }
    out
}

/// Remote players beyond the limit are not drawn.
pub fn drawn_avatars(present: usize) -> (r: usize)
    ensures
        r == (if present < MAX_REMOTE_AVATARS {
            present
        } else {
            MAX_REMOTE_AVATARS
        }),
{
    if present < MAX_REMOTE_AVATARS {
        present
    } else {
        MAX_REMOTE_AVATARS
    }
}

/// A player is drawn: one on a body with ground, at a finite place, neither too
/// near nor too far.
pub fn in_sight(body: BodyId, placed_finite: bool, distance: Measure) -> (r: bool)
    ensures
        r == (body != BodyId::Sun && placed_finite && NEAREST_AVATAR <= distance <= FARTHEST_AVATAR),
{
    body != BodyId::Sun && placed_finite && NEAREST_AVATAR <= distance && distance <= FARTHEST_AVATAR
}

/// A pixel of a label is lit where the glyph's row has the column's bit, the
/// leftmost worth sixteen.
pub proof fn labels_light_their_glyphs(name: Seq<char>, c: int, row: int, col: int)
    requires
        0 <= c < name.len(),
        0 <= row < 7,
        0 <= col < 5,
    ensures
        ({
            let (k, bits) = (35 * c + 5 * row + col, glyph(name[c])[row] as int);
            &&& col == 0 ==> (lit(name, k) <==> bits / 16 % 2 == 1)
            &&& col == 1 ==> (lit(name, k) <==> bits / 8 % 2 == 1)
            &&& col == 2 ==> (lit(name, k) <==> bits / 4 % 2 == 1)
            &&& col == 3 ==> (lit(name, k) <==> bits / 2 % 2 == 1)
            &&& col == 4 ==> (lit(name, k) <==> bits % 2 == 1)
        }),
{
    let k = 35 * c + 5 * row + col;
    assert(k / 35 == c && k % 35 == 5 * row + col && (k % 35) / 5 == row && k % 5 == col);
    let b = glyph(name[c])[row];
    assert(((b >> 4u8) & 1u8 != 0u8) == (b / 16 % 2 == 1) && ((b >> 3u8) & 1u8 != 0u8) == (b / 8 % 2
        == 1) && ((b >> 2u8) & 1u8 != 0u8) == (b / 4 % 2 == 1) && ((b >> 1u8) & 1u8 != 0u8) == (b / 2
        % 2 == 1) && ((b >> 0u8) & 1u8 != 0u8) == (b % 2 == 1)) by (bit_vector);
}

proof fn lemma_lit_pixels(name: Seq<char>, n: int, c: usize, row: usize, col: usize)
    requires
        0 <= n <= 35 * 12,
        row < 7,
        col < 5,
    ensures
        lit_pixels(name, n).contains((c, row, col)) <==> 35 * c + 5 * row + col < n && lit(
            name,
            35 * c + 5 * row + col,
        ),
    decreases n,
{
    if n > 0 {
        let k = n - 1;
        let head = lit_pixels(name, k);
        let all = lit_pixels(name, n);
        let last: LabelPixel = ((k / 35) as usize, ((k % 35) / 5) as usize, (k % 5) as usize);
        let place = 35 * c + 5 * row + col;
        lemma_lit_pixels(name, k, c, row, col);
        assert(k == 35 * (k / 35) + 5 * ((k % 35) / 5) + k % 5);
        if place == k {
            assert(k / 35 == c && (k % 35) / 5 == row && k % 5 == col);
        }
        if lit(name, k) {
            crate::order::push_contains(head, last);
            assert(all == head.push(last));
        }
    }
}

/// A label shows the lit pixels of its first twelve characters, and no others.
pub proof fn labels_show_twelve_characters(name: Seq<char>, c: usize, row: usize, col: usize)
    requires
        row < 7,
        col < 5,
    ensures
        lit_pixels(name, 35 * shown(name)).contains((c, row, col)) <==> c < name.len() && c < 12 && lit(
            name,
            35 * c + 5 * row + col,
        ),
{
    lemma_lit_pixels(name, 35 * shown(name), c, row, col);
}

/// Letters look the same in either case.
pub proof fn letters_share_one_case(upper: char, lower: char)
    requires
        'A' <= upper <= 'Z',
        lower as int == upper as int + 32,
    ensures
        glyph(upper) == glyph(lower),
{
}

/// A quad is two triangles over its first and third corner, and as much of it
/// is drawn as the 131072 vertices of all players allow.
pub proof fn quads_are_two_triangles(vertices: int)
    requires
        vertices >= 0,
    ensures
        quad_corner(0) == 0 && quad_corner(1) == 1 && quad_corner(2) == 2,
        quad_corner(3) == 0 && quad_corner(4) == 2 && quad_corner(5) == 3,
        vertices + 6 <= 131_072 ==> room(vertices) == 6,
        vertices <= 131_072 < vertices + 6 ==> vertices + room(vertices) == 131_072,
        vertices > 131_072 ==> room(vertices) == 0,
{
}

/// A glyph as one number, five bits to a row, the top row first.
pub open spec fn raster(g: Seq<u8>) -> int
    decreases g.len(),
{
    if g.len() == 0 {
        0
    } else {
        32 * raster(g.drop_last()) + g.last()
    }
}

proof fn lemma_raster(g: Seq<u8>)
    requires
        g.len() == 7,
    ensures
        raster(g) == g[6] + 32 * (g[5] + 32 * (g[4] + 32 * (g[3] + 32 * (g[2] + 32 * (g[1] + 32
            * g[0]))))),
{
    reveal_with_fuel(raster, 8);
}

/// The first half of the alphabet, drawn.
pub proof fn early_letters_have_their_rasters()
    ensures
        raster(glyph('A')) == 0x3A31FC631,
        raster(glyph('B')) == 0x7A31F463E,
        raster(glyph('C')) == 0x3E108420F,
        raster(glyph('D')) == 0x7A318C63E,
        raster(glyph('E')) == 0x7E10F421F,
        raster(glyph('F')) == 0x7E10F4210,
        raster(glyph('G')) == 0x3E10BC62F,
        raster(glyph('H')) == 0x4631FC631,
        raster(glyph('I')) == 0x7C842109F,
        raster(glyph('J')) == 0x4210C62E,
        raster(glyph('K')) == 0x4654C5251,
        raster(glyph('L')) == 0x42108421F,
        raster(glyph('M')) == 0x4775AC631,
{
    lemma_raster(glyph('A'));
    lemma_raster(glyph('B'));
    lemma_raster(glyph('C'));
    lemma_raster(glyph('D'));
    lemma_raster(glyph('E'));
    lemma_raster(glyph('F'));
    lemma_raster(glyph('G'));
    lemma_raster(glyph('H'));
    lemma_raster(glyph('I'));
    lemma_raster(glyph('J'));
    lemma_raster(glyph('K'));
    lemma_raster(glyph('L'));
    lemma_raster(glyph('M'));
}

/// The second half of the alphabet, drawn.
pub proof fn late_letters_have_their_rasters()
    ensures
        raster(glyph('N')) == 0x47359C631,
        raster(glyph('O')) == 0x3A318C62E,
        raster(glyph('P')) == 0x7A31F4210,
        raster(glyph('Q')) == 0x3A318D64D,
        raster(glyph('R')) == 0x7A31F5251,
        raster(glyph('S')) == 0x3E107043E,
        raster(glyph('T')) == 0x7C8421084,
        raster(glyph('U')) == 0x46318C62E,
        raster(glyph('V')) == 0x46318C544,
        raster(glyph('W')) == 0x4631AD6AA,
        raster(glyph('X')) == 0x462A22A31,
        raster(glyph('Y')) == 0x462A21084,
        raster(glyph('Z')) == 0x7C222221F,
{
    lemma_raster(glyph('N'));
    lemma_raster(glyph('O'));
    lemma_raster(glyph('P'));
    lemma_raster(glyph('Q'));
    lemma_raster(glyph('R'));
    lemma_raster(glyph('S'));
    lemma_raster(glyph('T'));
    lemma_raster(glyph('U'));
    lemma_raster(glyph('V'));
    lemma_raster(glyph('W'));
    lemma_raster(glyph('X'));
    lemma_raster(glyph('Y'));
    lemma_raster(glyph('Z'));
}

/// Digits, the dash, the underscore and the blank, drawn.
pub proof fn digits_have_their_rasters()
    ensures
        raster(glyph('0')) == 0x3A33AE62E,
        raster(glyph('1')) == 0x11942109F,
        raster(glyph('2')) == 0x3A211111F,
        raster(glyph('3')) == 0x78217043E,
        raster(glyph('4')) == 0x8CA97C42,
        raster(glyph('5')) == 0x7E10F043E,
        raster(glyph('6')) == 0x3A10F462E,
        raster(glyph('7')) == 0x7C2222108,
        raster(glyph('8')) == 0x3A317462E,
        raster(glyph('9')) == 0x3A317842E,
        raster(glyph('-')) == 0xF8000,
        raster(glyph('_')) == 0x1F,
        raster(glyph(' ')) == 0x0,
{
    lemma_raster(glyph('0'));
    lemma_raster(glyph('1'));
    lemma_raster(glyph('2'));
    lemma_raster(glyph('3'));
    lemma_raster(glyph('4'));
    lemma_raster(glyph('5'));
    lemma_raster(glyph('6'));
    lemma_raster(glyph('7'));
    lemma_raster(glyph('8'));
    lemma_raster(glyph('9'));
    lemma_raster(glyph('-'));
    lemma_raster(glyph('_'));
    lemma_raster(glyph(' '));
}

/// Whatever has no glyph of its own is drawn as a question mark.
pub proof fn strangers_are_drawn_as_questions(ch: char)
    requires
        !('A' <= ch <= 'Z') && !('a' <= ch <= 'z') && !('0' <= ch <= '9'),
        ch != '-' && ch != '_' && ch != ' ',
    ensures
        raster(glyph(ch)) == 0x3A2221004,
{
    lemma_raster(glyph(ch));
}

} // verus!
