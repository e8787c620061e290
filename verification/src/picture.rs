//! Pictures: photos decoded from PNG files and made small, captures written
//! as PNG, and lines drawn onto a map image.

use vstd::prelude::*;

verus! {

/// `png::DecodingError`, carried through unopened.
#[verifier::external_type_specification]
#[verifier::external_body]
pub struct ExDecodingError(png::DecodingError);

/// `png::EncodingError`, carried through unopened.
#[verifier::external_type_specification]
#[verifier::external_body]
pub struct ExEncodingError(png::EncodingError);

/// What the samples of a PNG frame are.
#[derive(Clone, Copy, PartialEq, Eq, Structural, Debug)]
pub enum PngColor {
    Grayscale,
    Rgb,
    Indexed,
    GrayscaleAlpha,
    Rgba,
}

/// A decoded frame: its size, its samples, and their bytes row by row.
pub struct Frame {
    pub width: u32,
    pub height: u32,
    pub color: PngColor,
    pub bytes: Vec<u8>,
}

/// What a frame holds.
#[verifier::ext_equal]
pub struct FrameView {
    pub width: u32,
    pub height: u32,
    pub color: PngColor,
    pub bytes: Seq<u8>,
}

impl View for Frame {
    type V = FrameView;

    open spec fn view(&self) -> FrameView {
        FrameView { width: self.width, height: self.height, color: self.color, bytes: self.bytes@ }
    }
}

/// The frame that `png::Reader::next_frame` decodes from a PNG file without
/// transformations on a machine with 64-bit addresses, or nothing where the
/// decoder refuses the file there.
pub uninterp spec fn decoded(raw: Seq<u8>) -> Option<FrameView>;

/// Calls `png::Decoder::read_info`, `png::Reader::output_buffer_size` and
/// `png::Reader::next_frame`. A frame that comes out is the one the file
/// holds. A machine with narrower addresses may refuse a frame that is too
/// large for it.
#[verifier::external_body]
fn decode(raw: &[u8]) -> (r: Result<Option<Frame>, png::DecodingError>)
    ensures
        r matches Ok(Some(frame)) ==> decoded(raw@) == Some(frame@),
        usize::BITS == 64 && decoded(raw@) is Some ==> r is Ok && r->Ok_0 is Some,
{
    let mut reader = png::Decoder::new(std::io::Cursor::new(raw)).read_info()?;
    let Some(size) = reader.output_buffer_size() else { return Ok(None); };
    let mut bytes = vec![0u8; size];
    let info = reader.next_frame(&mut bytes)?;
    let color = match info.color_type {
        png::ColorType::Grayscale => PngColor::Grayscale,
        png::ColorType::Rgb => PngColor::Rgb,
        png::ColorType::Indexed => PngColor::Indexed,
        png::ColorType::GrayscaleAlpha => PngColor::GrayscaleAlpha,
        png::ColorType::Rgba => PngColor::Rgba,
    };
    Ok(Some(Frame { width: info.width, height: info.height, color, bytes }))
}

/// The widest image that the decoder's memory limit surely admits.
pub const WIDEST: u32 = 0xC0_0000;

/// Calls `png::Encoder::write_header` and `png::Writer::write_image_data` for
/// eight-bit RGBA. Only an image without pixels is refused. PNG is lossless:
/// what was written decodes to the same pixels, where a row is within the
/// decoder's limit.
#[verifier::external_body]
fn encode(width: u32, height: u32, pixels: &[u8]) -> (r: Result<Vec<u8>, png::EncodingError>)
    requires
        pixels@.len() == 4 * width * height,
    ensures
        r is Ok == (width != 0 && height != 0),
        r is Ok && width <= WIDEST ==> decoded(r->Ok_0@) == Some(
            (FrameView { width, height, color: PngColor::Rgba, bytes: pixels@ }),
        ),
{
    let mut out = Vec::new();
    let mut enc = png::Encoder::new(&mut out, width, height);
    enc.set_color(png::ColorType::Rgba);
    enc.set_depth(png::BitDepth::Eight);
    enc.write_header()?.write_image_data(pixels)?;
    Ok(out)
}

/// A pixel: colour premultiplied by alpha.
#[derive(Clone, Copy, PartialEq, Eq, Structural, Debug)]
pub struct Pixel {
    pub r: u8,
    pub g: u8,
    pub b: u8,
    pub a: u8,
}

/// `part` is the channel `c` at opacity `a`, to the nearest value.
pub open spec fn faded(c: u8, a: u8, part: u8) -> bool {
    -127 <= 255 * part - c * a <= 127
}

/// Calls `egui::Color32::from_rgba_unmultiplied`: each channel is scaled by
/// the opacity and rounded to the nearest value.
#[verifier::external_body]
fn unmultiplied(r: u8, g: u8, b: u8, a: u8) -> (p: Pixel)
    ensures
        p.a == a,
        faded(r, a, p.r) && faded(g, a, p.g) && faded(b, a, p.b),
{
    let [r, g, b, a] = egui::Color32::from_rgba_unmultiplied(r, g, b, a).to_array();
    Pixel { r, g, b, a }
}

/// A colour at an opacity, as a pixel of a picture.
pub fn ink(r: u8, g: u8, b: u8, a: u8) -> (p: Pixel)
    ensures
        p.a == a,
        faded(r, a, p.r) && faded(g, a, p.g) && faded(b, a, p.b),
{
    unmultiplied(r, g, b, a)
}

/// A picture, row by row.
pub struct Picture {
    pub width: usize,
    pub height: usize,
    pub pixels: Vec<Pixel>,
}

impl Picture {
    pub open spec fn wf(&self) -> bool {
        self.pixels@.len() == self.width * self.height
    }

    /// The pixel at a place.
    pub open spec fn at(&self, x: int, y: int) -> Pixel {
        self.pixels@[y * self.width + x]
    }
}

/// Why a file is no picture.
#[derive(Clone, Copy, PartialEq, Eq, Structural, Debug)]
pub enum PictureFault {
    /// The file does not decode.
    Undecodable,
    /// The picture does not fit into the machine.
    TooLarge,
    /// The samples are of a sort that is not supported.
    UnsupportedColor(PngColor),
    /// The samples are narrower than a byte.
    Narrow,
}

/// Bytes per pixel, where the samples are supported.
pub open spec fn depth(color: PngColor) -> Option<int> {
    match color {
        PngColor::Rgba => Some(4),
        PngColor::Rgb => Some(3),
        PngColor::Grayscale => Some(1),
        _ => None,
    }
}

/// A frame has a byte for every sample it is read for.
pub open spec fn ample(f: FrameView) -> bool {
    match depth(f.color) {
        Some(d) => f.width * f.height * d <= f.bytes.len(),
        None => true,
    }
}

/// Pixel `k` of a frame.
pub open spec fn sampled(f: FrameView, k: int, p: Pixel) -> bool {
    match f.color {
        PngColor::Rgba => {
            let o = 4 * k;
            let a = f.bytes[o + 3];
            &&& p.a == a
            &&& faded(f.bytes[o], a, p.r)
            &&& faded(f.bytes[o + 1], a, p.g)
            &&& faded(f.bytes[o + 2], a, p.b)
        },
        PngColor::Rgb => p == Pixel {
            r: f.bytes[3 * k],
            g: f.bytes[3 * k + 1],
            b: f.bytes[3 * k + 2],
            a: 255,
        },
        _ => p == Pixel { r: f.bytes[k], g: f.bytes[k], b: f.bytes[k], a: 255 },
    }
}

/// `p` is the picture of a frame.
pub open spec fn pictures(f: FrameView, p: Picture) -> bool {
    &&& depth(f.color) is Some
    &&& p.width == f.width
    &&& p.height == f.height
    &&& p.wf()
    &&& forall|k: int| 0 <= k < p.pixels@.len() ==> sampled(f, k, #[trigger] p.pixels@[k])
}

fn pixel_of(f: &Frame, k: usize) -> (p: Pixel)
    requires
        depth(f@.color) is Some,
        (k + 1) * depth(f@.color)->0 <= f@.bytes.len(),
    ensures
        sampled(f@, k as int, p),
{
    let len: usize = f.bytes.len();
    match f.color {
        PngColor::Rgba => {
            let o: usize = 4 * k;
            unmultiplied(f.bytes[o], f.bytes[o + 1], f.bytes[o + 2], f.bytes[o + 3])
        },
        PngColor::Rgb => {
            let o: usize = 3 * k;
            Pixel { r: f.bytes[o], g: f.bytes[o + 1], b: f.bytes[o + 2], a: 255 }
        },
        _ => Pixel { r: f.bytes[k], g: f.bytes[k], b: f.bytes[k], a: 255 },
    }
}

/// The picture of a frame: RGBA, RGB and gray are supported.
pub fn picture_of(f: &Frame) -> (r: Result<Picture, PictureFault>)
    requires
        ample(f@),
    ensures
        r is Ok <==> depth(f@.color) is Some,
        r matches Ok(p) ==> pictures(f@, p),
        r matches Err(e) ==> e == PictureFault::UnsupportedColor(f@.color),
{
    let d: u64 = match f.color {
        PngColor::Rgba => 4,
        PngColor::Rgb => 3,
        PngColor::Grayscale => 1,
        other => {
            return Err(PictureFault::UnsupportedColor(other));
        },
    };
    let len: usize = f.bytes.len();
    assert(f.width * f.height <= f.width * f.height * d) by (nonlinear_arith)
        requires
            d >= 1,
            f.width >= 0,
            f.height >= 0,
    ;
    assert(f.width <= usize::MAX && f.height <= usize::MAX);
    let count: usize = f.width as usize * f.height as usize;
    let mut pixels: Vec<Pixel> = Vec::new();
    let mut k: usize = 0;
    while k < count
        invariant
            k <= count,
            count == f@.width * f@.height,
            depth(f@.color) == Some(d as int),
            count * d <= f@.bytes.len(),
            pixels@.len() == k,
            forall|i: int| 0 <= i < k ==> sampled(f@, i, #[trigger] pixels@[i]),
        decreases count - k,
    {
        assert((k + 1) * d <= count * d) by (nonlinear_arith)
            requires
                k + 1 <= count,
                d >= 0,
        ;
        pixels.push(pixel_of(f, k));
        k += 1;
    }
    Ok(Picture { width: f.width as usize, height: f.height as usize, pixels })
}

fn is_ample(f: &Frame) -> (r: bool)
    ensures
        r == ample(f@),
{
    let d: u128 = match f.color {
        PngColor::Rgba => 4,
        PngColor::Rgb => 3,
        PngColor::Grayscale => 1,
        _ => {
            return true;
        },
    };
    let w: u128 = f.width as u128;
    let h: u128 = f.height as u128;
    assert(w * h * d <= 0x1_0000_0000 * 0x1_0000_0000 * 4) by (nonlinear_arith)
        requires
            w <= 0xFFFF_FFFF,
            h <= 0xFFFF_FFFF,
            d <= 4,
    ;
    assert(w * h <= 0x1_0000_0000 * 0x1_0000_0000) by (nonlinear_arith)
        requires
            w <= 0xFFFF_FFFF,
            h <= 0xFFFF_FFFF,
    ;
    let need: u128 = w * h * d;
    need <= f.bytes.len() as u128
}

/// A file is read as a picture: it decodes, and its samples are supported and
/// no narrower than a byte.
pub open spec fn readable(raw: Seq<u8>) -> bool {
    decoded(raw) matches Some(f) && depth(f.color) is Some && ample(f)
}

/// The picture of a PNG file. With 64-bit addresses every readable file gives
/// its picture.
pub fn png_dims_and_rgba(raw: &[u8]) -> (r: Result<Picture, PictureFault>)
    ensures
        r is Ok ==> readable(raw@),
        usize::BITS == 64 && readable(raw@) ==> r is Ok,
        r matches Ok(p) ==> pictures(decoded(raw@)->0, p),
        usize::BITS == 64 ==> (r matches Err(PictureFault::Undecodable) || r matches Err(
            PictureFault::TooLarge,
        )) == (decoded(raw@) is None),
        r matches Err(PictureFault::UnsupportedColor(c)) ==> {
            &&& decoded(raw@) is Some
            &&& decoded(raw@)->0.color == c
            &&& depth(c) is None
        },
        r matches Err(PictureFault::Narrow) ==> decoded(raw@) is Some && !ample(decoded(raw@)->0),
{
    match decode(raw) {
        Err(_) => Err(PictureFault::Undecodable),
        Ok(None) => Err(PictureFault::TooLarge),
        Ok(Some(frame)) => if is_ample(&frame) {
            picture_of(&frame)
        } else {
            Err(PictureFault::Narrow)
        },
    }
}

/// How many pixels of a wide picture make one of a small one.
pub open spec fn thinning(width: int, max: int) -> int {
    if width > max {
        (width + max - 1) / max
    } else {
        1
    }
}

/// `small` is `p` with every `step`-th pixel of every `step`-th row.
pub open spec fn thinned(p: Picture, step: int, small: Picture) -> bool {
    &&& small.width == p.width as int / step
    &&& small.height == p.height as int / step
    &&& small.wf()
    &&& forall|x: int, y: int|
        0 <= x < small.width && 0 <= y < small.height ==> #[trigger] small.at(x, y) == p.at(
            x * step,
            y * step,
        )
}

proof fn lemma_place(w: int, h: int, x: int, y: int)
    requires
        0 <= x < w,
        0 <= y < h,
    ensures
        0 <= y * w + x < w * h,
        (y * w + x) / w == y,
        (y * w + x) % w == x,
{
    assert(y * w + x < w * h) by (nonlinear_arith)
        requires
            0 <= x < w,
            0 <= y < h,
    ;
    assert(0 <= y * w) by (nonlinear_arith)
        requires
            0 <= y,
            0 < w,
    ;
    vstd::arithmetic::div_mod::lemma_fundamental_div_mod_converse(y * w + x, w, y, x);
}

/// A picture no wider than `max_w`: unchanged where it is narrow enough, else
/// thinned.
pub fn shrink(p: Picture, max_w: usize) -> (r: Picture)
    requires
        p.wf(),
        max_w > 0,
    ensures
        p.width <= max_w ==> r == p,
        p.width > max_w ==> thinned(p, thinning(p.width as int, max_w as int), r),
{
    if p.width <= max_w {
        return p;
    }
    let q: usize = p.width / max_w;
    let rest: usize = p.width % max_w;
    proof {
        let (w, m) = (p.width as int, max_w as int);
        vstd::arithmetic::div_mod::lemma_fundamental_div_mod(w, m);
        assert(m * (q as int) == (q as int) * m) by (nonlinear_arith);
        if rest > 0 {
            assert((q + 1) * m == q * m + m) by (nonlinear_arith);
            vstd::arithmetic::div_mod::lemma_fundamental_div_mod_converse(
                w + m - 1,
                m,
                q + 1,
                rest - 1,
            );
        } else {
            vstd::arithmetic::div_mod::lemma_fundamental_div_mod_converse(w + m - 1, m, q as int, m - 1);
        }
        assert(q >= 1) by (nonlinear_arith)
            requires
                w == q * m + rest,
                rest < m,
                w > m,
                q >= 0,
                m > 0,
        ;
        assert(q < w || rest == 0) by (nonlinear_arith)
            requires
                w == q * m + rest,
                m >= 1,
                q >= 0,
                rest >= 0,
        ;
    }
    let step: usize = if rest > 0 {
        q + 1
    } else {
        q
    };
    let nw: usize = p.width / step;
    let nh: usize = p.height / step;
    let ghost (w, h, s) = (p.width as int, p.height as int, step as int);
    proof {
        assert(s == thinning(w, max_w as int));
        vstd::arithmetic::div_mod::lemma_fundamental_div_mod(w, s);
        vstd::arithmetic::div_mod::lemma_fundamental_div_mod(h, s);
        assert(nw * s <= w) by (nonlinear_arith)
            requires
                w == s * (nw as int) + w % s,
                w % s >= 0,
        ;
        assert(nh * s <= h) by (nonlinear_arith)
            requires
                h == s * (nh as int) + h % s,
                h % s >= 0,
        ;
    }
    let len: usize = p.pixels.len();
    let mut pixels: Vec<Pixel> = Vec::new();
    let mut y: usize = 0;
    while y < nh
        invariant
            p.wf(),
            p.pixels@.len() == len,
            (w, h, s) == (p.width as int, p.height as int, step as int),
            s >= 1,
            nw * s <= w,
            nh * s <= h,
            y <= nh,
            pixels@.len() == y * nw,
            forall|i: int, j: int|
                0 <= i < nw && 0 <= j < y ==> #[trigger] pixels@[j * nw + i] == p.at(i * s, j * s),
        decreases nh - y,
    {
        let mut x: usize = 0;
        while x < nw
            invariant
                p.wf(),
                p.pixels@.len() == len,
                (w, h, s) == (p.width as int, p.height as int, step as int),
                s >= 1,
                nw * s <= w,
                nh * s <= h,
                y < nh,
                x <= nw,
                pixels@.len() == y * nw + x,
                forall|i: int, j: int|
                    0 <= i < nw && 0 <= j <= y && j * nw + i < y * nw + x
                        ==> #[trigger] pixels@[j * nw + i] == p.at(i * s, j * s),
            decreases nw - x,
        {
            proof {
                assert(x * s < w) by (nonlinear_arith)
                    requires
                        x < nw,
                        nw * s <= w,
                        s >= 1,
                ;
                assert(y * s < h) by (nonlinear_arith)
                    requires
                        y < nh,
                        nh * s <= h,
                        s >= 1,
                ;
                assert(x * s >= 0 && y * s >= 0) by (nonlinear_arith)
                    requires
                        x >= 0,
                        y >= 0,
                        s >= 1,
                ;
                lemma_place(w, h, x * s, y * s);
                assert(0 <= (y * s) * w) by (nonlinear_arith)
                    requires
                        y * s >= 0,
                        w >= 0,
                ;
            }
            let ghost before = pixels@;
            let row: usize = y * step;
            let column: usize = x * step;
            let at: usize = row * p.width + column;
            pixels.push(p.pixels[at]);
            proof {
                assert forall|i: int, j: int|
                    0 <= i < nw && 0 <= j <= y && j * nw + i < y * nw + x + 1 implies #[trigger] pixels@[j
                    * nw + i] == p.at(i * s, j * s) by {
                    if j * nw + i == y * nw + x {
                        lemma_place(nw as int, nh as int, i, j);
                        lemma_place(nw as int, nh as int, x as int, y as int);
                    } else {
                        assert(0 <= j * nw) by (nonlinear_arith)
                            requires
                                0 <= j,
                                0 <= nw,
                        ;
                        assert(pixels@[j * nw + i] == before[j * nw + i]);
                    }
                }
            }
            x += 1;
        }
        proof {
            assert((y + 1) * nw == y * nw + nw) by (nonlinear_arith);
            assert forall|i: int, j: int| 0 <= i < nw && 0 <= j < y + 1 implies #[trigger] pixels@[j * nw
                + i] == p.at(i * s, j * s) by {
                assert(j * nw + i < y * nw + nw) by (nonlinear_arith)
                    requires
                        j <= y,
                        i < nw,
                        nw >= 0,
                ;
            }
        }
        y += 1;
    }
    proof {
        assert(nh * nw == nw * nh) by (nonlinear_arith);
    }
    let small = Picture { width: nw, height: nh, pixels };
    assert forall|i: int, j: int| 0 <= i < small.width && 0 <= j < small.height implies #[trigger] small.at(
        i,
        j,
    ) == p.at(i * s, j * s) by {
        assert(small.at(i, j) == pixels@[j * nw + i]);
    }
    small
}

/// A photo file as a picture no wider than `max_w`. Nothing where the file is
/// no picture. With 64-bit addresses every readable file gives one.
pub fn decode_photo_scaled(raw: &[u8], max_w: usize) -> (r: Option<Picture>)
    requires
        max_w > 0,
    ensures
        r is Some ==> readable(raw@),
        usize::BITS == 64 && readable(raw@) ==> r is Some,
        r matches Some(small) ==> exists|p: Picture| #[trigger]
            pictures(decoded(raw@)->0, p) && (if p.width <= max_w {
                small == p
            } else {
                thinned(p, thinning(p.width as int, max_w as int), small)
            }),
{
    match png_dims_and_rgba(raw) {
        Err(_) => None,
        Ok(p) => {
            let ghost whole = p;
            let small = shrink(p, max_w);
            assert(pictures(decoded(raw@)->0, whole));
            Some(small)
        },
    }
}

/// Why a capture was not written.
#[derive(Clone, Copy, PartialEq, Eq, Structural, Debug)]
pub enum CaptureFault {
    /// There are not four bytes for each pixel.
    WrongSize,
    /// The encoder refused the image.
    Refused,
}

/// A capture as a PNG file. The pixels must be four bytes each; an image
/// without pixels is refused. What was written decodes to the same pixels,
/// where a row is within the decoder's limit.
pub fn write_png(width: u32, height: u32, pixels: &[u8]) -> (r: Result<Vec<u8>, CaptureFault>)
    ensures
        r matches Err(CaptureFault::WrongSize) <==> pixels@.len() != 4 * width * height,
        r matches Err(CaptureFault::Refused) <==> pixels@.len() == 4 * width * height && (width == 0
            || height == 0),
        r matches Ok(data) ==> width <= WIDEST ==> decoded(data@) == Some(
            FrameView { width, height, color: PngColor::Rgba, bytes: pixels@ },
        ),
{
    let w: u128 = width as u128;
    let h: u128 = height as u128;
    assert(w * h <= 0x1_0000_0000 * 0x1_0000_0000) by (nonlinear_arith)
        requires
            w <= 0xFFFF_FFFF,
            h <= 0xFFFF_FFFF,
    ;
    assert(4 * (w * h) == 4 * width * height) by (nonlinear_arith)
        requires
            w == width,
            h == height,
    ;
    let need: u128 = 4 * (w * h);
    if pixels.len() as u128 != need {
        return Err(CaptureFault::WrongSize);
    }
    match encode(width, height, pixels) {
        Ok(data) => Ok(data),
        Err(_) => Err(CaptureFault::Refused),
    }
}

/// `mixed` is `over` laid on `under` at opacity `a`, to the nearest value.
pub open spec fn mixes(under: u8, over: u8, a: u8, mixed: u8) -> bool {
    -127 <= 255 * mixed - (under * (255 - a) + over * a) <= 127
}

/// A colour laid on a pixel. What comes out is opaque.
pub open spec fn laid(under: Pixel, over: Pixel, r: Pixel) -> bool {
    &&& mixes(under.r, over.r, over.a, r.r)
    &&& mixes(under.g, over.g, over.a, r.g)
    &&& mixes(under.b, over.b, over.a, r.b)
    &&& r.a == 255
}

fn mix(under: u8, over: u8, a: u8) -> (r: u8)
    ensures
        mixes(under, over, a, r),
{
    assert(0 <= under * (255 - a) + over * a <= 255 * 255) by (nonlinear_arith)
        requires
            0 <= under <= 255,
            0 <= over <= 255,
            0 <= a <= 255,
    ;
    assert(0 <= under * (255 - a) <= 255 * 255 && 0 <= over * a <= 255 * 255) by (nonlinear_arith)
        requires
            0 <= under <= 255,
            0 <= over <= 255,
            0 <= a <= 255,
    ;
    let total: u32 = under as u32 * (255 - a as u32) + over as u32 * a as u32;
    ((total + 127) / 255) as u8
}

fn lay(under: Pixel, over: Pixel) -> (r: Pixel)
    ensures
        laid(under, over, r),
{
    Pixel {
        r: mix(under.r, over.r, over.a),
        g: mix(under.g, over.g, over.a),
        b: mix(under.b, over.b, over.a),
        a: 255,
    }
}

/// Lay a colour on one pixel. Outside the picture nothing happens.
pub fn blend_map_pixel(image: &mut Picture, x: i32, y: i32, color: Pixel)
    requires
        old(image).wf(),
    ensures
        final(image).wf(),
        final(image).width == old(image).width,
        final(image).height == old(image).height,
        forall|i: int, j: int|
            0 <= i < old(image).width && 0 <= j < old(image).height ==> if i == x && j == y {
                laid(old(image).at(i, j), color, #[trigger] final(image).at(i, j))
            } else {
                final(image).at(i, j) == old(image).at(i, j)
            },
{
    if x < 0 || y < 0 || x as i128 >= image.width as i128 || y as i128 >= image.height as i128 {
        return;
    }
    let ghost (w, h) = (image.width as int, image.height as int);
    proof {
        lemma_place(w, h, x as int, y as int);
        assert(0 <= y * w) by (nonlinear_arith)
            requires
                0 <= y,
                0 <= w,
        ;
    }
    let len: usize = image.pixels.len();
    let row: usize = y as usize * image.width;
    let k: usize = row + x as usize;
    let p: Pixel = lay(image.pixels[k], color);
    image.pixels.set(k, p);
    proof {
        assert forall|i: int, j: int| 0 <= i < w && 0 <= j < h implies if i == x && j == y {
            laid(old(image).at(i, j), color, #[trigger] image.at(i, j))
        } else {
            image.at(i, j) == old(image).at(i, j)
        } by {
            lemma_place(w, h, i, j);
        }
    }
}

/// A place lies in the disc of a radius around another.
pub open spec fn in_disc(dx: int, dy: int, radius: int) -> bool {
    radius >= 0 && dx * dx + dy * dy <= radius * radius
}

/// The widest pen.
pub const MAX_PEN: i32 = 32_767;

/// Lay a colour on every pixel of a disc, once. The pen of a line on the map.
/// A negative radius draws nothing.
pub fn stamp_disc(image: &mut Picture, x: i32, y: i32, radius: i32, color: Pixel)
    requires
        old(image).wf(),
        radius <= MAX_PEN,
        radius >= 0 ==> i32::MIN <= x - radius && x + radius <= i32::MAX,
        radius >= 0 ==> i32::MIN <= y - radius && y + radius <= i32::MAX,
    ensures
        final(image).wf(),
        final(image).width == old(image).width,
        final(image).height == old(image).height,
        forall|i: int, j: int|
            0 <= i < old(image).width && 0 <= j < old(image).height ==> if in_disc(
                i - x,
                j - y,
                radius as int,
            ) {
                laid(old(image).at(i, j), color, #[trigger] final(image).at(i, j))
            } else {
                final(image).at(i, j) == old(image).at(i, j)
            },
{
    if radius < 0 {
        return;
    }
    let ghost start = *image;
    let ghost r = radius as int;
    let mut oy: i32 = -radius;
    proof {
        assert forall|i: int, j: int|
            #![trigger image.at(i, j)]
            0 <= i < start.width && 0 <= j < start.height && j - y < oy implies !in_disc(i - x, j - y, r) by {
            lemma_outside(j - y, i - x, r);
        }
    }
    while oy <= radius
        invariant
            start == *old(image),
            image.wf(),
            image.width == start.width,
            image.height == start.height,
            r == radius,
            0 <= radius <= MAX_PEN,
            i32::MIN <= x - radius && x + radius <= i32::MAX,
            i32::MIN <= y - radius && y + radius <= i32::MAX,
            -radius <= oy <= radius + 1,
            forall|i: int, j: int|
                0 <= i < start.width && 0 <= j < start.height ==> if in_disc(i - x, j - y, r) && j - y
                    < oy {
                    laid(start.at(i, j), color, #[trigger] image.at(i, j))
                } else {
                    image.at(i, j) == start.at(i, j)
                },
        decreases radius + 1 - oy,
    {
        let mut ox: i32 = -radius;
        proof {
            assert forall|i: int, j: int|
                #![trigger image.at(i, j)]
                0 <= i < start.width && 0 <= j < start.height && i - x < ox implies !in_disc(
                i - x,
                j - y,
                r,
            ) by {
                lemma_outside(i - x, j - y, r);
            }
        }
        while ox <= radius
            invariant
                start == *old(image),
                image.wf(),
                image.width == start.width,
                image.height == start.height,
                r == radius,
                0 <= radius <= MAX_PEN,
                i32::MIN <= x - radius && x + radius <= i32::MAX,
                i32::MIN <= y - radius && y + radius <= i32::MAX,
                -radius <= oy <= radius,
                -radius <= ox <= radius + 1,
                forall|i: int, j: int|
                    0 <= i < start.width && 0 <= j < start.height ==> if in_disc(i - x, j - y, r) && (j
                        - y < oy || (j - y == oy && i - x < ox)) {
                        laid(start.at(i, j), color, #[trigger] image.at(i, j))
                    } else {
                        image.at(i, j) == start.at(i, j)
                    },
            decreases radius + 1 - ox,
        {
            assert(0 <= ox * ox <= 1_073_676_289 && 0 <= oy * oy <= 1_073_676_289 && 0 <= radius
                * radius <= 1_073_676_289) by (nonlinear_arith)
                requires
                    -32_767 <= ox <= 32_767,
                    -32_767 <= oy <= 32_767,
                    0 <= radius <= 32_767,
            ;
            let ghost before = *image;
            if ox * ox + oy * oy <= radius * radius {
                blend_map_pixel(image, x + ox, y + oy, color);
            }
            proof {
                assert forall|i: int, j: int|
                    0 <= i < start.width && 0 <= j < start.height implies if in_disc(i - x, j - y, r)
                    && (j - y < oy || (j - y == oy && i - x < ox + 1)) {
                    laid(start.at(i, j), color, #[trigger] image.at(i, j))
                } else {
                    image.at(i, j) == start.at(i, j)
                } by {
                    if i - x == ox && j - y == oy {
                        assert(before.at(i, j) == start.at(i, j));
                    } else {
                        assert(image.at(i, j) == before.at(i, j));
                        assert(before.at(i, j) == before.at(i, j));
                    }
                }
            }
            ox += 1;
        }
        proof {
            assert forall|i: int, j: int|
                0 <= i < start.width && 0 <= j < start.height implies if in_disc(i - x, j - y, r) && j
                - y < oy + 1 {
                laid(start.at(i, j), color, #[trigger] image.at(i, j))
            } else {
                image.at(i, j) == start.at(i, j)
            } by {
                if j - y == oy && i - x > r {
                    lemma_outside(i - x, j - y, r);
                }
            }
        }
        oy += 1;
    }
    proof {
        assert forall|i: int, j: int| 0 <= i < start.width && 0 <= j < start.height implies if in_disc(
            i - x,
            j - y,
            r,
        ) {
            laid(start.at(i, j), color, #[trigger] image.at(i, j))
        } else {
            image.at(i, j) == start.at(i, j)
        } by {
            if j - y > r {
                lemma_outside(j - y, i - x, r);
            }
        }
    }
}

proof fn lemma_outside(a: int, b: int, r: int)
    requires
        r >= 0,
        a > r || a < -r,
    ensures
        a * a + b * b > r * r,
        b * b + a * a > r * r,
{
    assert(a * a > r * r) by (nonlinear_arith)
        requires
            r >= 0,
            a > r || a < -r,
    ;
    assert(b * b >= 0) by (nonlinear_arith);
}

/// A small picture is no wider than asked.
pub proof fn thinned_pictures_fit(width: int, max: int)
    requires
        width > max > 0,
    ensures
        thinning(width, max) > 1,
        width / thinning(width, max) <= max,
{
    let s = thinning(width, max);
    vstd::arithmetic::div_mod::lemma_fundamental_div_mod(width + max - 1, max);
    assert(s * max >= width) by (nonlinear_arith)
        requires
            width + max - 1 == max * s + (width + max - 1) % max,
            (width + max - 1) % max < max,
    ;
    assert(s > 1) by (nonlinear_arith)
        requires
            s * max >= width,
            width > max,
            max > 0,
    ;
    let q = width / s;
    vstd::arithmetic::div_mod::lemma_fundamental_div_mod(width, s);
    assert(q <= max) by (nonlinear_arith)
        requires
            width == s * q + width % s,
            width % s >= 0,
            s * max >= width,
            s > 1,
    ;
}

/// A file that holds a capture is readable.
pub proof fn captures_are_readable(data: Seq<u8>, width: u32, height: u32, bytes: Seq<u8>)
    requires
        decoded(data) == Some(FrameView { width, height, color: PngColor::Rgba, bytes }),
        bytes.len() == 4 * width * height,
    ensures
        readable(data),
{
    assert(width * height * 4 == 4 * width * height) by (nonlinear_arith);
}

/// An opaque capture comes back pixel for pixel from the file written for it.
pub proof fn opaque_captures_round_trip(
    data: Seq<u8>,
    width: u32,
    height: u32,
    bytes: Seq<u8>,
    p: Picture,
    k: int,
)
    requires
        decoded(data) == Some(FrameView { width, height, color: PngColor::Rgba, bytes }),
        pictures(decoded(data)->0, p),
        0 <= k < p.pixels@.len(),
        bytes[4 * k + 3] == 255,
    ensures
        p.width == width && p.height == height,
        p.pixels@[k] == (Pixel {
            r: bytes[4 * k],
            g: bytes[4 * k + 1],
            b: bytes[4 * k + 2],
            a: 255,
        }),
{
    assert(sampled(decoded(data)->0, k, p.pixels@[k]));
}

proof fn lemma_ends(under: u8, over: u8, a: u8, mixed: u8)
    requires
        mixes(under, over, a, mixed),
    ensures
        a == 0 ==> mixed == under,
        a == 255 ==> mixed == over,
{
    if a == 0 {
        assert(under * (255 - a) + over * a == 255 * under) by (nonlinear_arith)
            requires
                a == 0,
        ;
    }
    if a == 255 {
        assert(under * (255 - a) + over * a == 255 * over) by (nonlinear_arith)
            requires
                a == 255,
        ;
    }
}

/// Laying on a colour has one outcome; a clear colour leaves what is there,
/// an opaque one replaces it.
pub proof fn laying_is_exact(under: Pixel, over: Pixel, p: Pixel, q: Pixel)
    requires
        laid(under, over, p),
        laid(under, over, q),
    ensures
        p == q,
        over.a == 0 ==> p == (Pixel { a: 255, ..under }),
        over.a == 255 ==> p == over,
{
    lemma_ends(under.r, over.r, over.a, p.r);
    lemma_ends(under.g, over.g, over.a, p.g);
    lemma_ends(under.b, over.b, over.a, p.b);
}

/// Colour pixels take their channels in order, gray ones three times the same;
/// both are opaque.
pub proof fn samples_become_pixels(f: FrameView, p: Picture, k: int)
    requires
        pictures(f, p),
        0 <= k < p.pixels@.len(),
    ensures
        p.width == f.width && p.height == f.height,
        p.pixels@.len() == f.width * f.height,
        f.color == PngColor::Rgb ==> p.pixels@[k] == (Pixel {
            r: f.bytes[3 * k],
            g: f.bytes[3 * k + 1],
            b: f.bytes[3 * k + 2],
            a: 255,
        }),
        f.color == PngColor::Grayscale ==> p.pixels@[k] == (Pixel {
            r: f.bytes[k],
            g: f.bytes[k],
            b: f.bytes[k],
            a: 255,
        }),
        f.color == PngColor::Rgba ==> {
            let (q, a) = (p.pixels@[k], f.bytes[4 * k + 3]);
            &&& q.a == a
            &&& -127 <= 255 * q.r - f.bytes[4 * k] * a <= 127
            &&& -127 <= 255 * q.g - f.bytes[4 * k + 1] * a <= 127
            &&& -127 <= 255 * q.b - f.bytes[4 * k + 2] * a <= 127
        },
        f.color == PngColor::Rgb || f.color == PngColor::Grayscale || f.color == PngColor::Rgba,
{
    assert(sampled(f, k, p.pixels@[k]));
}

/// A file is read where its samples are of one of the three sorts and there is
/// a byte for each.
pub proof fn pictures_need_their_bytes(raw: Seq<u8>, f: FrameView)
    requires
        decoded(raw) == Some(f),
    ensures
        f.color == PngColor::Rgba ==> (readable(raw) <==> f.width * f.height * 4 <= f.bytes.len()),
        f.color == PngColor::Rgb ==> (readable(raw) <==> f.width * f.height * 3 <= f.bytes.len()),
        f.color == PngColor::Grayscale ==> (readable(raw) <==> f.width * f.height * 1 <= f.bytes.len()),
        f.color != PngColor::Rgba && f.color != PngColor::Rgb && f.color != PngColor::Grayscale
            ==> !readable(raw),
{
}

/// A wide picture is thinned no more than it takes to fit.
pub proof fn pictures_are_thinned_as_little_as_fits(width: int, max: int)
    requires
        max > 0,
        width >= 0,
    ensures
        width <= max ==> thinning(width, max) == 1,
        width > max ==> thinning(width, max) * max >= width && (thinning(width, max) - 1) * max < width,
{
    if width > max {
        let s = thinning(width, max);
        vstd::arithmetic::div_mod::lemma_fundamental_div_mod(width + max - 1, max);
        assert(s * max == max * s) by (nonlinear_arith);
        assert((s - 1) * max == max * s - max) by (nonlinear_arith);
    }
}

/// A laid channel is the value nearest to the weighted mean.
pub proof fn laid_channels_are_nearest(under: u8, over: u8, a: u8, mixed: u8, other: u8)
    requires
        mixes(under, over, a, mixed),
    ensures
        ({
            let mean = under * (255 - a) + over * a;
            let (d, e) = (255 * mixed - mean, 255 * other - mean);
            &&& -255 <= 2 * d <= 255
            &&& other != mixed ==> d < e && -e < d || e < d && d < -e
        }),
{
}

/// A laid pixel mixes each channel with its own and comes out opaque.
pub proof fn pixels_are_laid_by_channel(under: Pixel, over: Pixel, r: Pixel)
    ensures
        laid(under, over, r) <==> r.a == 255 && mixes(under.r, over.r, over.a, r.r) && mixes(
            under.g,
            over.g,
            over.a,
            r.g,
        ) && mixes(under.b, over.b, over.a, r.b),
{
}

/// A disc reaches its radius to every side and no farther, and is the same on
/// all sides. A negative radius holds nothing.
pub proof fn discs_are_round(dx: int, dy: int, radius: int)
    ensures
        radius < 0 ==> !in_disc(dx, dy, radius),
        radius >= 0 ==> (in_disc(dx, 0, radius) <==> -radius <= dx <= radius),
        in_disc(dx, dy, radius) == in_disc(dy, dx, radius),
        in_disc(dx, dy, radius) == in_disc(-dx, dy, radius),
        radius >= 0 ==> (in_disc(dx, dy, radius) <==> dx * dx + dy * dy <= radius * radius),
{
    assert((-dx) * (-dx) == dx * dx) by (nonlinear_arith);
    if radius >= 0 {
        assert(dx * dx + 0 * 0 <= radius * radius <==> -radius <= dx <= radius) by (nonlinear_arith)
            requires
                radius >= 0,
        ;
    }
}

/// A thinned picture has a pixel for every full step of the wide one, and it
/// is the one at that step.
pub proof fn thinned_pictures_keep_every_step(p: Picture, step: int, small: Picture, x: int, y: int)
    requires
        thinned(p, step, small),
        step > 0,
    ensures
        small.width * step <= p.width < (small.width + 1) * step,
        small.height * step <= p.height < (small.height + 1) * step,
        0 <= x < small.width && 0 <= y < small.height ==> small.pixels@[y * small.width + x]
            == p.pixels@[(y * step) * p.width + x * step],
{
    vstd::arithmetic::div_mod::lemma_fundamental_div_mod(p.width as int, step);
    vstd::arithmetic::div_mod::lemma_fundamental_div_mod(p.height as int, step);
    let (w, h) = (small.width as int, small.height as int);
    assert(step * w == w * step && (w + 1) * step == w * step + step) by (nonlinear_arith);
    assert(step * h == h * step && (h + 1) * step == h * step + step) by (nonlinear_arith);
    if 0 <= x < small.width && 0 <= y < small.height {
        assert(small.at(x, y) == p.at(x * step, y * step));
    }
}

} // verus!
