//! RGB rasters and the image operations that the image codec performs on them.
use vstd::prelude::*;
use vstd::arithmetic::div_mod::{
    lemma_fundamental_div_mod, lemma_fundamental_div_mod_converse, lemma_mod_pos_bound,
};

verus! {

/// An 8-bit RGB raster: `width * height` pixels, row by row, three bytes each.
pub struct Pixels {
    pub data: Vec<u8>,
    pub width: u32,
    pub height: u32,
}

impl Pixels {
    /// Whether the buffer holds exactly `width * height` pixels.
    pub open spec fn wf(&self) -> bool {
        self.data@.len() == self.width * self.height * 3
    }
}

/// `image::ImageError`, carried through as the error of a decode.
#[verifier::external_type_specification]
#[verifier::external_body]
pub struct ExImageError(image::ImageError);

/// What decoding an encoded image gives as an RGB raster: its bytes, width
/// and height, or `None` when the bytes are not an image the codec reads.
pub uninterp spec fn decoded_of(bytes: Seq<u8>) -> Option<(Seq<u8>, u32, u32)>;

/// The raster turned a quarter, clockwise or not: the pixel at column `x`
/// and row `y` of the result, which is `h` pixels wide, comes from the
/// source pixel that the turn carries there.
pub open spec fn quarter_turn(data: Seq<u8>, w: nat, h: nat, clockwise: bool) -> Seq<u8> {
    Seq::new(
        data.len(),
        |k: int|
            {
                let p = k / 3;
                let c = k % 3;
                let x = p % (h as int);
                let y = p / (h as int);
                let sx = if clockwise {
                    y
                } else {
                    w - 1 - y
                };
                let sy = if clockwise {
                    h - 1 - x
                } else {
                    x
                };
                data[(sy * w + sx) * 3 + c]
            },
    )
}

/// Relies on `image::load_from_memory`, whose result depends on the bytes
/// alone, and on `DynamicImage::to_rgb8` to hand it out as an RGB raster.
#[verifier::external_body]
pub(crate) fn decode_rgb(bytes: &Vec<u8>) -> (r: Result<Pixels, image::ImageError>)
    ensures
        r is Ok <==> decoded_of(bytes@) is Some,
        r is Ok ==> r->Ok_0.wf() && (r->Ok_0.data@, r->Ok_0.width, r->Ok_0.height)
            == decoded_of(bytes@)->0,
{
    let img = image::load_from_memory(bytes)?.to_rgb8();
    let (width, height) = img.dimensions();
    Ok(Pixels { data: img.into_raw(), width, height })
}

/// Whether scaling `width` by `height` to cover `nwidth` by `nheight` stays
/// clear of the largest size the codec scales to, so that no side is clamped.
pub open spec fn fill_in_range(width: u32, height: u32, nwidth: u32, nheight: u32) -> bool {
    &&& width * nheight <= 0x7fff_ffff * height
    &&& height * nwidth <= 0x7fff_ffff * width
}

/// Relies on `image::DynamicImage::resize_to_fill` with the Lanczos filter:
/// the raster is scaled until it covers the requested size and then cropped
/// to it, so the result is never larger, and exactly that size unless the
/// scaled size had to be clamped. The filter's weights come from floating
/// point whose precision std leaves open, so nothing is said of the bytes.
#[verifier::external_body]
pub(crate) fn resize_to_fill(p: &Pixels, nwidth: u32, nheight: u32) -> (r: Pixels)
    requires
        p.wf(),
        p.width > 0,
        p.height > 0,
        nwidth > 0,
        nheight > 0,
    ensures
        r.wf(),
        r.width <= nwidth,
        r.height <= nheight,
        fill_in_range(p.width, p.height, nwidth, nheight) ==> r.width == nwidth && r.height
            == nheight,
{
    let buf = image::RgbImage::from_raw(p.width, p.height, p.data.clone()).unwrap();
    let img = image::DynamicImage::ImageRgb8(buf).resize_to_fill(
        nwidth,
        nheight,
        image::imageops::FilterType::Lanczos3,
    ).to_rgb8();
    let (width, height) = img.dimensions();
    Pixels { data: img.into_raw(), width, height }
}

/// Relies on `image::imageops::rotate90`: the pixel at (x, y) moves to
/// (height - 1 - y, x).
#[verifier::external_body]
pub(crate) fn rotate_clockwise(p: &Pixels) -> (r: Pixels)
    requires
        p.wf(),
    ensures
        r.width == p.height,
        r.height == p.width,
        r.data@ == quarter_turn(p.data@, p.width as nat, p.height as nat, true),
{
    let buf = image::RgbImage::from_raw(p.width, p.height, p.data.clone()).unwrap();
    let img = image::imageops::rotate90(&buf);
    Pixels { data: img.into_raw(), width: p.height, height: p.width }
}

/// Relies on `image::imageops::rotate270`: the pixel at (x, y) moves to
/// (y, width - 1 - x).
#[verifier::external_body]
pub(crate) fn rotate_counterclockwise(p: &Pixels) -> (r: Pixels)
    requires
        p.wf(),
    ensures
        r.width == p.height,
        r.height == p.width,
        r.data@ == quarter_turn(p.data@, p.width as nat, p.height as nat, false),
{
    let buf = image::RgbImage::from_raw(p.width, p.height, p.data.clone()).unwrap();
    let img = image::imageops::rotate270(&buf);
    Pixels { data: img.into_raw(), width: p.height, height: p.width }
}

/// A quarter turn keeps the number of bytes, so the turned raster is well formed.
pub proof fn lemma_quarter_turn_wf(p: Pixels, r: Pixels, clockwise: bool)
    requires
        p.wf(),
        r.width == p.height,
        r.height == p.width,
        r.data@ == quarter_turn(p.data@, p.width as nat, p.height as nat, clockwise),
    ensures
        r.wf(),
{
    assert(r.width * r.height == p.width * p.height) by (nonlinear_arith)
        requires
            r.width == p.height,
            r.height == p.width,
    ;
}

/// The raster turned half around: the pixels in reverse order, each pixel's
/// bytes kept in order.
pub open spec fn half_turn(data: Seq<u8>, n: nat) -> Seq<u8> {
    Seq::new(data.len(), |k: int| data[((n as int) - 1 - k / 3) * 3 + k % 3])
}

/// A byte index within `n` pixels falls on a pixel within them.
proof fn lemma_byte_in_raster(k: int, n: int)
    requires
        0 <= k < n * 3,
    ensures
        0 <= k / 3 < n,
        0 <= k % 3 < 3,
        k == (k / 3) * 3 + k % 3,
{
    lemma_fundamental_div_mod(k, 3);
    lemma_mod_pos_bound(k, 3);
}

/// Splits a byte index into its pixel and channel.
proof fn lemma_split_index(p: int, c: int)
    requires
        0 <= c < 3,
    ensures
        (p * 3 + c) / 3 == p,
        (p * 3 + c) % 3 == c,
{
    lemma_fundamental_div_mod_converse(p * 3 + c, 3, p, c);
}

/// Splits a pixel index into its column and row.
proof fn lemma_split_pixel(p: int, width: int, x: int, y: int)
    requires
        width > 0,
        0 <= x < width,
        p == y * width + x,
    ensures
        p % width == x,
        p / width == y,
{
    lemma_fundamental_div_mod_converse(p, width, y, x);
}

/// Two quarter turns the same way make a half turn.
pub proof fn lemma_two_quarter_turns(data: Seq<u8>, w: nat, h: nat, clockwise: bool)
    requires
        data.len() == w * h * 3,
    ensures
        quarter_turn(quarter_turn(data, w, h, clockwise), h, w, clockwise) == half_turn(data, w * h),
{
    let once = quarter_turn(data, w, h, clockwise);
    let twice = quarter_turn(once, h, w, clockwise);
    let half = half_turn(data, w * h);
    assert forall|k: int| 0 <= k < data.len() implies #[trigger] twice[k] == half[k] by {
        let wi = w as int;
        let hi = h as int;
        let p = k / 3;
        let c = k % 3;
        assert(w > 0 && h > 0) by (nonlinear_arith)
            requires
                0 <= k < w * h * 3,
        ;
        lemma_byte_in_raster(k, wi * hi);
        let x = p % wi;
        let y = p / wi;
        assert(0 <= x < wi && 0 <= y < hi && p == y * wi + x) by (nonlinear_arith)
            requires
                wi > 0,
                0 <= p < wi * hi,
                x == p % wi,
                y == p / wi,
        ;
        // The byte of the second turn, read from the first.
        let j = if clockwise {
            ((wi - 1 - x) * hi + y) * 3 + c
        } else {
            (x * hi + (hi - 1 - y)) * 3 + c
        };
        let q = j / 3;
        let pj = if clockwise {
            (wi - 1 - x) * hi + y
        } else {
            x * hi + (hi - 1 - y)
        };
        lemma_split_index(pj, c);
        if clockwise {
            lemma_split_pixel(pj, hi, y, wi - 1 - x);
        } else {
            lemma_split_pixel(pj, hi, hi - 1 - y, x);
        }
        assert(0 <= pj < wi * hi) by (nonlinear_arith)
            requires
                0 <= x < wi,
                0 <= y < hi,
                pj == (if clockwise {
                    (wi - 1 - x) * hi + y
                } else {
                    x * hi + (hi - 1 - y)
                }),
        ;
        assert(0 <= j < data.len());
        assert(twice[k] == once[j]);
        let target = (wi * hi - 1 - p) * 3 + c;
        assert((hi - 1 - y) * wi + (wi - 1 - x) == wi * hi - 1 - p) by (nonlinear_arith)
            requires
                p == y * wi + x,
        ;
        assert(once[j] == data[target]);
        assert(half[k] == data[target]);
    }
    assert(twice =~= half);
}

/// A half turn twice over gives the raster back.
pub proof fn lemma_two_half_turns(data: Seq<u8>, n: nat)
    requires
        data.len() == n * 3,
    ensures
        half_turn(half_turn(data, n), n) == data,
{
    let once = half_turn(data, n);
    let twice = half_turn(once, n);
    assert forall|k: int| 0 <= k < data.len() implies #[trigger] twice[k] == data[k] by {
        let p = k / 3;
        let c = k % 3;
        let ni = n as int;
        lemma_byte_in_raster(k, ni);
        let j = (ni - 1 - p) * 3 + c;
        lemma_split_index(ni - 1 - p, c);
        assert(0 <= j < data.len());
        assert(twice[k] == once[j]);
        assert(once[j] == data[(ni - 1 - (ni - 1 - p)) * 3 + c]);
    }
    assert(twice =~= data);
}

/// Four quarter turns the same way give the raster back, byte for byte.
pub proof fn lemma_four_quarter_turns(data: Seq<u8>, w: nat, h: nat, clockwise: bool)
    requires
        data.len() == w * h * 3,
    ensures
        quarter_turn(
            quarter_turn(quarter_turn(quarter_turn(data, w, h, clockwise), h, w, clockwise), w, h, clockwise),
            h,
            w,
            clockwise,
        ) == data,
{
    lemma_two_quarter_turns(data, w, h, clockwise);
    let half = half_turn(data, w * h);
    assert(half.len() == w * h * 3);
    lemma_two_quarter_turns(half, w, h, clockwise);
    assert(data.len() == (w * h) * 3) by (nonlinear_arith)
        requires
            data.len() == w * h * 3,
    ;
    lemma_two_half_turns(data, w * h);
}

} // verus!
