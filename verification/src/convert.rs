//! Conversion of camera pixel formats (ITU-R BT.601 YCbCr) to RGBA.
use vstd::prelude::*;
use crate::raster::{RasterView, RgbaRaster, pixel_offset, lemma_pixel_offset};

verus! {

/// Integer division rounding toward zero, as machine division does.
pub open spec fn div_trunc(a: int, b: int) -> int {
    if a >= 0 {
        a / b
    } else {
        -((-a) / b)
    }
}

/// `v` held to the range of a byte.
pub open spec fn clamp_byte(v: int) -> u8 {
    if v < 0 {
        0
    } else if v > 255 {
        255
    } else {
        v as u8
    }
}

pub open spec fn red_of(y: int, cb: int, cr: int) -> u8 {
    clamp_byte(y + div_trunc(1402 * cr, 1000))
}

pub open spec fn green_of(y: int, cb: int, cr: int) -> u8 {
    clamp_byte(y - div_trunc(344136 * cb, 1000000) - div_trunc(714136 * cr, 1000000))
}

pub open spec fn blue_of(y: int, cb: int, cr: int) -> u8 {
    clamp_byte(y + div_trunc(1772 * cb, 1000))
}

/// Channel `c` (0 red, 1 green, 2 blue) of the colour `(y, cb, cr)`.
pub open spec fn rgb_channel(y: int, cb: int, cr: int, c: int) -> u8 {
    if c == 0 {
        red_of(y, cb, cr)
    } else if c == 1 {
        green_of(y, cb, cr)
    } else {
        blue_of(y, cb, cr)
    }
}

pub open spec fn fits_i32(v: int) -> bool {
    i32::MIN <= v <= i32::MAX
}

/// Every intermediate value of the conversion fits in 32 bits.
pub open spec fn ycbcr_fits(y: int, cb: int, cr: int) -> bool {
    &&& fits_i32(1402 * cr)
    &&& fits_i32(y + div_trunc(1402 * cr, 1000))
    &&& fits_i32(344136 * cb)
    &&& fits_i32(714136 * cr)
    &&& fits_i32(y - div_trunc(344136 * cb, 1000000))
    &&& fits_i32(y - div_trunc(344136 * cb, 1000000) - div_trunc(714136 * cr, 1000000))
    &&& fits_i32(1772 * cb)
    &&& fits_i32(y + div_trunc(1772 * cb, 1000))
}

fn clamp_to_byte(v: i32) -> (b: u8)
    ensures
        b == clamp_byte(v as int),
{
    if v < 0 {
        0
    } else if v > 255 {
        255
    } else {
        v as u8
    }
}

/// One pixel from luma and centred chroma (ITU-R BT.601).
pub fn ycbcr_to_rgb(y: i32, cb: i32, cr: i32) -> (rgb: [u8; 3])
    requires
        ycbcr_fits(y as int, cb as int, cr as int),
    ensures
        rgb@ == seq![red_of(y as int, cb as int, cr as int), green_of(y as int, cb as int, cr as int), blue_of(y as int, cb as int, cr as int)],
{
    let r = clamp_to_byte(y + (1402 * cr / 1000));
    let g = clamp_to_byte(y - (344136 * cb / 1000000) - (714136 * cr / 1000000));
    let b = clamp_to_byte(y + (1772 * cb / 1000));
    let rgb = [r, g, b];
    assert(rgb@ =~= seq![r, g, b]);
    rgb
}

proof fn lemma_byte_colour_fits(y: u8, cb: u8, cr: u8)
    ensures
        ycbcr_fits(y as int, cb - 128, cr - 128),
{
}

/// The colour of a luma byte and two chroma bytes.
fn byte_colour(y: u8, cb: u8, cr: u8) -> (rgb: [u8; 3])
    ensures
        forall|c: int| 0 <= c < 3 ==> #[trigger] rgb@[c] == rgb_channel(y as int, cb - 128, cr - 128, c),
{
    proof {
        lemma_byte_colour_fits(y, cb, cr);
    }
    ycbcr_to_rgb(y as i32, cb as i32 - 128, cr as i32 - 128)
}

/// Channel `c` of pixel `(x, y)` decoded from packed YUYV 4:2:2 data of an
/// image `w` pixels wide. A last odd column has no chroma pair and stays
/// transparent black.
pub open spec fn yuyv_channel(data: Seq<u8>, w: int, x: int, y: int, c: int) -> u8 {
    if x >= 2 * (w / 2) {
        0
    } else if c == 3 {
        255
    } else {
        let base = (y * w + 2 * (x / 2)) * 2;
        let luma = if x % 2 == 0 {
            data[base]
        } else {
            data[base + 2]
        };
        rgb_channel(luma as int, data[base + 1] - 128, data[base + 3] - 128, c)
    }
}

/// The RGBA image decoded from YUYV data.
pub open spec fn yuyv_image(data: Seq<u8>, w: nat, h: nat) -> RasterView {
    RasterView {
        width: w,
        height: h,
        bytes: Seq::new(
            w * h * 4,
            |i: int| yuyv_channel(data, w as int, (i / 4) % (w as int), (i / 4) / (w as int), i % 4),
        ),
    }
}

/// The offset of the last 4-byte YUYV group that the conversion reads.
pub open spec fn yuyv_last_group(w: int, h: int) -> int {
    ((h - 1) * w + 2 * (w / 2) - 2) * 2
}

/// The input that `yuyv_to_rgba` accepts: the output fits in memory, the
/// 32-bit offsets do not overflow and every group read is present.
pub open spec fn yuyv_input_ok(len: int, w: int, h: int) -> bool {
    &&& w * h * 4 <= usize::MAX
    &&& (h > 0 && w / 2 > 0) ==> {
        &&& yuyv_last_group(w, h) <= u32::MAX
        &&& yuyv_last_group(w, h) + 4 <= len
    }
}

proof fn lemma_next_byte(out: Seq<u8>, target: Seq<u8>, v: u8)
    requires
        out.len() < target.len(),
        out == target.subrange(0, out.len() as int),
        target[out.len() as int] == v,
    ensures
        out.push(v) == target.subrange(0, out.len() + 1int),
{
    assert(out.push(v) =~= target.subrange(0, out.len() + 1int));
}

/// Appends one pixel to an image being built in row order.
fn push_pixel(out: &mut Vec<u8>, p: [u8; 4], Ghost(target): Ghost<Seq<u8>>, Ghost(w): Ghost<int>, Ghost(h): Ghost<int>, Ghost(x): Ghost<int>, Ghost(y): Ghost<int>)
    requires
        0 <= x < w,
        0 <= y < h,
        target.len() == w * h * 4,
        old(out)@.len() == pixel_offset(w, x, y),
        old(out)@ == target.subrange(0, old(out)@.len() as int),
        forall|c: int| 0 <= c < 4 ==> #[trigger] target[pixel_offset(w, x, y) + c] == p@[c],
    ensures
        final(out)@.len() == pixel_offset(w, x, y) + 4,
        final(out)@ == target.subrange(0, final(out)@.len() as int),
{
    proof {
        lemma_pixel_offset(w, h, x, y, 3);
    }
    let ghost o = pixel_offset(w, x, y);
    assert(target[pixel_offset(w, x, y) + 0] == p@[0]);
    proof { lemma_next_byte(out@, target, p[0]); }
    out.push(p[0]);
    assert(target[o + 1] == p@[1]);
    proof { lemma_next_byte(out@, target, p[1]); }
    out.push(p[1]);
    assert(target[o + 2] == p@[2]);
    proof { lemma_next_byte(out@, target, p[2]); }
    out.push(p[2]);
    assert(target[o + 3] == p@[3]);
    proof { lemma_next_byte(out@, target, p[3]); }
    out.push(p[3]);
}

/// Packed YUYV 4:2:2 (`[Y0 Cb Y1 Cr]` per two pixels) to RGBA.
pub fn yuyv_to_rgba(data: &[u8], width: u32, height: u32) -> (img: RgbaRaster)
    requires
        yuyv_input_ok(data@.len() as int, width as int, height as int),
    ensures
        img@ == yuyv_image(data@, width as nat, height as nat),
{
    let ghost w = width as int;
    let ghost h = height as int;
    let ghost target = yuyv_image(data@, width as nat, height as nat).bytes;
    let pairs = width / 2;
    let mut out: Vec<u8> = Vec::new();
    let mut y: u32 = 0;
    while y < height
        invariant
            y <= height,
            yuyv_input_ok(data@.len() as int, w, h),
            w == width,
            h == height,
            pairs == w / 2,
            target == yuyv_image(data@, width as nat, height as nat).bytes,
            out@.len() == y * w * 4,
            out@ == target.subrange(0, out@.len() as int),
        decreases height - y,
    {
        let mut xp: u32 = 0;
        while xp < pairs
            invariant
                y < height,
                xp <= pairs,
                yuyv_input_ok(data@.len() as int, w, h),
                w == width,
                h == height,
                pairs == w / 2,
                target == yuyv_image(data@, width as nat, height as nat).bytes,
                out@.len() == (y * w + 2 * xp) * 4,
                out@ == target.subrange(0, out@.len() as int),
            decreases pairs - xp,
        {
            proof {
                assert((y * w + xp * 2) * 2 <= yuyv_last_group(w, h)) by (nonlinear_arith)
                    requires 0 <= y < h, 0 <= xp < pairs, pairs == w / 2, w >= 0;
                assert(y * w <= (y * w + xp * 2) * 2) by (nonlinear_arith)
                    requires 0 <= y, 0 <= xp, w >= 0;
            }
            let base = ((y * width + xp * 2) * 2) as usize;
            let y0 = data[base];
            let cb = data[base + 1];
            let y1 = data[base + 2];
            let cr = data[base + 3];
            let c0 = byte_colour(y0, cb, cr);
            let c1 = byte_colour(y1, cb, cr);
            let ghost x0 = 2 * xp as int;
            proof {
                assert forall|c: int| 0 <= c < 4 implies #[trigger] target[pixel_offset(w, x0, y as int) + c] == [c0[0], c0[1], c0[2], 255u8]@[c] by {
                    lemma_pixel_offset(w, h, x0, y as int, c);
                    assert(x0 % 2 == 0);
                    assert(x0 / 2 == xp);
                }
            }
            push_pixel(&mut out, [c0[0], c0[1], c0[2], 255], Ghost(target), Ghost(w), Ghost(h), Ghost(x0), Ghost(y as int));
            proof {
                assert forall|c: int| 0 <= c < 4 implies #[trigger] target[pixel_offset(w, x0 + 1, y as int) + c] == [c1[0], c1[1], c1[2], 255u8]@[c] by {
                    lemma_pixel_offset(w, h, x0 + 1, y as int, c);
                    assert((x0 + 1) % 2 == 1);
                    assert((x0 + 1) / 2 == xp);
                }
            }
            push_pixel(&mut out, [c1[0], c1[1], c1[2], 255], Ghost(target), Ghost(w), Ghost(h), Ghost(x0 + 1), Ghost(y as int));
            xp = xp + 1;
        }
        if width % 2 == 1 {
            proof {
                assert forall|c: int| 0 <= c < 4 implies #[trigger] target[pixel_offset(w, w - 1, y as int) + c] == [0u8, 0u8, 0u8, 0u8]@[c] by {
                    lemma_pixel_offset(w, h, w - 1, y as int, c);
                }
            }
            push_pixel(&mut out, [0, 0, 0, 0], Ghost(target), Ghost(w), Ghost(h), Ghost(w - 1), Ghost(y as int));
        }
        proof {
            assert(out@.len() == (y + 1) * w * 4) by (nonlinear_arith)
                requires out@.len() == (y * w + 2 * pairs + (if w % 2 == 1 { 1int } else { 0int })) * 4, pairs == w / 2, w >= 0;
        }
        y = y + 1;
    }
    proof {
        assert(out@.len() == target.len()) by (nonlinear_arith)
            requires out@.len() == h * w * 4, target.len() == w * h * 4;
        assert(out@ =~= target);
    }
    RgbaRaster::from_raw(width, height, out).unwrap()
}

/// Channel `c` of pixel `(x, y)` decoded from planar YUV 4:2:0 data (a
/// `w * h` luma plane, then a Cb and a Cr plane of `(w * h) / 4` bytes each,
/// one chroma sample per 2x2 block).
pub open spec fn yuv420_channel(data: Seq<u8>, w: int, h: int, x: int, y: int, c: int) -> u8 {
    if c == 3 {
        255
    } else {
        let y_size = w * h;
        let uv_size = y_size / 4;
        let uv = (y / 2) * (w / 2) + x / 2;
        rgb_channel(data[y * w + x] as int, data[y_size + uv] - 128, data[y_size + uv_size + uv] - 128, c)
    }
}

/// The RGBA image decoded from YUV 4:2:0 planar data.
pub open spec fn yuv420_image(data: Seq<u8>, w: nat, h: nat) -> RasterView {
    RasterView {
        width: w,
        height: h,
        bytes: Seq::new(
            w * h * 4,
            |i: int| yuv420_channel(data, w as int, h as int, (i / 4) % (w as int), (i / 4) / (w as int), i % 4),
        ),
    }
}

/// The input that `yuv420_to_rgba` accepts: the plane sizes fit in 32 bits,
/// all three planes are present, and every chroma index falls inside its
/// plane.
pub open spec fn yuv420_input_ok(len: int, w: int, h: int) -> bool {
    &&& w * h <= u32::MAX
    &&& w * h * 4 <= usize::MAX
    &&& w * h + 2 * ((w * h) / 4) <= len
    &&& (w > 0 && h > 0) ==> ((h - 1) / 2) * (w / 2) + (w - 1) / 2 < (w * h) / 4
}

/// Planar YUV 4:2:0 (YU12 / I420) to RGBA.
pub fn yuv420_to_rgba(data: &[u8], width: u32, height: u32) -> (img: RgbaRaster)
    requires
        yuv420_input_ok(data@.len() as int, width as int, height as int),
    ensures
        img@ == yuv420_image(data@, width as nat, height as nat),
{
    let ghost w = width as int;
    let ghost h = height as int;
    let ghost target = yuv420_image(data@, width as nat, height as nat).bytes;
    let y_size = (width * height) as usize;
    let uv_size = y_size / 4;
    let mut out: Vec<u8> = Vec::new();
    let mut y: u32 = 0;
    while y < height
        invariant
            y <= height,
            yuv420_input_ok(data@.len() as int, w, h),
            w == width,
            h == height,
            y_size == w * h,
            uv_size == y_size / 4,
            target == yuv420_image(data@, width as nat, height as nat).bytes,
            out@.len() == y * w * 4,
            out@ == target.subrange(0, out@.len() as int),
        decreases height - y,
    {
        let mut x: u32 = 0;
        while x < width
            invariant
                y < height,
                x <= width,
                yuv420_input_ok(data@.len() as int, w, h),
                w == width,
                h == height,
                y_size == w * h,
                uv_size == y_size / 4,
                target == yuv420_image(data@, width as nat, height as nat).bytes,
                out@.len() == (y * w + x) * 4,
                out@ == target.subrange(0, out@.len() as int),
            decreases width - x,
        {
            proof {
                assert(y * w + x < w * h) by (nonlinear_arith)
                    requires 0 <= y < h, 0 <= x < w;
                assert(y * w <= y * w + x);
                assert((y / 2) * (w / 2) + x / 2 <= ((h - 1) / 2) * (w / 2) + (w - 1) / 2) by (nonlinear_arith)
                    requires 0 <= y < h, 0 <= x < w;
                assert((y / 2) * (w / 2) <= (y / 2) * (w / 2) + x / 2);
            }
            let luma = data[(y * width + x) as usize];
            let uv_idx = ((y / 2) * (width / 2) + x / 2) as usize;
            let cb = data[y_size + uv_idx];
            let cr = data[y_size + uv_size + uv_idx];
            let rgb = byte_colour(luma, cb, cr);
            proof {
                assert forall|c: int| 0 <= c < 4 implies #[trigger] target[pixel_offset(w, x as int, y as int) + c] == [rgb[0], rgb[1], rgb[2], 255u8]@[c] by {
                    lemma_pixel_offset(w, h, x as int, y as int, c);
                }
            }
            push_pixel(&mut out, [rgb[0], rgb[1], rgb[2], 255], Ghost(target), Ghost(w), Ghost(h), Ghost(x as int), Ghost(y as int));
            x = x + 1;
        }
        proof {
            assert(out@.len() == (y + 1) * w * 4) by (nonlinear_arith)
                requires out@.len() == (y * w + w) * 4;
        }
        y = y + 1;
    }
    proof {
        assert(out@.len() == target.len()) by (nonlinear_arith)
            requires out@.len() == h * w * 4, target.len() == w * h * 4;
        assert(out@ =~= target);
    }
    RgbaRaster::from_raw(width, height, out).unwrap()
}

/// Without colour (both chroma components at their centre) every luma byte
/// converts to the grey of the same level.
pub proof fn law_neutral_chroma_is_grey(y: u8)
    ensures
        red_of(y as int, 0, 0) == y,
        green_of(y as int, 0, 0) == y,
        blue_of(y as int, 0, 0) == y,
{
}

/// A 4:2:0 frame whose first chroma plane holds `cb` throughout and whose
/// second holds `cr` throughout: every pixel has the colour of its own luma
/// with that blue-difference and red-difference, and is opaque.
pub proof fn law_planes_are_luma_cb_cr(data: Seq<u8>, w: nat, h: nat, cb: u8, cr: u8)
    requires
        yuv420_input_ok(data.len() as int, w as int, h as int),
        forall|i: int| w * h <= i < w * h + (w * h) / 4 ==> #[trigger] data[i] == cb,
        forall|i: int| w * h + (w * h) / 4 <= i < w * h + 2 * ((w * h) / 4) ==> #[trigger] data[i] == cr,
    ensures
        forall|x: int, y: int, c: int|
            0 <= x < w && 0 <= y < h && 0 <= c < 3 ==> #[trigger] yuv420_channel(data, w as int, h as int, x, y, c)
                == rgb_channel(data[y * w + x] as int, cb - 128, cr - 128, c),
        forall|x: int, y: int|
            0 <= x < w && 0 <= y < h ==> #[trigger] yuv420_channel(data, w as int, h as int, x, y, 3) == 255,
{
    assert forall|x: int, y: int, c: int|
        0 <= x < w && 0 <= y < h && 0 <= c < 3 implies #[trigger] yuv420_channel(data, w as int, h as int, x, y, c)
            == rgb_channel(data[y * w + x] as int, cb - 128, cr - 128, c) by {
        let q = (w * h) / 4;
        let uv = (y / 2) * (w / 2) + x / 2;
        assert(0 <= uv < q) by {
            assert(0 <= y / 2 <= (h - 1) / 2) by (nonlinear_arith)
                requires 0 <= y < h;
            assert(0 <= x / 2 <= (w - 1) / 2) by (nonlinear_arith)
                requires 0 <= x < w;
            assert(0 <= (y / 2) * (w / 2) <= ((h - 1) / 2) * (w / 2)) by (nonlinear_arith)
                requires 0 <= y / 2 <= (h - 1) / 2, w >= 0;
        }
        assert(data[w * h + uv] == cb);
        assert(data[w * h + q + uv] == cr);
    }
}

/// The four pixels of a 2x2 block share one chroma sample: when they have
/// the same luma they have the same colour.
pub proof fn law_blocks_share_chroma(data: Seq<u8>, w: nat, h: nat, x: int, y: int, dx: int, dy: int)
    requires
        0 <= x < w,
        0 <= y < h,
        0 <= x + dx < w,
        0 <= y + dy < h,
        x % 2 == 0,
        y % 2 == 0,
        0 <= dx <= 1,
        0 <= dy <= 1,
        data[y * w + x] == data[(y + dy) * w + x + dx],
    ensures
        forall|c: int| 0 <= c < 4 ==> #[trigger] yuv420_channel(data, w as int, h as int, x + dx, y + dy, c)
            == yuv420_channel(data, w as int, h as int, x, y, c),
{
    assert((x + dx) / 2 == x / 2);
    assert((y + dy) / 2 == y / 2);
}

} // verus!
