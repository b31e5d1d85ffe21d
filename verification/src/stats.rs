//! The integer kernels of the detector's picture measures: the per-channel
//! mean and mean absolute deviation of a frame (its brightness and contrast)
//! and the sums behind the cosine similarity of a patch.
use vstd::prelude::*;
use crate::raster::RgbaRaster;

verus! {

// ---------------------------------------------------------------------------
// Brightness and contrast.

/// The sum of channel `c` over the first `n` pixels of RGBA bytes `b`.
pub open spec fn channel_sum(b: Seq<u8>, c: int, n: int) -> int
    decreases n,
{
    if n <= 0 {
        0
    } else {
        channel_sum(b, c, n - 1) + b[4 * (n - 1) + c]
    }
}

pub open spec fn abs_diff(a: int, b: int) -> int {
    if a >= b {
        a - b
    } else {
        b - a
    }
}

/// The sum of the distances of channel `c` from `m` over the first `n`
/// pixels of RGBA bytes `b`.
pub open spec fn deviation_sum(b: Seq<u8>, c: int, n: int, m: int) -> int
    decreases n,
{
    if n <= 0 {
        0
    } else {
        deviation_sum(b, c, n - 1, m) + abs_diff(b[4 * (n - 1) + c] as int, m)
    }
}

proof fn lemma_channel_sum_bound(b: Seq<u8>, c: int, n: int)
    ensures
        0 <= channel_sum(b, c, n) <= 255 * (if n < 0 { 0 } else { n }),
    decreases n,
{
    if n > 0 {
        lemma_channel_sum_bound(b, c, n - 1);
    }
}

proof fn lemma_deviation_sum_bound(b: Seq<u8>, c: int, n: int, m: int)
    requires
        0 <= m <= 255,
    ensures
        0 <= deviation_sum(b, c, n, m) <= 255 * (if n < 0 { 0 } else { n }),
    decreases n,
{
    if n > 0 {
        lemma_deviation_sum_bound(b, c, n - 1, m);
    }
}

/// The per-channel statistics of an image's red, green and blue channels:
/// the mean, rounded down, and the sum of the distances from that mean.
#[derive(Clone, Copy, Debug)]
pub struct ChannelStats {
    pub mean: [u64; 3],
    pub deviation_sum: [u64; 3],
}

/// The red, green and blue channels' mean (rounded down) and the sum of
/// their distances from it, over all pixels of `img`; alpha is ignored.
pub fn channel_stats(img: &RgbaRaster) -> (s: ChannelStats)
    requires
        img@.well_formed(),
        img@.width * img@.height > 0,
        img@.width * img@.height * 255 <= u64::MAX,
    ensures
        forall|c: int|
            0 <= c < 3 ==> {
                &&& s.mean[c] == #[trigger] channel_sum(img@.bytes, c, (img@.width * img@.height) as int) / (
                img@.width * img@.height) as int
                &&& s.deviation_sum[c] == deviation_sum(
                    img@.bytes,
                    c,
                    (img@.width * img@.height) as int,
                    s.mean[c] as int,
                )
            },
{
    let raw = img.as_raw();
    let cnt: u64 = img.width() as u64 * img.height() as u64;
    let ghost n: int = cnt as int;
    let n_px: usize = raw.len() / 4;
    assert(n_px == n);
    let ghost b = raw@;
    let mut sum: [u64; 3] = [0, 0, 0];
    let mut p: usize = 0;
    while p < n_px
        invariant
            b == raw@,
            raw@.len() == 4 * n,
            raw@.len() <= usize::MAX,
            n == cnt,
            n_px == n,
            n * 255 <= u64::MAX,
            p <= n,
            forall|c: int| 0 <= c < 3 ==> sum[c] == channel_sum(b, c, p as int),
        decreases n - p,
    {
        let i = 4 * p;
        proof {
            lemma_channel_sum_bound(b, 0, p as int);
            lemma_channel_sum_bound(b, 1, p as int);
            lemma_channel_sum_bound(b, 2, p as int);
        }
        sum[0] = sum[0] + raw[i] as u64;
        sum[1] = sum[1] + raw[i + 1] as u64;
        sum[2] = sum[2] + raw[i + 2] as u64;
        p = p + 1;
    }
    let mean: [u64; 3] = [sum[0] / cnt, sum[1] / cnt, sum[2] / cnt];
    proof {
        assert forall|c: int| 0 <= c < 3 implies 0 <= #[trigger] mean[c] <= 255 by {
            lemma_channel_sum_bound(b, c, n);
            assert(channel_sum(b, c, n) / n <= 255) by (nonlinear_arith)
                requires
                    0 <= channel_sum(b, c, n) <= 255 * n,
                    n > 0,
            ;
        }
    }
    let mut dev: [u64; 3] = [0, 0, 0];
    let mut q: usize = 0;
    while q < n_px
        invariant
            b == raw@,
            raw@.len() == 4 * n,
            raw@.len() <= usize::MAX,
            n == cnt,
            n_px == n,
            n * 255 <= u64::MAX,
            q <= n,
            forall|c: int| 0 <= c < 3 ==> 0 <= #[trigger] mean[c] <= 255,
            forall|c: int| 0 <= c < 3 ==> dev[c] == deviation_sum(b, c, q as int, mean[c] as int),
        decreases n - q,
    {
        let i = 4 * q;
        proof {
            lemma_deviation_sum_bound(b, 0, q as int, mean[0] as int);
            lemma_deviation_sum_bound(b, 1, q as int, mean[1] as int);
            lemma_deviation_sum_bound(b, 2, q as int, mean[2] as int);
        }
        let mut c: usize = 0;
        while c < 3
            invariant
                b == raw@,
                raw@.len() == 4 * n,
                n == cnt,
                n * 255 <= u64::MAX,
                q < n,
                i == 4 * q,
                c <= 3,
                forall|k: int| 0 <= k < 3 ==> 0 <= #[trigger] mean[k] <= 255,
                forall|k: int| 0 <= k < c ==> dev[k] == deviation_sum(b, k, q + 1, mean[k] as int),
                forall|k: int| c <= k < 3 ==> dev[k] == deviation_sum(b, k, q as int, mean[k] as int),
                forall|k: int| 0 <= k < 3 ==> deviation_sum(b, k, q as int, mean[k] as int) <= 255 * q,
            decreases 3 - c,
        {
            let v = raw[i + c] as u64;
            let m = mean[c];
            let d = if v >= m { v - m } else { m - v };
            dev[c] = dev[c] + d;
            c = c + 1;
        }
        q = q + 1;
    }
    ChannelStats { mean, deviation_sum: dev }
}

// ---------------------------------------------------------------------------
// Cosine similarity of a patch.

/// A patch `pat` laid over an image at `(ox, oy)`: both as raw RGBA bytes
/// with their row strides in bytes, and the patch's width in pixels.
pub struct PatchView {
    pub img: Seq<u8>,
    pub img_stride: int,
    pub pat: Seq<u8>,
    pub pat_stride: int,
    pub ox: int,
    pub oy: int,
    pub w: int,
}

/// Channel `c` of the image pixel under patch pixel `(u, v)`.
pub open spec fn img_byte(p: PatchView, u: int, v: int, c: int) -> int {
    p.img[(p.oy + v) * p.img_stride + p.ox * 4 + u * 4 + c] as int
}

/// Channel `c` of patch pixel `(u, v)`.
pub open spec fn pat_byte(p: PatchView, u: int, v: int, c: int) -> int {
    p.pat[v * p.pat_stride + u * 4 + c] as int
}

/// The products summed: image times patch (0), image squared (1), patch
/// squared (2).
pub open spec fn product(k: int, a: int, b: int) -> int {
    if k == 0 {
        a * b
    } else if k == 1 {
        a * a
    } else {
        b * b
    }
}

/// Product `k` over the red, green and blue channels of patch pixel `(u, v)`.
pub open spec fn pixel_sum(p: PatchView, k: int, u: int, v: int) -> int {
    product(k, img_byte(p, u, v, 0), pat_byte(p, u, v, 0))
        + product(k, img_byte(p, u, v, 1), pat_byte(p, u, v, 1))
        + product(k, img_byte(p, u, v, 2), pat_byte(p, u, v, 2))
}

/// Product `k` over the first `u` pixels of patch row `v`.
pub open spec fn row_sum(p: PatchView, k: int, v: int, u: int) -> int
    decreases u,
{
    if u <= 0 {
        0
    } else {
        row_sum(p, k, v, u - 1) + pixel_sum(p, k, u - 1, v)
    }
}

/// Product `k` over the first `v` rows of the patch.
pub open spec fn patch_sum(p: PatchView, k: int, v: int) -> int
    decreases v,
{
    if v <= 0 {
        0
    } else {
        patch_sum(p, k, v - 1) + row_sum(p, k, v - 1, p.w)
    }
}

/// The largest value of one product of two bytes summed over three channels.
#[verifier::inline]
pub open spec fn pixel_max() -> int {
    3int * 255 * 255
}

proof fn lemma_product_bound(k: int, a: int, b: int)
    requires
        0 <= a <= 255,
        0 <= b <= 255,
    ensures
        0 <= product(k, a, b) <= 255 * 255,
{
    assert(0 <= a * b <= 255 * 255) by (nonlinear_arith)
        requires
            0 <= a <= 255,
            0 <= b <= 255,
    ;
    assert(0 <= a * a <= 255 * 255) by (nonlinear_arith)
        requires
            0 <= a <= 255,
    ;
    assert(0 <= b * b <= 255 * 255) by (nonlinear_arith)
        requires
            0 <= b <= 255,
    ;
}

proof fn lemma_pixel_bound(p: PatchView, k: int, u: int, v: int)
    ensures
        0 <= pixel_sum(p, k, u, v) <= pixel_max(),
{
    lemma_product_bound(k, img_byte(p, u, v, 0), pat_byte(p, u, v, 0));
    lemma_product_bound(k, img_byte(p, u, v, 1), pat_byte(p, u, v, 1));
    lemma_product_bound(k, img_byte(p, u, v, 2), pat_byte(p, u, v, 2));
}

proof fn lemma_row_bound(p: PatchView, k: int, v: int, u: int)
    requires
        u >= 0,
    ensures
        0 <= row_sum(p, k, v, u) <= u * pixel_max(),
    decreases u,
{
    if u > 0 {
        lemma_row_bound(p, k, v, u - 1);
        lemma_pixel_bound(p, k, u - 1, v);
        assert((u - 1) * pixel_max() + pixel_max() == u * pixel_max()) by (nonlinear_arith);
    }
}

proof fn lemma_patch_bound(p: PatchView, k: int, v: int)
    requires
        v >= 0,
        p.w >= 0,
    ensures
        0 <= patch_sum(p, k, v) <= v * p.w * pixel_max(),
    decreases v,
{
    if v > 0 {
        lemma_patch_bound(p, k, v - 1);
        lemma_row_bound(p, k, v - 1, p.w);
        assert((v - 1) * p.w * pixel_max() + p.w * pixel_max() == v * p.w * pixel_max())
            by (nonlinear_arith);
    }
}

proof fn lemma_empty_rows(p: PatchView, k: int, v: int)
    requires
        p.w == 0,
    ensures
        patch_sum(p, k, v) == 0,
    decreases v,
{
    if v > 0 {
        lemma_empty_rows(p, k, v - 1);
    }
}

/// Whether every byte the sums read lies within the image and the patch,
/// and the rows' offsets do not overflow.
pub open spec fn patch_readable(
    img_len: int,
    img_stride: int,
    pat_len: int,
    pat_stride: int,
    ox: int,
    oy: int,
    w: int,
    h: int,
) -> bool {
    w == 0 || h == 0 || (oy + h - 1 <= usize::MAX && (oy + h - 1) * img_stride + ox * 4 + (w - 1)
        * 4 + 2 < img_len && (h - 1) * pat_stride + (w - 1) * 4 + 2 < pat_len)
}

/// The sums behind the cosine similarity of patch `pat` (`w` by `h` pixels)
/// laid over `img` at `(ox, oy)`, over the red, green and blue channels:
/// image times patch, image squared and patch squared.
pub fn patch_sums(
    img: &[u8],
    img_stride: usize,
    pat: &[u8],
    pat_stride: usize,
    ox: usize,
    oy: usize,
    w: usize,
    h: usize,
) -> (r: (u64, u64, u64))
    requires
        patch_readable(img@.len() as int, img_stride as int, pat@.len() as int, pat_stride as int, ox as int, oy as int, w as int, h as int),
        w * h * pixel_max() <= u64::MAX,
    ensures
        ({
            let p = PatchView {
                img: img@,
                img_stride: img_stride as int,
                pat: pat@,
                pat_stride: pat_stride as int,
                ox: ox as int,
                oy: oy as int,
                w: w as int,
            };
            r == (patch_sum(p, 0, h as int) as u64, patch_sum(p, 1, h as int) as u64, patch_sum(p, 2, h as int) as u64)
        }),
{
    let ghost p = PatchView {
        img: img@,
        img_stride: img_stride as int,
        pat: pat@,
        pat_stride: pat_stride as int,
        ox: ox as int,
        oy: oy as int,
        w: w as int,
    };
    let mut dot: u64 = 0;
    let mut abs_i2: u64 = 0;
    let mut abs_p2: u64 = 0;
    if w == 0 {
        proof {
            lemma_empty_rows(p, 0, h as int);
            lemma_empty_rows(p, 1, h as int);
            lemma_empty_rows(p, 2, h as int);
        }
        return (0, 0, 0);
    }
    let img_len = img.len();
    let pat_len = pat.len();
    let mut v: usize = 0;
    while v < h
        invariant
            w > 0,
            v <= h,
            p.img == img@ && p.pat == pat@ && p.w == w && p.ox == ox && p.oy == oy,
            p.img_stride == img_stride && p.pat_stride == pat_stride,
            patch_readable(img@.len() as int, img_stride as int, pat@.len() as int, pat_stride as int, ox as int, oy as int, w as int, h as int),
            img@.len() == img_len,
            pat@.len() == pat_len,
            w * h * pixel_max() <= u64::MAX,
            dot == patch_sum(p, 0, v as int),
            abs_i2 == patch_sum(p, 1, v as int),
            abs_p2 == patch_sum(p, 2, v as int),
        decreases h - v,
    {
        assert((oy + v) * img_stride <= (oy + h - 1) * img_stride) by (nonlinear_arith)
            requires
                v < h,
        ;
        assert(v * pat_stride <= (h - 1) * pat_stride) by (nonlinear_arith)
            requires
                v < h,
        ;
        let row_i = (oy + v) * img_stride + ox * 4;
        let row_p = v * pat_stride;
        let mut u: usize = 0;
        while u < w
            invariant
                w > 0,
                v < h,
                u <= w,
                p.img == img@ && p.pat == pat@ && p.w == w && p.ox == ox && p.oy == oy,
                p.img_stride == img_stride && p.pat_stride == pat_stride,
                row_i == (oy + v) * img_stride + ox * 4,
                row_p == v * pat_stride,
                row_i + (w - 1) * 4 + 2 < img@.len(),
                img@.len() <= usize::MAX,
                row_p + (w - 1) * 4 + 2 < pat@.len(),
                pat@.len() <= usize::MAX,
                w * h * pixel_max() <= u64::MAX,
                dot == patch_sum(p, 0, v as int) + row_sum(p, 0, v as int, u as int),
                abs_i2 == patch_sum(p, 1, v as int) + row_sum(p, 1, v as int, u as int),
                abs_p2 == patch_sum(p, 2, v as int) + row_sum(p, 2, v as int, u as int),
            decreases w - u,
        {
            proof {
                assert forall|k: int| 0 <= k < 3 implies patch_sum(p, k, v as int) + row_sum(
                    p,
                    k,
                    v as int,
                    u as int,
                ) + pixel_sum(p, k, u as int, v as int) <= u64::MAX by {
                    lemma_patch_bound(p, k, v as int);
                    lemma_row_bound(p, k, v as int, u as int);
                    lemma_pixel_bound(p, k, u as int, v as int);
                    assert(v * w * pixel_max() + u * pixel_max() + pixel_max() <= w * h * pixel_max())
                        by (nonlinear_arith)
                        requires
                            v < h,
                            u < w,
                    ;
                }
            }
            let bi = row_i + u * 4;
            let bp = row_p + u * 4;
            let i0 = img[bi] as u64;
            let i1 = img[bi + 1] as u64;
            let i2 = img[bi + 2] as u64;
            let p0 = pat[bp] as u64;
            let p1 = pat[bp + 1] as u64;
            let p2 = pat[bp + 2] as u64;
            proof {
                assert(i0 * p0 + i1 * p1 + i2 * p2 == pixel_sum(p, 0, u as int, v as int));
                assert(i0 * i0 + i1 * i1 + i2 * i2 == pixel_sum(p, 1, u as int, v as int));
                assert(p0 * p0 + p1 * p1 + p2 * p2 == pixel_sum(p, 2, u as int, v as int));
                lemma_product_bound(0, i0 as int, p0 as int);
                lemma_product_bound(0, i1 as int, p1 as int);
                lemma_product_bound(0, i2 as int, p2 as int);
                lemma_product_bound(1, i0 as int, p0 as int);
                lemma_product_bound(1, i1 as int, p1 as int);
                lemma_product_bound(1, i2 as int, p2 as int);
                lemma_product_bound(2, i0 as int, p0 as int);
                lemma_product_bound(2, i1 as int, p1 as int);
                lemma_product_bound(2, i2 as int, p2 as int);
            }
            dot = dot + i0 * p0 + i1 * p1 + i2 * p2;
            abs_i2 = abs_i2 + i0 * i0 + i1 * i1 + i2 * i2;
            abs_p2 = abs_p2 + p0 * p0 + p1 * p1 + p2 * p2;
            u = u + 1;
        }
        v = v + 1;
    }
    (dot, abs_i2, abs_p2)
}

/// Patch row `v` is laid over image row `oy + v` and patch column `u` over
/// image column `ox + u`.
pub open spec fn patch_matches_image(p: PatchView, h: int) -> bool {
    forall|u: int, v: int, c: int|
        0 <= u < p.w && 0 <= v < h && 0 <= c < 3 ==> #[trigger] p.pat[v * p.pat_stride + u * 4 + c]
            == p.img[(p.oy + v) * p.img_stride + (p.ox + u) * 4 + c]
}

proof fn lemma_matching_rows(p: PatchView, h: int, v: int, u: int)
    requires
        patch_matches_image(p, h),
        0 <= v < h,
        0 <= u <= p.w,
    ensures
        row_sum(p, 0, v, u) == row_sum(p, 1, v, u),
        row_sum(p, 1, v, u) == row_sum(p, 2, v, u),
    decreases u,
{
    if u > 0 {
        lemma_matching_rows(p, h, v, u - 1);
        let x = u - 1;
        assert forall|c: int| 0 <= c < 3 implies img_byte(p, x, v, c) == pat_byte(p, x, v, c) by {
            assert(p.pat[v * p.pat_stride + x * 4 + c] == p.img[(p.oy + v) * p.img_stride + (p.ox + x) * 4 + c]);
            assert((p.oy + v) * p.img_stride + (p.ox + x) * 4 + c == (p.oy + v) * p.img_stride + p.ox * 4 + x * 4 + c);
        }
    }
}

/// A patch cut out of the image, laid back where it was cut, matches it
/// perfectly: the sum of products equals both sums of squares, over every
/// row and column of the patch.
pub proof fn law_patch_over_its_own_place(p: PatchView, h: int)
    requires
        patch_matches_image(p, h),
        h >= 0,
        p.w >= 0,
    ensures
        patch_sum(p, 0, h) == patch_sum(p, 1, h),
        patch_sum(p, 1, h) == patch_sum(p, 2, h),
    decreases h,
{
    if h > 0 {
        assert(patch_matches_image(p, h - 1));
        law_patch_over_its_own_place(p, h - 1);
        lemma_matching_rows(p, h, h - 1, p.w);
    }
}

} // verus!
