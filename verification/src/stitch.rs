//! Assembling a panorama from the frames of a passing train.
use vstd::prelude::*;
use crate::raster::{RasterView, RgbaRaster, overlay, overlaid, overlay_keeps_or_covers, lemma_byte_position, lemma_pixel_offset};

verus! {

/// Channel `c` of destination pixel `(px, py)` after drawing frame pixel
/// `(fx, fy)` over it with mask alpha `m` (Porter-Duff over, opaque frame,
/// integer arithmetic).
pub open spec fn masked_over_channel(
    dst: RasterView,
    px: int,
    py: int,
    frame: RasterView,
    fx: int,
    fy: int,
    m: int,
    c: int,
) -> u8 {
    let dc = dst.channel(px, py, c);
    let da = dst.channel(px, py, 3) as int;
    let inv = 255 - m;
    let out_a = m + da * inv / 255;
    if m == 0 || out_a == 0 {
        dc
    } else if c == 3 {
        out_a as u8
    } else {
        ((frame.channel(fx, fy, c) * m + dc * da * inv / 255) / out_a) as u8
    }
}

/// `dst` after drawing `frame` at `(x, y)` through the alpha channel of
/// `mask`: each covered pixel is blended by [`masked_over_channel`], every
/// other byte is kept.
pub open spec fn masked_composite(
    dst: RasterView,
    frame: RasterView,
    mask: RasterView,
    x: int,
    y: int,
) -> Seq<u8> {
    Seq::new(
        dst.bytes.len(),
        |i: int|
            {
                let px = dst.col_of(i);
                let py = dst.row_of(i);
                if frame.contains(px - x, py - y) {
                    masked_over_channel(
                        dst,
                        px,
                        py,
                        frame,
                        px - x,
                        py - y,
                        mask.channel(px - x, py - y, 3) as int,
                        i % 4,
                    )
                } else {
                    dst.bytes[i]
                }
            },
    )
}

/// Whether frame pixel `(fx, fy)` comes before `(cx, cy)` in row order.
pub open spec fn before(fx: int, fy: int, cx: int, cy: int) -> bool {
    fy < cy || (fy == cy && fx < cx)
}

/// While the frame pixels before `(fx, fy)` are drawn, the destination pixel
/// that `(fx, fy)` covers still holds the value it had before.
proof fn lemma_untouched_pixel(
    orig: RasterView,
    cur: RasterView,
    frame: RasterView,
    target: Seq<u8>,
    x: int,
    y: int,
    fx: int,
    fy: int,
)
    requires
        orig.well_formed(),
        cur.width == orig.width,
        cur.height == orig.height,
        cur.bytes.len() == orig.bytes.len(),
        orig.contains(x + fx, y + fy),
        forall|i: int|
            0 <= i < orig.bytes.len() ==> #[trigger] cur.bytes[i] == if frame.contains(
                orig.col_of(i) - x,
                orig.row_of(i) - y,
            ) && before(orig.col_of(i) - x, orig.row_of(i) - y, fx, fy) {
                target[i]
            } else {
                orig.bytes[i]
            },
    ensures
        forall|k: int| 0 <= k < 4 ==> #[trigger] cur.channel(x + fx, y + fy, k) == orig.channel(x + fx, y + fy, k),
{
    assert forall|k: int| 0 <= k < 4 implies #[trigger] cur.channel(x + fx, y + fy, k) == orig.channel(x + fx, y + fy, k) by {
        lemma_pixel_offset(orig.width as int, orig.height as int, x + fx, y + fy, k);
        let o = crate::raster::pixel_offset(orig.width as int, x + fx, y + fy) + k;
        assert(cur.bytes[o] == orig.bytes[o]);
    }
}

/// Draws `frame` onto `dst` at `(x, y)` through `mask`'s alpha channel
/// (Porter-Duff over; the frame is taken as opaque).
fn composite_masked(dst: &mut RgbaRaster, frame: &RgbaRaster, mask: &RgbaRaster, x: i64, y: i64)
    requires
        old(dst)@.well_formed(),
        frame@.well_formed(),
        mask@.well_formed(),
        frame@.width > 0 && frame@.height > 0 ==> frame@.width <= mask@.width && frame@.height
            <= mask@.height,
        x + frame@.width <= i64::MAX,
        y + frame@.height <= i64::MAX,
    ensures
        final(dst)@.well_formed(),
        final(dst)@.width == old(dst)@.width,
        final(dst)@.height == old(dst)@.height,
        final(dst)@.bytes == masked_composite(old(dst)@, frame@, mask@, x as int, y as int),
{
    let ghost orig = dst@;
    let ghost target = masked_composite(orig, frame@, mask@, x as int, y as int);
    let dst_w = dst.width() as i64;
    let dst_h = dst.height() as i64;
    let fw = frame.width();
    let fh = frame.height();
    let mut fy: u32 = 0;
    while fy < fh
        invariant
            fy <= fh,
            fw == frame@.width,
            fh == frame@.height,
            dst_w == orig.width,
            dst_h == orig.height,
            0 <= dst_w <= u32::MAX,
            0 <= dst_h <= u32::MAX,
            frame@.well_formed(),
            mask@.well_formed(),
            orig.well_formed(),
            fw > 0 && fh > 0 ==> fw <= mask@.width && fh <= mask@.height,
            x + fw <= i64::MAX,
            y + fh <= i64::MAX,
            target == masked_composite(orig, frame@, mask@, x as int, y as int),
            dst@.well_formed(),
            dst@.width == orig.width,
            dst@.height == orig.height,
            forall|i: int|
                0 <= i < orig.bytes.len() ==> #[trigger] dst@.bytes[i] == if frame@.contains(
                    orig.col_of(i) - x,
                    orig.row_of(i) - y,
                ) && before(orig.col_of(i) - x, orig.row_of(i) - y, 0, fy as int) {
                    target[i]
                } else {
                    orig.bytes[i]
                },
        decreases fh - fy,
    {
        let mut fx: u32 = 0;
        while fx < fw
            invariant
                fy < fh,
                fx <= fw,
                fw == frame@.width,
                fh == frame@.height,
                dst_w == orig.width,
                dst_h == orig.height,
                0 <= dst_w <= u32::MAX,
                0 <= dst_h <= u32::MAX,
                frame@.well_formed(),
                mask@.well_formed(),
                orig.well_formed(),
                fw > 0 && fh > 0 ==> fw <= mask@.width && fh <= mask@.height,
                x + fw <= i64::MAX,
                y + fh <= i64::MAX,
                target == masked_composite(orig, frame@, mask@, x as int, y as int),
                dst@.well_formed(),
                dst@.width == orig.width,
                dst@.height == orig.height,
                forall|i: int|
                    0 <= i < orig.bytes.len() ==> #[trigger] dst@.bytes[i] == if frame@.contains(
                        orig.col_of(i) - x,
                        orig.row_of(i) - y,
                    ) && before(orig.col_of(i) - x, orig.row_of(i) - y, fx as int, fy as int) {
                        target[i]
                    } else {
                        orig.bytes[i]
                    },
            decreases fw - fx,
        {
            let ghost before_step = dst@;
            let mask_a = mask.get_pixel(fx, fy)[3] as u32;
            let px = x + fx as i64;
            let py = y + fy as i64;
            if mask_a != 0 && !(px < 0 || py < 0 || px >= dst_w || py >= dst_h) {
                let src = frame.get_pixel(fx, fy);
                let d = dst.get_pixel(px as u32, py as u32);
                proof {
                    lemma_untouched_pixel(orig, before_step, frame@, target, x as int, y as int, fx as int, fy as int);
                    assert((px as u32) as int == px as int);
                    assert((py as u32) as int == py as int);
                    assert(px as int == x as int + fx as int);
                    assert(py as int == y as int + fy as int);
                    assert(d@[0] == orig.channel(px as int, py as int, 0));
                    assert(d@[1] == orig.channel(px as int, py as int, 1));
                    assert(d@[2] == orig.channel(px as int, py as int, 2));
                    assert(d@[3] == orig.channel(px as int, py as int, 3));
                }
                let inv_mask_a = 255 - mask_a;
                let dst_a = d[3] as u32;
                proof {
                    assert(dst_a * inv_mask_a <= 255 * 255) by (nonlinear_arith)
                        requires dst_a <= 255, inv_mask_a <= 255;
                    assert(src[0] as u32 * mask_a <= 255 * 255) by (nonlinear_arith)
                        requires src[0] <= 255, mask_a <= 255;
                    assert(src[1] as u32 * mask_a <= 255 * 255) by (nonlinear_arith)
                        requires src[1] <= 255, mask_a <= 255;
                    assert(src[2] as u32 * mask_a <= 255 * 255) by (nonlinear_arith)
                        requires src[2] <= 255, mask_a <= 255;
                    assert(d[0] as u32 * dst_a <= 255 * 255) by (nonlinear_arith)
                        requires d[0] <= 255, dst_a <= 255;
                    assert(d[1] as u32 * dst_a <= 255 * 255) by (nonlinear_arith)
                        requires d[1] <= 255, dst_a <= 255;
                    assert(d[2] as u32 * dst_a <= 255 * 255) by (nonlinear_arith)
                        requires d[2] <= 255, dst_a <= 255;
                    assert(d[0] as u32 * dst_a * inv_mask_a <= 255 * 255 * 255) by (nonlinear_arith)
                        requires d[0] as u32 * dst_a <= 255 * 255, inv_mask_a <= 255;
                    assert(d[1] as u32 * dst_a * inv_mask_a <= 255 * 255 * 255) by (nonlinear_arith)
                        requires d[1] as u32 * dst_a <= 255 * 255, inv_mask_a <= 255;
                    assert(d[2] as u32 * dst_a * inv_mask_a <= 255 * 255 * 255) by (nonlinear_arith)
                        requires d[2] as u32 * dst_a <= 255 * 255, inv_mask_a <= 255;
                }
                let out_a = mask_a + dst_a * inv_mask_a / 255;
                if out_a != 0 {
                    let r = ((src[0] as u32 * mask_a + d[0] as u32 * dst_a * inv_mask_a / 255) / out_a) as u8;
                    let g = ((src[1] as u32 * mask_a + d[1] as u32 * dst_a * inv_mask_a / 255) / out_a) as u8;
                    let b = ((src[2] as u32 * mask_a + d[2] as u32 * dst_a * inv_mask_a / 255) / out_a) as u8;
                    dst.put_pixel(px as u32, py as u32, [r, g, b, out_a as u8]);
                    proof {
                        let ppx = px as int;
                        let ppy = py as int;
                        assert(mask@.channel(fx as int, fy as int, 3) == mask_a);
                        assert(ppx == x as int + fx as int);
                        assert(ppy == y as int + fy as int);
                        assert(before_step.channel(x as int + fx as int, y as int + fy as int, 0) == orig.channel(x as int + fx as int, y as int + fy as int, 0));
                        assert(before_step.channel(x as int + fx as int, y as int + fy as int, 1) == orig.channel(x as int + fx as int, y as int + fy as int, 1));
                        assert(before_step.channel(x as int + fx as int, y as int + fy as int, 2) == orig.channel(x as int + fx as int, y as int + fy as int, 2));
                        assert(before_step.channel(x as int + fx as int, y as int + fy as int, 3) == orig.channel(x as int + fx as int, y as int + fy as int, 3));
                        assert(d@[0] == orig.channel(ppx, ppy, 0));
                        assert(d@[1] == orig.channel(ppx, ppy, 1));
                        assert(d@[2] == orig.channel(ppx, ppy, 2));
                        assert(d@[3] == orig.channel(ppx, ppy, 3));
                        assert(r == masked_over_channel(orig, ppx, ppy, frame@, fx as int, fy as int, mask_a as int, 0));
                        assert(g == masked_over_channel(orig, ppx, ppy, frame@, fx as int, fy as int, mask_a as int, 1));
                        assert(b == masked_over_channel(orig, ppx, ppy, frame@, fx as int, fy as int, mask_a as int, 2));
                        assert(out_a as u8 == masked_over_channel(orig, ppx, ppy, frame@, fx as int, fy as int, mask_a as int, 3));
                        assert forall|i: int| 0 <= i < orig.bytes.len() implies #[trigger] dst@.bytes[i] == if orig.col_of(i) - x == fx && orig.row_of(i) - y == fy {
                            target[i]
                        } else {
                            before_step.bytes[i]
                        } by {
                            lemma_byte_position(orig.width as int, orig.height as int, i);
                            if orig.col_of(i) - x == fx && orig.row_of(i) - y == fy {
                                let c = i % 4;
                                assert(target[i] == masked_over_channel(orig, ppx, ppy, frame@, fx as int, fy as int, mask_a as int, c));
                                if c == 0 {
                                    assert(dst@.bytes[i] == r);
                                } else if c == 1 {
                                    assert(dst@.bytes[i] == g);
                                } else if c == 2 {
                                    assert(dst@.bytes[i] == b);
                                } else {
                                    assert(dst@.bytes[i] == out_a as u8);
                                }
                            }
                        }
                    }
                } else {
                    proof {
                        assert forall|i: int| 0 <= i < orig.bytes.len() implies #[trigger] dst@.bytes[i] == if orig.col_of(i) - x == fx && orig.row_of(i) - y == fy {
                            target[i]
                        } else {
                            before_step.bytes[i]
                        } by {
                            lemma_byte_position(orig.width as int, orig.height as int, i);
                        }
                    }
                }
            } else {
                proof {
                    assert forall|i: int| 0 <= i < orig.bytes.len() implies #[trigger] dst@.bytes[i] == if orig.col_of(i) - x == fx && orig.row_of(i) - y == fy {
                        target[i]
                    } else {
                        before_step.bytes[i]
                    } by {
                        lemma_byte_position(orig.width as int, orig.height as int, i);
                        if orig.col_of(i) - x == fx && orig.row_of(i) - y == fy {
                            assert(before_step.bytes[i] == orig.bytes[i]);
                        }
                    }
                }
            }
            proof {
                assert forall|i: int| 0 <= i < orig.bytes.len() implies #[trigger] dst@.bytes[i] == if frame@.contains(
                    orig.col_of(i) - x,
                    orig.row_of(i) - y,
                ) && before(orig.col_of(i) - x, orig.row_of(i) - y, fx + 1, fy as int) {
                    target[i]
                } else {
                    orig.bytes[i]
                } by {
                    assert(before_step.bytes[i] == if frame@.contains(orig.col_of(i) - x, orig.row_of(i) - y) && before(orig.col_of(i) - x, orig.row_of(i) - y, fx as int, fy as int) {
                        target[i]
                    } else {
                        orig.bytes[i]
                    });
                }
            }
            fx = fx + 1;
        }
        proof {
            assert forall|i: int| 0 <= i < orig.bytes.len() implies #[trigger] dst@.bytes[i] == if frame@.contains(
                orig.col_of(i) - x,
                orig.row_of(i) - y,
            ) && before(orig.col_of(i) - x, orig.row_of(i) - y, 0, fy + 1) {
                target[i]
            } else {
                orig.bytes[i]
            } by {
                assert(dst@.bytes[i] == if frame@.contains(orig.col_of(i) - x, orig.row_of(i) - y)
                    && before(orig.col_of(i) - x, orig.row_of(i) - y, fw as int, fy as int) {
                    target[i]
                } else {
                    orig.bytes[i]
                });
            }
        }
        fy = fy + 1;
    }
    proof {
        assert forall|i: int| 0 <= i < orig.bytes.len() implies #[trigger] dst@.bytes[i] == target[i] by {
            assert(dst@.bytes[i] == if frame@.contains(orig.col_of(i) - x, orig.row_of(i) - y)
                && before(orig.col_of(i) - x, orig.row_of(i) - y, 0, fh as int) {
                target[i]
            } else {
                orig.bytes[i]
            });
        }
        assert(dst@.bytes =~= target);
    }
}

/// Why a sequence of frames cannot be stitched.
#[derive(Debug, Clone, Copy, PartialEq, Eq, Structural)]
pub enum StitchError {
    /// Fewer than two offsets.
    TooShort,
    /// The offsets do not all point the same way.
    InconsistentSign,
    /// The panorama would take more than 100 MiB.
    TooLarge { width: u32, height: u32 },
}

/// The largest panorama, in bytes, that is assembled.
pub const MAX_MEMORY_BYTES: u64 = 104857600;

pub open spec fn sign_of(v: int) -> int {
    if v > 0 {
        1
    } else if v < 0 {
        -1
    } else {
        0
    }
}

/// Offsets `1..k` have the sign of offset 0.
pub open spec fn signs_agree(dx: Seq<i32>, k: int) -> bool {
    forall|i: int| 1 <= i < k ==> #[trigger] sign_of(dx[i] as int) == sign_of(dx[0] as int)
}

/// The signed panorama width after `k` offsets: the frame width in the
/// direction of motion plus offsets `1..k`.
pub open spec fn width_sum(fw: int, dx: Seq<i32>, k: int) -> int
    decreases k,
{
    if k <= 1 {
        fw * sign_of(dx[0] as int)
    } else {
        width_sum(fw, dx, k - 1) + dx[k - 1]
    }
}

/// The frame width as the signed 32-bit number the computation uses.
pub open spec fn frame_width_i32(frames: Seq<RasterView>) -> int {
    ((frames[0].width as u32) as i32) as int
}

/// The signed width of the panorama.
pub open spec fn panorama_width(frames: Seq<RasterView>, dx: Seq<i32>) -> int {
    width_sum(frame_width_i32(frames), dx, dx.len() as int)
}

pub open spec fn abs(v: int) -> int {
    if v < 0 {
        -v
    } else {
        v
    }
}

/// Where the first frame is drawn: at the left edge when the frames move
/// forward, else so that it ends at the right edge.
pub open spec fn first_position(frames: Seq<RasterView>, dx: Seq<i32>) -> int {
    let w = panorama_width(frames, dx);
    if w > 0 {
        0
    } else {
        -w - frame_width_i32(frames)
    }
}

pub open spec fn blank(w: nat, h: nat) -> RasterView {
    RasterView { width: w, height: h, bytes: Seq::new(w * h * 4, |i: int| 0u8) }
}

/// `acc` after drawing `frame` at `(x, y)`, through `mask` when there is one.
pub open spec fn draw(acc: RasterView, frame: RasterView, mask: Option<RasterView>, x: int, y: int) -> RasterView {
    RasterView {
        width: acc.width,
        height: acc.height,
        bytes: match mask {
            None => overlaid(acc, frame, x as i64, y as i64),
            Some(m) => masked_composite(acc, frame, m, x, y),
        },
    }
}

/// `acc` after drawing frames `k..` in turn, frame `k` at `pos` and each next
/// one moved by the offset of the frame before it.
pub open spec fn drawn(
    acc: RasterView,
    frames: Seq<RasterView>,
    dx: Seq<i32>,
    mask: Option<RasterView>,
    pos: int,
    k: int,
) -> RasterView
    decreases frames.len() - k,
{
    if k < 0 || k >= frames.len() {
        acc
    } else {
        drawn(draw(acc, frames[k], mask, pos, 0), frames, dx, mask, pos + dx[k], k + 1)
    }
}

pub open spec fn views(frames: Seq<RgbaRaster>) -> Seq<RasterView> {
    frames.map_values(|f: RgbaRaster| f@)
}

pub open spec fn mask_view(mask: Option<&RgbaRaster>) -> Option<RasterView> {
    match mask {
        Some(m) => Some(m@),
        None => None,
    }
}

/// The inputs that `stitch` accepts: each frame and the mask are images;
/// with two or more offsets there is a first frame and an offset for every
/// frame, the 32-bit width sums do not overflow, the size check does not
/// overflow, and the mask covers every frame.
pub open spec fn stitch_input_ok(frames: Seq<RasterView>, dx: Seq<i32>, mask: Option<RasterView>) -> bool {
    &&& forall|k: int| 0 <= k < frames.len() ==> (#[trigger] frames[k]).well_formed()
    &&& mask matches Some(m) ==> m.well_formed()
    &&& dx.len() >= 2 ==> {
        &&& 1 <= frames.len() <= dx.len()
        &&& fits_i32(width_sum(frame_width_i32(frames), dx, 1))
        &&& forall|k: int| 2 <= k <= dx.len() && signs_agree(dx, k) ==> fits_i32(
            #[trigger] width_sum(frame_width_i32(frames), dx, k),
        )
        &&& signs_agree(dx, dx.len() as int) ==> {
            let w = panorama_width(frames, dx);
            &&& abs(w) * frames[0].height * 4 <= usize::MAX
            &&& w <= 0 ==> fits_i32(-w) && fits_i32(-w - frame_width_i32(frames))
            &&& mask matches Some(m) ==> forall|k: int|
                0 <= k < frames.len() && (#[trigger] frames[k]).width > 0 && frames[k].height > 0
                    ==> frames[k].width <= m.width && frames[k].height <= m.height
        }
    }
}

pub open spec fn fits_i32(v: int) -> bool {
    i32::MIN <= v <= i32::MAX
}

/// What `stitch` gives for these inputs.
pub open spec fn stitch_result(
    frames: Seq<RasterView>,
    dx: Seq<i32>,
    mask: Option<RasterView>,
) -> Result<RasterView, StitchError> {
    if dx.len() < 2 {
        Err(StitchError::TooShort)
    } else if !signs_agree(dx, dx.len() as int) {
        Err(StitchError::InconsistentSign)
    } else {
        let w = abs(panorama_width(frames, dx));
        let h = frames[0].height;
        if w * h * 4 > MAX_MEMORY_BYTES {
            Err(StitchError::TooLarge { width: w as u32, height: h as u32 })
        } else {
            Ok(drawn(blank(w as nat, h), frames, dx, mask, first_position(frames, dx), 0))
        }
    }
}

fn signum(v: i32) -> (s: i32)
    ensures
        s == sign_of(v as int),
{
    if v > 0 {
        1
    } else if v < 0 {
        -1
    } else {
        0
    }
}

/// Draws `frame` onto `dst` at `(x, y)`: through `mask`'s alpha channel when
/// there is a mask, else with `image::imageops::overlay`.
fn composite(dst: &mut RgbaRaster, frame: &RgbaRaster, mask: Option<&RgbaRaster>, x: i64, y: i64)
    requires
        old(dst)@.well_formed(),
        frame@.well_formed(),
        mask matches Some(m) ==> {
            &&& m@.well_formed()
            &&& frame@.width > 0 && frame@.height > 0 ==> frame@.width <= m@.width && frame@.height <= m@.height
        },
        x + frame@.width <= i64::MAX,
        y + frame@.height <= i64::MAX,
    ensures
        final(dst)@.well_formed(),
        final(dst)@ == draw(old(dst)@, frame@, mask_view(mask), x as int, y as int),
        mask is None ==> overlay_keeps_or_covers(old(dst)@, final(dst)@, frame@, x as int, y as int),
{
    match mask {
        None => overlay(dst, frame, x, y),
        Some(m) => composite_masked(dst, frame, m, x, y),
    }
}

/// The sum of offsets `0..k`.
pub open spec fn dx_sum(dx: Seq<i32>, k: int) -> int
    decreases k,
{
    if k <= 0 {
        0
    } else {
        dx_sum(dx, k - 1) + dx[k - 1]
    }
}

/// Every pixel of `f` is opaque.
pub open spec fn opaque(f: RasterView) -> bool {
    forall|x: int, y: int| f.contains(x, y) ==> #[trigger] f.channel(x, y, 3) == 255
}

pub open spec fn all_opaque(frames: Seq<RasterView>) -> bool {
    forall|k: int| 0 <= k < frames.len() ==> opaque(#[trigger] frames[k])
}

/// The last of frames `0..k` that covers pixel `(x, y)` of the panorama,
/// frame `j` lying on the top row at `start + dx_sum(dx, j)`.
pub open spec fn last_cover(frames: Seq<RasterView>, dx: Seq<i32>, start: int, x: int, y: int, k: int) -> Option<
    int,
>
    decreases k,
{
    if k <= 0 {
        None
    } else if frames[k - 1].contains(x - (start + dx_sum(dx, k - 1)), y) {
        Some(k - 1)
    } else {
        last_cover(frames, dx, start, x, y, k - 1)
    }
}

/// Byte `i` of a panorama `w` pixels wide once frames `0..k` are drawn
/// opaque over a blank canvas: that channel of the last frame covering the
/// pixel, else 0.
pub open spec fn opaque_byte(frames: Seq<RasterView>, dx: Seq<i32>, start: int, w: int, i: int, k: int) -> u8 {
    let x = (i / 4) % w;
    let y = (i / 4) / w;
    match last_cover(frames, dx, start, x, y, k) {
        Some(j) => frames[j].channel(x - (start + dx_sum(dx, j)), y, i % 4),
        None => 0,
    }
}

proof fn lemma_width_sum_is_offsets(fw: int, dx: Seq<i32>, k: int)
    requires
        1 <= k <= dx.len(),
    ensures
        width_sum(fw, dx, k) == fw * sign_of(dx[0] as int) + dx_sum(dx, k) - dx[0],
    decreases k,
{
    assert(dx_sum(dx, 0) == 0);
    if k > 1 {
        lemma_width_sum_is_offsets(fw, dx, k - 1);
    }
}

/// Every frame position lies within a few times the 32-bit range.
proof fn lemma_dx_sum_bound(frames: Seq<RasterView>, dx: Seq<i32>, mask: Option<RasterView>, k: int)
    requires
        stitch_input_ok(frames, dx, mask),
        dx.len() >= 2,
        signs_agree(dx, dx.len() as int),
        0 <= k <= dx.len(),
    ensures
        -0x2_0000_0000 <= dx_sum(dx, k) <= 0x2_0000_0000,
{
    if k >= 1 {
        let fw = frame_width_i32(frames);
        lemma_width_sum_is_offsets(fw, dx, k);
        if k >= 2 {
            assert(signs_agree(dx, k));
            assert(fits_i32(width_sum(fw, dx, k)));
        }
        assert(fits_i32(width_sum(fw, dx, 1)));
    }
}

/// Composites `frames` into one panorama, shifting each next frame by the
/// offset of the frame before it. All offsets must point the same way:
/// frames moving forward are laid out from the left edge, frames moving
/// backward from the right edge. With a mask, frame pixels are blended
/// through the mask's alpha channel; without one, they are drawn with
/// `image::imageops::overlay`.
pub fn stitch(frames: &[RgbaRaster], dx: &[i32], mask: Option<&RgbaRaster>) -> (r: Result<
    RgbaRaster,
    StitchError,
>)
    requires
        stitch_input_ok(views(frames@), dx@, mask_view(mask)),
    ensures
        match stitch_result(views(frames@), dx@, mask_view(mask)) {
            Ok(img) => r matches Ok(out) && out@ == img && out@.well_formed(),
            Err(e) => r matches Err(got) && got == e,
        },
        mask is None && all_opaque(views(frames@)) ==> (r matches Ok(out) ==> forall|i: int|
            0 <= i < out@.bytes.len() ==> #[trigger] out@.bytes[i] == opaque_byte(
                views(frames@),
                dx@,
                first_position(views(frames@), dx@),
                out@.width as int,
                i,
                frames@.len() as int,
            )),
{
    let ghost fv = views(frames@);
    let ghost mv = mask_view(mask);
    if dx.len() < 2 {
        return Err(StitchError::TooShort);
    }
    assert(fv[0] == frames@[0]@);
    let fw = frames[0].width() as i32;
    let fh = frames[0].height();
    let sign = signum(dx[0]);
    let mut w: i32 = fw * sign;
    let mut i: usize = 1;
    while i < dx.len()
        invariant
            1 <= i <= dx@.len(),
            dx@.len() >= 2,
            stitch_input_ok(fv, dx@, mv),
            fv[0] == frames@[0]@,
            fw == frame_width_i32(fv),
            sign == sign_of(dx@[0] as int),
            signs_agree(dx@, i as int),
            w == width_sum(fw as int, dx@, i as int),
        decreases dx@.len() - i,
    {
        let x = dx[i];
        if signum(x) != sign {
            return Err(StitchError::InconsistentSign);
        }
        assert(signs_agree(dx@, i + 1));
        assert(fits_i32(width_sum(fw as int, dx@, i + 1)));
        w = w + x;
        i = i + 1;
    }
    let img_w: u32 = if w < 0 {
        (-(w as i64)) as u32
    } else {
        w as u32
    };
    assert(img_w == abs(panorama_width(fv, dx@)));
    assert(img_w as int * fh * 4 <= usize::MAX);
    proof {
        assert((img_w as int) * (fh as int) <= (img_w as int) * (fh as int) * 4) by (nonlinear_arith)
            requires img_w >= 0, fh >= 0;
    }
    if (img_w as usize) * (fh as usize) * 4 > MAX_MEMORY_BYTES as usize {
        return Err(StitchError::TooLarge { width: img_w, height: fh });
    }
    let mut img = RgbaRaster::new(img_w, fh);
    let mut pos: i64 = if w > 0 {
        0
    } else {
        (-w - fw) as i64
    };
    let ghost start = pos as int;
    assert(start == first_position(fv, dx@));
    let ghost goal = drawn(img@, fv, dx@, mv, start, 0);
    let mut k: usize = 0;
    while k < frames.len()
        invariant
            k <= frames@.len(),
            frames@.len() <= dx@.len(),
            dx@.len() >= 2,
            signs_agree(dx@, dx@.len() as int),
            stitch_input_ok(fv, dx@, mv),
            fv == views(frames@),
            mv == mask_view(mask),
            -0x8000_0000 <= start <= 0x8000_0000,
            pos == start + dx_sum(dx@, k as int),
            img@.well_formed(),
            drawn(img@, fv, dx@, mv, pos as int, k as int) == goal,
            mv is None && all_opaque(fv) ==> forall|i: int|
                0 <= i < img@.bytes.len() ==> #[trigger] img@.bytes[i] == opaque_byte(
                    fv,
                    dx@,
                    start,
                    img@.width as int,
                    i,
                    k as int,
                ),
        decreases frames@.len() - k,
    {
        proof {
            lemma_dx_sum_bound(fv, dx@, mv, k as int);
            lemma_dx_sum_bound(fv, dx@, mv, k + 1);
            assert(fv[k as int] == frames@[k as int]@);
            assert(fv[k as int].well_formed());
        }
        let ghost before = img@;
        composite(&mut img, &frames[k], mask, pos, 0);
        proof {
            if mv is None && all_opaque(fv) {
                let f = fv[k as int];
                assert(opaque(f));
                assert forall|i: int| 0 <= i < img@.bytes.len() implies #[trigger] img@.bytes[i] == opaque_byte(
                    fv,
                    dx@,
                    start,
                    img@.width as int,
                    i,
                    k + 1,
                ) by {
                    let x = before.col_of(i);
                    let y = before.row_of(i);
                    assert(before.bytes[i] == opaque_byte(fv, dx@, start, before.width as int, i, k as int));
                    if f.contains(x - pos, y) {
                        assert(f.channel(x - pos, y, 3) == 255);
                    }
                }
            }
        }
        pos = pos + dx[k] as i64;
        k = k + 1;
    }
    Ok(img)
}

/// Where the panorama puts the first frame: frames moving forward are laid
/// out from the left edge, so the first frame starts at column 0; frames
/// moving backward are laid out from the right edge, so the first frame ends
/// at the panorama's last column. The panorama is as high as the first
/// frame, and is all the frames drawn in turn onto a blank canvas from
/// there.
pub proof fn law_first_frame_at_the_leading_edge(frames: Seq<RasterView>, dx: Seq<i32>, mask: Option<RasterView>)
    requires
        stitch_input_ok(frames, dx, mask),
        stitch_result(frames, dx, mask) is Ok,
    ensures
        ({
            let w = panorama_width(frames, dx);
            let width = abs(w);
            let start = if w > 0 {
                0
            } else {
                width - frame_width_i32(frames)
            };
            &&& w > 0 ==> start == 0
            &&& w <= 0 ==> start + frame_width_i32(frames) == width
            &&& stitch_result(frames, dx, mask) == Ok::<RasterView, StitchError>(
                drawn(blank(width as nat, frames[0].height), frames, dx, mask, start, 0),
            )
        }),
{
}

/// How far the frames move in all, past the first: the magnitudes of
/// offsets `1..k`.
pub open spec fn later_travel(dx: Seq<i32>, k: int) -> int
    decreases k,
{
    if k <= 1 {
        0
    } else {
        later_travel(dx, k - 1) + abs(dx[k - 1] as int)
    }
}

proof fn lemma_width_sum_travel(fw: int, dx: Seq<i32>, k: int)
    requires
        1 <= k <= dx.len(),
        dx[0] != 0,
        signs_agree(dx, k),
    ensures
        dx[0] > 0 ==> width_sum(fw, dx, k) == fw + later_travel(dx, k),
        dx[0] < 0 ==> width_sum(fw, dx, k) == -(fw + later_travel(dx, k)),
    decreases k,
{
    if k > 1 {
        assert(signs_agree(dx, k - 1));
        lemma_width_sum_travel(fw, dx, k - 1);
        assert(sign_of(dx[k - 1] as int) == sign_of(dx[0] as int));
    } else {
        if dx[0] > 0 {
            assert(fw * 1 == fw);
        } else {
            assert(fw * -1 == -fw);
        }
    }
}

/// The panorama of frames that all move the same way is as wide as one frame
/// plus how far the frames move past the first, and as high as the first
/// frame: three frames 3 pixels wide moving by 2 pixels make a panorama 7
/// pixels wide, whichever way they move.
pub proof fn law_panorama_width(frames: Seq<RasterView>, dx: Seq<i32>, mask: Option<RasterView>)
    requires
        stitch_input_ok(frames, dx, mask),
        dx.len() >= 2,
        dx[0] != 0,
        signs_agree(dx, dx.len() as int),
        frames[0].width <= i32::MAX,
    ensures
        abs(panorama_width(frames, dx)) == frames[0].width + later_travel(dx, dx.len() as int),
        stitch_result(frames, dx, mask) matches Ok(img) ==> img.width == frames[0].width + later_travel(
            dx,
            dx.len() as int,
        ) && img.height == frames[0].height,
{
    let u = frames[0].width as u32;
    assert(u == frames[0].width);
    assert(u as i32 == u) by (bit_vector)
        requires
            u <= 0x7fff_ffff,
    ;
    let fw = frame_width_i32(frames);
    assert(fw == frames[0].width);
    let n = dx.len() as int;
    lemma_width_sum_travel(fw, dx, n);
    lemma_later_travel_nonneg(dx, n);
    let width = abs(panorama_width(frames, dx));
    lemma_drawn_keeps_size(blank(width as nat, frames[0].height), frames, dx, mask, first_position(frames, dx), 0);
}

proof fn lemma_drawn_keeps_size(
    acc: RasterView,
    frames: Seq<RasterView>,
    dx: Seq<i32>,
    mask: Option<RasterView>,
    pos: int,
    k: int,
)
    ensures
        drawn(acc, frames, dx, mask, pos, k).width == acc.width,
        drawn(acc, frames, dx, mask, pos, k).height == acc.height,
    decreases frames.len() - k,
{
    if 0 <= k < frames.len() {
        lemma_drawn_keeps_size(draw(acc, frames[k], mask, pos, 0), frames, dx, mask, pos + dx[k], k + 1);
    }
}

proof fn lemma_later_travel_nonneg(dx: Seq<i32>, k: int)
    ensures
        later_travel(dx, k) >= 0,
    decreases k,
{
    if k > 1 {
        lemma_later_travel_nonneg(dx, k - 1);
    }
}

} // verus!
