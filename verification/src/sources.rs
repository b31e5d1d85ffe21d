//! The decisions of the frame sources: how a camera's frames are decoded,
//! which device files are cameras, how a read from a video decoder ends, and
//! when a full frame buffer is worth a warning.
use vstd::prelude::*;
use crate::config::starts_with_chars;
use crate::fourcc::{le_value, lemma_view_injective, FourCC};
use crate::text::chars_of;

verus! {

/// Frames a camera delivers at start-up that are thrown away.
pub const SKIP_INITIAL_FRAMES: usize = 5;
/// Buffers the camera driver streams into.
pub const STREAM_BUFFERS: u32 = 4;

/// How a camera's frames are turned into RGBA pictures.
#[derive(Clone, Copy, Debug, PartialEq, Eq, Structural)]
pub enum CamDecoder {
    /// Each frame is a JPEG picture.
    Jpeg,
    /// Each frame is packed YUV 4:2:2.
    Yuyv,
}

/// The decoder for a camera pixel format: Motion JPEG or YUYV; other formats
/// are not supported.
pub fn cam_decoder(format: FourCC) -> (d: Option<CamDecoder>)
    ensures
        d == (if format@ == le_value(0x4D, 0x4A, 0x50, 0x47) {
            Some(CamDecoder::Jpeg)
        } else if format@ == le_value(0x59, 0x55, 0x59, 0x56) {
            Some(CamDecoder::Yuyv)
        } else {
            None
        }),
{
    let mjpg = FourCC::mjpg();
    let yuyv = FourCC::yuyv();
    proof {
        lemma_view_injective(format, mjpg);
        lemma_view_injective(format, yuyv);
    }
    if format == mjpg {
        Some(CamDecoder::Jpeg)
    } else if format == yuyv {
        Some(CamDecoder::Yuyv)
    } else {
        None
    }
}

/// `video`.
pub open spec fn video_prefix() -> Seq<char> {
    seq!['v', 'i', 'd', 'e', 'o']
}

/// Whether a file in `/dev` is a video device: its name starts with `video`.
pub fn is_video_device_name(name: &str) -> (b: bool)
    ensures
        b == (name@.len() >= 5 && name@.take(5) == video_prefix()),
{
    let v = chars_of(name);
    let prefix: [char; 5] = ['v', 'i', 'd', 'e', 'o'];
    assert(prefix@ =~= video_prefix());
    starts_with_chars(&v, &prefix)
}

/// Whether the camera took the frame size it was asked for.
pub fn size_matches(requested_w: u32, requested_h: u32, actual_w: u32, actual_h: u32) -> (b: bool)
    ensures
        b == (requested_w == actual_w && requested_h == actual_h),
{
    requested_w == actual_w && requested_h == actual_h
}

/// The size in bytes of one RGBA frame of `w` by `h` pixels.
pub fn rgba_frame_len(w: u32, h: u32) -> (n: usize)
    requires
        w * h * 4 <= u32::MAX,
    ensures
        n == w * h * 4,
{
    let wh = w * h;
    assert(wh * 4 <= u32::MAX) by (nonlinear_arith)
        requires
            wh == w * h,
            w * h * 4 <= u32::MAX,
    ;
    (wh * 4) as usize
}

/// How filling a frame buffer from a video decoder ended.
#[derive(Clone, Copy, Debug, PartialEq, Eq, Structural)]
pub enum FrameRead {
    /// Nothing was read: the video has ended.
    End,
    /// The decoder stopped in the middle of a frame.
    Partial,
    /// A whole frame was read.
    Full,
}

/// How filling a buffer of `frame_len` bytes ended after `n` bytes.
pub fn classify_frame_read(n: usize, frame_len: usize) -> (r: FrameRead)
    ensures
        r == (if n == 0 {
            FrameRead::End
        } else if n != frame_len {
            FrameRead::Partial
        } else {
            FrameRead::Full
        }),
{
    if n == 0 {
        FrameRead::End
    } else if n != frame_len {
        FrameRead::Partial
    } else {
        FrameRead::Full
    }
}

/// Counts one more frame dropped because the buffer was full; a warning is
/// due for the first drop and then for every sixtieth in a row.
pub fn count_dropped_frame(dropped_in_a_row: u32) -> (r: (u32, bool))
    requires
        dropped_in_a_row < u32::MAX,
    ensures
        r.0 == dropped_in_a_row + 1,
        r.1 == (r.0 % 60 == 1),
{
    let n = dropped_in_a_row + 1;
    (n, n % 60 == 1)
}

} // verus!
