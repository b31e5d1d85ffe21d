//! The decisions of the detector command around the stitcher: whether the
//! crop rectangle is usable, which kind of source the input names, which
//! frames are cropped, when failing frames stop the run and when a picture
//! must be shrunk before it is saved.
use vstd::prelude::*;
use crate::config::{equals_chars, starts_with_chars};
use crate::text::chars_of;

verus! {

/// Smallest width and height of the crop rectangle.
pub const RECT_SIZE_MIN: u32 = 100;
/// Beyond this width or height live processing may fall behind.
pub const RECT_SIZE_MAX_WARN: u32 = 500;
/// Failing frames in a row after which a live source is given up.
pub const MAX_FAILED_FRAMES: usize = 50;
/// The largest width and height a JPEG file can have.
pub const MAX_JPEG_DIM: u32 = 32767;

/// Why a crop rectangle cannot be used.
#[derive(Clone, Copy, Debug, PartialEq, Eq, Structural)]
pub enum RectError {
    /// Width or height is zero: no rectangle was given.
    NotSet,
    /// Width or height is below `RECT_SIZE_MIN`.
    TooSmall,
}

/// Checks the crop rectangle's size. `Ok(true)` asks for a warning that the
/// rectangle is so large that live processing may not keep up.
pub fn check_rect(w: u32, h: u32) -> (r: Result<bool, RectError>)
    ensures
        r == (if w == 0 || h == 0 {
            Err(RectError::NotSet)
        } else if w < RECT_SIZE_MIN || h < RECT_SIZE_MIN {
            Err(RectError::TooSmall)
        } else {
            Ok(w > RECT_SIZE_MAX_WARN || h > RECT_SIZE_MAX_WARN)
        }),
{
    if w == 0 || h == 0 {
        Err(RectError::NotSet)
    } else if w < RECT_SIZE_MIN || h < RECT_SIZE_MIN {
        Err(RectError::TooSmall)
    } else {
        Ok(w > RECT_SIZE_MAX_WARN || h > RECT_SIZE_MAX_WARN)
    }
}

/// The kind of frame source an `--input` names.
#[derive(Clone, Copy, Debug, PartialEq, Eq, Structural)]
pub enum InputKind {
    /// An MJPEG stream over HTTP(S).
    Http,
    /// The Raspberry Pi camera.
    PiCam3,
    /// A video device when the path is a character device, else a video file.
    DeviceOrFile,
}

/// `http://`.
pub open spec fn http_scheme() -> Seq<char> {
    seq!['h', 't', 't', 'p', ':', '/', '/']
}

/// `https://`.
pub open spec fn https_scheme() -> Seq<char> {
    seq!['h', 't', 't', 'p', 's', ':', '/', '/']
}

/// `picam3`.
pub open spec fn picam3_name() -> Seq<char> {
    seq!['p', 'i', 'c', 'a', 'm', '3']
}

pub open spec fn has_prefix(s: Seq<char>, p: Seq<char>) -> bool {
    s.len() >= p.len() && s.take(p.len() as int) == p
}

/// The kind of source `input` names: a URL with scheme `http://` or
/// `https://`, the word `picam3`, or else a path.
pub open spec fn input_kind_of(input: Seq<char>) -> InputKind {
    if has_prefix(input, http_scheme()) || has_prefix(input, https_scheme()) {
        InputKind::Http
    } else if input == picam3_name() {
        InputKind::PiCam3
    } else {
        InputKind::DeviceOrFile
    }
}

fn is_picam3(v: &Vec<char>) -> (b: bool)
    ensures
        b == (v@ == picam3_name()),
{
    let name: [char; 6] = ['p', 'i', 'c', 'a', 'm', '3'];
    assert(name@ =~= picam3_name());
    assert(v@.skip(0) =~= v@);
    equals_chars(v, 0, &name)
}

/// The kind of source `input` names.
pub fn input_kind(input: &str) -> (k: InputKind)
    ensures
        k == input_kind_of(input@),
{
    let v = chars_of(input);
    let http: [char; 7] = ['h', 't', 't', 'p', ':', '/', '/'];
    let https: [char; 8] = ['h', 't', 't', 'p', 's', ':', '/', '/'];
    assert(http@ =~= http_scheme());
    assert(https@ =~= https_scheme());
    if starts_with_chars(&v, &http) || starts_with_chars(&v, &https) {
        InputKind::Http
    } else if is_picam3(&v) {
        InputKind::PiCam3
    } else {
        InputKind::DeviceOrFile
    }
}

/// The rectangle `(x, y, w, h)` each frame is cropped to: none for the Pi
/// camera, which crops on the sensor itself.
pub fn crop_for(input: &str, x: u32, y: u32, w: u32, h: u32) -> (r: Option<(u32, u32, u32, u32)>)
    ensures
        r == (if input@ == picam3_name() {
            None
        } else {
            Some((x, y, w, h))
        }),
{
    let v = chars_of(input);
    if is_picam3(&v) {
        None
    } else {
        Some((x, y, w, h))
    }
}

/// What the frame source gave.
#[derive(Clone, Copy, Debug, PartialEq, Eq, Structural)]
pub enum FrameEvent {
    /// A frame.
    Frame,
    /// The end of the frames.
    End,
    /// An error instead of a frame.
    Error,
}

/// What the detector does next.
#[derive(Clone, Copy, Debug, PartialEq, Eq, Structural)]
pub enum FrameStep {
    /// Hand the frame to the stitcher; no frame has failed since.
    Process,
    /// Go on reading; this many frames have failed in a row.
    Retry(usize),
    /// Stop reading after this many failing frames in a row.
    GiveUp(usize),
    /// Stop reading: the source has ended.
    Finish,
}

/// The detector's reading loop: a frame resets the count of failing frames;
/// an error counts one more and ends the run when the source is not live or
/// `MAX_FAILED_FRAMES` frames have failed in a row.
pub fn frame_step(failed_frames: usize, event: FrameEvent, is_live: bool) -> (s: FrameStep)
    requires
        failed_frames < MAX_FAILED_FRAMES,
    ensures
        s == (match event {
            FrameEvent::Frame => FrameStep::Process,
            FrameEvent::End => FrameStep::Finish,
            FrameEvent::Error => if !is_live || failed_frames + 1 >= MAX_FAILED_FRAMES {
                FrameStep::GiveUp((failed_frames + 1) as usize)
            } else {
                FrameStep::Retry((failed_frames + 1) as usize)
            },
        }),
        s matches FrameStep::Retry(n) ==> n < MAX_FAILED_FRAMES,
{
    match event {
        FrameEvent::Frame => FrameStep::Process,
        FrameEvent::End => FrameStep::Finish,
        FrameEvent::Error => {
            let n = failed_frames + 1;
            if !is_live || n >= MAX_FAILED_FRAMES {
                FrameStep::GiveUp(n)
            } else {
                FrameStep::Retry(n)
            }
        },
    }
}

/// Whether a stitched picture must be shrunk to fit into a JPEG file.
pub fn exceeds_jpeg_limits(w: u32, h: u32) -> (b: bool)
    ensures
        b == (w > MAX_JPEG_DIM || h > MAX_JPEG_DIM),
{
    w > MAX_JPEG_DIM || h > MAX_JPEG_DIM
}

} // verus!
