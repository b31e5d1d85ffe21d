//! The command line that runs `rpicam-vid` for the Raspberry Pi Camera
//! Module v3: the sensor window, the codec and the arguments.
use vstd::prelude::*;
use crate::datastore::string_views;
use crate::fourcc::{le_value, FourCC};
use crate::text::{chars_of, decimal, push_decimal, string_of};
use crate::ts::push_all;

verus! {

/// Sensor width of the camera module.
pub const SENSOR_W: u32 = 2304;
/// Sensor height of the camera module.
pub const SENSOR_H: u32 = 1296;

/// The region of the sensor that is read: `(x, y, width, height)`. A zero
/// width and height stand for the whole sensor.
pub fn picam_window(roi_x: u32, roi_y: u32, width: u32, height: u32) -> (r: (u32, u32, u32, u32))
    ensures
        r == (if width == 0 && height == 0 {
            (0u32, 0u32, SENSOR_W, SENSOR_H)
        } else {
            (roi_x, roi_y, width, height)
        }),
{
    if width == 0 && height == 0 {
        (0, 0, SENSOR_W, SENSOR_H)
    } else {
        (roi_x, roi_y, width, height)
    }
}

/// What the camera hands out.
#[derive(Clone, Copy, Debug, PartialEq, Eq, Structural)]
pub enum PiCamCodec {
    /// A stream of JPEG pictures.
    Mjpeg,
    /// Raw YUV 4:2:0 frames.
    Yuv420,
}

/// The codec for a pixel format: Motion JPEG or YU12; other formats are not
/// supported.
pub fn picam_codec(format: FourCC) -> (c: Option<PiCamCodec>)
    ensures
        c == (if format@ == le_value(0x4D, 0x4A, 0x50, 0x47) {
            Some(PiCamCodec::Mjpeg)
        } else if format@ == le_value(0x59, 0x55, 0x31, 0x32) {
            Some(PiCamCodec::Yuv420)
        } else {
            None
        }),
{
    let mjpg = FourCC::mjpg();
    let yu12 = FourCC::yu12();
    proof {
        crate::fourcc::lemma_view_injective(format, mjpg);
        crate::fourcc::lemma_view_injective(format, yu12);
    }
    if format == mjpg {
        Some(PiCamCodec::Mjpeg)
    } else if format == yu12 {
        Some(PiCamCodec::Yuv420)
    } else {
        None
    }
}

/// The size in bytes of one YU12 frame: one and a half bytes per pixel.
pub fn yuv420_frame_len(w: u32, h: u32) -> (n: usize)
    requires
        w * h * 12 <= u32::MAX,
    ensures
        n == w * h * 12 / 8,
{
    let whole = w * h;
    assert(whole * 12 <= u32::MAX) by (nonlinear_arith)
        requires
            whole == w * h,
            w * h * 12 <= u32::MAX,
    ;
    let n = whole * 12 / 8;
    n as usize
}

/// The arguments of `rpicam-vid` for a `w` by `h` picture from the sensor
/// region `roi` (its four fractions, as text), at `fps` frames a second, with
/// the lens at `lens` (as text), possibly turned by 180 degrees.
pub open spec fn picam_args_of(
    w: u32,
    h: u32,
    roi: Seq<char>,
    fps: u32,
    lens: Seq<char>,
    rotate_180: bool,
    codec: PiCamCodec,
) -> Seq<Seq<char>> {
    seq![
        "--verbose=1"@,
        "--timeout=0"@,
        "--inline"@,
        "--nopreview"@,
        "--width="@ + decimal(w as nat),
        "--height="@ + decimal(h as nat),
        "--roi="@ + roi,
        "--mode=2304:1296:12:P"@,
        "--framerate="@ + decimal(fps as nat),
        "--autofocus-mode=manual"@,
        "--lens-position="@ + lens,
        "--output"@,
        "-"@,
    ] + (if rotate_180 {
        seq!["--rotation=180"@]
    } else {
        Seq::empty()
    }) + (match codec {
        PiCamCodec::Mjpeg => seq!["--codec=mjpeg"@, "--quality=90"@],
        PiCamCodec::Yuv420 => seq!["--codec=yuv420"@],
    })
}

fn push_arg(args: &mut Vec<String>, s: &str)
    ensures
        string_views(final(args)@) == string_views(old(args)@).push(s@),
{
    args.push(s.to_owned());
    assert(string_views(args@) =~= string_views(old(args)@).push(s@));
}

fn push_arg_with(args: &mut Vec<String>, prefix: &str, tail: &[char])
    ensures
        string_views(final(args)@) == string_views(old(args)@).push(prefix@ + tail@),
{
    let mut v = chars_of(prefix);
    push_all(&mut v, tail);
    args.push(string_of(&v));
    assert(string_views(args@) =~= string_views(old(args)@).push(prefix@ + tail@));
}

fn push_arg_number(args: &mut Vec<String>, prefix: &str, n: u32)
    ensures
        string_views(final(args)@) == string_views(old(args)@).push(prefix@ + decimal(n as nat)),
{
    let mut v = chars_of(prefix);
    push_decimal(&mut v, n as u64);
    args.push(string_of(&v));
    assert(string_views(args@) =~= string_views(old(args)@).push(prefix@ + decimal(n as nat)));
}

/// The arguments of `rpicam-vid`; `roi` and `lens` are the region and the
/// lens position already written as text.
pub fn picam_args(
    w: u32,
    h: u32,
    roi: &str,
    fps: u32,
    lens: &str,
    rotate_180: bool,
    codec: PiCamCodec,
) -> (args: Vec<String>)
    ensures
        string_views(args@) == picam_args_of(w, h, roi@, fps, lens@, rotate_180, codec),
{
    let mut args: Vec<String> = Vec::new();
    push_arg(&mut args, "--verbose=1");
    push_arg(&mut args, "--timeout=0");
    push_arg(&mut args, "--inline");
    push_arg(&mut args, "--nopreview");
    push_arg_number(&mut args, "--width=", w);
    push_arg_number(&mut args, "--height=", h);
    let roi_chars = chars_of(roi);
    push_arg_with(&mut args, "--roi=", &roi_chars);
    push_arg(&mut args, "--mode=2304:1296:12:P");
    push_arg_number(&mut args, "--framerate=", fps);
    push_arg(&mut args, "--autofocus-mode=manual");
    let lens_chars = chars_of(lens);
    push_arg_with(&mut args, "--lens-position=", &lens_chars);
    push_arg(&mut args, "--output");
    push_arg(&mut args, "-");
    let ghost base = string_views(args@);
    if rotate_180 {
        push_arg(&mut args, "--rotation=180");
    }
    let ghost rotated = string_views(args@);
    match codec {
        PiCamCodec::Mjpeg => {
            push_arg(&mut args, "--codec=mjpeg");
            push_arg(&mut args, "--quality=90");
        },
        PiCamCodec::Yuv420 => {
            push_arg(&mut args, "--codec=yuv420");
        },
    }
    assert(string_views(args@) =~= picam_args_of(w, h, roi@, fps, lens@, rotate_180, codec));
    args
}

} // verus!
