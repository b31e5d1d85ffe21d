use trainbot::config::{
    fit_method_from_args, CleanupArgs, ConfighelperArgs, Encoder, FitMethod,
    FrameDispositionGuard, LogConfig,
};
use trainbot::detect::{
    check_rect, crop_for, exceeds_jpeg_limits, frame_step, input_kind, FrameEvent, FrameStep,
    InputKind, RectError,
};
use trainbot::gif::{drawn_in_animation, rgb_palette};
use trainbot::http::{request_path, route, Route};
use trainbot::imageio::{format_for_extension, save_format, PictureFormat};
use trainbot::motion::{match_offset, search_window, SearchWindow};
use trainbot::multipart::{classify_boundary_line, classify_header_line, parse_boundary, BoundaryLine, HeaderLine};
use trainbot::raster::RgbaRaster;
use trainbot::sequence::{long_enough_to_fit, steps_from_positions, strip_still_tail, Sequence};
use trainbot::served::{part_head, stream_content_type};
use trainbot::stats::{channel_stats, patch_sums};
use trainbot::stitch::{stitch, StitchError};
use trainbot::stitcher::{decide_frame, offset_needed, Disposition, FrameAction, FrameFacts};

fn solid(w: u32, h: u32, v: u8) -> RgbaRaster {
    let mut data = Vec::new();
    for _ in 0..(w * h) {
        data.extend_from_slice(&[v, v, v, 255]);
    }
    RgbaRaster::from_raw(w, h, data).unwrap()
}

fn columns(values: &[u8]) -> RgbaRaster {
    let mut data = Vec::new();
    for &v in values {
        data.extend_from_slice(&[v, v, v, 255]);
    }
    RgbaRaster::from_raw(values.len() as u32, 1, data).unwrap()
}

fn first_channel(img: &RgbaRaster) -> Vec<u8> {
    img.as_raw().chunks(4).map(|p| p[0]).collect()
}

#[test]
fn stitch_needs_two_offsets() {
    let frames = vec![solid(2, 1, 1)];
    assert_eq!(stitch(&frames, &[3], None).unwrap_err(), StitchError::TooShort);
}

#[test]
fn stitch_needs_one_direction() {
    let frames = vec![solid(2, 1, 1), solid(2, 1, 2)];
    assert_eq!(
        stitch(&frames, &[2, -1], None).unwrap_err(),
        StitchError::InconsistentSign
    );
}

#[test]
fn stitch_refuses_huge_panoramas() {
    let frames = vec![solid(1, 1, 1), solid(1, 1, 2)];
    assert_eq!(
        stitch(&frames, &[1, 30_000_000], None).unwrap_err(),
        StitchError::TooLarge { width: 30_000_001, height: 1 }
    );
}

#[test]
fn stitch_forward_lays_frames_from_the_left() {
    let frames = vec![columns(&[10, 11, 12]), columns(&[20, 21, 22])];
    let img = stitch(&frames, &[2, 2], None).unwrap();
    assert_eq!((img.width(), img.height()), (5, 1));
    assert_eq!(first_channel(&img), vec![10, 11, 20, 21, 22]);
}

#[test]
fn stitch_backward_lays_frames_from_the_right() {
    let frames = vec![columns(&[10, 11, 12]), columns(&[20, 21, 22])];
    let img = stitch(&frames, &[-2, -2], None).unwrap();
    assert_eq!((img.width(), img.height()), (5, 1));
    assert_eq!(first_channel(&img), vec![20, 21, 22, 11, 12]);
}

#[test]
fn stitch_backward_opaque_frames() {
    let red = RgbaRaster::from_raw(2, 1, vec![255, 0, 0, 255, 255, 0, 0, 255]).unwrap();
    let blue = RgbaRaster::from_raw(2, 1, vec![0, 0, 255, 255, 0, 0, 255, 255]).unwrap();
    let img = stitch(&[red, blue], &[-1, -1], None).unwrap();
    assert_eq!((img.width(), img.height()), (3, 1));
    // The first frame ends at the right edge; the second, drawn later, covers x = 0 and 1.
    assert_eq!(img.as_raw(), &[0, 0, 255, 255, 0, 0, 255, 255, 255, 0, 0, 255]);
}

#[test]
fn stitch_through_a_mask() {
    let frames = vec![columns(&[100, 100]), columns(&[200, 200])];
    // Alpha 255 on the left pixel, 0 on the right one.
    let mask = RgbaRaster::from_raw(2, 1, vec![0, 0, 0, 255, 0, 0, 0, 0]).unwrap();
    let img = stitch(&frames, &[1, 1], Some(&mask)).unwrap();
    assert_eq!((img.width(), img.height()), (3, 1));
    // Left pixel of frame 0 at x=0, left pixel of frame 1 at x=1; x=2 untouched.
    assert_eq!(img.as_raw(), &[100, 100, 100, 255, 200, 200, 200, 255, 0, 0, 0, 0]);
}

#[test]
fn sequence_records_and_strips_still_tail() {
    let mut seq: Sequence<u8, u32, u64> = Sequence::new();
    assert!(seq.is_empty());
    seq.record(5, 1, 3, 6, 1000);
    seq.record(6, 2, 0, 7, 2000);
    seq.record(7, 3, 0, 8, 3000);
    assert_eq!(seq.len(), 3);
    assert_eq!(*seq.start_ts(), Some(5));
    assert_eq!(*seq.start_wall(), Some(1000));
    seq.strip_still_tail();
    assert_eq!(seq.dx(), &[3]);
    assert_eq!(seq.ts(), &[6]);
    assert_eq!(seq.frames(), &[1]);
    assert_eq!(*seq.start_ts(), Some(5));
    let (frames, dx, ts) = seq.into_parts();
    assert_eq!((frames, dx, ts), (vec![1], vec![3], vec![6]));
}

#[test]
fn strip_still_tail_of_uneven_lists() {
    let mut dx = vec![1, 0, 0];
    let mut ts = vec![1];
    let mut frames: Vec<u8> = vec![];
    strip_still_tail(&mut dx, &mut ts, &mut frames);
    assert_eq!(dx, vec![1]);
    assert!(ts.is_empty());
    assert!(frames.is_empty());
    let mut all_still = vec![0, 0];
    let mut ts2 = vec![1, 2];
    let mut f2 = vec![3, 4];
    strip_still_tail(&mut all_still, &mut ts2, &mut f2);
    assert!(all_still.is_empty() && ts2.is_empty() && f2.is_empty());
}

#[test]
fn fit_needs_nine_offsets() {
    assert!(!long_enough_to_fit(8));
    assert!(long_enough_to_fit(9));
}

#[test]
fn steps_sum_back_to_positions() {
    let xs = [3, 7, 7, 2, -4];
    let dx = steps_from_positions(&xs);
    assert_eq!(dx, vec![3, 4, 0, -5, -6]);
    let mut pos = 0;
    for (i, d) in dx.iter().enumerate() {
        pos += d;
        assert_eq!(pos, xs[i]);
    }
}

#[test]
fn gif_palette_and_frames() {
    assert_eq!(rgb_palette(&[1, 2, 3, 4, 5, 6, 7, 8]), vec![1, 2, 3, 5, 6, 7]);
    assert_eq!(rgb_palette(&[1, 2, 3]), vec![1, 2, 3]);
    assert!(rgb_palette(&[]).is_empty());
    assert!(drawn_in_animation(0));
    assert!(!drawn_in_animation(1));
    assert!(drawn_in_animation(4));
}

#[test]
fn channel_stats_of_two_pixels() {
    let img = RgbaRaster::from_raw(2, 1, vec![10, 0, 255, 9, 21, 4, 0, 9]).unwrap();
    let s = channel_stats(&img);
    assert_eq!(s.mean, [15, 2, 127]);
    assert_eq!(s.deviation_sum, [11, 4, 255]);
}

#[test]
fn patch_sums_values() {
    // Image 2x1, patch 1x1 placed at x=1.
    let img = [1u8, 2, 3, 0, 4, 5, 6, 0];
    let pat = [1u8, 1, 2, 0];
    assert_eq!(patch_sums(&img, 8, &pat, 4, 1, 0, 1, 1), (4 + 5 + 12, 16 + 25 + 36, 1 + 1 + 4));
    assert_eq!(patch_sums(&img, 8, &pat, 4, 0, 0, 0, 1), (0, 0, 0));
}

#[test]
fn search_geometry() {
    let w = search_window(100, 41, 10);
    assert_eq!(
        w,
        SearchWindow { x_sub: 35, y_sub: 10, w_sub: 30, h_sub: 21, x_slice: 45, w_slice: 10 }
    );
    assert_eq!(match_offset(10, w), 0);
    assert_eq!(match_offset(3, w), -7);
    assert_eq!(match_offset(20, w), 10);
}

#[test]
fn rect_checks() {
    assert_eq!(check_rect(0, 200), Err(RectError::NotSet));
    assert_eq!(check_rect(200, 0), Err(RectError::NotSet));
    assert_eq!(check_rect(99, 200), Err(RectError::TooSmall));
    assert_eq!(check_rect(100, 100), Ok(false));
    assert_eq!(check_rect(501, 100), Ok(true));
    assert_eq!(check_rect(500, 500), Ok(false));
}

#[test]
fn input_kinds_and_crop() {
    assert_eq!(input_kind("http://cam/stream"), InputKind::Http);
    assert_eq!(input_kind("https://cam/stream"), InputKind::Http);
    assert_eq!(input_kind("picam3"), InputKind::PiCam3);
    assert_eq!(input_kind("/dev/video0"), InputKind::DeviceOrFile);
    assert_eq!(input_kind("http:/x"), InputKind::DeviceOrFile);
    assert_eq!(crop_for("picam3", 1, 2, 3, 4), None);
    assert_eq!(crop_for("video.mp4", 1, 2, 3, 4), Some((1, 2, 3, 4)));
}

#[test]
fn frame_loop_policy() {
    assert_eq!(frame_step(7, FrameEvent::Frame, true), FrameStep::Process);
    assert_eq!(frame_step(0, FrameEvent::End, true), FrameStep::Finish);
    assert_eq!(frame_step(0, FrameEvent::Error, false), FrameStep::GiveUp(1));
    assert_eq!(frame_step(0, FrameEvent::Error, true), FrameStep::Retry(1));
    assert_eq!(frame_step(48, FrameEvent::Error, true), FrameStep::Retry(49));
    assert_eq!(frame_step(49, FrameEvent::Error, true), FrameStep::GiveUp(50));
}

#[test]
fn jpeg_limits() {
    assert!(!exceeds_jpeg_limits(32767, 32767));
    assert!(exceeds_jpeg_limits(32768, 1));
    assert!(exceeds_jpeg_limits(1, 40000));
}

#[test]
fn log_config_defaults_and_level() {
    let d = LogConfig::default();
    assert!(!d.log_pretty);
    assert_eq!(d.log_level, "info");
    let empty = LogConfig { log_pretty: true, log_level: String::new() };
    assert_eq!(empty.effective_level(), "info");
    let custom = LogConfig { log_pretty: false, log_level: "trainbot=trace".to_string() };
    assert_eq!(custom.effective_level(), "trainbot=trace");
}

#[test]
fn command_settings_give_log_config() {
    let c = CleanupArgs { log_pretty: true, log_level: "debug".to_string(), data_dir: "d".to_string() };
    let l = c.log_config();
    assert!(l.log_pretty);
    assert_eq!(l.log_level, "debug");
    let h = ConfighelperArgs {
        log_pretty: false,
        log_level: "warn".to_string(),
        live_reload: false,
        listen_addr: "localhost:8080".to_string(),
        input: "picam3".to_string(),
        camera_w: 1920,
        camera_h: 1080,
        rotate_180: false,
        probe_only: false,
    };
    assert_eq!(h.log_config().log_level, "warn");
}

#[test]
fn fit_method_arguments() {
    let args = |v: &[&str]| v.iter().map(|s| s.to_string()).collect::<Vec<_>>();
    assert_eq!(fit_method_from_args(&args(&[])).unwrap(), FitMethod::Ols);
    assert_eq!(fit_method_from_args(&args(&["--fit-method=ransac"])).unwrap(), FitMethod::Ransac);
    assert_eq!(
        fit_method_from_args(&args(&["x", "--fit-method=ols", "--fit-method=bad"])).unwrap(),
        FitMethod::Ols
    );
    let err = fit_method_from_args(&args(&["--fit-method=lsq"])).unwrap_err();
    assert_eq!(err.value, "lsq");
    assert_eq!(FitMethod::default(), FitMethod::Ols);
}

#[test]
fn encoder_names() {
    assert_eq!(Encoder::Libx264.name(), "libx264");
    assert_eq!(Encoder::H264V4l2m2m.name(), "h264_v4l2m2m");
    assert_eq!(Encoder::default(), Encoder::Libx264);
}

#[test]
fn new_frame_disposition_is_unknown() {
    assert_eq!(FrameDispositionGuard::new().disposition, "unknown");
}

#[test]
fn unknown_extension_errors() {
    assert!(save_format("/tmp/x.bmp").is_err());
    assert_eq!(save_format("/tmp/x.bmp").unwrap_err().extension, "bmp");
}

#[test]
fn picture_formats_by_extension() {
    assert_eq!(save_format("a/b.PNG").unwrap(), PictureFormat::Png);
    assert_eq!(save_format("b.jpeg").unwrap(), PictureFormat::Jpeg);
    assert_eq!(save_format("c.JpG").unwrap(), PictureFormat::Jpeg);
    assert_eq!(save_format("noext").unwrap_err().extension, "");
    assert_eq!(format_for_extension("GIF").unwrap_err().extension, "gif");
}

#[test]
fn request_paths() {
    assert_eq!(
        request_path(b"GET /stream.mjpeg?x=1 HTTP/1.1\r\nHost: a\r\n\r\n"),
        Some("/stream.mjpeg".to_string())
    );
    assert_eq!(request_path(b"GET  /cameras\r\n"), Some("/cameras".to_string()));
    assert_eq!(request_path(b"GET\r\n/x y"), None);
    assert_eq!(request_path(b""), None);
    assert_eq!(request_path(&[0xFF, 0x20, 0x41]), None);
}

#[test]
fn routes() {
    assert_eq!(route("/stream.mjpeg"), Route::Stream);
    assert_eq!(route("/stream.jpeg"), Route::Snapshot);
    assert_eq!(route("/cameras"), Route::Cameras);
    assert_eq!(route("/"), Route::Page);
    assert_eq!(route("/index.html"), Route::Page);
}

#[test]
fn served_stream_reads_back() {
    let ct = stream_content_type();
    assert_eq!(ct, "multipart/x-mixed-replace; boundary=frame");
    let boundary = parse_boundary(&ct).unwrap();
    assert_eq!(boundary, "--frame");
    let head = part_head(1234);
    assert_eq!(
        head,
        "--frame\r\nContent-Type: image/jpeg\r\nContent-Length: 1234\r\n\r\n"
    );
    let lines: Vec<&str> = head.split_inclusive('\n').collect();
    assert_eq!(classify_boundary_line(lines[0], &boundary), BoundaryLine::Part);
    assert_eq!(classify_header_line(lines[1]), HeaderLine::Other);
    assert_eq!(classify_header_line(lines[2]), HeaderLine::ContentLength(1234));
    assert_eq!(classify_header_line(lines[3]), HeaderLine::End);
}

fn facts() -> FrameFacts {
    FrameFacts {
        has_prev: true,
        too_fast: false,
        width: 300,
        min_dx: 5,
        max_dx: 50,
        low_contrast: false,
        stale: false,
        dx: 0,
        cos_still: false,
        cos_move: false,
        low_pass_below_min: false,
    }
}

#[test]
fn frame_decisions_before_a_sequence() {
    let f = facts();
    assert_eq!(decide_frame(FrameFacts { has_prev: false, ..f }, 0, 10), FrameAction::NoPrevious);
    assert_eq!(decide_frame(FrameFacts { too_fast: true, ..f }, 0, 10), FrameAction::Skip(Disposition::FastFrame));
    assert_eq!(decide_frame(FrameFacts { width: 149, ..f }, 0, 10), FrameAction::Skip(Disposition::SlowFrame));
    assert_eq!(decide_frame(FrameFacts { low_contrast: true, stale: true, ..f }, 0, 10), FrameAction::Skip(Disposition::LowContrast));
    assert_eq!(decide_frame(FrameFacts { dx: -4, cos_still: true, ..f }, 0, 10), FrameAction::Skip(Disposition::NotMoving));
    assert_eq!(decide_frame(FrameFacts { dx: -5, cos_still: true, cos_move: true, ..f }, 0, 10), FrameAction::StartSequence);
    assert_eq!(decide_frame(FrameFacts { dx: 51, cos_move: true, ..f }, 0, 10), FrameAction::Skip(Disposition::Inconclusive));
    assert_eq!(decide_frame(FrameFacts { dx: 20, ..f }, 0, 10), FrameAction::Skip(Disposition::Inconclusive));
}

#[test]
fn frame_decisions_during_a_sequence() {
    let f = facts();
    assert_eq!(decide_frame(f, 3, 10), FrameAction::Record);
    assert_eq!(decide_frame(f, 11, 10), FrameAction::StitchAndReset(Disposition::Unknown));
    assert_eq!(decide_frame(FrameFacts { low_pass_below_min: true, ..f }, 3, 10), FrameAction::StitchAndReset(Disposition::Unknown));
    assert_eq!(decide_frame(FrameFacts { low_contrast: true, stale: true, ..f }, 3, 10), FrameAction::StitchAndReset(Disposition::LowContrast));
    assert_eq!(decide_frame(FrameFacts { low_contrast: true, ..f }, 3, 10), FrameAction::Skip(Disposition::LowContrast));
    assert_eq!(FrameAction::Record.disposition().unwrap().name(), "recorded");
    assert_eq!(FrameAction::StartSequence.disposition().unwrap().name(), "recorded_new_sequence");
    assert_eq!(FrameAction::NoPrevious.disposition(), None);
    assert!(!offset_needed(true, false, 300, 50, true));
    assert!(offset_needed(true, false, 150, 50, false));
}

#[test]
fn sequence_never_exceeds_max_plus_one() {
    let max = 5usize;
    let mut len = 0usize;
    let moving = FrameFacts { dx: 10, cos_move: true, ..facts() };
    for _ in 0..100 {
        match decide_frame(moving, len, max) {
            FrameAction::Record | FrameAction::StartSequence => len += 1,
            FrameAction::StitchAndReset(_) => len = 0,
            _ => {}
        }
        assert!(len <= max + 1);
    }
}
