use trainbot::convert::{ycbcr_to_rgb, yuv420_to_rgba, yuyv_to_rgba};
use trainbot::fourcc::FourCC;
use trainbot::jpeg_scan::{find_frame_end, JpegScanner, ScanError};
use trainbot::mkv::{cluster_timestamp, frame_block, frame_cluster, open_segment, simple_block_body};
use trainbot::multipart::{
    classify_boundary_line, classify_header_line, parse_boundary, BoundaryLine, HeaderLine,
};
use trainbot::picam::{picam_args, picam_codec, picam_window, yuv420_frame_len, PiCamCodec};
use trainbot::probe::{video_stream, ProbeField, StreamError, StreamInfo};
use trainbot::sources::{
    cam_decoder, classify_frame_read, count_dropped_frame, is_video_device_name, rgba_frame_len,
    size_matches, CamDecoder, FrameRead,
};

#[test]
fn mjpg_roundtrip() {
    let fcc = FourCC::parse("MJPG").unwrap();
    assert_eq!(fcc, FourCC::mjpg());
    assert_eq!(fcc.to_string(), "MJPG");
}

#[test]
fn yuyv_roundtrip() {
    let fcc = FourCC::parse("YUYV").unwrap();
    assert_eq!(fcc, FourCC::yuyv());
    assert_eq!(fcc.to_string(), "YUYV");
}

#[test]
fn bad_length_returns_none() {
    assert!(FourCC::parse("MJP").is_none());
    assert!(FourCC::parse("MJPGG").is_none());
}

#[test]
fn fourcc_bytes_are_little_endian() {
    let f = FourCC::from_le_bytes(b"YU12");
    assert_eq!(f, FourCC::yu12());
    assert_eq!(f.as_u32(), 0x3231_5559);
    assert_eq!(&f.to_le_bytes(), b"YU12");
    assert_eq!(FourCC::mjpg().as_u32(), 0x4750_4A4D);
}

#[test]
fn fourcc_display_replaces_invalid_utf8() {
    let f = FourCC::from_le_bytes(&[0x41, 0xFF, 0x42, 0x43]);
    assert_eq!(f.to_string(), "A\u{FFFD}BC");
}

#[test]
fn parse_boundary_simple() {
    assert_eq!(
        parse_boundary("multipart/x-mixed-replace; boundary=myboundary"),
        Some("--myboundary".into())
    );
}

#[test]
fn parse_boundary_quoted() {
    assert_eq!(
        parse_boundary("multipart/x-mixed-replace; boundary=\"frame\""),
        Some("--frame".into())
    );
}

#[test]
fn parse_boundary_missing() {
    assert_eq!(parse_boundary("text/plain"), None);
    assert_eq!(parse_boundary("multipart/x-mixed-replace"), None);
}

#[test]
fn parse_boundary_skips_empty_values_and_takes_first() {
    assert_eq!(
        parse_boundary("multipart/x-mixed-replace;boundary=\"\"; boundary= b2 ;boundary=b3"),
        Some("--b2".into())
    );
    assert_eq!(parse_boundary("boundary=x"), Some("--x".into()));
    assert_eq!(parse_boundary("a; Boundary=x"), None);
    assert_eq!(parse_boundary(""), None);
}

#[test]
fn boundary_lines() {
    assert_eq!(classify_boundary_line("--frame\r\n", "--frame"), BoundaryLine::Part);
    assert_eq!(classify_boundary_line("--frame", "--frame"), BoundaryLine::Part);
    assert_eq!(classify_boundary_line("--frame--\r\n", "--frame"), BoundaryLine::End);
    assert_eq!(classify_boundary_line("--frame \r\n", "--frame"), BoundaryLine::Other);
    assert_eq!(classify_boundary_line("\r\n", "--frame"), BoundaryLine::Other);
}

#[test]
fn header_lines() {
    assert_eq!(classify_header_line("\r\n"), HeaderLine::End);
    assert_eq!(classify_header_line("  \t\r\n"), HeaderLine::End);
    assert_eq!(
        classify_header_line("Content-Length: 1234\r\n"),
        HeaderLine::ContentLength(1234)
    );
    assert_eq!(
        classify_header_line("CONTENT-LENGTH:+7\r\n"),
        HeaderLine::ContentLength(7)
    );
    assert_eq!(classify_header_line("Content-Length: -7\r\n"), HeaderLine::Other);
    assert_eq!(classify_header_line("Content-Length: 12a\r\n"), HeaderLine::Other);
    assert_eq!(classify_header_line("Content-Length:\r\n"), HeaderLine::Other);
    assert_eq!(
        classify_header_line("Content-Length: 99999999999999999999999\r\n"),
        HeaderLine::Other
    );
    assert_eq!(classify_header_line("Content-Type: image/jpeg\r\n"), HeaderLine::Other);
}

fn test_jpeg() -> Vec<u8> {
    let mut pixels = Vec::new();
    for y in 0..24u32 {
        for x in 0..32u32 {
            pixels.push((x * 8) as u8);
            pixels.push((y * 10) as u8);
            pixels.push(((x + y) * 4) as u8);
        }
    }
    let img = image::RgbImage::from_raw(32, 24, pixels).unwrap();
    let mut out = Vec::new();
    let encoder = image::codecs::jpeg::JpegEncoder::new_with_quality(&mut out, 90);
    img.write_with_encoder(encoder).unwrap();
    out
}

#[test]
fn scan_single_jpeg() {
    let data = test_jpeg();
    let mut scanner = JpegScanner::new(data.clone());
    let out = scanner.scan().unwrap().expect("should return Some");
    assert_eq!(out.len(), data.len());

    image::load_from_memory_with_format(&out, image::ImageFormat::Jpeg).unwrap();
    assert_eq!(&out[..2], &[0xFF, 0xD8]);
    assert_eq!(&out[out.len() - 2..], &[0xFF, 0xD9]);
}

#[test]
fn scan_multiple_jpegs() {
    let frame = test_jpeg();
    let stream: Vec<u8> = frame
        .iter()
        .cloned()
        .cycle()
        .take(frame.len() * 5)
        .collect();
    let mut scanner = JpegScanner::new(stream);
    for _ in 0..5 {
        let out = scanner.scan().unwrap().expect("expected a frame");
        assert_eq!(out.len(), frame.len());
    }
    assert!(scanner.scan().unwrap().is_none());
}

#[test]
fn scan_waits_for_the_rest_of_a_frame() {
    let frame = test_jpeg();
    let half = frame.len() / 2;
    let mut scanner = JpegScanner::new(frame[..half].to_vec());
    let err = scanner.scan().unwrap_err();
    assert!(err.needs_more_input());
    scanner.push_bytes(&frame[half..]);
    let out = scanner.scan().unwrap().unwrap();
    assert_eq!(out, frame);
}

#[test]
fn scan_drops_what_a_malformed_image_read() {
    let mut stream = vec![0x00, 0x01];
    stream.extend_from_slice(&[0xFF, 0xD8, 0xFF, 0xD9]);
    let mut scanner = JpegScanner::new(stream);
    assert_eq!(scanner.scan(), Err(ScanError::InvalidSoi { b0: 0x00, b1: 0x01 }));
    assert_eq!(scanner.scan(), Ok(Some(vec![0xFF, 0xD8, 0xFF, 0xD9])));
    assert_eq!(scanner.scan(), Ok(None));

    // A bad segment length: the marker and the length are dropped.
    let mut s2 = JpegScanner::new(vec![0xFF, 0xD8, 0xFF, 0xE0, 0x00, 0x01, 0x07]);
    assert_eq!(s2.scan(), Err(ScanError::InvalidSegmentLength { len: 1 }));
    assert_eq!(s2.scan(), Err(ScanError::Truncated { read: 1, wanted: 2 }));
}

#[test]
fn scan_errors() {
    assert_eq!(
        find_frame_end(&[0x00, 0x01]),
        Err(ScanError::InvalidSoi { b0: 0x00, b1: 0x01 })
    );
    assert_eq!(find_frame_end(&[]), Ok(None));
    assert_eq!(find_frame_end(&[0xFF, 0xD8]), Err(ScanError::EofMarker));
    assert_eq!(
        find_frame_end(&[0xFF, 0xD8, 0x12]),
        Err(ScanError::Truncated { read: 1, wanted: 2 })
    );
    assert_eq!(
        find_frame_end(&[0xFF, 0xD8, 0x12, 0x34]),
        Err(ScanError::ExpectedMarker { got: 0x12 })
    );
    assert_eq!(find_frame_end(&[0xFF, 0xD8, 0xFF, 0xD0]), Err(ScanError::RstMarker));
    assert_eq!(find_frame_end(&[0xFF, 0xD8, 0xFF, 0xE0]), Err(ScanError::EofLength));
    assert_eq!(
        find_frame_end(&[0xFF, 0xD8, 0xFF, 0xE0, 0x00, 0x01]),
        Err(ScanError::InvalidSegmentLength { len: 1 })
    );
    assert_eq!(find_frame_end(&[0xFF, 0xD8, 0xFF, 0xD9]), Ok(Some(4)));
    let e = find_frame_end(&[0xFF, 0xD8, 0xFF, 0xE0, 0x00, 0x05, 0x01]).unwrap_err();
    assert!(e.needs_more_input());
}

#[test]
fn ycbcr_conversion_values() {
    assert_eq!(ycbcr_to_rgb(0, 0, 0), [0, 0, 0]);
    assert_eq!(ycbcr_to_rgb(255, 0, 0), [255, 255, 255]);
    assert_eq!(ycbcr_to_rgb(128, 0, 0), [128, 128, 128]);
    assert_eq!(ycbcr_to_rgb(81, -38, 112), [238, 15, 14]);
    assert_eq!(ycbcr_to_rgb(255, 0, 127), [255, 165, 255]);
    assert_eq!(ycbcr_to_rgb(0, 0, -128), [0, 91, 0]);
}

#[test]
fn neutral_chroma_is_grey() {
    for y in 0..=255u8 {
        assert_eq!(ycbcr_to_rgb(y as i32, 0, 0), [y, y, y]);
    }
}

#[test]
fn yuyv_conversion() {
    let data = [255u8, 128, 0, 128];
    let img = yuyv_to_rgba(&data, 2, 1);
    assert_eq!(img.as_raw(), &[255, 255, 255, 255, 0, 0, 0, 255]);
}

#[test]
fn yuv420_conversion() {
    // 2x2: four luma bytes, one Cb, one Cr.
    let data = [0u8, 255, 128, 0, 128, 128];
    let img = yuv420_to_rgba(&data, 2, 2);
    assert_eq!(
        img.as_raw(),
        &[0, 0, 0, 255, 255, 255, 255, 255, 128, 128, 128, 255, 0, 0, 0, 255]
    );
}

#[test]
fn simple_block_layout() {
    let mut out = bytes::BytesMut::new();
    simple_block_body(&mut out, 1, -2, true, &[9, 8, 7]);
    assert_eq!(&out[..], &[0x81, 0xFF, 0xFE, 0x80, 9, 8, 7]);
    let mut out2 = bytes::BytesMut::new();
    simple_block_body(&mut out2, 5, 0x0102, false, &[]);
    assert_eq!(&out2[..], &[0x85, 0x01, 0x02, 0x00]);
}

#[test]
fn frame_block_for_raw_pixels() {
    let b = frame_block(&[1, 2, 3, 4]);
    assert_eq!(&b[..], &[0x81, 0x00, 0x00, 0x80, 1, 2, 3, 4]);
}

#[test]
fn segment_and_timestamps() {
    assert_eq!(
        open_segment(),
        vec![0x18, 0x53, 0x80, 0x67, 0x01, 0xFF, 0xFF, 0xFF, 0xFF, 0xFF, 0xFF, 0xFF]
    );
    assert_eq!(cluster_timestamp(0), 0);
    assert_eq!(cluster_timestamp(1234), 1_234_000);
}

fn stream(codec: Option<&str>, w: Option<u32>, h: Option<u32>, rate: Option<&str>) -> StreamInfo {
    StreamInfo {
        codec_type: codec.map(|s| s.to_string()),
        width: w,
        height: h,
        avg_frame_rate: rate.map(|s| s.to_string()),
    }
}

#[test]
fn probe_picks_the_one_video_stream() {
    let streams = vec![
        stream(Some("audio"), None, None, Some("0/0")),
        stream(Some("video"), Some(640), Some(480), Some("30000/1001")),
    ];
    let v = video_stream(&streams).unwrap();
    assert_eq!((v.width, v.height), (640, 480));
    assert_eq!(v.avg_frame_rate, "30000/1001");
}

#[test]
fn probe_errors() {
    assert_eq!(
        video_stream(&[stream(Some("audio"), None, None, None)]).unwrap_err(),
        StreamError::NoVideoStream
    );
    assert_eq!(
        video_stream(&[
            stream(Some("video"), Some(1), Some(1), Some("1/1")),
            stream(Some("video"), Some(1), Some(1), Some("1/1")),
        ])
        .unwrap_err(),
        StreamError::MultipleVideoStreams
    );
    assert_eq!(
        video_stream(&[stream(Some("video"), None, Some(1), None)]).unwrap_err(),
        StreamError::Missing(ProbeField::Width)
    );
    assert_eq!(
        video_stream(&[stream(Some("video"), Some(1), None, None)]).unwrap_err(),
        StreamError::Missing(ProbeField::Height)
    );
    assert_eq!(
        video_stream(&[stream(Some("video"), Some(1), Some(1), None)]).unwrap_err(),
        StreamError::Missing(ProbeField::AvgFrameRate)
    );
    assert_eq!(
        video_stream(&[stream(None, Some(1), Some(1), Some("1/1"))]).unwrap_err(),
        StreamError::NoVideoStream
    );
}

#[test]
fn camera_decisions() {
    assert_eq!(cam_decoder(FourCC::mjpg()), Some(CamDecoder::Jpeg));
    assert_eq!(cam_decoder(FourCC::yuyv()), Some(CamDecoder::Yuyv));
    assert_eq!(cam_decoder(FourCC::yu12()), None);
    assert!(is_video_device_name("video0"));
    assert!(!is_video_device_name("vid"));
    assert!(!is_video_device_name("media0"));
    assert!(size_matches(1920, 1080, 1920, 1080));
    assert!(!size_matches(1920, 1080, 1280, 720));
}

#[test]
fn file_source_decisions() {
    assert_eq!(rgba_frame_len(640, 480), 640 * 480 * 4);
    assert_eq!(classify_frame_read(0, 16), FrameRead::End);
    assert_eq!(classify_frame_read(7, 16), FrameRead::Partial);
    assert_eq!(classify_frame_read(16, 16), FrameRead::Full);
}

#[test]
fn dropped_frames_warn_every_sixty() {
    assert_eq!(count_dropped_frame(0), (1, true));
    assert_eq!(count_dropped_frame(1), (2, false));
    assert_eq!(count_dropped_frame(60), (61, true));
    assert_eq!(count_dropped_frame(59), (60, false));
}

#[test]
fn picam_window_and_codec() {
    assert_eq!(picam_window(5, 6, 0, 0), (0, 0, 2304, 1296));
    assert_eq!(picam_window(5, 6, 0, 7), (5, 6, 0, 7));
    assert_eq!(picam_codec(FourCC::mjpg()), Some(PiCamCodec::Mjpeg));
    assert_eq!(picam_codec(FourCC::yu12()), Some(PiCamCodec::Yuv420));
    assert_eq!(picam_codec(FourCC::yuyv()), None);
    assert_eq!(yuv420_frame_len(4, 2), 12);
}

#[test]
fn picam_arguments() {
    let args = picam_args(640, 480, "0.1,0.2,0.3,0.4", 30, "0.000000", true, PiCamCodec::Mjpeg);
    let expected: Vec<String> = [
        "--verbose=1",
        "--timeout=0",
        "--inline",
        "--nopreview",
        "--width=640",
        "--height=480",
        "--roi=0.1,0.2,0.3,0.4",
        "--mode=2304:1296:12:P",
        "--framerate=30",
        "--autofocus-mode=manual",
        "--lens-position=0.000000",
        "--output",
        "-",
        "--rotation=180",
        "--codec=mjpeg",
        "--quality=90",
    ]
    .iter()
    .map(|s| s.to_string())
    .collect();
    assert_eq!(args, expected);
    let yuv = picam_args(2, 2, "r", 5, "l", false, PiCamCodec::Yuv420);
    assert_eq!(yuv.last().unwrap(), "--codec=yuv420");
    assert_eq!(yuv.len(), 14);
}

#[test]
fn frame_cluster_holds_the_frame_at_its_time() {
    let bytes = frame_cluster(&[1, 2, 3, 4], 5);
    assert_eq!(
        bytes,
        vec![
            0x1F, 0x43, 0xB6, 0x75, 0x8E, // Cluster, 14 bytes
            0xE7, 0x82, 0x13, 0x88, // Timestamp 5000
            0xA3, 0x88, 0x81, 0x00, 0x00, 0x80, 1, 2, 3, 4, // SimpleBlock
        ]
    );
}
