use chrono::DateTime;
use trainbot::datastore::{orphaned_blobs, revert_thumb_name, thumb_name, DataStore};
use trainbot::queries::Train;
use trainbot::ts::{
    format_db_offset, format_db_ts, format_file_ts, format_nanos_trimmed, format_offset,
    parse_db_ts, parse_utc_ts, Timestamp, TimestampError,
};

fn parse(s: &str) -> Timestamp {
    let dt = DateTime::parse_from_rfc3339(s).unwrap();
    Timestamp::new(
        dt.timestamp(),
        dt.timestamp_subsec_nanos(),
        dt.offset().local_minus_utc(),
    )
    .unwrap()
}

#[test]
fn datastore_paths() {
    let ds = DataStore::new("data".to_string());
    assert_eq!(ds.db_path(), "data/db.sqlite3");
    assert_eq!(ds.blob_path("testblob"), "data/blobs/testblob");
    assert_eq!(
        ds.blob_thumb_path("testblob.jpg"),
        "data/blobs/testblob.thumb.jpg"
    );
}

#[test]
fn datastore_paths_absolute_and_trailing_slash() {
    let ds = DataStore::new("/var/lib/trainbot/".to_string());
    assert_eq!(ds.db_path(), "/var/lib/trainbot/db.sqlite3");
    assert_eq!(ds.blob_path("a.gif"), "/var/lib/trainbot/blobs/a.gif");
}

#[test]
fn datastore_directories() {
    let ds = DataStore::new("data".to_string());
    assert_eq!(ds.blobs_dir(), "data/blobs");
    assert_eq!(ds.failed_dir(), "data/failed");
    let ts = parse("2023-12-24T09:58:52.660009478Z");
    assert_eq!(ds.failed_path(&ts, "mp4"), "data/failed/20231224_095852.66_Z.mp4");
    let empty = DataStore::new(String::new());
    assert_eq!(empty.db_path(), "db.sqlite3");
    assert_eq!(empty.blob_path("/abs/x"), "/abs/x");
}

#[test]
fn thumb_names() {
    assert_eq!(thumb_name("pic.jpg"), "pic.thumb.jpg");
    assert_eq!(thumb_name("blob"), "blob.thumb");
    assert_eq!(revert_thumb_name("pic.thumb.jpg"), "pic.jpg");
    assert_eq!(revert_thumb_name("blob.thumb"), "blob");
}

#[test]
fn thumb_name_uses_last_dot() {
    assert_eq!(thumb_name("train_1.66_Z.jpg"), "train_1.66_Z.thumb.jpg");
    assert_eq!(thumb_name(""), ".thumb");
    assert_eq!(thumb_name("a."), "a.thumb.");
}

#[test]
fn revert_thumb_name_leaves_other_names() {
    // With a single extension, that extension is taken for the thumbnail mark.
    assert_eq!(revert_thumb_name("pic.jpg"), "pic");
    assert_eq!(revert_thumb_name("blob"), "blob");
    assert_eq!(revert_thumb_name("a.b.jpg"), "a.b.jpg");
}

#[test]
fn revert_inverts_thumb_name_on_samples() {
    for name in ["pic.jpg", "blob", "train_20231224_095852.66_Z.gif", "x.y.z", ".hidden"] {
        assert_eq!(revert_thumb_name(&thumb_name(name)), name);
    }
}

#[test]
fn orphans_are_entries_neither_blob_nor_thumb() {
    let db = vec!["a.jpg".to_string(), "b.gif".to_string()];
    let dir = vec![
        "a.jpg".to_string(),
        "a.thumb.jpg".to_string(),
        "b.gif".to_string(),
        "b.thumb.gif".to_string(),
        "c.jpg".to_string(),
        "c.thumb.jpg".to_string(),
    ];
    assert_eq!(
        orphaned_blobs(&db, &dir),
        vec!["c.jpg".to_string(), "c.thumb.jpg".to_string()]
    );
    assert!(orphaned_blobs(&db, &Vec::new()).is_empty());
}

#[test]
fn file_ts_utc_trailing_zero() {
    let dt = parse("2023-12-24T09:58:52.660009478Z");
    assert_eq!(format_file_ts(&dt), "20231224_095852.66_Z");
}

#[test]
fn file_ts_utc_no_trim() {
    let dt = parse("2023-12-24T11:19:12.839262415Z");
    assert_eq!(format_file_ts(&dt), "20231224_111912.839_Z");
}

#[test]
fn file_ts_positive_offset() {
    let dt = parse("2023-10-28T17:31:50.709434526+01:00");
    assert_eq!(format_file_ts(&dt), "20231028_173150.709_+01:00");
}

#[test]
fn file_ts_zero_offset_is_z() {
    let dt = parse("2023-11-25T15:49:46.958831882+00:00");
    assert_eq!(format_file_ts(&dt), "20231125_154946.958_Z");
}

#[test]
fn file_ts_positive_offset2() {
    let dt = parse("2023-03-28T06:32:16.516941205+01:00");
    assert_eq!(format_file_ts(&dt), "20230328_063216.516_+01:00");
}

#[test]
fn file_ts_whole_second_has_no_fraction() {
    let dt = parse("2023-03-28T06:32:16-05:30");
    assert_eq!(format_file_ts(&dt), "20230328_063216_-05:30");
}

#[test]
fn db_ts_roundtrip() {
    let dt = parse("2023-06-10T16:20:58.805+02:00");
    let stored = format_db_ts(&dt);
    assert_eq!(stored, "2023-06-10T16:20:58.805+02:00");
    let back = parse_db_ts(&stored).unwrap();
    assert_eq!(back, dt);
}

#[test]
fn db_ts_millis() {
    let dt = parse("2023-11-10T12:57:45.897+01:00");
    assert_eq!(format_db_ts(&dt), "2023-11-10T12:57:45.897+01:00");
}

#[test]
fn db_ts_utc_and_nanos() {
    let dt = parse("2023-11-10T12:57:45.000000120Z");
    assert_eq!(format_db_ts(&dt), "2023-11-10T12:57:45.00000012+00:00");
    let whole = parse("2023-11-10T12:57:45Z");
    assert_eq!(format_db_ts(&whole), "2023-11-10T12:57:45+00:00");
}

#[test]
fn parse_db_ts_rejects_garbage() {
    assert_eq!(parse_db_ts("yesterday"), Err(TimestampError::InvalidRfc3339));
    assert_eq!(parse_db_ts(""), Err(TimestampError::InvalidRfc3339));
}

#[test]
fn offsets_and_fractions() {
    assert_eq!(format_offset(0), "Z");
    assert_eq!(format_offset(3600), "+01:00");
    assert_eq!(format_offset(-19800), "-05:30");
    assert_eq!(format_db_offset(0), "+00:00");
    assert_eq!(format_db_offset(-3600), "-01:00");
    assert_eq!(format_nanos_trimmed(0), "");
    assert_eq!(format_nanos_trimmed(805_000_000), ".805");
    assert_eq!(format_nanos_trimmed(120), ".00000012");
}

#[test]
fn timestamp_rejects_day_long_offset() {
    assert!(Timestamp::new(0, 0, 86400).is_none());
    assert!(Timestamp::new(0, 0, -86400).is_none());
    assert!(Timestamp::new(0, 0, 86399).is_some());
}

#[test]
fn timestamp_range_is_chrono_range() {
    // December 31 of the year 262142, last second; the next second is out of range.
    assert!(Timestamp::new(8_210_266_876_799, 0, 0).is_some());
    assert!(Timestamp::new(8_210_266_876_800, 0, 0).is_none());
    // January 1 of the year -262143, first second; the one before is out of range.
    assert!(Timestamp::new(-8_334_601_228_800, 0, 0).is_some());
    assert!(Timestamp::new(-8_334_601_228_801, 0, 0).is_none());
}

#[test]
fn timestamp_leap_second_only_at_end_of_minute() {
    assert!(Timestamp::new(59, 1_500_000_000, 0).is_some());
    assert!(Timestamp::new(58, 1_500_000_000, 0).is_none());
    assert!(Timestamp::new(59, 2_000_000_000, 0).is_none());
    assert!(Timestamp::new(58, 999_999_999, 0).is_some());
}

#[test]
fn utc_creation_time_is_read() {
    let t = parse_utc_ts("2023-05-01T12:00:00Z").unwrap();
    assert_eq!((t.secs(), t.subsec_nanos(), t.offset_secs()), (1_682_942_400, 0, 0));
    // chrono's relaxed form: a space for the `T`, and an offset taken to UTC.
    let t = parse_utc_ts("2023-05-01 14:00:00.5+02:00").unwrap();
    assert_eq!((t.secs(), t.subsec_nanos(), t.offset_secs()), (1_682_942_400, 500_000_000, 0));
    assert!(parse_utc_ts("yesterday").is_none());
}

#[test]
fn file_names_match_go() {
    let t = Train {
        id: 1,
        start_ts: parse("2023-12-24T09:58:52.660009478Z"),
    };
    assert_eq!(t.img_file_name(), "train_20231224_095852.66_Z.jpg");
    assert_eq!(t.gif_file_name(), "train_20231224_095852.66_Z.gif");

    let t2 = Train {
        id: 2,
        start_ts: parse("2023-12-24T11:19:12.839262415Z"),
    };
    assert_eq!(t2.img_file_name(), "train_20231224_111912.839_Z.jpg");

    let t3 = Train {
        id: 3,
        start_ts: parse("2023-10-28T17:31:50.709434526+01:00"),
    };
    assert_eq!(t3.img_file_name(), "train_20231028_173150.709_+01:00.jpg");

    let t4 = Train {
        id: 4,
        start_ts: parse("2023-11-25T15:49:46.958831882+00:00"),
    };
    assert_eq!(t4.img_file_name(), "train_20231125_154946.958_Z.jpg");

    let t5 = Train {
        id: 5,
        start_ts: parse("2023-03-28T06:32:16.516941205+01:00"),
    };
    assert_eq!(t5.img_file_name(), "train_20230328_063216.516_+01:00.jpg");
}

#[test]
fn video_file_name_takes_extension() {
    let t = Train {
        id: 9,
        start_ts: parse("2023-12-24T09:58:52.660009478Z"),
    };
    assert_eq!(t.file_name("mp4"), "train_20231224_095852.66_Z.mp4");
}
