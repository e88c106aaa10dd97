use media_file_manager::timestamp::{
    destination_for, destination_name, exif_info_from_fields, needs_filesystem_time,
    parse_exif_date, resolve_timestamp, ExifDateInfo, ExifFields, LocalTime, Provenance,
    ResolvedTimestamp, TimestampError, WallClock,
};

fn wall(year: i32, month: u32, day: u32, hour: u32, minute: u32, second: u32) -> WallClock {
    WallClock { year, month, day, hour, minute, second, nanosecond: 0 }
}

fn local(w: WallClock) -> LocalTime {
    LocalTime { wall: w, utc_offset_seconds: 0 }
}

fn info_with(original: Option<LocalTime>) -> ExifDateInfo {
    ExifDateInfo {
        date_time_original: original,
        date_time: None,
        date_time_digitized: None,
        camera_make: None,
        camera_model: None,
    }
}

#[test]
fn parse_colon_layout() {
    let t = parse_exif_date("2023:06:15 14:30:00").expect("parses");
    assert_eq!(t.wall, wall(2023, 6, 15, 14, 30, 0));
}

#[test]
fn parse_dash_layout() {
    let t = parse_exif_date("2023-06-15 14:30:00").expect("parses");
    assert_eq!(t.wall, wall(2023, 6, 15, 14, 30, 0));
}

#[test]
fn parse_fraction_layout() {
    let t = parse_exif_date("2023:06:15 14:30:00.5").expect("parses");
    assert_eq!(
        t.wall,
        WallClock { nanosecond: 500_000_000, ..wall(2023, 6, 15, 14, 30, 0) }
    );
}

#[test]
fn parse_rejects_garbage() {
    assert_eq!(parse_exif_date("not-a-date"), None);
    assert_eq!(parse_exif_date(""), None);
    assert_eq!(parse_exif_date("2023:13:15 14:30:00"), None);
    assert_eq!(parse_exif_date("2023:02:30 10:00:00"), None);
}

#[test]
fn fields_build_bundle() {
    let fields = ExifFields {
        date_time_original: Some("2021:01:02 03:04:05".to_string()),
        date_time: Some("not-a-date".to_string()),
        date_time_digitized: None,
        make: Some("Canon".to_string()),
        model: Some("EOS".to_string()),
    };
    let info = exif_info_from_fields(&fields);
    assert_eq!(info.date_time_original.map(|t| t.wall), Some(wall(2021, 1, 2, 3, 4, 5)));
    assert_eq!(info.date_time, None);
    assert_eq!(info.date_time_digitized, None);
    assert_eq!(info.camera_make, Some("Canon".to_string()));
    assert_eq!(info.camera_model, Some("EOS".to_string()));
}

#[test]
fn metadata_time_preferred() {
    let meta = local(wall(2020, 5, 6, 7, 8, 9));
    let fs = local(wall(2024, 1, 1, 0, 0, 0));
    let info = Some(info_with(Some(meta)));
    assert!(!needs_filesystem_time(&info));
    assert_eq!(
        resolve_timestamp(&info, Some(fs)),
        Ok(ResolvedTimestamp { time: meta, provenance: Provenance::FromMetadata })
    );
    assert_eq!(
        resolve_timestamp(&info, None),
        Ok(ResolvedTimestamp { time: meta, provenance: Provenance::FromMetadata })
    );
}

#[test]
fn filesystem_time_when_metadata_missing() {
    let fs = local(wall(2024, 1, 1, 0, 0, 0));
    let unreadable: Option<ExifDateInfo> = None;
    assert!(needs_filesystem_time(&unreadable));
    assert_eq!(
        resolve_timestamp(&unreadable, Some(fs)),
        Ok(ResolvedTimestamp { time: fs, provenance: Provenance::FromFilesystem })
    );
    let empty = Some(info_with(None));
    assert!(needs_filesystem_time(&empty));
    assert_eq!(
        resolve_timestamp(&empty, Some(fs)),
        Ok(ResolvedTimestamp { time: fs, provenance: Provenance::FromFilesystem })
    );
}

#[test]
fn unparseable_capture_time_falls_back() {
    let fields = ExifFields {
        date_time_original: Some("not-a-date".to_string()),
        date_time: None,
        date_time_digitized: None,
        make: None,
        model: None,
    };
    let info = Some(exif_info_from_fields(&fields));
    let fs = local(wall(2022, 2, 2, 2, 2, 2));
    assert_eq!(
        resolve_timestamp(&info, Some(fs)),
        Ok(ResolvedTimestamp { time: fs, provenance: Provenance::FromFilesystem })
    );
}

#[test]
fn stat_failure_is_an_error() {
    let unreadable: Option<ExifDateInfo> = None;
    assert_eq!(resolve_timestamp(&unreadable, None), Err(TimestampError::StatFailure));
    assert_eq!(destination_for(&unreadable, None, "jpg"), Err(TimestampError::StatFailure));
}

#[test]
fn destination_names() {
    let t = ResolvedTimestamp {
        time: local(wall(2023, 6, 15, 14, 30, 5)),
        provenance: Provenance::FromMetadata,
    };
    assert_eq!(destination_name(&t, "jpg"), "00020230615_143005_0000000000+00000m.jpg");
    assert_eq!(destination_name(&t, ""), "00020230615_143005_0000000000+00000m");
    let early = ResolvedTimestamp {
        time: local(wall(5, 1, 2, 0, 0, 0)),
        provenance: Provenance::FromFilesystem,
    };
    assert_eq!(destination_name(&early, "mp4"), "00000050102_000000_0000000000+00000f.mp4");
    let bce = ResolvedTimestamp {
        time: local(wall(-44, 3, 15, 12, 0, 0)),
        provenance: Provenance::FromFilesystem,
    };
    assert_eq!(destination_name(&bce, "png"), "-9999560315_120000_0000000000+00000f.png");
    let far = ResolvedTimestamp {
        time: local(wall(12345, 12, 31, 23, 59, 59)),
        provenance: Provenance::FromFilesystem,
    };
    assert_eq!(destination_name(&far, "tif"), "00123451231_235959_0000000000+00000f.tif");
    let west = ResolvedTimestamp {
        time: LocalTime {
            wall: WallClock { nanosecond: 500_000_000, ..wall(2023, 6, 15, 14, 30, 5) },
            utc_offset_seconds: -3600,
        },
        provenance: Provenance::FromMetadata,
    };
    assert_eq!(destination_name(&west, "jpg"), "00020230615_143005_0500000000-03600m.jpg");
}

#[test]
fn destination_names_sort_by_time() {
    let times = [
        wall(-262144, 1, 1, 0, 0, 0),
        wall(-2, 6, 1, 0, 0, 0),
        wall(-1, 1, 1, 0, 0, 0),
        wall(0, 1, 1, 0, 0, 0),
        wall(9999, 12, 31, 23, 59, 59),
        wall(10000, 1, 1, 0, 0, 0),
        wall(262143, 12, 31, 23, 59, 59),
    ];
    let names: Vec<String> = times
        .iter()
        .map(|w| {
            destination_name(
                &ResolvedTimestamp { time: local(*w), provenance: Provenance::FromMetadata },
                "jpg",
            )
        })
        .collect();
    for pair in names.windows(2) {
        assert!(pair[0] < pair[1], "{} should sort before {}", pair[0], pair[1]);
    }
}

#[test]
fn destination_names_tell_close_times_apart() {
    let a = ResolvedTimestamp {
        time: local(wall(2023, 6, 15, 14, 30, 5)),
        provenance: Provenance::FromMetadata,
    };
    let b = ResolvedTimestamp {
        time: local(WallClock { nanosecond: 1, ..a.time.wall }),
        provenance: Provenance::FromMetadata,
    };
    let c = ResolvedTimestamp { provenance: Provenance::FromFilesystem, ..a };
    let d = ResolvedTimestamp {
        time: LocalTime { utc_offset_seconds: 3600, ..a.time },
        provenance: Provenance::FromMetadata,
    };
    let na = destination_name(&a, "jpg");
    let nb = destination_name(&b, "jpg");
    assert!(na < nb);
    assert_ne!(na, destination_name(&c, "jpg"));
    assert_ne!(na, destination_name(&d, "jpg"));
}

#[test]
fn destination_from_resolution() {
    let info = Some(info_with(Some(local(wall(2019, 11, 30, 8, 15, 0)))));
    assert_eq!(
        destination_for(&info, None, "mov"),
        Ok("00020191130_081500_0000000000+00000m.mov".to_string())
    );
}
