use media_file_manager::media::{get_mediatype, normalize_extension, MediaType};

#[test]
fn normalize_rewrites_synonyms() {
    assert_eq!(normalize_extension("JPEG"), "jpg");
    assert_eq!(normalize_extension("TIFF"), "tif");
    assert_eq!(normalize_extension("PNG"), "png");
    assert_eq!(normalize_extension("jpeg"), "jpg");
    assert_eq!(normalize_extension("Tiff"), "tif");
}

#[test]
fn normalize_lowercases_other_extensions() {
    assert_eq!(normalize_extension("MKV"), "mkv");
    assert_eq!(normalize_extension("Mp4"), "mp4");
    assert_eq!(normalize_extension(""), "");
    assert_eq!(normalize_extension("jpg"), "jpg");
}

#[test]
fn normalize_is_idempotent() {
    for x in ["JPEG", "TIFF", "PNG", "jpg", "MoV", "xyz", "", "JpEg"] {
        let once = normalize_extension(x);
        let twice = normalize_extension(&once);
        assert_eq!(once, twice);
    }
}

#[test]
fn classify_closed_lists() {
    assert_eq!(get_mediatype("jpg".to_string()), MediaType::Image);
    assert_eq!(get_mediatype("mp4".to_string()), MediaType::Video);
    assert_eq!(get_mediatype("xyz".to_string()), MediaType::Unknown);
    for e in ["jpg", "png", "gif", "bmp", "tif", "webp"] {
        assert_eq!(get_mediatype(e.to_string()), MediaType::Image);
    }
    for e in ["mp4", "mov", "mkv"] {
        assert_eq!(get_mediatype(e.to_string()), MediaType::Video);
    }
    assert_eq!(get_mediatype("".to_string()), MediaType::Unknown);
    assert_eq!(get_mediatype("JPG".to_string()), MediaType::Unknown);
    assert_eq!(get_mediatype("jpeg".to_string()), MediaType::Unknown);
}

#[test]
fn classify_after_normalize() {
    assert_eq!(get_mediatype(normalize_extension("JPEG")), MediaType::Image);
    assert_eq!(get_mediatype(normalize_extension("MOV")), MediaType::Video);
}

#[test]
fn media_type_names() {
    assert_eq!(MediaType::Image.to_string(), "Image");
    assert_eq!(MediaType::Video.to_string(), "Video");
    assert_eq!(MediaType::Unknown.to_string(), "Unknown");
}
