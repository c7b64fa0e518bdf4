use gallerynet::error::DomainError;
use gallerynet::upload::{
    admit_upload_file, check_upload, checks_for_duplicates, file_extension, is_allowed_extension,
    is_video_extension, media_type, stored_names, upload_answer_shape, ALLOWED_EXTENSIONS,
    MAX_UPLOAD_FILES, upload_date,
};

#[test]
fn allowed_extensions_accepted() {
    for ext in &ALLOWED_EXTENSIONS {
        assert!(
            ALLOWED_EXTENSIONS.contains(ext),
            "Extension {} should be allowed",
            ext
        );
        assert!(is_allowed_extension(ext));
    }
}

#[test]
fn dangerous_extensions_rejected() {
    let dangerous = ["html", "htm", "svg", "exe", "js", "php", "sh", "bat", "cmd"];
    for ext in &dangerous {
        assert!(
            !ALLOWED_EXTENSIONS.contains(ext),
            "Extension {} must not be in allowlist",
            ext
        );
        assert!(!is_allowed_extension(ext));
    }
}

#[test]
fn extension_follows_path_rules() {
    assert_eq!(file_extension("photo.JPG"), "jpg");
    assert_eq!(file_extension("archive.tar.GZ"), "gz");
    assert_eq!(file_extension("noext"), "bin");
    assert_eq!(file_extension(".hidden"), "bin");
    assert_eq!(file_extension("dir.d/file"), "bin");
    assert_eq!(file_extension("a/b/clip.MoV"), "mov");
    assert_eq!(file_extension("trailing."), "");
    assert_eq!(file_extension("x.png/"), "png");
    assert_eq!(file_extension(".."), "bin");
    assert_eq!(file_extension(""), "bin");
    for name in ["photo.JPG", "a/b.c/d.e.TIFF", "x.", ".x", "..", "./.", "a/./b.Png", "dir/"] {
        let expected = std::path::Path::new(name)
            .extension()
            .and_then(|e| e.to_str())
            .unwrap_or("bin")
            .to_lowercase();
        assert_eq!(file_extension(name), expected, "for {}", name);
    }
}

#[test]
fn upload_check_refuses_unlisted_types() {
    assert_eq!(check_upload("cat.jpeg").unwrap(), "jpeg");
    assert_eq!(check_upload("Movie.MKV").unwrap(), "mkv");
    match check_upload("evil.exe") {
        Err(DomainError::Io(m)) => assert_eq!(m, "File type not allowed: .exe"),
        _ => panic!("expected refusal"),
    }
    match check_upload("README") {
        Err(DomainError::Io(m)) => assert_eq!(m, "File type not allowed: .bin"),
        _ => panic!("expected refusal"),
    }
}

#[test]
fn media_types() {
    assert_eq!(media_type("mp4"), "video");
    assert_eq!(media_type("webm"), "video");
    assert_eq!(media_type("jpg"), "image");
    assert_eq!(media_type("heic"), "image");
    assert!(is_video_extension("mov"));
    assert!(!is_video_extension("gif"));
}

#[test]
fn storage_layout_uses_id_prefix() {
    let id = uuid::Uuid::parse_str("a1b2c3d4-e5f6-4788-9900-aabbccddeeff").unwrap();
    let names = stored_names(id.as_u128(), "png");
    assert_eq!(names.dir1, "a1");
    assert_eq!(names.dir2, "b2");
    assert_eq!(names.file_name, "a1b2c3d4-e5f6-4788-9900-aabbccddeeff.png");
    assert_eq!(names.stored_path, "a1/b2/a1b2c3d4-e5f6-4788-9900-aabbccddeeff.png");
    assert_eq!(names.thumbnail_name, "a1b2c3d4-e5f6-4788-9900-aabbccddeeff.jpg");
}

#[test]
fn duplicate_check_skips_unhashed() {
    assert!(!checks_for_duplicates("no_hash"));
    assert!(checks_for_duplicates("AAECAwQ="));
    assert!(checks_for_duplicates(""));
}

#[test]
fn upload_file_cap() {
    assert!(admit_upload_file(0).is_ok());
    assert!(admit_upload_file(MAX_UPLOAD_FILES - 1).is_ok());
    match admit_upload_file(MAX_UPLOAD_FILES) {
        Err(DomainError::Io(m)) => assert_eq!(m, "Too many files in upload (max 1000)"),
        _ => panic!("expected refusal"),
    }
}

#[test]
fn upload_answer_depends_on_count() {
    match upload_answer_shape(0) {
        Err(DomainError::Io(m)) => assert_eq!(m, "No file uploaded"),
        _ => panic!("expected error"),
    }
    assert_eq!(upload_answer_shape(1).ok(), Some(true));
    assert_eq!(upload_answer_shape(7).ok(), Some(false));
}

#[test]
fn upload_date_prefers_exif_then_file_name_then_now() {
    let exif = Some((1705326330i64, 0u32));
    let name = Some((1600000000i64, 5u32));
    let now = (1700000000i64, 7u32);
    assert_eq!(upload_date(exif, name, now), (1705326330, 0));
    assert_eq!(upload_date(None, name, now), (1600000000, 5));
    assert_eq!(upload_date(None, None, now), now);
    assert_eq!(upload_date(exif, None, now), (1705326330, 0));
}
