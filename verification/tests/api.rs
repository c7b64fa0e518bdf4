use gallerynet::error::{error_reply, DomainError};
use gallerynet::filenames::sanitize_filename;
use gallerynet::query::{paging, MAX_PAGE_LIMIT};
use gallerynet::session::{MAX_LOGIN_ATTEMPTS, RATE_LIMIT_WINDOW_SECS};
use gallerynet::upload::MAX_UPLOAD_FILES;

#[test]
fn sanitize_filename_path_traversal() {
    assert_eq!(sanitize_filename("../../../etc/passwd"), "......etcpasswd");
    assert_eq!(sanitize_filename("..\\..\\windows\\system32"), "....windowssystem32");
}

#[test]
fn sanitize_filename_quotes_and_control_chars() {
    assert_eq!(sanitize_filename("file\"name.jpg"), "filename.jpg");
    assert_eq!(sanitize_filename("file'name.jpg"), "filename.jpg");
    assert_eq!(sanitize_filename("file\x00name.jpg"), "filename.jpg");
    assert_eq!(sanitize_filename("file\nname.jpg"), "filename.jpg");
}

#[test]
fn sanitize_filename_empty() {
    assert_eq!(sanitize_filename(""), "download");
    assert_eq!(sanitize_filename("   "), "download");
    assert_eq!(sanitize_filename("/"), "download");
}

#[test]
fn limit_capping() {
    assert_eq!(250_usize.min(MAX_PAGE_LIMIT), MAX_PAGE_LIMIT);
    assert_eq!(50_usize.min(MAX_PAGE_LIMIT), 50);
    assert_eq!(200_usize.min(MAX_PAGE_LIMIT), 200);
}

#[test]
fn max_upload_files_constant_valid() {
    assert!(MAX_UPLOAD_FILES > 0);
    assert!(MAX_UPLOAD_FILES <= 10_000);
}

#[test]
fn error_message_sanitization_database() {
    let err = DomainError::Database("SQLITE_ERROR: table foo has 5 columns but 3 values".to_string());
    let response = error_reply(err);
    // Should be 500
    assert_eq!(response.status, 500);
    assert_eq!(response.message, "Internal server error");
}

#[test]
fn error_message_sanitization_io_user_facing() {
    // These messages should be preserved
    let err = DomainError::Io("No file uploaded".to_string());
    let response = error_reply(err);
    assert_eq!(response.status, 500);
    assert_eq!(response.message, "No file uploaded");

    let err = DomainError::Io("Folder is empty".to_string());
    let response = error_reply(err);
    assert_eq!(response.status, 500);
    assert_eq!(response.message, "Folder is empty");

    let err = DomainError::Io("Too many files in upload (max 100)".to_string());
    let response = error_reply(err);
    assert_eq!(response.status, 500);
    assert_eq!(response.message, "Too many files in upload (max 100)");

    let err = DomainError::Io("File type not allowed: .exe".to_string());
    let response = error_reply(err);
    assert_eq!(response.status, 500);
    assert_eq!(response.message, "File type not allowed: .exe");
}

#[test]
fn rate_limiter_constants_valid() {
    assert!(MAX_LOGIN_ATTEMPTS > 0);
    assert!(MAX_LOGIN_ATTEMPTS <= 100);
    assert!(RATE_LIMIT_WINDOW_SECS > 0);
    assert!(RATE_LIMIT_WINDOW_SECS <= 3600);
}

#[test]
fn internal_io_messages_are_hidden() {
    let reply = error_reply(DomainError::Io("permission denied: /var/data/x".to_string()));
    assert_eq!(reply.status, 500);
    assert_eq!(reply.message, "Internal server error");
}

#[test]
fn error_statuses_by_kind() {
    assert_eq!(error_reply(DomainError::DuplicateMedia).status, 409);
    assert_eq!(error_reply(DomainError::DuplicateMedia).message, "Media already exists");
    assert_eq!(error_reply(DomainError::NotFound).status, 404);
    assert_eq!(error_reply(DomainError::NotFound).message, "Media not found");
    let ai = error_reply(DomainError::Ai("Tag 'x' only has 1 manual examples.".to_string()));
    assert_eq!(ai.status, 400);
    assert_eq!(ai.message, "Tag 'x' only has 1 manual examples.");
    assert_eq!(error_reply(DomainError::Hashing("h".to_string())).status, 500);
    assert_eq!(error_reply(DomainError::ModelLoad("m".to_string())).message, "Internal server error");
    assert_eq!(error_reply(DomainError::Network("n".to_string())).status, 500);
}

#[test]
fn error_display_texts() {
    assert_eq!(DomainError::Database("x".to_string()).describe(), "Database error: x");
    assert_eq!(DomainError::Ai("x".to_string()).describe(), "AI processing error: x");
    assert_eq!(DomainError::Hashing("x".to_string()).describe(), "Hashing error: x");
    assert_eq!(DomainError::Io("x".to_string()).describe(), "IO error: x");
    assert_eq!(DomainError::DuplicateMedia.describe(), "Media already exists");
    assert_eq!(DomainError::NotFound.describe(), "Media not found");
    assert_eq!(DomainError::ModelLoad("x".to_string()).describe(), "Model loading error: x");
    assert_eq!(DomainError::Network("x".to_string()).describe(), "Network error: x");
}

#[test]
fn paging_normalizes_page_and_limit() {
    assert_eq!(paging(None, None), (1, 20, 0));
    assert_eq!(paging(Some(0), Some(10)), (1, 10, 0));
    assert_eq!(paging(Some(3), Some(250)), (3, 200, 400));
    assert_eq!(paging(Some(2), Some(50)), (2, 50, 50));
}

#[test]
fn sanitize_filename_keeps_ordinary_names() {
    assert_eq!(sanitize_filename("  holiday photo.jpg "), "holiday photo.jpg");
    assert_eq!(sanitize_filename("été.png"), "été.png");
}

#[test]
fn sanitizing_twice_changes_nothing() {
    for name in ["../../../etc/passwd", "  \"a\\b\" ", "\t\n", "ok.jpg", " x'y\u{7}z.png  ", ""] {
        let once = sanitize_filename(name);
        assert_eq!(sanitize_filename(&once), once, "{:?}", name);
    }
}
