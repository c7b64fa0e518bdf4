use gallerynet::download::{
    attachment_header, check_requested, dedup_ids, part_filename, plan_download, single_file_headers,
    split_into_parts, MAX_ZIP_BYTES,
};
use gallerynet::error::DomainError;
use gallerynet::external::{default_search_base_url, search_result_link, search_upload_url};
use gallerynet::filenames::zip_entry_names;
use gallerynet::folders::{
    batch_archive_base, folder_archive_base, folder_name, folder_order, results_without_source,
};
use gallerynet::tagging::{
    check_feature_examples, check_manual_examples, clean_tag_names, negative_sample_count,
    stale_auto_tags, tag_name_for, trainable_tags, TagUsage,
};
use gallerynet::tasks::{after_face_scan, scan_bookkeeping, scan_count, thumbnail_fix_notice, ScanEvent, ScanOutcome};

fn ai_message(r: Result<(), DomainError>) -> String {
    match r {
        Err(DomainError::Ai(m)) => m,
        _ => panic!("expected an AI error"),
    }
}

#[test]
fn training_checks() {
    assert_eq!(
        ai_message(check_manual_examples("Nature", 0)),
        "Tag 'Nature' is not used on any media items. Please tag at least 3 items manually first."
    );
    assert_eq!(
        ai_message(check_manual_examples("Nature", 2)),
        "Tag 'Nature' only has 2 manual examples. Need at least 3 to train the AI."
    );
    assert!(check_manual_examples("Nature", 3).is_ok());
    assert_eq!(
        ai_message(check_feature_examples("Nature", 5, 0)),
        "Tag 'Nature' has 5 manual tags, but none of those images have AI features extracted yet. Please wait for processing to finish."
    );
    assert_eq!(
        ai_message(check_feature_examples("Nature", 5, 2)),
        "Tag 'Nature' has 5 manual tags, but only 2 have AI features extracted. Need at least 3 items with features to train."
    );
    assert!(check_feature_examples("Nature", 5, 3).is_ok());
}

#[test]
fn negative_sampling_bounds() {
    assert_eq!(negative_sample_count(3), 50);
    assert_eq!(negative_sample_count(5), 50);
    assert_eq!(negative_sample_count(7), 70);
    assert_eq!(negative_sample_count(50), 500);
    assert_eq!(negative_sample_count(51), 500);
}

#[test]
fn trainable_and_stale_tags() {
    let tags = vec![
        TagUsage { id: 1, name: "Nature".to_string(), manual_count: 3 },
        TagUsage { id: 2, name: "City".to_string(), manual_count: 2 },
        TagUsage { id: 3, name: "Dog".to_string(), manual_count: 10 },
    ];
    assert_eq!(trainable_tags(&tags), vec![(1, "Nature".to_string()), (3, "Dog".to_string())]);
    assert_eq!(stale_auto_tags(&vec![2, 3, 4], &vec![1, 3]), vec![2, 4]);
    assert_eq!(stale_auto_tags(&vec![], &vec![1]), Vec::<i64>::new());
    let cands = vec![("a".to_string(), Some(1)), ("b".to_string(), None), ("c".to_string(), Some(7))];
    assert_eq!(tag_name_for(7, &cands), "c");
    assert_eq!(tag_name_for(9, &cands), "Unknown");
    assert_eq!(
        clean_tag_names(&vec![" x ".to_string(), "".to_string(), "y".to_string(), "  ".to_string()]),
        vec!["x".to_string(), "y".to_string()]
    );
}

#[test]
fn background_schedule() {
    let s = after_face_scan(ScanOutcome::Processed(4));
    assert!(s.cluster);
    assert_eq!(s.sleep_secs, 5);
    let s = after_face_scan(ScanOutcome::Processed(0));
    assert!(!s.cluster);
    assert_eq!(s.sleep_secs, 60);
    let s = after_face_scan(ScanOutcome::Failed);
    assert!(!s.cluster);
    assert_eq!(s.sleep_secs, 60);
    assert!(scan_bookkeeping(ScanEvent::FileMissing).mark_scanned);
    assert!(!scan_bookkeeping(ScanEvent::ReadFailed).mark_scanned);
    assert!(scan_bookkeeping(ScanEvent::DetectionFailed).mark_scanned);
    assert!(scan_bookkeeping(ScanEvent::Detected { saved: true }).counted);
    assert!(!scan_bookkeeping(ScanEvent::Detected { saved: false }).counted);
    let events = vec![
        ScanEvent::Detected { saved: true },
        ScanEvent::FileMissing,
        ScanEvent::Detected { saved: false },
        ScanEvent::Detected { saved: true },
    ];
    assert_eq!(scan_count(&events), 2);
    assert_eq!(thumbnail_fix_notice(0), None);
    assert_eq!(thumbnail_fix_notice(3), Some(3));
}

#[test]
fn download_planning() {
    assert_eq!(dedup_ids(&vec![3, 1, 3, 2, 1]), vec![3, 1, 2]);
    let big = MAX_ZIP_BYTES / 2 + 1;
    let parts = split_into_parts(&vec![big, big, 10, MAX_ZIP_BYTES + 5, 1]);
    let spans: Vec<(usize, usize, u64)> = parts.iter().map(|p| (p.start, p.end, p.size)).collect();
    assert_eq!(spans, vec![(0, 1, big), (1, 3, big + 10), (3, 4, MAX_ZIP_BYTES + 5), (4, 5, 1)]);
    assert_eq!(part_filename("gallerynet_3", 2, false, "20240115_134530"), "gallerynet_3_part2_20240115_134530.zip");
    assert_eq!(part_filename("trip", 1, true, "20240115_134530"), "trip_20240115_134530.zip");
    let plan = plan_download(&vec![10, 20], "trip", "TS");
    assert_eq!(plan.len(), 1);
    assert_eq!(plan[0].filename, "trip_TS.zip");
    let plan = plan_download(&vec![big, big], "trip", "TS");
    assert_eq!(plan.len(), 2);
    assert_eq!(plan[0].filename, "trip_part1_TS.zip");
    assert_eq!(plan[1].filename, "trip_part2_TS.zip");
    assert!(plan_download(&vec![], "x", "TS").is_empty());
    assert!(check_requested(1).is_ok());
    match check_requested(0) {
        Err(DomainError::Io(m)) => assert_eq!(m, "No files requested"),
        _ => panic!(),
    }
}

#[test]
fn zip_entry_names_are_unique() {
    let names = vec![
        "a.jpg".to_string(),
        "a.jpg".to_string(),
        "b".to_string(),
        "a.jpg".to_string(),
        "b".to_string(),
        "../x.png".to_string(),
    ];
    assert_eq!(
        zip_entry_names(&names),
        vec!["a.jpg", "a_1.jpg", "b", "a_2.jpg", "b_1", "..x.png"]
    );
}

#[test]
fn download_headers() {
    assert_eq!(attachment_header("a b.jpg"), "attachment; filename=\"a b.jpg\"");
    let h = single_file_headers("my\"photo.png", 1234);
    assert_eq!(h.content_type, "image/png");
    assert_eq!(h.content_disposition, "attachment; filename=\"myphoto.png\"");
    assert_eq!(h.content_length, "1234");
    assert_eq!(single_file_headers("noext", 0).content_type, "application/octet-stream");
}

#[test]
fn folder_names_and_archives() {
    assert_eq!(folder_name("  Trips ").ok(), Some("Trips".to_string()));
    match folder_name("   ") {
        Err(DomainError::Io(m)) => assert_eq!(m, "Folder name cannot be empty"),
        _ => panic!(),
    }
    assert_eq!(folder_order(&vec![9, 4, 7]), vec![(9, 0), (4, 1), (7, 2)]);
    assert_eq!(folder_archive_base("Summer 2024!"), "Summer_2024");
    assert_eq!(folder_archive_base("__a/b__"), "a_b");
    assert_eq!(folder_archive_base("Été-photos.v2"), "Été-photos.v2");
    assert_eq!(folder_archive_base("///"), "folder");
    assert_eq!(folder_archive_base(""), "folder");
    assert_eq!(batch_archive_base(12), "gallerynet_12");
}

#[test]
fn search_results_drop_the_source() {
    assert_eq!(results_without_source(&vec![5, 1, 2, 3], 5, 2), vec![1, 2]);
    assert_eq!(results_without_source(&vec![1, 5, 2, 3], 5, 3), vec![0, 2, 3]);
    assert_eq!(results_without_source(&vec![1, 2], 5, 0), Vec::<usize>::new());
    assert_eq!(results_without_source(&vec![], 5, 4), Vec::<usize>::new());
}

#[test]
fn external_search_links() {
    assert_eq!(default_search_base_url(), "https://yandex.com");
    assert_eq!(
        search_upload_url("https://yandex.com"),
        "https://yandex.com/images/search?rpt=imageview&format=json"
    );
    assert_eq!(
        search_result_link("http://mock", Some("test_params=1")).ok(),
        Some("http://mock/images/search?test_params=1".to_string())
    );
    match search_result_link("http://mock", None) {
        Err(DomainError::Network(m)) => assert_eq!(m, "Could not extract search URL from Yandex response."),
        _ => panic!(),
    }
}

#[test]
fn zip_entry_names_never_repeat() {
    let names = vec!["a.jpg".to_string(), "a.jpg".to_string(), "a_1.jpg".to_string()];
    assert_eq!(zip_entry_names(&names), vec!["a.jpg", "a_1.jpg", "a_1_1.jpg"]);
    let names = vec!["a_1.jpg".to_string(), "a.jpg".to_string(), "a.jpg".to_string(), "a.jpg".to_string()];
    assert_eq!(zip_entry_names(&names), vec!["a_1.jpg", "a.jpg", "a_2.jpg", "a_3.jpg"]);
}
