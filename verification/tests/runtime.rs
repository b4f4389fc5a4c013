use narou_bridge::json::JsonValue;
use narou_bridge::tasks::{work_payload_has_episodes, zip_image_record};
use narou_bridge::model::{RequestData, TaskStatus, ZipImportMetadata};
use narou_bridge::sites::{
    build_registry, resolve_dispatch_targets_or_err, summarize_site_results, SiteActionResult,
    SiteId,
};
use narou_bridge::tasks::{
    auto_update_task, escape_like_pattern, is_simple_path_segment, normalize_account_name,
    normalize_task_input, normalize_zip_metadata, parse_work_list_sort, queued_upload_path,
    queued_zip_path, resolve_request_action, sanitized_archive_path, should_import_zip_request,
    validate_request_action_conflicts, validate_zip_image_entry, work_list_sort_query_value,
    TaskInput, WorkListSort,
};
use narou_bridge::tasks::{
    choose_available_account_name, library_page_limit, collect_zip_payload_entries, validate_non_multipart_body_size, ZipPayloadEntry,
    JSON_FORM_BODY_LIMIT_BYTES,
};

fn request_with_actions() -> RequestData {
    RequestData {
        request_id: "req-1".to_string(),
        repair: Some("repair-site".to_string()),
        login: Some("login-site".to_string()),
        update: Some("update-site".to_string()),
        re_download: Some("re-download-site".to_string()),
        convert: Some("convert-site".to_string()),
        add: Some("https://example.com/work".to_string()),
        ..RequestData::default()
    }
}

#[test]
fn resolve_request_action_uses_expected_priority() {
    let req = request_with_actions();
    let action = resolve_request_action(&req).expect("action");
    assert_eq!(action, ("repair".to_string(), "repair-site".to_string()));
}

#[test]
fn resolve_request_action_prefers_repair_over_pdf_conversion() {
    let req = RequestData {
        request_id: "req-1".to_string(),
        pdf_path: Some("input.pdf".to_string()),
        repair: Some("repair-site".to_string()),
        ..RequestData::default()
    };
    let action = resolve_request_action(&req).expect("action");
    assert_eq!(action, ("repair".to_string(), "repair-site".to_string()));
}

#[test]
fn resolve_request_action_accepts_zip_only_upload() {
    let req = RequestData {
        request_id: "req-zip".to_string(),
        zip_name: Some("legacy.zip".to_string()),
        ..RequestData::default()
    };
    let action = resolve_request_action(&req).expect("action");
    assert_eq!(action, ("convert".to_string(), "zip".to_string()));
}

#[test]
fn resolve_request_action_downloads_added_url_last() {
    let req = RequestData {
        request_id: "req-add".to_string(),
        add: Some("https://example.com/work".to_string()),
        ..RequestData::default()
    };
    assert_eq!(
        resolve_request_action(&req),
        Some(("download".to_string(), "https://example.com/work".to_string()))
    );
    let empty = RequestData::default();
    assert_eq!(resolve_request_action(&empty), None);
}

#[test]
fn normalize_task_input_trims_and_drops_empty_values() {
    let input = TaskInput {
        request_id: Some("  req-1  ".to_string()),
        pdf_name: Some("  sample.pdf  ".to_string()),
        zip_name: Some("   ".to_string()),
        add: Some("\nhttps://example.com/work\t".to_string()),
        ..TaskInput::default()
    };
    let normalized = normalize_task_input(input);
    assert_eq!(normalized.request_id.as_deref(), Some("req-1"));
    assert_eq!(normalized.pdf_name.as_deref(), Some("sample.pdf"));
    assert_eq!(normalized.zip_name, None);
    assert_eq!(normalized.add.as_deref(), Some("https://example.com/work"));
}

#[test]
fn normalize_task_input_is_idempotent_on_an_example() {
    let input = TaskInput {
        chapter: Some("  1-3:前編  ".to_string()),
        login: Some(" ".to_string()),
        ..TaskInput::default()
    };
    let once = normalize_task_input(input);
    let twice = normalize_task_input(once.clone());
    assert_eq!(once.chapter, twice.chapter);
    assert_eq!(once.login, twice.login);
    assert_eq!(twice.chapter.as_deref(), Some("1-3:前編"));
    assert_eq!(twice.login, None);
}

#[test]
fn should_import_zip_request_only_for_zip_only_payloads() {
    let zip_only = RequestData {
        request_id: "req-zip".to_string(),
        zip_name: Some("legacy.zip".to_string()),
        ..RequestData::default()
    };
    assert!(should_import_zip_request(&zip_only));

    let with_action = RequestData {
        add: Some("https://example.com/work".to_string()),
        ..zip_only.clone()
    };
    assert!(!should_import_zip_request(&with_action));
}

#[test]
fn validate_request_action_conflicts_rejects_zip_with_other_actions() {
    let request = RequestData {
        request_id: "req-zip".to_string(),
        zip_name: Some("legacy.zip".to_string()),
        add: Some("https://example.com/work".to_string()),
        ..RequestData::default()
    };

    let message =
        validate_request_action_conflicts(&request).expect("zip plus add should be rejected");
    assert!(message.contains("zip upload cannot be combined"));
}

#[test]
fn validate_request_action_conflicts_accepts_zip_alone() {
    let request = RequestData {
        request_id: "req-zip".to_string(),
        zip_name: Some("legacy.zip".to_string()),
        ..RequestData::default()
    };
    assert_eq!(validate_request_action_conflicts(&request), None);
}

#[test]
fn queued_zip_path_rejects_invalid_request_id() {
    let request = RequestData {
        request_id: "../escape".to_string(),
        zip_name: Some("upload.zip".to_string()),
        ..RequestData::default()
    };

    let err = queued_zip_path(&request, "pdf").expect_err("invalid request_id should fail");
    assert!(err.to_string().contains("invalid request_id"));
}

#[test]
fn queued_upload_path_joins_request_id_and_extension() {
    assert_eq!(
        queued_upload_path("/srv/pdf", "req-1", "zip"),
        Ok("/srv/pdf/req-1.zip".to_string())
    );
    assert!(queued_upload_path("/srv/pdf", "a/b", "zip").is_err());
    assert!(!is_simple_path_segment(".."));
    assert!(is_simple_path_segment("req-1"));
}

#[test]
fn sanitized_archive_path_rejects_parent_segments() {
    assert!(sanitized_archive_path("../outside.txt").is_err());
    assert_eq!(
        sanitized_archive_path("narou\\work\\raw\\raw.json").expect("path"),
        "narou\\work\\raw\\raw.json"
    );
}

#[test]
fn sanitized_archive_path_drops_dot_segments() {
    assert_eq!(
        sanitized_archive_path("./narou//work/./raw.json"),
        Ok("narou/work/raw.json".to_string())
    );
    assert_eq!(
        sanitized_archive_path("/etc/passwd"),
        Err("unsupported zip entry path: /etc/passwd".to_string())
    );
}

#[test]
fn normalize_zip_metadata_trims_and_validates() {
    let images = vec![(" cover.png ".to_string(), " abc123 ".to_string())];
    let metadata = ZipImportMetadata {
        site_name: " narou ".to_string(),
        images,
    };
    let normalized = normalize_zip_metadata(metadata).expect("metadata");
    assert_eq!(normalized.site_name, "narou");
    let found = normalized
        .images
        .iter()
        .find(|(name, _)| name == "cover.png")
        .map(|(_, hash)| hash.as_str());
    assert_eq!(found, Some("abc123"));
}

#[test]
fn normalize_zip_metadata_rejects_path_traversal() {
    let metadata = ZipImportMetadata {
        site_name: "../narou".to_string(),
        images: Vec::new(),
    };
    assert!(normalize_zip_metadata(metadata).is_err());
}

#[test]
fn validate_zip_image_entry_rejects_bad_hashes() {
    assert!(validate_zip_image_entry("cover.png", "abc123").is_ok());
    assert!(validate_zip_image_entry("cover.png", "ab/c").is_err());
    assert!(validate_zip_image_entry("", "abc").is_err());
}

#[test]
fn auto_update_task_targets_update_all() {
    let task = auto_update_task();
    assert_eq!(task.action, "update");
    assert_eq!(task.param, "all");
    assert_eq!(task.request.request_id, task.request_id);
    assert_eq!(task.request.update.as_deref(), Some("all"));
}

#[test]
fn auto_update_task_ids_differ_between_calls() {
    let first = auto_update_task();
    let second = auto_update_task();
    assert_eq!(first.request_id.len(), 36);
    assert_ne!(first.request_id, second.request_id);
}

#[test]
fn summarize_site_results_marks_partial_failures_as_failed() {
    let results = vec![
        SiteActionResult::success(SiteId::Narou, "update", "narou update completed"),
        SiteActionResult::failed(SiteId::Pixiv, "update", "pixiv login expired"),
    ];

    let (status, error) = summarize_site_results(&results);

    assert_eq!(status, TaskStatus::Failed);
    let error = error.expect("partial failure should keep an error summary");
    assert!(error.contains("failed sites: pixiv (update) pixiv login expired"));
    assert!(error.contains("succeeded sites: narou (update) narou update completed"));
}

#[test]
fn resolve_dispatch_targets_or_err_rejects_unknown_site_targets() {
    let registry = build_registry();
    let err = match resolve_dispatch_targets_or_err(&registry, "update", "missing-site") {
        Ok(_) => panic!("unknown site should fail"),
        Err(err) => err,
    };
    assert!(err.to_string().contains("unknown site target"));
}

#[test]
fn resolve_dispatch_targets_or_err_rejects_unmatched_download_urls() {
    let registry = build_registry();
    let err = match resolve_dispatch_targets_or_err(&registry, "download", "https://example.com") {
        Ok(_) => panic!("unmatched url should fail"),
        Err(err) => err,
    };
    assert!(err.to_string().contains("no site matched download URL"));
}

#[test]
fn resolve_dispatch_targets_or_err_finds_pixiv_download() {
    let registry = build_registry();
    let targets =
        resolve_dispatch_targets_or_err(&registry, "download", "https://www.pixiv.net/users/1")
            .expect("pixiv url");
    assert_eq!(targets, vec![SiteId::Pixiv]);
}

#[test]
fn summarize_site_results_marks_all_successes_as_succeeded() {
    let results = vec![
        SiteActionResult::success(SiteId::Narou, "convert", "narou convert completed"),
        SiteActionResult::success(SiteId::Pixiv, "convert", "pixiv convert completed"),
    ];

    let (status, error) = summarize_site_results(&results);

    assert_eq!(status, TaskStatus::Succeeded);
    assert_eq!(error, None);
}

#[test]
fn work_list_sort_round_trips_through_query_values() {
    for sort in [
        WorkListSort::UpdatedDesc,
        WorkListSort::UpdatedAsc,
        WorkListSort::TitleAsc,
        WorkListSort::TitleDesc,
        WorkListSort::AuthorAsc,
        WorkListSort::AuthorDesc,
    ] {
        assert_eq!(parse_work_list_sort(Some(work_list_sort_query_value(sort))), sort);
    }
    assert_eq!(parse_work_list_sort(Some("bogus")), WorkListSort::UpdatedDesc);
}

#[test]
fn escape_like_pattern_escapes_wildcards() {
    assert_eq!(escape_like_pattern("50%_a\\b"), "50\\%\\_a\\\\b");
}

#[test]
fn normalize_account_name_keeps_file_stem() {
    assert_eq!(normalize_account_name("  alice.json "), Some("alice".to_string()));
    assert_eq!(normalize_account_name("   "), None);
}

fn zip_entries(names: &[&str]) -> Vec<(String, bool)> {
    names.iter().map(|n| (n.to_string(), n.ends_with('/'))).collect()
}

#[test]
fn collect_zip_payload_entries_rejects_unexpected_roots() {
    let entries = zip_entries(&["data.json", "evil/readme.txt", "narou/work/raw/raw.json"]);
    let err = collect_zip_payload_entries(&entries, "narou").expect_err("unexpected root should fail");
    assert!(err.contains("unexpected top-level entry"));
}

#[test]
fn collect_zip_payload_entries_requires_site_payload() {
    let entries = zip_entries(&["data.json", "images/cover.png"]);
    let err = collect_zip_payload_entries(&entries, "narou").expect_err("missing site payload should fail");
    assert!(err.contains("missing the narou/ payload"));
}

#[test]
fn zip_payload_lists_files_by_index() {
    let entries = zip_entries(&[
        "data.json",
        "narou/",
        "narou/./work/raw/raw.json",
        "images/abc.png",
    ]);
    let payload = collect_zip_payload_entries(&entries, "narou").unwrap();
    assert_eq!(
        payload,
        vec![
            ZipPayloadEntry { index: 2, relative: "narou/work/raw/raw.json".to_string() },
            ZipPayloadEntry { index: 3, relative: "images/abc.png".to_string() },
        ]
    );
    let dup = zip_entries(&["narou/a.json", "narou/./a.json"]);
    assert_eq!(
        collect_zip_payload_entries(&dup, "narou"),
        Err("zip archive contains duplicate entry path: narou/a.json".to_string())
    );
    let bad = zip_entries(&["../narou/a.json"]);
    assert_eq!(
        collect_zip_payload_entries(&bad, "narou"),
        Err("unsupported zip entry path: ../narou/a.json".to_string())
    );
}

#[test]
fn validate_non_multipart_body_size_rejects_large_json_and_form_payloads() {
    let oversized = vec![b'a'; JSON_FORM_BODY_LIMIT_BYTES + 1];
    let err = validate_non_multipart_body_size(oversized.len())
        .expect_err("oversized non-multipart payload should fail");
    assert!(err.contains("request body exceeds"));
    assert!(validate_non_multipart_body_size(JSON_FORM_BODY_LIMIT_BYTES).is_ok());
}

#[test]
fn account_names_get_the_first_free_number() {
    let taken: Vec<String> = vec!["main".to_string(), "main_1".to_string(), "main_3".to_string()];
    assert_eq!(choose_available_account_name(&taken, "fresh"), "fresh");
    assert_eq!(choose_available_account_name(&taken, "main"), "main_2");
    assert_eq!(choose_available_account_name(&Vec::new(), "login"), "login");
}

#[test]
fn library_pages_hold_between_one_and_five_thousand_works() {
    assert_eq!(library_page_limit(None), 100);
    assert_eq!(library_page_limit(Some(0)), 1);
    assert_eq!(library_page_limit(Some(250)), 250);
    assert_eq!(library_page_limit(Some(9999)), 5000);
}

#[test]
fn zip_image_records_take_extension_and_cover_kind() {
    let cover = zip_image_record("Pixiv_Cover_12.PNG", "abc123");
    assert_eq!(cover.logical_name, "Pixiv_Cover_12.PNG");
    assert_eq!(cover.hash, "abc123");
    assert_eq!(cover.ext, "PNG");
    assert_eq!(cover.kind, "cover");
    let image = zip_image_record("page_1.jpg", "h-1");
    assert_eq!(image.ext, "jpg");
    assert_eq!(image.kind, "image");
    let bare = zip_image_record("noext", "h");
    assert_eq!(bare.ext, "");
    assert_eq!(bare.kind, "image");
}

#[test]
fn zip_work_payloads_need_episodes() {
    let with = JsonValue::Object(vec![(
        "episodes".to_string(),
        JsonValue::Object(vec![("1".to_string(), JsonValue::Null)]),
    )]);
    let empty = JsonValue::Object(vec![("episodes".to_string(), JsonValue::Object(vec![]))]);
    let listed = JsonValue::Object(vec![("episodes".to_string(), JsonValue::Array(vec![JsonValue::Null]))]);
    assert!(work_payload_has_episodes(&with));
    assert!(!work_payload_has_episodes(&empty));
    assert!(!work_payload_has_episodes(&listed));
    assert!(!work_payload_has_episodes(&JsonValue::Null));
}
