use narou_bridge::followed::{
    action_enabled, hash_ids, is_authentication_error, PixivIllustSnapshotDocument,
    PixivTrackedUserEntry, UserDownloadSummary, user_download_outcome,
};
use narou_bridge::pixiv::url_ext;
use narou_bridge::sites::{Site, SiteId};

#[test]
fn hash_ids_is_the_sha256_hex_of_sorted_ids() {
    assert_eq!(
        hash_ids(&["3", "1", "2"]),
        "8a6ae15122001229edb8866f56e342af12ae8187203c3e3b33931743e7c0c48d"
    );
}

#[test]
fn hash_ids_ignores_order() {
    assert_eq!(hash_ids(&["b", "a", "c"]), hash_ids(&["c", "b", "a"]));
}

#[test]
fn hash_ids_of_nothing_hashes_the_empty_text() {
    assert_eq!(
        hash_ids(&[]),
        "e3b0c44298fc1c149afbf4c8996fb92427ae41e4649b934ca495991b7852b855"
    );
}

#[test]
fn authentication_errors_are_found_in_any_cause() {
    let causes = vec!["request failed".to_string(), "HTTP 403 Forbidden".to_string()];
    assert!(is_authentication_error(&causes));
    assert!(!is_authentication_error(&["timeout".to_string()]));
    assert!(!is_authentication_error(&[]));
}

#[test]
fn tracked_user_entry_defaults_enable_both_kinds() {
    let entry = PixivTrackedUserEntry::default();
    assert!(action_enabled(&entry, "novel"));
    assert!(action_enabled(&entry, "comic"));
    assert!(!action_enabled(&entry, "illust"));
    let off = PixivTrackedUserEntry { comic: "disable".to_string(), ..entry };
    assert!(!action_enabled(&off, "comic"));
}

#[test]
fn snapshot_document_keeps_each_id_once_in_order() {
    let doc = PixivIllustSnapshotDocument::new(vec![
        "20".to_string(),
        "10".to_string(),
        "20".to_string(),
    ]);
    assert_eq!(doc.illust_ids, vec!["10".to_string(), "20".to_string()]);
    assert!(PixivIllustSnapshotDocument::default().illust_ids.is_empty());
}

#[test]
fn user_download_summary_starts_empty() {
    let summary = UserDownloadSummary::default();
    assert_eq!(summary.user_id, "");
    assert_eq!(summary.downloaded_works, 0);
    assert!(summary.failures.is_empty());
}

#[test]
fn url_ext_takes_the_extension_before_the_query() {
    assert_eq!(url_ext("https://i.pximg.net/img/1_p0.png?x=1"), ".png");
    assert_eq!(url_ext("https://i.pximg.net/img/cover"), ".jpg");
    assert_eq!(url_ext("https://i.pximg.net/img/.hidden"), ".jpg");
}

#[test]
fn site_handlers_name_their_sites() {
    assert_eq!(narou_bridge::narou::site().id(), SiteId::Narou);
    assert_eq!(narou_bridge::pixiv::site().name(), "pixiv");
    assert!(narou_bridge::pixiv::site().matches_url("https://www.pixiv.net/novel/show.php?id=1"));
}

#[test]
fn user_downloads_report_stored_works_and_failures() {
    let summary = UserDownloadSummary {
        user_id: "42".to_string(),
        user_name: Some("Alice".to_string()),
        downloaded_works: 3,
        tracked_artworks: 5,
        failures: vec!["a: timeout".to_string(), "b: 404".to_string()],
    };
    let (message, error) = user_download_outcome(&summary);
    assert_eq!(message, "tracked pixiv user Alice (42) and stored 3 works");
    assert_eq!(
        error.as_deref(),
        Some("tracked pixiv user Alice (42) with 3 stored works, but some downloads failed: a: timeout; b: 404")
    );
    let quiet = UserDownloadSummary { user_id: "7".to_string(), ..UserDownloadSummary::default() };
    let (message, error) = user_download_outcome(&quiet);
    assert_eq!(message, "tracked pixiv user 7 (7) and stored 0 works");
    assert!(error.is_none());
}
