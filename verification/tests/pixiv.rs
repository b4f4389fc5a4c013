use narou_bridge::pixiv::{
    add_ai_tag_if_needed, dedup_tags, format_tags, html_breaks_to_newlines,
    is_authentication_failure_text, parse_pixiv_url, tracked_user_config_key,
    tracked_user_id_from_config_key, tracked_user_snapshot_key, url_decode, PixivUrlTarget,
};

#[test]
fn parse_pixiv_urls_support_user_forms() {
    assert_eq!(
        parse_pixiv_url("https://www.pixiv.net/users/12345"),
        Some(PixivUrlTarget::User("12345".to_string()))
    );
    assert_eq!(
        parse_pixiv_url("https://www.pixiv.net/user/12345"),
        Some(PixivUrlTarget::User("12345".to_string()))
    );
    assert_eq!(
        parse_pixiv_url("https://www.pixiv.net/user/12345/series/9876"),
        Some(PixivUrlTarget::Comic("9876".to_string()))
    );
    assert_eq!(
        parse_pixiv_url("https://www.pixiv.net/novel/show.php?id=100"),
        Some(PixivUrlTarget::Novel("100".to_string()))
    );
}

#[test]
fn url_decode_preserves_existing_unicode_text() {
    assert_eq!(url_decode("先生×先生"), "先生×先生");
}

#[test]
fn url_decode_decodes_percent_encoded_utf8() {
    assert_eq!(
        url_decode("%E5%85%88%E7%94%9F%C3%97%E5%85%88%E7%94%9F"),
        "先生×先生"
    );
}

#[test]
fn url_decode_keeps_incomplete_escapes() {
    assert_eq!(url_decode("100%"), "100%");
    assert_eq!(url_decode("a%zzb"), "a%zzb");
    assert_eq!(url_decode("a+b"), "a+b");
}

#[test]
fn tracked_user_keys_round_trip() {
    let key = tracked_user_config_key("777");
    assert_eq!(tracked_user_id_from_config_key(&key), Some("777".to_string()));
    assert_ne!(tracked_user_snapshot_key("777"), key);
    assert_eq!(tracked_user_id_from_config_key("unrelated"), None);
}

#[test]
fn format_tags_splits_trims_and_dedups() {
    let tags = format_tags(vec!["#a # b".to_string(), "b#c".to_string(), "  ".to_string()]);
    assert_eq!(tags, vec!["a".to_string(), "b".to_string(), "c".to_string()]);
}

#[test]
fn dedup_and_ai_tag() {
    let mut tags = vec!["x".to_string(), "y".to_string(), "x".to_string()];
    dedup_tags(&mut tags);
    assert_eq!(tags, vec!["x".to_string(), "y".to_string()]);
    add_ai_tag_if_needed(Some(2), &mut tags);
    add_ai_tag_if_needed(Some(2), &mut tags);
    assert_eq!(tags, vec!["x".to_string(), "y".to_string(), "AI生成".to_string()]);
    add_ai_tag_if_needed(Some(1), &mut tags);
    assert_eq!(tags.len(), 3);
}

#[test]
fn html_breaks_become_newlines() {
    assert_eq!(html_breaks_to_newlines("a<br />b<br/>c<br>d"), "a\nb\nc\nd");
}

#[test]
fn authentication_failures_are_recognised() {
    assert!(is_authentication_failure_text("HTTP 403 Forbidden"));
    assert!(is_authentication_failure_text("redirected to login page"));
    assert!(!is_authentication_failure_text("HTTP 500"));
}
