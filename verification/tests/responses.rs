use narou_bridge::model::ImageRecord;
use narou_bridge::responses::{
    cover_logical_names, cover_redirect_target, etag_matches, needs_utf8_charset, payload_etag,
};

#[test]
fn etag_is_the_quoted_sha256_of_the_payload() {
    assert_eq!(
        payload_etag(b""),
        "\"e3b0c44298fc1c149afbf4c8996fb92427ae41e4649b934ca495991b7852b855\""
    );
    assert_eq!(
        payload_etag(b"abc"),
        "\"ba7816bf8f01cfea414140de5dae2223b00361a396177a9cb410ff61f20015ad\""
    );
}

#[test]
fn if_none_match_lists_candidates() {
    let etag = "\"abc\"";
    assert!(etag_matches(Some("\"x\", \"abc\""), etag));
    assert!(etag_matches(Some(" \"abc\" "), etag));
    assert!(!etag_matches(Some("\"abcd\""), etag));
    assert!(!etag_matches(None, etag));
}

#[test]
fn html_without_charset_gets_utf8() {
    assert!(needs_utf8_charset(Some("text/html")));
    assert!(needs_utf8_charset(Some("TEXT/HTML")));
    assert!(!needs_utf8_charset(Some("text/html; charset=utf-8")));
    assert!(!needs_utf8_charset(Some("application/json")));
    assert!(!needs_utf8_charset(None));
}

#[test]
fn covers_are_looked_up_by_extension() {
    let names = cover_logical_names("pixiv", "n1");
    assert_eq!(names.len(), 9);
    assert_eq!(names[0], "pixiv_n1_cover.jpg");
    assert_eq!(names[8], "pixiv_n1_cover.svg");
}

#[test]
fn cover_redirects_to_the_stored_image() {
    let image = ImageRecord {
        logical_name: "pixiv_n1_cover.png".to_string(),
        hash: "abc".to_string(),
        ext: "png".to_string(),
        kind: "cover".to_string(),
    };
    assert_eq!(cover_redirect_target("", Some(&image)), "/images/abc.png");
    assert_eq!(cover_redirect_target("  ", Some(&image)), "/images/abc.png");
    assert_eq!(
        cover_redirect_target("https://img.example.com//", Some(&image)),
        "https://img.example.com/abc.png"
    );
    assert_eq!(cover_redirect_target("", None), "/images/default_cover.png");
}
