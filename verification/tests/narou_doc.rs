use narou_bridge::json::{json_as_str, json_get, str_field, value_to_string};
use narou_bridge::narou::ImportedEpisode;
use narou_bridge::narou_doc::{build_raw_json, build_raw_json_from_extracted, text_count_total};
use narou_bridge::pdf::{ParsedEpisode, ParsedNarouPdf};

fn parsed(episodes: Vec<ParsedEpisode>) -> ParsedNarouPdf {
    ParsedNarouPdf {
        nid: Some("n1234ab".to_string()),
        title: Some("  ".to_string()),
        author: Some("Alice".to_string()),
        caption: None,
        serialization: Some("完結済".to_string()),
        tags: vec!["剣".to_string()],
        create_date: Some("2024-01-02T00:00:00+09:00".to_string()),
        update_date: None,
        episodes,
        pages: vec![],
        vertical: false,
    }
}

#[test]
fn imported_pages_become_a_document() {
    let episodes = vec![ImportedEpisode {
        id: "p1-2".to_string(),
        chapter: Some("一".to_string()),
        title: "Work".to_string(),
        introduction: "cap".to_string(),
        text: "abc".to_string(),
        text_count: 3,
    }];
    let doc = build_raw_json("k1", "Work", "A", &None, &Some("u".to_string()), "cap", "src", "短編", &episodes, "now");
    assert_eq!(str_field(&doc, "nid", ""), "k1");
    assert_eq!(str_field(&doc, "type", ""), "novel");
    assert_eq!(value_to_string(json_get(&doc, "total_characters").unwrap()), "3");
    assert_eq!(value_to_string(json_get(&doc, "total_episodes").unwrap()), "1");
    let ep = json_get(json_get(&doc, "episodes").unwrap(), "1").unwrap();
    assert_eq!(str_field(ep, "chapter", ""), "一");
    assert_eq!(str_field(ep, "postscript", "x"), "");
    assert_eq!(str_field(ep, "createDate", ""), "now");
}

#[test]
fn extracted_pdf_becomes_a_document_with_fallbacks() {
    let episode = ParsedEpisode {
        id: "1".to_string(),
        chapter: None,
        title: "E".to_string(),
        introduction: "".to_string(),
        text: "ab".to_string(),
        postscript: "post".to_string(),
        create_date: None,
        update_date: Some("2024-02-02".to_string()),
        text_count: 2,
    };
    let doc = build_raw_json_from_extracted(
        "key", &parsed(vec![episode]), "Fallback", "Nobody", &None, &None, "cap", "連載中", "now",
    )
    .unwrap();
    assert_eq!(str_field(&doc, "id", ""), "n1234ab");
    assert_eq!(str_field(&doc, "title", ""), "Fallback");
    assert_eq!(str_field(&doc, "author", ""), "Alice");
    assert_eq!(str_field(&doc, "caption", ""), "cap");
    assert_eq!(str_field(&doc, "updateDate", ""), "now");
    assert_eq!(str_field(&doc, "url", ""), "https://ncode.syosetu.com/n1234ab/");
    let ep = json_get(json_get(&doc, "episodes").unwrap(), "1").unwrap();
    assert_eq!(json_as_str(json_get(ep, "createDate")), Some("2024-01-02T00:00:00+09:00"));
    assert_eq!(json_as_str(json_get(ep, "updateDate")), Some("2024-02-02"));
    assert_eq!(str_field(ep, "postscript", ""), "post");
}

#[test]
fn extraction_without_episodes_is_an_error() {
    let err = build_raw_json_from_extracted("key", &parsed(vec![]), "t", "a", &None, &None, "c", "s", "now")
        .unwrap_err();
    assert_eq!(err, "narou PDF extraction produced no episodes");
}

#[test]
fn text_counts_total_unless_they_overflow() {
    assert_eq!(text_count_total(&[1, 2, 3]), Some(6));
    assert_eq!(text_count_total(&[]), Some(0));
    assert_eq!(text_count_total(&[i64::MAX, 1]), None);
}
