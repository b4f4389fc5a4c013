use narou_bridge::pdf::{
    assemble_episodes, extract_block_value, extract_line_value, extract_nid, fallback_episode,
    looks_like_episode_title, looks_like_metadata_label, normalize_ascii_width, split_page_sections,
    split_tags, EpisodeBuilder, PdfPage,
};
use narou_bridge::pdf::normalize_date_string;

#[test]
fn looks_like_episode_title_matches_common_markers() {
    assert!(looks_like_episode_title("第1話"));
    assert!(looks_like_episode_title("Episode 12"));
    assert!(!looks_like_episode_title("プロローグ"));
}

#[test]
fn episode_titles_accept_full_width_digits_and_case() {
    assert!(looks_like_episode_title("  CHAPTER ３ "));
    assert!(!looks_like_episode_title("   "));
}

#[test]
fn fallback_episode_uses_non_meta_pages() {
    let episode = fallback_episode(
        "Sample",
        "Caption",
        &[
            "meta page".to_string(),
            "body page 1".to_string(),
            "body page 2".to_string(),
        ],
        1,
    );

    assert_eq!(episode.introduction, "Caption");
    assert!(episode.text.contains("body page 1"));
    assert!(episode.text.contains("[newpage]"));
}

#[test]
fn fallback_episode_uses_all_pages_when_only_metadata_exists() {
    let episode = fallback_episode("S", "C", &["  only page ".to_string()], 3);
    assert_eq!(episode.id, "page-1");
    assert_eq!(episode.text, "only page");
    assert_eq!(episode.text_count, 9);
    assert_eq!(episode.postscript, "");
}

#[test]
fn extract_episodes_splits_title_and_marker_pages() {
    let pages = vec![
        PdfPage { page: 1, text: "Meta".to_string(), title_line: Some("Meta".to_string()) },
        PdfPage { page: 2, text: "Episode 1".to_string(), title_line: Some("Episode 1".to_string()) },
        PdfPage {
            page: 3,
            text: "【まえがき】Intro本文【あとがき】Post".to_string(),
            title_line: None,
        },
    ];

    let episodes = assemble_episodes(&pages, 1, "Sample");
    assert_eq!(episodes.len(), 1);
    assert_eq!(episodes[0].title, "Episode 1");
    assert_eq!(episodes[0].introduction, "Intro本文");
    assert_eq!(episodes[0].postscript, "Post");
    assert_eq!(episodes[0].id, "pages-2-3");
}

#[test]
fn assemble_episodes_carries_chapter_headings_and_skips_contents() {
    let pages = vec![
        PdfPage { page: 2, text: "目次 1 2 3".to_string(), title_line: None },
        PdfPage { page: 3, text: "第一章".to_string(), title_line: Some("第一章".to_string()) },
        PdfPage { page: 4, text: "body one".to_string(), title_line: None },
        PdfPage { page: 5, text: "body two".to_string(), title_line: None },
    ];
    let episodes = assemble_episodes(&pages, 1, "Work");
    assert_eq!(episodes.len(), 1);
    assert_eq!(episodes[0].title, "Work");
    assert_eq!(episodes[0].chapter.as_deref(), Some("第一章"));
    assert_eq!(episodes[0].text, "body one\n\n[newpage]\n\nbody two");
    assert_eq!(episodes[0].id, "pages-4-5");
    assert!(assemble_episodes(&[], 1, "Work").is_empty());
}

#[test]
fn builder_collects_trimmed_parts() {
    let mut builder = EpisodeBuilder::new(None, 4);
    assert!(!builder.has_content());
    builder.append_intro("  ");
    builder.append_text(" t1 ");
    builder.append_text("t2");
    builder.append_postscript(" p ");
    assert!(builder.has_content());
    let episode = builder.build(2, "Fallback");
    assert_eq!(episode.title, "Fallback 2");
    assert_eq!(episode.id, "page-4");
    assert_eq!(episode.text, "t1\n\n[newpage]\n\nt2");
    assert_eq!(episode.postscript, "p");
    assert_eq!(episode.introduction, "");
}

#[test]
fn page_sections_split_front_and_back_matter() {
    assert_eq!(
        split_page_sections("本文\r\n【あとがき】後書き"),
        ("".to_string(), "本文".to_string(), "後書き".to_string())
    );
    assert_eq!(
        split_page_sections("前[frontmatter]まえ[postscript]あと"),
        ("まえ[postscript]あと".to_string(), "前".to_string(), "".to_string())
    );
    assert_eq!(
        split_page_sections("  ただの本文  "),
        ("".to_string(), "ただの本文".to_string(), "".to_string())
    );
}

#[test]
fn metadata_labels_and_values_are_read() {
    assert!(looks_like_metadata_label("ＡＵＴＨＯＲ： x"));
    assert!(!looks_like_metadata_label("plain text"));
    assert_eq!(normalize_ascii_width("ＡＢ１２　ｃ：／－"), "AB12 c:/-");
    let lines = vec![
        "作者： Alice".to_string(),
        "caption".to_string(),
        "A story".to_string(),
        "more".to_string(),
        "keyword".to_string(),
    ];
    assert_eq!(extract_line_value(&lines, &["author", "作者"]), Some("Alice".to_string()));
    assert_eq!(extract_line_value(&lines, &["caption"]), Some("A story".to_string()));
    assert_eq!(
        extract_block_value(&lines, &["caption"]),
        Some("A story\nmore".to_string())
    );
    assert_eq!(extract_line_value(&lines, &["missing"]), None);
    let labelled_next = vec!["caption".to_string(), "Summary line".to_string()];
    assert_eq!(extract_line_value(&labelled_next, &["caption"]), None);
}

#[test]
fn tags_and_codes_are_split_and_found() {
    assert_eq!(
        split_tags("異世界　恋愛, 日常、 魔法"),
        vec!["異世界".to_string(), "恋愛".to_string(), "日常".to_string(), "魔法".to_string()]
    );
    assert_eq!(
        extract_nid(&["title".to_string(), "Ｎコード： N1234AB".to_string()]),
        Some("n1234ab".to_string())
    );
    assert_eq!(extract_nid(&["none here".to_string()]), None);
}

#[test]
fn parse_metadata_extracts_core_fields() {
    let lines = vec![
        "Sample Title".to_string(),
        "ncode: n1234ab".to_string(),
        "author: Alice".to_string(),
        "caption: Summary line".to_string(),
    ];
    let meta = narou_bridge::pdf::parse_metadata(&lines, Some("Sample Title".to_string()));
    assert_eq!(meta.nid.as_deref(), Some("n1234ab"));
    assert_eq!(meta.title.as_deref(), Some("Sample Title"));
    assert_eq!(meta.author.as_deref(), Some("Alice"));
    assert_eq!(meta.caption.as_deref(), Some("Summary line"));
}

#[test]
fn parse_metadata_reads_dates_state_and_keywords() {
    let lines = vec![
        "小説タイトル：題名".to_string(),
        "キーワード：剣 魔法、冒険".to_string(),
        "連載中".to_string(),
        "掲載日：2024年1月2日".to_string(),
        "2024/05/06 7:08".to_string(),
    ];
    let meta = narou_bridge::pdf::parse_metadata(&lines, None);
    assert_eq!(meta.title.as_deref(), Some("題名"));
    assert_eq!(meta.tags, vec!["剣".to_string(), "魔法".to_string(), "冒険".to_string()]);
    assert_eq!(meta.serialization.as_deref(), Some("連載中"));
    assert_eq!(meta.create_date.as_deref(), Some("2024-01-02T00:00:00+09:00"));
    assert_eq!(meta.update_date.as_deref(), Some("2024-05-06T07:08:00+09:00"));
}

#[test]
fn normalize_date_string_checks_the_calendar() {
    assert_eq!(normalize_date_string("2024年1月2日").as_deref(), Some("2024-01-02T00:00:00+09:00"));
    assert_eq!(normalize_date_string("2024/02/29").as_deref(), Some("2024-02-29T00:00:00+09:00"));
    assert_eq!(normalize_date_string("2023/02/29"), None);
    assert_eq!(normalize_date_string("no date"), None);
    assert_eq!(normalize_date_string("２０２４／０３／０５").as_deref(), Some("2024-03-05T00:00:00+09:00"));
}
