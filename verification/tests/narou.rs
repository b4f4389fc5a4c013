use narou_bridge::model::RequestData;
use narou_bridge::narou::{
    build_chapter_sections, build_pdf_episodes, join_page_text, normalize_page_text,
    normalize_serialization, page_label, parse_chapter_input, parse_page_range,
    sort_chapter_ranges, ChapterError, ChapterInput, ChapterRange,
};
use narou_bridge::work_key::{
    build_work_key_slug, derive_pdf_work_key, extract_narou_nid, hex_prefix,
    looks_like_narou_nid, narou_lookup_candidates, normalized_identity_component,
    pdf_content_fingerprint, sanitize_key, short_hash, sorted_unique_strings, work_key_for,
};
use narou_bridge::work_key::{existing_narou_work_matches, narou_download_outcome, NarouDownloadOutcome};

#[test]
fn normalize_serialization_accepts_legacy_values() {
    assert_eq!(
        normalize_serialization(Some("0"), &ChapterInput::NoChapter),
        "連載中"
    );
    assert_eq!(
        normalize_serialization(Some("1"), &ChapterInput::NoChapter),
        "完結済"
    );
    assert_eq!(
        normalize_serialization(Some("2"), &ChapterInput::NoChapter),
        "短編"
    );
    assert_eq!(
        normalize_serialization(Some("完結済"), &ChapterInput::NoChapter),
        "完結済"
    );
}

#[test]
fn normalize_serialization_defaults_by_chapter_input() {
    assert_eq!(normalize_serialization(None, &ChapterInput::NoChapter), "短編");
    assert_eq!(
        normalize_serialization(Some("  "), &ChapterInput::Label("序章".to_string())),
        "連載中"
    );
    assert_eq!(
        normalize_serialization(Some(" 休止 "), &ChapterInput::NoChapter),
        "休止"
    );
}

#[test]
fn parse_chapter_input_supports_legacy_page_ranges() {
    assert_eq!(
        parse_chapter_input(Some("1-3:タイトルA, 4-5:タイトルB")).unwrap(),
        ChapterInput::Sections(vec![
            ChapterRange {
                start_page: 1,
                end_page: 3,
                title: "タイトルA".to_string(),
            },
            ChapterRange {
                start_page: 4,
                end_page: 5,
                title: "タイトルB".to_string(),
            }
        ])
    );
}

#[test]
fn parse_chapter_input_preserves_plain_labels() {
    assert_eq!(
        parse_chapter_input(Some("序章")).unwrap(),
        ChapterInput::Label("序章".to_string())
    );
}

#[test]
fn parse_chapter_input_reports_each_error() {
    assert_eq!(parse_chapter_input(None), Ok(ChapterInput::NoChapter));
    assert_eq!(parse_chapter_input(Some("   ")), Ok(ChapterInput::NoChapter));
    assert_eq!(
        parse_chapter_input(Some("1-2:a, oops")),
        Err(ChapterError::InvalidSegment("oops".to_string()))
    );
    assert_eq!(
        parse_chapter_input(Some("1-2: ")),
        Err(ChapterError::EmptyTitle("1-2:".to_string()))
    );
    assert_eq!(
        parse_chapter_input(Some(":a")),
        Err(ChapterError::MissingRangeStart("".to_string()))
    );
    assert_eq!(
        parse_chapter_input(Some("x-2:a")),
        Err(ChapterError::InvalidRangeStart("x-2".to_string()))
    );
    assert_eq!(
        parse_chapter_input(Some("1-y:a")),
        Err(ChapterError::InvalidRangeEnd("1-y".to_string()))
    );
    assert_eq!(
        parse_chapter_input(Some("3-2:a")),
        Err(ChapterError::InvalidRange("3-2".to_string()))
    );
}

#[test]
fn parse_page_range_reads_dashes_and_single_pages() {
    assert_eq!(parse_page_range(" 2〜4 "), Ok((2, 4)));
    assert_eq!(parse_page_range("7"), Ok((7, 7)));
    assert_eq!(parse_page_range("3~"), Ok((3, 3)));
    assert_eq!(
        parse_page_range("0-1"),
        Err(ChapterError::InvalidRange("0-1".to_string()))
    );
}

#[test]
fn chapter_error_messages_name_the_problem() {
    assert_eq!(
        ChapterError::RangeExceedsPages { start: 2, end: 3, pages: 2 }.message(),
        "chapter range 2-3 exceeds PDF page count 2"
    );
    assert_eq!(
        ChapterError::RangesOverlap { page: 4 }.message(),
        "chapter ranges overlap around page 4"
    );
    assert_eq!(
        ChapterError::InvalidSegment("x".to_string()).message(),
        "invalid chapter segment: x"
    );
}

#[test]
fn build_pdf_episodes_splits_pages_by_chapter_ranges() {
    let episodes = build_pdf_episodes(
        "作品タイトル",
        "PDF説明",
        &[
            "1ページ".to_string(),
            "2ページ".to_string(),
            "3ページ".to_string(),
            "4ページ".to_string(),
            "5ページ".to_string(),
        ],
        &ChapterInput::Sections(vec![
            ChapterRange {
                start_page: 1,
                end_page: 3,
                title: "前編".to_string(),
            },
            ChapterRange {
                start_page: 4,
                end_page: 5,
                title: "後編".to_string(),
            },
        ]),
    )
    .unwrap();

    assert_eq!(episodes.len(), 2);
    assert_eq!(episodes[0].id, "pages-1-3");
    assert_eq!(episodes[0].chapter.as_deref(), Some("前編"));
    assert_eq!(episodes[0].title, "前編");
    assert!(episodes[0].text.contains("[newpage]"));
    assert_eq!(episodes[1].id, "pages-4-5");
    assert_eq!(episodes[1].chapter.as_deref(), Some("後編"));
    assert_eq!(episodes[1].title, "後編");
}

#[test]
fn build_pdf_episodes_rejects_out_of_range_sections() {
    let err = build_pdf_episodes(
        "作品タイトル",
        "",
        &["1ページ".to_string(), "2ページ".to_string()],
        &ChapterInput::Sections(vec![ChapterRange {
            start_page: 2,
            end_page: 3,
            title: "終章".to_string(),
        }]),
    )
    .unwrap_err();

    assert!(err.message().contains("exceeds PDF page count"));
}

#[test]
fn build_chapter_sections_fills_gaps_and_rejects_overlaps() {
    let pages: Vec<String> = (1..=6).map(|n| format!("p{n}")).collect();
    let episodes = build_chapter_sections(
        "W",
        "C",
        &pages,
        &[ChapterRange { start_page: 3, end_page: 4, title: "中".to_string() }],
    )
    .unwrap();
    let ids: Vec<&str> = episodes.iter().map(|e| e.id.as_str()).collect();
    assert_eq!(ids, vec!["pages-1-2", "pages-3-4", "pages-5-6"]);
    assert_eq!(episodes[0].title, "W 1");
    assert_eq!(episodes[0].introduction, "pages-1-2");
    assert_eq!(episodes[2].title, "W 3");
    assert_eq!(episodes[1].text, "p3\n\n[newpage]\n\np4");
    assert_eq!(episodes[1].text_count, 17);

    let err = build_chapter_sections(
        "W",
        "C",
        &pages,
        &[
            ChapterRange { start_page: 4, end_page: 5, title: "b".to_string() },
            ChapterRange { start_page: 1, end_page: 4, title: "a".to_string() },
        ],
    )
    .unwrap_err();
    assert_eq!(err, ChapterError::RangesOverlap { page: 4 });
}

#[test]
fn build_pdf_episodes_without_chapters_makes_one_episode() {
    let episodes = build_pdf_episodes(
        "T",
        "cap",
        &[" a\r\nb ".to_string(), "".to_string()],
        &ChapterInput::NoChapter,
    )
    .unwrap();
    assert_eq!(episodes.len(), 1);
    assert_eq!(episodes[0].id, "pages-1-2");
    assert_eq!(episodes[0].title, "T");
    assert_eq!(episodes[0].introduction, "cap");
    assert_eq!(episodes[0].chapter, None);
    assert_eq!(episodes[0].text, "a\nb\n\n[newpage]");

    let empty = build_pdf_episodes("T", "", &[], &ChapterInput::Label("序".to_string())).unwrap();
    assert_eq!(empty[0].id, "page-1");
    assert_eq!(empty[0].chapter.as_deref(), Some("序"));
}

#[test]
fn sort_chapter_ranges_orders_by_start_end_and_title() {
    let sorted = sort_chapter_ranges(&[
        ChapterRange { start_page: 5, end_page: 6, title: "b".to_string() },
        ChapterRange { start_page: 1, end_page: 2, title: "z".to_string() },
        ChapterRange { start_page: 5, end_page: 6, title: "a".to_string() },
    ]);
    let keys: Vec<(usize, &str)> = sorted.iter().map(|c| (c.start_page, c.title.as_str())).collect();
    assert_eq!(keys, vec![(1, "z"), (5, "a"), (5, "b")]);
}

#[test]
fn page_helpers_format_and_join() {
    assert_eq!(page_label(3, 3), "page-3");
    assert_eq!(page_label(1, 4), "pages-1-4");
    assert_eq!(normalize_page_text("  x\r\ny \n"), "x\ny");
    assert_eq!(
        join_page_text(&[" a ".to_string(), "b".to_string()]),
        "a\n\n[newpage]\n\nb"
    );
}

#[test]
fn derive_pdf_work_key_ignores_request_id_paths_when_author_and_title_exist() {
    let request = RequestData {
        request_id: "req-1".to_string(),
        pdf_name: Some("作品タイトル.pdf".to_string()),
        author_id: Some("author-1".to_string()),
        author_url: Some("https://example.com/authors/1".to_string()),
        chapter: Some("1-3:前編,4-5:後編".to_string()),
        ..Default::default()
    };
    let pages = vec!["1ページ".to_string(), "2ページ".to_string()];

    let first = derive_pdf_work_key(&request, "C:\\queued\\req-1.pdf", &pages);
    let second = derive_pdf_work_key(&request, "C:\\queued\\req-2.pdf", &pages);

    assert_eq!(first, second);
}

#[test]
fn derive_pdf_work_key_falls_back_to_content_when_metadata_is_too_sparse() {
    let request = RequestData {
        request_id: "req-1".to_string(),
        pdf_name: Some("sample.pdf".to_string()),
        ..Default::default()
    };

    let first = derive_pdf_work_key(&request, "C:\\queued\\req-1.pdf", &["同じ本文".to_string()]);
    let second = derive_pdf_work_key(&request, "C:\\queued\\req-2.pdf", &["同じ本文".to_string()]);
    let third = derive_pdf_work_key(&request, "C:\\queued\\req-3.pdf", &["違う本文".to_string()]);

    assert_eq!(first, second);
    assert_ne!(first, third);
}

#[test]
fn work_key_has_slug_and_twelve_hex_digits() {
    let key = work_key_for(Some(" Author  One "), Some("Title"), None, &[]);
    assert!(key.starts_with("ncode_pdf_author_one_title_"));
    let digest = &key["ncode_pdf_author_one_title_".len()..];
    assert_eq!(digest.len(), 12);
    assert!(digest.chars().all(|c| c.is_ascii_hexdigit() && !c.is_ascii_uppercase()));
}

#[test]
fn hashes_match_known_sha256_values() {
    assert_eq!(short_hash("abc"), "ba7816bf8f01");
    assert_eq!(short_hash(""), "e3b0c44298fc");
    assert_eq!(hex_prefix(&[0x00, 0xab, 0x10]), "00ab10");
    assert_eq!(pdf_content_fingerprint(&[]), "e3b0c44298fc");
    assert_eq!(pdf_content_fingerprint(&["abc".to_string()]), short_hash("abc\0"));
}

#[test]
fn slug_and_identity_follow_the_rules() {
    assert_eq!(build_work_key_slug(None, None, None), "import");
    assert_eq!(build_work_key_slug(Some("a/b"), Some("c"), None), "a_b_c");
    assert_eq!(build_work_key_slug(Some("_x_"), None, None), "x");
    let long = "x".repeat(60);
    assert_eq!(build_work_key_slug(Some(&long), Some("y"), None), "x".repeat(48));
    assert_eq!(sanitize_key("a b:c?d&e=f"), "a_b_c_d_e_f");
    assert_eq!(
        normalized_identity_component(Some("  Foo\tBAR  baz ")),
        Some("foo bar baz".to_string())
    );
    assert_eq!(normalized_identity_component(Some("   ")), None);
    assert_eq!(normalized_identity_component(None), None);
}

#[test]
fn narou_codes_are_found_and_candidates_sorted() {
    assert_eq!(extract_narou_nid(" see N1234AB here"), Some("n1234ab".to_string()));
    assert_eq!(extract_narou_nid("nothing"), None);
    assert!(looks_like_narou_nid(" N1234AB "));
    assert!(!looks_like_narou_nid("https://ncode.syosetu.com/n1234ab/"));
    assert_eq!(
        narou_lookup_candidates(" https://ncode.syosetu.com/N1234AB/ "),
        vec![
            "https://ncode.syosetu.com/n1234ab/".to_string(),
            "https___ncode.syosetu.com_n1234ab_".to_string(),
            "n1234ab".to_string(),
        ]
    );
    assert_eq!(narou_lookup_candidates("  "), Vec::<String>::new());
    assert_eq!(
        sorted_unique_strings(vec!["b".to_string(), "a".to_string(), "b".to_string()]),
        vec!["a".to_string(), "b".to_string()]
    );
}

#[test]
fn narou_download_decides_import_keep_or_refuse() {
    let candidates = narou_lookup_candidates(" N1234AB ");
    assert_eq!(narou_download_outcome(true, Some("n1234ab"), &candidates, " N1234AB "), Ok(NarouDownloadOutcome::Import));
    assert_eq!(
        narou_download_outcome(false, Some("n1234ab"), &candidates, " N1234AB "),
        Ok(NarouDownloadOutcome::Kept(
            "narou n1234ab は既存データを保持しました。PDF アップロードなしには更新できないため、/api/ から PDF を添付してください"
                .to_string()
        ))
    );
    assert_eq!(
        narou_download_outcome(false, None, &candidates, " N1234AB "),
        Err("narou n1234ab は未登録です。PDF を /api/ から添付してください".to_string())
    );
    assert_eq!(
        narou_download_outcome(false, None, &narou_lookup_candidates(" 作品 "), " 作品 "),
        Err("narou 作品 は未登録です。PDF を /api/ から添付してください".to_string())
    );
}

#[test]
fn stored_narou_works_match_by_key_or_code() {
    let candidates = narou_lookup_candidates("N1234AB");
    assert!(existing_narou_work_matches("N1234AB", None, &candidates));
    assert!(existing_narou_work_matches("ncode_pdf_x", Some(" N1234AB "), &candidates));
    assert!(!existing_narou_work_matches("other", Some("n9"), &candidates));
}

#[test]
fn pdf_work_key_follows_the_given_name() {
    let r = RequestData { pdf_name: Some("sample.pdf".to_string()), ..RequestData::default() };
    let same = vec!["同じ本文".to_string()];
    let other = vec!["違う本文".to_string()];
    let k1 = derive_pdf_work_key(&r, "C:\\queued\\req-1.pdf", &same);
    let k2 = derive_pdf_work_key(&r, "C:\\queued\\req-2.pdf", &same);
    let k3 = derive_pdf_work_key(&r, "C:\\queued\\req-3.pdf", &other);
    assert_eq!(k1, k2);
    assert_ne!(k1, k3);
    assert!(k1.starts_with("ncode_pdf_"));
}
