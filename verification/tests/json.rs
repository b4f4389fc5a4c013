use narou_bridge::json::{
    collect_markup_image_names, extract_comic_series_entries, extract_flat_tags,
    extract_object_keys, extract_profile_ids, extract_tag_names_from_translation,
    extract_tag_names_nested, find_key_recursively, format_survey, int_field, json_as_str,
    json_get, json_int, sort_episodes_by_create_date, str_field, value_to_string, JsonNumber,
    JsonValue,
};
use narou_bridge::json::{page_original_url, uploaded_image_url};
use narou_bridge::pixiv::{
    fix_bare_pixiv_images, format_novel_markup, page_image_name, page_needed, pixiv_image_requests,
    show_saved_page, show_saved_upload, uploaded_image_ids, uploaded_image_name,
};
use narou_bridge::pixiv::{
    build_work, extract_markup_image_names, format_jump_url, format_jumpuri, format_ruby,
    remove_chapter_tag,
};

fn s(t: &str) -> JsonValue {
    JsonValue::Str(t.to_string())
}

fn obj(entries: Vec<(&str, JsonValue)>) -> JsonValue {
    JsonValue::Object(entries.into_iter().map(|(k, v)| (k.to_string(), v)).collect())
}

fn text_of(v: Option<&JsonValue>) -> Option<&str> {
    json_as_str(v)
}

#[test]
fn value_to_string_renders_scalars() {
    assert_eq!(value_to_string(&s("abc")), "abc");
    assert_eq!(value_to_string(&json_int(-12)), "-12");
    assert_eq!(
        value_to_string(&JsonValue::Number(JsonNumber { text: "1.5".to_string(), int: None })),
        "1.5"
    );
    assert_eq!(value_to_string(&JsonValue::Bool(true)), "true");
    assert_eq!(value_to_string(&JsonValue::Null), "");
}

#[test]
fn fields_fall_back_to_defaults() {
    let body = obj(vec![("title", s("T")), ("count", json_int(7)), ("name", json_int(3))]);
    assert_eq!(str_field(&body, "title", "x"), "T");
    assert_eq!(str_field(&body, "count", "x"), "x");
    assert_eq!(str_field(&body, "missing", "x"), "x");
    assert_eq!(int_field(&body, &["missing", "title", "count"]), 7);
    assert_eq!(int_field(&body, &["missing"]), 0);
}

#[test]
fn format_survey_lists_choices() {
    let survey = obj(vec![
        ("question", s("好き？")),
        ("total", json_int(3)),
        (
            "choices",
            JsonValue::Array(vec![
                obj(vec![("text", s("はい")), ("count", json_int(2))]),
                obj(vec![("text", s("いいえ")), ("count", json_int(1))]),
            ]),
        ),
    ]);
    assert_eq!(
        format_survey(Some(survey)),
        "アンケート　\"好き？\"　　票数3票\n\n　　　はい　　2票\n　　　いいえ　　1票\n"
    );
    assert_eq!(format_survey(Some(s("not an object"))), "");
    assert_eq!(format_survey(None), "");
}

#[test]
fn profile_ids_come_from_keys_or_item_ids() {
    let by_keys = obj(vec![("11", JsonValue::Null), ("12", JsonValue::Null)]);
    assert_eq!(extract_profile_ids(Some(&by_keys)), vec!["11".to_string(), "12".to_string()]);
    let by_items = JsonValue::Array(vec![
        obj(vec![("id", json_int(5))]),
        obj(vec![("id", s(""))]),
        obj(vec![("other", s("x"))]),
        obj(vec![("id", s("6"))]),
    ]);
    assert_eq!(extract_profile_ids(Some(&by_items)), vec!["5".to_string(), "6".to_string()]);
    assert!(extract_profile_ids(None).is_empty());
    assert_eq!(extract_object_keys(Some(&by_keys)), vec!["11".to_string(), "12".to_string()]);
    assert!(extract_object_keys(Some(&by_items)).is_empty());
}

#[test]
fn tags_are_read_from_nested_flat_and_translated_forms() {
    let body = obj(vec![(
        "tags",
        obj(vec![(
            "tags",
            JsonValue::Array(vec![
                obj(vec![("tag", s("#剣#魔法"))]),
                obj(vec![("tag", s("魔法"))]),
                obj(vec![("name", s("skip"))]),
            ]),
        )]),
    )]);
    assert_eq!(
        extract_tag_names_nested(&body, &["tags", "tags"]),
        vec!["剣".to_string(), "魔法".to_string()]
    );
    assert!(extract_tag_names_nested(&body, &["tags", "missing"]).is_empty());
    let flat = obj(vec![("tags", JsonValue::Array(vec![s(" a "), json_int(1), s("b#a")]))]);
    assert_eq!(extract_flat_tags(&flat, "tags"), vec!["a".to_string(), "b".to_string()]);
    let table = obj(vec![("x", JsonValue::Null), ("y", JsonValue::Null)]);
    assert_eq!(
        extract_tag_names_from_translation(Some(&table)),
        vec!["x".to_string(), "y".to_string()]
    );
}

#[test]
fn extract_comic_series_entries_stops_after_thumbnail_fallback_page() {
    let body = obj(vec![(
        "thumbnails",
        obj(vec![(
            "illust",
            JsonValue::Array(vec![
                obj(vec![("id", s("100")), ("seriesOrder", json_int(1))]),
                obj(vec![("id", s("200")), ("seriesOrder", json_int(2))]),
            ]),
        )]),
    )]);

    let page = extract_comic_series_entries(&body, 3);
    assert_eq!(page.entries.len(), 2);
    assert!(!page.has_more);
    assert_eq!(text_of(json_get(&page.entries[0], "workId")), Some("100"));
}

#[test]
fn comic_entries_prefer_listed_series_and_number_thumbnails() {
    let listed = obj(vec![("series", JsonValue::Array(vec![s("a")]))]);
    let page = extract_comic_series_entries(&listed, 1);
    assert!(page.has_more);
    assert_eq!(page.entries.len(), 1);
    let thumbs = obj(vec![(
        "thumbnails",
        obj(vec![("illust", JsonValue::Array(vec![obj(vec![("id", json_int(9))])]))]),
    )]);
    let page = extract_comic_series_entries(&thumbs, 3);
    assert_eq!(value_to_string(json_get(&page.entries[0], "order").unwrap()), "3");
    assert_eq!(text_of(json_get(&page.entries[0], "workId")), Some("9"));
}

#[test]
fn find_key_recursively_walks_depth_first() {
    let value = obj(vec![
        ("a", JsonValue::Array(vec![obj(vec![("b", obj(vec![("key", s("deep"))]))])])),
        ("c", obj(vec![("key", s("later"))])),
    ]);
    let found = find_key_recursively(&value, "key").unwrap();
    assert_eq!(value_to_string(&found), "deep");
    assert!(find_key_recursively(&value, "none").is_none());
}

#[test]
fn episodes_are_renumbered_by_creation_date() {
    let episodes = vec![
        ("x".to_string(), obj(vec![("createDate", s("2024-02")), ("title", s("B"))])),
        ("y".to_string(), obj(vec![("createDate", s("2024-01")), ("title", s("A"))])),
        ("z".to_string(), obj(vec![("createDate", s("2024-02")), ("title", s("C"))])),
    ];
    let sorted = sort_episodes_by_create_date(episodes);
    let keys: Vec<&str> = sorted.iter().map(|(k, _)| k.as_str()).collect();
    assert_eq!(keys, vec!["1", "2", "3"]);
    let titles: Vec<String> =
        sorted.iter().map(|(_, v)| str_field(v, "title", "")).collect();
    assert_eq!(titles, vec!["A".to_string(), "B".to_string(), "C".to_string()]);
}

#[test]
fn markup_image_names_are_collected_from_every_string() {
    assert_eq!(
        extract_markup_image_names("x[image]( a.png )y[image]()z[image](b.jpg"),
        vec!["a.png".to_string()]
    );
    let value = obj(vec![
        ("t", s("[image](b.png)[image](a.png)")),
        ("u", JsonValue::Array(vec![s("[image](a.png)")])),
    ]);
    assert_eq!(
        collect_markup_image_names(&value),
        vec!["a.png".to_string(), "b.png".to_string()]
    );
}

#[test]
fn pixiv_marks_are_rewritten() {
    assert_eq!(format_ruby("a[[rb:漢字 > かんじ]]b"), "a[ruby:<漢字>(かんじ)]b");
    assert_eq!(remove_chapter_tag("intro[chapter:第一章]body"), "intro\n第一章\n\n\nbody");
    assert_eq!(remove_chapter_tag("[chapter:A\nB]rest"), "AB\n\n\nrest");
    assert_eq!(
        format_jumpuri("[[jumpuri:site > /https://example.com]]"),
        "<a href=\"https://example.com\">site</a>"
    );
    assert_eq!(
        format_jump_url("<a href=\"/jump.php?https%3A%2F%2Fexample.com%2F\">"),
        "<a href=\"https://example.com/\">"
    );
}

#[test]
fn build_work_stores_the_document() {
    let episodes = vec![("1".to_string(), obj(vec![("title", s("E"))]))];
    let record = build_work(
        "pixiv-1",
        "1",
        "Title",
        "Author",
        Some("42".to_string()),
        None,
        "Caption",
        "novel",
        "短編",
        &["t".to_string()],
        &[],
        "2024-01-01",
        "2024-01-02",
        10,
        10,
        1,
        1,
        &episodes,
        "https://www.pixiv.net/novel/show.php?id=1",
    );
    assert_eq!(record.site, "pixiv");
    assert_eq!(record.work_type, "novel");
    assert_eq!(text_of(json_get(&record.raw_json, "nid")), Some("pixiv-1"));
    assert_eq!(value_to_string(json_get(&record.raw_json, "version").unwrap()), "0");
    assert!(matches!(json_get(&record.raw_json, "author_url"), Some(JsonValue::Null)));
    assert!(json_get(&record.raw_json, "get_date").is_some());
    let eps = json_get(&record.raw_json, "episodes").unwrap();
    assert_eq!(str_field(json_get(eps, "1").unwrap(), "title", ""), "E");
}

#[test]
fn image_links_of_a_pixiv_text_are_found_and_replaced() {
    let text = fix_bare_pixiv_images("a[pixivimage:20]b[pixivimage:10-2][pixivimage:20-3][uploadedimage:7]");
    assert_eq!(text, "a[pixivimage:20-1]b[pixivimage:10-2][pixivimage:20-3][uploadedimage:7]");
    let requests = pixiv_image_requests(&text);
    assert_eq!(
        requests,
        vec![
            ("10".to_string(), vec!["2".to_string()]),
            ("20".to_string(), vec!["1".to_string(), "3".to_string()]),
        ]
    );
    assert!(page_needed(&requests[1].1, 2));
    assert!(!page_needed(&requests[1].1, 1));
    assert_eq!(page_image_name("20", 2, "https://i.pximg.net/a/20_p2.png"), "pixiv_20_p2.png");
    assert_eq!(uploaded_image_ids(&text), vec!["7".to_string()]);
    assert_eq!(uploaded_image_name("99", "7", "https://x/y.gif?t=1"), "pixiv_99_7.gif");
    let shown = show_saved_page(&text, "20", "3", "abc.png");
    assert_eq!(shown, "a[pixivimage:20-1]b[pixivimage:10-2][image](abc.png)[uploadedimage:7]");
    assert_eq!(show_saved_upload("[uploadedimage:7]", "7", "h.gif"), "[image](h.gif)");
    let page = obj(vec![("urls", obj(vec![("original", s("https://i.pximg.net/o.png"))]))]);
    assert_eq!(page_original_url(&page).as_deref(), Some("https://i.pximg.net/o.png"));
    assert_eq!(page_original_url(&obj(vec![])), None);
    let data = obj(vec![("textEmbeddedImages", obj(vec![("7", page)]))]);
    assert_eq!(uploaded_image_url(&data, "7").as_deref(), Some("https://i.pximg.net/o.png"));
}

#[test]
fn novel_markup_rewrites_every_mark() {
    assert_eq!(
        format_novel_markup("[[rb:字 > じ]][chapter:章]x[[jumpuri:y > /http://z]]"),
        "[ruby:<字>(じ)]\n章\n\n\nx<a href=\"http://z\">y</a>"
    );
}
