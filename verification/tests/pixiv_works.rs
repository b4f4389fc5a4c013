use narou_bridge::followed::PixivTrackedUserEntry;
use narou_bridge::json::{json_as_i64, json_as_str, json_get, json_int, JsonValue};
use narou_bridge::pixiv_works::{
    add_comic_entries, art_pages_text, art_targets, art_work_record, check_comic_arts,
    comic_episode_doc, comic_page_art_ids, comic_series_meta, comic_work_record, failure_text,
    new_art_ids, note_tracked_user, novel_work_record, series_content_ids, series_toc_targets,
    series_work_record, standalone_novels, user_display_name, ComicEpisodes, SeriesEpisodes,
};

fn s(t: &str) -> JsonValue {
    JsonValue::Str(t.to_string())
}

fn obj(entries: Vec<(&str, JsonValue)>) -> JsonValue {
    JsonValue::Object(entries.into_iter().map(|(k, v)| (k.to_string(), v)).collect())
}

fn strings(items: &[&str]) -> Vec<String> {
    items.iter().map(|t| t.to_string()).collect()
}

fn text_at<'a>(v: &'a JsonValue, path: &[&str]) -> Option<&'a str> {
    let mut cur = v;
    for key in path {
        cur = json_get(cur, key)?;
    }
    json_as_str(Some(cur))
}

fn novel_body() -> JsonValue {
    obj(vec![
        ("title", s("Novel Title")),
        ("userName", s("Writer")),
        ("userId", s("42")),
        ("description", s("first%20line")),
        ("characterCount", json_int(1200)),
        ("createDate", s("2024-01-02T00:00:00+09:00")),
        ("uploadDate", s("2024-01-03T00:00:00+09:00")),
        (
            "tags",
            obj(vec![(
                "tags",
                JsonValue::Array(vec![obj(vec![("tag", s("fantasy"))])]),
            )]),
        ),
    ])
}

#[test]
fn novel_record_reads_the_answer() {
    let r = novel_work_record("123", &novel_body(), "body text");
    assert_eq!(r.site, "pixiv");
    assert_eq!(r.work_key, "n123");
    assert_eq!(r.title, "Novel Title");
    assert_eq!(r.author, "Writer");
    assert_eq!(r.author_id.as_deref(), Some("42"));
    assert_eq!(r.author_url.as_deref(), Some("https://www.pixiv.net/users/42"));
    assert_eq!(r.work_type, "novel");
    assert_eq!(r.create_date, "2024-01-02T00:00:00+09:00");
    assert_eq!(r.update_date, "2024-01-03T00:00:00+09:00");
    assert_eq!(text_at(&r.raw_json, &["url"]), Some("https://www.pixiv.net/novel/show.php?id=123"));
    assert_eq!(text_at(&r.raw_json, &["serialization"]), Some("短編"));
    assert_eq!(text_at(&r.raw_json, &["episodes", "1", "text"]), Some("body text"));
    assert_eq!(text_at(&r.raw_json, &["episodes", "1", "introduction"]), Some("first line"));
    assert_eq!(json_as_i64(json_get(&r.raw_json, "total_characters")), Some(1200));
}

#[test]
fn novel_record_falls_back_without_fields() {
    let r = novel_work_record("9", &obj(vec![]), "");
    assert_eq!(r.title, "9");
    assert_eq!(r.author, "pixiv");
    assert_eq!(r.author_id, None);
    assert_eq!(r.author_url, None);
}

#[test]
fn art_record_is_a_comic() {
    let r = art_work_record("77", &novel_body(), "[pixivimage:77-1]\n");
    assert_eq!(r.work_key, "a77");
    assert_eq!(r.work_type, "comic");
    assert_eq!(text_at(&r.raw_json, &["url"]), Some("https://www.pixiv.net/artworks/77"));
    assert_eq!(json_as_i64(json_get(&r.raw_json, "total_characters")), Some(0));
}

#[test]
fn art_pages_are_numbered_from_one() {
    let pages = JsonValue::Array(vec![
        obj(vec![("urls", obj(vec![("original", s("https://i.pximg.net/img/77_p0.png"))]))]),
        obj(vec![("urls", obj(vec![("original", s("https://i.pximg.net/img/77_p1.jpg"))]))]),
        obj(vec![("urls", obj(vec![("original", s("no-page-number"))]))]),
    ]);
    assert_eq!(art_pages_text("77", &pages), "[pixivimage:77-1]\n[pixivimage:77-2]\n");
    assert_eq!(art_pages_text("77", &JsonValue::Null), "");
}

#[test]
fn series_toc_lists_visible_episodes() {
    let toc = JsonValue::Array(vec![
        obj(vec![("id", s("1")), ("title", s("One")), ("available", JsonValue::Bool(true))]),
        obj(vec![("id", s("2")), ("title", s("Two")), ("available", JsonValue::Bool(false))]),
    ]);
    let targets = series_toc_targets(&toc);
    assert_eq!(targets, vec![(0, "1".to_string(), "One".to_string())]);
}

#[test]
fn series_record_numbers_episodes_by_date() {
    let body = obj(vec![
        ("title", s("Series")),
        ("userName", s("Writer")),
        ("userId", s("5")),
        ("isConcluded", JsonValue::Bool(true)),
    ]);
    let mut gathered = SeriesEpisodes::new(strings(&["tag"]));
    let late = obj(vec![("id", s("b")), ("createDate", s("2024-02-01"))]);
    let early = obj(vec![("id", s("a")), ("createDate", s("2024-01-01"))]);
    gathered.add(1, late, strings(&["x"]), 10);
    gathered.add(2, early, strings(&["x", "y"]), 5);
    let r = series_work_record("300", &body, gathered);
    assert_eq!(r.work_key, "s300");
    assert_eq!(text_at(&r.raw_json, &["serialization"]), Some("完結済"));
    assert_eq!(text_at(&r.raw_json, &["url"]), Some("https://www.pixiv.net/novel/series/300"));
    assert_eq!(text_at(&r.raw_json, &["episodes", "1", "id"]), Some("a"));
    assert_eq!(text_at(&r.raw_json, &["episodes", "2", "id"]), Some("b"));
    assert_eq!(json_as_i64(json_get(&r.raw_json, "total_characters")), Some(15));
}

fn comic_first_page() -> JsonValue {
    obj(vec![
        (
            "illustSeries",
            JsonValue::Array(vec![
                obj(vec![("id", s("1")), ("title", s("Other"))]),
                obj(vec![
                    ("id", s("55")),
                    ("title", s("Comic")),
                    ("caption", s("a<br>b")),
                    ("createDate", s("2024-03-01")),
                ]),
            ]),
        ),
        ("users", JsonValue::Array(vec![obj(vec![("userId", s("8")), ("name", s("Artist"))])])),
        (
            "thumbnails",
            obj(vec![(
                "illust",
                JsonValue::Array(vec![obj(vec![("tags", JsonValue::Array(vec![s("t1"), s("t2")]))])]),
            )]),
        ),
    ])
}

#[test]
fn comic_meta_picks_the_series_with_its_id() {
    let meta = comic_series_meta(&comic_first_page(), "55");
    assert_eq!(text_at(&meta.series_info, &["title"]), Some("Comic"));
    assert_eq!(text_at(&meta.user_info, &["name"]), Some("Artist"));
    assert_eq!(meta.first_tags, strings(&["t1", "t2"]));
    let other = comic_series_meta(&comic_first_page(), "999");
    assert_eq!(text_at(&other.series_info, &["title"]), Some("Other"));
    let empty = comic_series_meta(&obj(vec![]), "1");
    assert!(matches!(empty.series_info, JsonValue::Null));
    assert!(matches!(empty.user_info, JsonValue::Null));
    assert!(empty.first_tags.is_empty());
}

#[test]
fn comic_entries_are_kept_by_order() {
    let mut arts: Vec<(i64, String)> = Vec::new();
    let entries = vec![
        obj(vec![("order", json_int(2)), ("workId", s("b"))]),
        obj(vec![("order", json_int(1)), ("id", s("a"))]),
        obj(vec![("order", json_int(2)), ("workId", s("c"))]),
        obj(vec![("order", json_int(3))]),
    ];
    add_comic_entries(&mut arts, &entries);
    assert_eq!(arts, vec![(1, "a".to_string()), (2, "c".to_string())]);
    assert!(check_comic_arts(&arts, "55").is_ok());
    assert_eq!(
        check_comic_arts(&Vec::new(), "55"),
        Err("no artworks found in comic series 55".to_string())
    );
}

#[test]
fn comic_record_is_built_from_its_artworks() {
    let first = comic_first_page();
    let meta = comic_series_meta(&first, "55");
    let mut gathered = ComicEpisodes::new(&meta.first_tags);
    let ep = obj(vec![("title", s("Ep")), ("createDate", s("2024-03-02"))]);
    let (doc, tags) = comic_episode_doc("900", &ep, "[pixivimage:900-1]\n");
    assert_eq!(text_at(&doc, &["title"]), Some("Ep"));
    gathered.add(1, doc, &tags);
    let r = comic_work_record("55", &first, &meta, gathered);
    assert_eq!(r.work_key, "c55");
    assert_eq!(r.title, "Comic");
    assert_eq!(r.author, "Artist");
    assert_eq!(r.caption, "a\nb");
    assert_eq!(text_at(&r.raw_json, &["url"]), Some("https://www.pixiv.net/user/8/series/55"));
    assert_eq!(text_at(&r.raw_json, &["episodes", "1", "id"]), Some("900"));
}

#[test]
fn user_name_must_be_non_empty() {
    let body = obj(vec![("name", s("Someone"))]);
    assert_eq!(user_display_name(Some(&body)), Some("Someone".to_string()));
    assert_eq!(user_display_name(Some(&obj(vec![("name", s(""))]))), None);
    assert_eq!(user_display_name(None), None);
}

#[test]
fn series_contents_give_their_ids() {
    let body = JsonValue::Array(vec![
        obj(vec![("id", s("10"))]),
        obj(vec![("id", json_int(11))]),
        obj(vec![("id", s(""))]),
        obj(vec![]),
    ]);
    assert_eq!(series_content_ids(&body), strings(&["10", "11"]));
    assert!(series_content_ids(&obj(vec![])).is_empty());
    let novels = strings(&["10", "12", "11", "13"]);
    assert_eq!(standalone_novels(&novels, &series_content_ids(&body)), strings(&["12", "13"]));
}

#[test]
fn comic_pages_list_artwork_ids() {
    let entries = vec![
        obj(vec![("workId", s("3"))]),
        obj(vec![("id", json_int(4))]),
        obj(vec![("workId", s(""))]),
    ];
    assert_eq!(comic_page_art_ids(&entries), strings(&["3", "4"]));
}

#[test]
fn artworks_outside_series_are_sorted_once() {
    let illusts = strings(&["30", "10", "20"]);
    let mangas = strings(&["10", "40", "50"]);
    let series = strings(&["50"]);
    let targets = art_targets(&illusts, &mangas, &series);
    assert_eq!(targets, strings(&["10", "20", "30", "40"]));
    let previous = strings(&["10", "30"]);
    assert_eq!(new_art_ids(&targets, &previous, true), strings(&["20", "40"]));
    assert_eq!(new_art_ids(&targets, &previous, false), targets);
}

#[test]
fn failures_name_kind_and_id() {
    assert_eq!(failure_text("novel series", "7", "boom"), "novel series 7: boom");
}

#[test]
fn tracked_user_notes_hash_and_name() {
    let mut entry = PixivTrackedUserEntry::default();
    note_tracked_user(&mut entry, Some("abc".to_string()), &Some("Name".to_string()));
    assert_eq!(entry.illust_ids_snapshot_hash.as_deref(), Some("abc"));
    assert_eq!(entry.name.as_deref(), Some("Name"));
    note_tracked_user(&mut entry, None, &None);
    assert_eq!(entry.illust_ids_snapshot_hash.as_deref(), Some("abc"));
    assert_eq!(entry.name.as_deref(), Some("Name"));
    assert_eq!(entry.novel, "enable");
}
