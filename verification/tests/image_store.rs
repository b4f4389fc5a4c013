use narou_bridge::image_store::{
    body_image_records, cover_candidate_urls, cover_image_record, hashed_image_name,
    image_file_by_prefix, legacy_image_table, parse_markup_image_name, pixiv_cover_name,
    record_image, recorded_image_file,
};
use narou_bridge::json::{json_as_str, json_get, JsonValue};

fn s(t: &str) -> JsonValue {
    JsonValue::Str(t.to_string())
}

fn obj(entries: Vec<(&str, JsonValue)>) -> JsonValue {
    JsonValue::Object(entries.into_iter().map(|(k, v)| (k.to_string(), v)).collect())
}

#[test]
fn images_are_named_by_their_hash() {
    // SHA-256 of "abc" starts with ba7816bf8f01cfea.
    let (hash, file) = hashed_image_name(b"abc", "pixiv_1_p0.png");
    assert_eq!(hash, "ba7816bf8f01cfea");
    assert_eq!(file, "ba7816bf8f01cfea.png");
    let (_, bare) = hashed_image_name(b"abc", "noext");
    assert_eq!(bare, "ba7816bf8f01cfea.noext");
}

#[test]
fn the_database_maps_logical_names_to_files() {
    let db = obj(vec![("b.jpg", s("h2")), ("pixiv_1_cover.png", s("h1"))]);
    assert_eq!(recorded_image_file(&db, "b.jpg").as_deref(), Some("h2.jpg"));
    assert_eq!(recorded_image_file(&db, "c.jpg"), None);
    assert_eq!(image_file_by_prefix(&db, "pixiv_1_cover").as_deref(), Some("h1.png"));
    assert_eq!(image_file_by_prefix(&db, "zzz"), None);
    let updated = record_image(&db, "a.gif", "h0");
    assert_eq!(json_as_str(json_get(&updated, "a.gif")), Some("h0"));
    let keys: Vec<String> = match &updated {
        JsonValue::Object(e) => e.iter().map(|(k, _)| k.clone()).collect(),
        _ => vec![],
    };
    assert_eq!(keys[0], "a.gif");
}

#[test]
fn covers_are_tried_at_original_size_first() {
    let url = "https://i.pximg.net/c/600x600/novel-cover-master/img/1_master1200.jpg";
    assert_eq!(
        cover_candidate_urls(url),
        vec![
            "https://i.pximg.net/novel-cover-original/img/1.png".to_string(),
            "https://i.pximg.net/novel-cover-original/img/1.jpg".to_string(),
            "https://i.pximg.net/novel-cover-original/img/1.jpeg".to_string(),
            "https://i.pximg.net/novel-cover-original/img/1.gif".to_string(),
            url.to_string(),
        ]
    );
    assert_eq!(pixiv_cover_name("n9", url), "pixiv_n9_cover.jpg");
}

#[test]
fn cover_record_takes_the_stored_extension() {
    let r = cover_image_record("n12", "0123456789abcdef.jpg");
    assert_eq!(r.logical_name, "pixiv_n12_cover.jpg");
    assert_eq!(r.hash, "0123456789abcdef");
    assert_eq!(r.ext, "jpg");
    assert_eq!(r.kind, "cover");
}

#[test]
fn content_names_have_sixteen_hex_digits() {
    assert_eq!(
        parse_markup_image_name("0123456789abcdef.png"),
        Some(("0123456789abcdef".to_string(), "png".to_string()))
    );
    assert_eq!(parse_markup_image_name("0123456789abcdeg.png"), None);
    assert_eq!(parse_markup_image_name("0123.png"), None);
    assert_eq!(parse_markup_image_name("0123456789abcdef"), None);
}

#[test]
fn body_images_bring_their_legacy_names() {
    let raw = obj(vec![(
        "episodes",
        obj(vec![(
            "1",
            obj(vec![(
                "text",
                s("[image](0123456789abcdef.png) and [image](bad.png) [image](0123456789abcdef.png)"),
            )]),
        )]),
    )]);
    let legacy_db = obj(vec![
        ("pixiv_1_p0.png", s("0123456789abcdef")),
        ("pixiv_1_p0.jpg", s("0123456789abcdef")),
        ("other.png", s("ffffffffffffffff")),
        ("number", JsonValue::Bool(true)),
    ]);
    let legacy = legacy_image_table(&legacy_db);
    assert_eq!(legacy.len(), 3);
    let recs = body_image_records(&raw, &legacy);
    let names: Vec<&str> = recs.iter().map(|r| r.logical_name.as_str()).collect();
    assert_eq!(names, vec!["0123456789abcdef.png", "pixiv_1_p0.png"]);
    assert!(recs.iter().all(|r| r.hash == "0123456789abcdef" && r.ext == "png" && r.kind == "image"));
    assert!(body_image_records(&s("no images"), &legacy).is_empty());
}
