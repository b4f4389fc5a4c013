use narou_bridge::api_json::{
    collect_narou_cover_candidates, ensure_work_payload_has_episodes,
    find_raw_episode, json_scalar_matches, markup_logical_names, resolve_episode_image_names,
    resolve_image_markup_names, work_metadata_json,
};
use narou_bridge::json::{json_as_str, json_get, json_int, str_field, JsonValue};
use narou_bridge::markup::{ImageAsset, ImageTable};

fn s(t: &str) -> JsonValue {
    JsonValue::Str(t.to_string())
}

fn obj(entries: Vec<(&str, JsonValue)>) -> JsonValue {
    JsonValue::Object(entries.into_iter().map(|(k, v)| (k.to_string(), v)).collect())
}

fn sample_work() -> JsonValue {
    obj(vec![
        ("title", s("T")),
        (
            "episodes",
            obj(vec![
                ("1", obj(vec![("id", json_int(10)), ("title", s("E1")), ("text", s("body")), ("introduction", s("i"))])),
                ("2", obj(vec![("id", s("x2")), ("postscript", s("p")), ("title", s("E2"))])),
            ]),
        ),
    ])
}

#[test]
fn work_metadata_leaves_out_episode_texts() {
    let meta = work_metadata_json(&sample_work());
    assert_eq!(str_field(&meta, "title", ""), "T");
    let eps = json_get(&meta, "episodes").unwrap();
    let first = json_get(eps, "1").unwrap();
    assert_eq!(str_field(first, "title", ""), "E1");
    assert!(json_get(first, "text").is_none());
    assert!(json_get(first, "introduction").is_none());
    assert!(json_get(json_get(eps, "2").unwrap(), "postscript").is_none());
    assert_eq!(str_field(&work_metadata_json(&s("plain")), "x", "d"), "d");
}

#[test]
fn episodes_are_found_by_key_or_id() {
    let work = sample_work();
    assert_eq!(str_field(&find_raw_episode(&work, "2").unwrap(), "title", ""), "E2");
    assert_eq!(str_field(&find_raw_episode(&work, "10").unwrap(), "title", ""), "E1");
    assert_eq!(str_field(&find_raw_episode(&work, "x2").unwrap(), "title", ""), "E2");
    assert!(find_raw_episode(&work, "3").is_none());
    let legacy = obj(vec![("episodes_data", obj(vec![("5", s("e"))]))]);
    assert!(find_raw_episode(&legacy, "5").is_some());
    assert!(json_scalar_matches(&json_int(7), "7"));
    assert!(!json_scalar_matches(&JsonValue::Bool(true), "true"));
}

#[test]
fn image_names_resolve_to_stored_files() {
    let mut images = ImageTable::new();
    images.insert("a.png".to_string(), ImageAsset { hash: "h1".to_string(), ext: "png".to_string() });
    let text = "x[image](a.png)y[image](b.gif)z[image](open";
    assert_eq!(markup_logical_names(text), vec!["a.png".to_string(), "b.gif".to_string()]);
    assert_eq!(
        resolve_image_markup_names(text, &images),
        "x[image](h1.png)y[image](b.gif)z[image](open"
    );
    assert_eq!(resolve_image_markup_names("[image](a.png", &images), "[image](a.png");
    let episode = obj(vec![("text", s("[image](a.png)")), ("title", s("[image](a.png)"))]);
    let resolved = resolve_episode_image_names(&episode, &images);
    assert_eq!(json_as_str(json_get(&resolved, "text")), Some("[image](h1.png)"));
    assert_eq!(json_as_str(json_get(&resolved, "title")), Some("[image](a.png)"));
}

#[test]
fn cover_candidates_come_from_cover_fields_and_image_marks() {
    let raw = obj(vec![
        ("cover", s(" c.png ")),
        ("episodes", obj(vec![("1", obj(vec![("text", s("[image](a.png) and [image](c.png)"))]))])),
        ("thumbnail", JsonValue::Array(vec![s("t.jpg"), json_int(3)])),
    ]);
    let mut candidates = Vec::new();
    collect_narou_cover_candidates(&raw, false, &mut candidates);
    assert_eq!(candidates, vec!["c.png".to_string(), "a.png".to_string(), "t.jpg".to_string()]);
}

#[test]
fn ensure_work_payload_requires_episodes() {
    let empty = obj(vec![("episodes", obj(vec![]))]);
    let err = ensure_work_payload_has_episodes("work", &empty).unwrap_err();
    assert!(err.contains("missing episodes"));
    assert_eq!(err, "zip work payload work is missing episodes");
    let full = obj(vec![("episodes", obj(vec![("1", obj(vec![]))]))]);
    assert!(ensure_work_payload_has_episodes("work", &full).is_ok());
}
