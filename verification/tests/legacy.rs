use narou_bridge::json::{json_as_str, json_get, json_int, JsonValue};
use narou_bridge::legacy::{
    detect_action, detect_param, normalize_pixiv_illust_ids, normalize_pixiv_tracked_user_entry,
    parse_request_data, pick_first_str,
};

fn s(t: &str) -> JsonValue {
    JsonValue::Str(t.to_string())
}

fn obj(entries: Vec<(&str, JsonValue)>) -> JsonValue {
    JsonValue::Object(entries.into_iter().map(|(k, v)| (k.to_string(), v)).collect())
}

#[test]
fn legacy_requests_keep_their_string_fields() {
    let value = obj(vec![("request_id", s("r1")), ("update", s("pixiv")), ("add", s("x")), ("chapter", json_int(2))]);
    let req = parse_request_data(&value);
    assert_eq!(req.request_id, "r1");
    assert_eq!(req.update.as_deref(), Some("pixiv"));
    assert_eq!(req.chapter, None);
    assert_eq!(detect_action(&req), "update");
    assert_eq!(detect_param(&req), "pixiv");
    let empty = parse_request_data(&JsonValue::Null);
    assert_eq!(empty.request_id, "");
    assert_eq!(detect_action(&empty), "download");
    assert_eq!(detect_param(&empty), "");
}

#[test]
fn first_string_of_several_keys() {
    let value = obj(vec![("create_date", s("d2")), ("createDate", json_int(1))]);
    assert_eq!(pick_first_str(&value, &["createDate", "create_date"]), "d2");
    assert_eq!(pick_first_str(&value, &["none"]), "");
}

#[test]
fn tracked_user_entries_enable_missing_kinds() {
    let entry = normalize_pixiv_tracked_user_entry(&obj(vec![("comic", s("disable")), ("name", s("n"))]));
    assert_eq!(json_as_str(json_get(&entry, "novel")), Some("enable"));
    assert_eq!(json_as_str(json_get(&entry, "comic")), Some("disable"));
    let keys: Vec<String> = match &entry {
        JsonValue::Object(e) => e.iter().map(|(k, _)| k.clone()).collect(),
        _ => vec![],
    };
    assert_eq!(keys, vec!["comic".to_string(), "name".to_string(), "novel".to_string()]);
    let fresh = normalize_pixiv_tracked_user_entry(&s("junk"));
    assert_eq!(json_as_str(json_get(&fresh, "comic")), Some("enable"));
}

#[test]
fn illust_id_snapshots_are_sorted_and_unique() {
    let value = JsonValue::Array(vec![s("20"), json_int(10), s("20"), JsonValue::Null]);
    assert_eq!(normalize_pixiv_illust_ids(&value), vec!["10".to_string(), "20".to_string()]);
    assert!(normalize_pixiv_illust_ids(&s("x")).is_empty());
}
