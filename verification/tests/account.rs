use narou_bridge::account::{
    account_file_from_value, build_cookie_string, cookie_value, json_type_name, normalize_cookies,
    optional_string, validate_account_file, AccountFile,
};
use narou_bridge::json::{json_as_str, json_get, json_int, JsonValue};

fn s(t: &str) -> JsonValue {
    JsonValue::Str(t.to_string())
}

fn obj(entries: Vec<(&str, JsonValue)>) -> JsonValue {
    JsonValue::Object(entries.into_iter().map(|(k, v)| (k.to_string(), v)).collect())
}

fn keys(v: &JsonValue) -> Vec<String> {
    match v {
        JsonValue::Object(entries) => entries.iter().map(|(k, _)| k.clone()).collect(),
        _ => Vec::new(),
    }
}

#[test]
fn deserializes_login_helper_account_payload() {
    let value = obj(vec![
        ("cookies", obj(vec![("PHPSESSID", s("12345_abcdefXYZ")), ("device_token", s("token"))])),
        ("user_agent", s("helper-ua")),
        ("display_name", s("helper-user")),
    ]);
    let account = account_file_from_value(value).unwrap();
    assert_eq!(json_as_str(json_get(&account.cookies, "PHPSESSID")), Some("12345_abcdefXYZ"));
    assert_eq!(account.user_agent.as_deref(), Some("helper-ua"));
    assert_eq!(account.display_name.as_deref(), Some("helper-user"));
}

#[test]
fn deserializes_cookie_list_and_ua_alias() {
    let value = obj(vec![
        (
            "cookies",
            JsonValue::Array(vec![
                obj(vec![("name", s("PHPSESSID")), ("value", s("12345_abcdefXYZ"))]),
                obj(vec![("name", s("device_token")), ("value", s("token"))]),
            ]),
        ),
        ("ua", s("legacy-ua")),
    ]);
    let account = account_file_from_value(value).unwrap();
    assert_eq!(keys(&account.cookies), vec!["PHPSESSID".to_string(), "device_token".to_string()]);
    assert_eq!(json_as_str(json_get(&account.cookies, "PHPSESSID")), Some("12345_abcdefXYZ"));
    assert_eq!(json_as_str(json_get(&account.cookies, "device_token")), Some("token"));
    assert_eq!(account.user_agent.as_deref(), Some("legacy-ua"));
    assert_eq!(account.display_name, None);
}

#[test]
fn validates_pixiv_cookie_successfully() {
    let account = AccountFile {
        cookies: obj(vec![("PHPSESSID", s("12345_abcdefXYZ"))]),
        user_agent: Some("ua".to_string()),
        display_name: Some("pixiv".to_string()),
    };
    assert!(validate_account_file("pixiv", &account).is_ok());
}

#[test]
fn rejects_missing_pixiv_phpsessid() {
    let account = AccountFile {
        cookies: obj(vec![("device_token", s("token"))]),
        user_agent: None,
        display_name: None,
    };
    let err = validate_account_file("pixiv", &account).unwrap_err();
    assert_eq!(err, "必須クッキー (PHPSESSID) がありません");
}

#[test]
fn rejects_invalid_pixiv_phpsessid_format() {
    let account = AccountFile {
        cookies: obj(vec![("PHPSESSID", s("invalid"))]),
        user_agent: None,
        display_name: None,
    };
    let err = validate_account_file("pixiv", &account).unwrap_err();
    assert_eq!(err, "PHPSESSID が不正な形式です");
}

#[test]
fn other_sites_need_no_session() {
    let account = AccountFile { cookies: JsonValue::Null, user_agent: None, display_name: None };
    assert!(validate_account_file("narou", &account).is_ok());
}

#[test]
fn cookie_lists_are_ordered_by_name_and_later_entries_win() {
    let list = JsonValue::Array(vec![
        obj(vec![("name", s("b")), ("value", json_int(1))]),
        obj(vec![("name", s("a")), ("value", JsonValue::Bool(true))]),
        obj(vec![("name", s("b")), ("value", s("2"))]),
        obj(vec![("name", s("c"))]),
        s("junk"),
    ]);
    let cookies = normalize_cookies(list).unwrap();
    assert_eq!(keys(&cookies), vec!["a".to_string(), "b".to_string()]);
    assert_eq!(json_as_str(json_get(&cookies, "a")), Some("true"));
    assert_eq!(json_as_str(json_get(&cookies, "b")), Some("2"));
    assert_eq!(normalize_cookies(s("x")).unwrap_err(), "cookies must be an object or list");
    assert!(keys(&normalize_cookies(JsonValue::Null).unwrap()).is_empty());
}

#[test]
fn account_roots_must_be_objects_or_lists() {
    let err = account_file_from_value(json_int(3)).unwrap_err();
    assert_eq!(err, "unsupported account JSON root: number");
    let bare = account_file_from_value(obj(vec![("PHPSESSID", s("1_a")), ("n", JsonValue::Null)])).unwrap();
    assert_eq!(keys(&bare.cookies), vec!["PHPSESSID".to_string()]);
    assert_eq!(json_type_name(&JsonValue::Array(vec![])), "array");
    assert_eq!(optional_string(Some(&json_int(5))).as_deref(), Some("5"));
    assert!(cookie_value(JsonValue::Null).is_none());
}

#[test]
fn cookie_header_joins_pairs() {
    let account = AccountFile {
        cookies: obj(vec![("a", s("1")), ("b", json_int(2))]),
        user_agent: None,
        display_name: None,
    };
    assert_eq!(build_cookie_string(&account), "a=1; b=");
}
