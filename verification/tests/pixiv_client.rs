use narou_bridge::account::AccountFile;
use narou_bridge::json::{json_as_str, json_get, json_int, JsonValue};
use narou_bridge::pixiv_client::{
    account_file_candidates, check_pixiv_response, client_headers, pixiv_answer_body,
};

fn s(t: &str) -> JsonValue {
    JsonValue::Str(t.to_string())
}

fn obj(entries: Vec<(&str, JsonValue)>) -> JsonValue {
    JsonValue::Object(entries.into_iter().map(|(k, v)| (k.to_string(), v)).collect())
}

fn strings(items: &[&str]) -> Vec<String> {
    items.iter().map(|t| t.to_string()).collect()
}

#[test]
fn headers_use_the_account_browser_and_cookies() {
    let (ua, cookie) = client_headers(None);
    assert!(ua.starts_with("Mozilla/5.0 (Windows NT 10.0"));
    assert_eq!(cookie, None);
    let account = AccountFile {
        cookies: obj(vec![("PHPSESSID", s("abc")), ("x", s("1"))]),
        user_agent: Some("agent".to_string()),
        display_name: None,
    };
    let (ua, cookie) = client_headers(Some(&account));
    assert_eq!(ua, "agent");
    assert_eq!(cookie.as_deref(), Some("PHPSESSID=abc; x=1"));
    let blank = AccountFile { cookies: JsonValue::Null, user_agent: Some(String::new()), display_name: None };
    let (ua, cookie) = client_headers(Some(&blank));
    assert!(ua.starts_with("Mozilla/5.0"));
    assert_eq!(cookie, None);
}

#[test]
fn statuses_and_redirects_are_reported() {
    let url = "https://www.pixiv.net/ajax/novel/1";
    assert_eq!(
        check_pixiv_response(url, 401, "/ajax/novel/1"),
        Err(format!("pixiv authentication failed: HTTP 401 Unauthorized for {url}"))
    );
    assert_eq!(
        check_pixiv_response(url, 403, "/ajax/novel/1"),
        Err(format!("pixiv authentication failed: HTTP 403 Forbidden for {url}"))
    );
    assert_eq!(
        check_pixiv_response(url, 200, "/login.php"),
        Err(format!("pixiv authentication failed: redirected to login for {url}"))
    );
    assert_eq!(
        check_pixiv_response(url, 500, "/ajax/novel/1"),
        Err(format!("request returned error status: {url}"))
    );
    assert_eq!(check_pixiv_response(url, 200, "/ajax/novel/1"), Ok(()));
}

#[test]
fn answers_give_their_body_or_error() {
    let url = "u";
    let ok = obj(vec![("error", JsonValue::Bool(false)), ("body", obj(vec![("id", json_int(3))]))]);
    let body = pixiv_answer_body(url, &ok).unwrap();
    assert!(json_get(&body, "id").is_some());
    assert!(matches!(pixiv_answer_body(url, &obj(vec![])), Ok(JsonValue::Null)));
    let err = obj(vec![("error", JsonValue::Bool(true)), ("message", s("not found"))]);
    assert_eq!(pixiv_answer_body(url, &err).unwrap_err(), "not found: u");
    let auth = obj(vec![("error", JsonValue::Bool(true)), ("message", s("HTTP 403 denied"))]);
    assert_eq!(
        pixiv_answer_body(url, &auth).unwrap_err(),
        "pixiv authentication failed: HTTP 403 denied: u"
    );
    let bare = obj(vec![("error", JsonValue::Bool(true))]);
    assert_eq!(pixiv_answer_body(url, &bare).unwrap_err(), "pixiv returned error: u");
    let _ = json_as_str(None);
}

#[test]
fn account_files_are_tried_login_first() {
    let dir = strings(&["b.json", "notes.txt", "login.json", "a.json"]);
    let picked = account_file_candidates(&Vec::new(), &dir);
    assert_eq!(
        picked,
        vec![
            ("login.json".to_string(), "login".to_string()),
            ("a.json".to_string(), "a".to_string()),
            ("b.json".to_string(), "b".to_string()),
        ]
    );
    let stored = strings(&["a"]);
    let picked = account_file_candidates(&stored, &dir);
    assert_eq!(picked, vec![("b.json".to_string(), "b".to_string())]);
}
