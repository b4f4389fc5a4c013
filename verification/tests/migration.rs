use narou_bridge::account::AccountFile;
use narou_bridge::json::{json_as_str, json_get, JsonValue};
use narou_bridge::migration::{
    extension_dir_image_record, flat_image_record, is_archived_legacy_dir,
    is_reserved_legacy_dir, is_supported_image_extension, legacy_account_record,
    legacy_task_record, legacy_tracked_user_documents, legacy_work_record, snapshot_document,
    table_image_record,
};
use narou_bridge::model::TaskStatus;

fn s(t: &str) -> JsonValue {
    JsonValue::Str(t.to_string())
}

fn obj(entries: Vec<(&str, JsonValue)>) -> JsonValue {
    JsonValue::Object(entries.into_iter().map(|(k, v)| (k.to_string(), v)).collect())
}

#[test]
fn reserved_and_archived_directories() {
    for name in ["cookie", "queue", "pdf", "log", "setting", "target", "archive"] {
        assert!(is_reserved_legacy_dir(name));
    }
    assert!(!is_reserved_legacy_dir("pixiv"));
    for name in ["sample", "webnovel", "common", "templates"] {
        assert!(is_archived_legacy_dir(name));
    }
    assert!(!is_archived_legacy_dir("data"));
}

#[test]
fn legacy_work_reads_canonical_dates() {
    let raw = obj(vec![
        ("title", s("Example Work")),
        ("author", s("Example Author")),
        ("type", s("novel")),
        ("serialization", s("連載中")),
        ("caption", s("")),
        ("createDate", s("2025-01-01T00:00:00Z")),
        ("updateDate", s("2025-01-02T00:00:00Z")),
    ]);
    let r = legacy_work_record("pixiv", "n123", raw);
    assert_eq!(r.site, "pixiv");
    assert_eq!(r.work_key, "n123");
    assert_eq!(r.title, "Example Work");
    assert_eq!(r.author, "Example Author");
    assert_eq!(r.work_type, "novel");
    assert_eq!(r.serialization, "連載中");
    assert_eq!(r.create_date, "2025-01-01T00:00:00Z");
    assert_eq!(r.update_date, "2025-01-02T00:00:00Z");
    assert_eq!(r.author_id, None);
    assert_eq!(json_as_str(json_get(&r.raw_json, "title")), Some("Example Work"));
}

#[test]
fn legacy_work_falls_back_to_snake_case_dates() {
    let raw = obj(vec![
        ("title", s("Narou Work")),
        ("author", s("Author")),
        ("author_id", s("u1")),
        ("type", s("novel")),
        ("serialization", s("完結済")),
        ("create_date", s("2025-03-01T00:00:00Z")),
        ("update_date", s("2025-03-02T00:00:00Z")),
    ]);
    let r = legacy_work_record("narou", "n123", raw);
    assert_eq!(r.create_date, "2025-03-01T00:00:00Z");
    assert_eq!(r.update_date, "2025-03-02T00:00:00Z");
    assert_eq!(r.author_id.as_deref(), Some("u1"));
    assert_eq!(r.serialization, "完結済");
}

#[test]
fn legacy_account_named_login_is_active() {
    let account = AccountFile {
        cookies: obj(vec![("PHPSESSID", s("x"))]),
        user_agent: None,
        display_name: Some("Me".to_string()),
    };
    let r = legacy_account_record("pixiv", Some("login"), account, "2025-01-01T00:00:00+00:00");
    assert_eq!(r.name, "login");
    assert!(r.active);
    assert_eq!(r.display_name.as_deref(), Some("Me"));
    let other = AccountFile { cookies: JsonValue::Null, user_agent: None, display_name: None };
    let r = legacy_account_record("pixiv", Some("second"), other, "t");
    assert_eq!(r.name, "second");
    assert!(!r.active);
    let none = AccountFile { cookies: JsonValue::Null, user_agent: None, display_name: None };
    assert_eq!(legacy_account_record("pixiv", None, none, "t").name, "login");
}

#[test]
fn legacy_task_is_queued_with_its_action() {
    let item = obj(vec![("request_id", s("r1")), ("update", s("pixiv"))]);
    let t = legacy_task_record(&item, "c", "u");
    assert_eq!(t.id, 0);
    assert_eq!(t.request_id, "r1");
    assert_eq!(t.action, "update");
    assert_eq!(t.param, "pixiv");
    assert_eq!(t.status, TaskStatus::Queued);
    assert_eq!(t.error, None);
    assert_eq!(t.created_at, "c");
    assert_eq!(t.updated_at, "u");
}

#[test]
fn table_images_take_kind_from_table_or_name() {
    let r = table_image_record("pixiv_n1_cover.jpg", &s("abcd"), false);
    assert_eq!(r.logical_name, "pixiv_n1_cover.jpg");
    assert_eq!(r.hash, "abcd");
    assert_eq!(r.ext, "jpg");
    assert_eq!(r.kind, "cover");
    let r = table_image_record("page.png", &JsonValue::Null, false);
    assert_eq!(r.hash, "");
    assert_eq!(r.kind, "image");
    assert_eq!(table_image_record("page.png", &s("h"), true).kind, "cover");
}

#[test]
fn extension_directory_images_drop_their_extension() {
    let r = extension_dir_image_record("abc.png", "png");
    assert_eq!(r.logical_name, "abc.png");
    assert_eq!(r.hash, "abc");
    assert_eq!(r.ext, "png");
    assert_eq!(r.kind, "image");
    assert_eq!(extension_dir_image_record("x.png.png", "png").hash, "x");
    assert_eq!(extension_dir_image_record("plain", "png").hash, "plain");
}

#[test]
fn flat_images_need_a_supported_extension() {
    let r = flat_image_record("def.webp").unwrap();
    assert_eq!(r.hash, "def");
    assert_eq!(r.ext, "webp");
    assert_eq!(r.kind, "image");
    assert!(flat_image_record("notes.txt").is_none());
    assert!(flat_image_record("noext").is_none());
    assert!(is_supported_image_extension("svg"));
    assert!(!is_supported_image_extension("PNG"));
}

#[test]
fn tracked_users_skip_the_version_entry() {
    let doc = obj(vec![
        ("version", JsonValue::Bool(true)),
        ("12345", obj(vec![("novel", s("disable")), ("name", s("Example User"))])),
    ]);
    let docs = legacy_tracked_user_documents(&doc);
    assert_eq!(docs.len(), 1);
    assert_eq!(docs[0].0, "tracked_users/12345/config");
    assert_eq!(json_as_str(json_get(&docs[0].1, "novel")), Some("disable"));
    assert_eq!(json_as_str(json_get(&docs[0].1, "comic")), Some("enable"));
    assert_eq!(json_as_str(json_get(&docs[0].1, "name")), Some("Example User"));
    assert!(legacy_tracked_user_documents(&JsonValue::Null).is_empty());
}

#[test]
fn snapshot_document_holds_its_ids() {
    let doc = snapshot_document(&vec!["10".to_string(), "20".to_string()]);
    match json_get(&doc, "illust_ids") {
        Some(JsonValue::Array(items)) => {
            assert_eq!(items.len(), 2);
            assert_eq!(json_as_str(Some(&items[1])), Some("20"));
        }
        _ => panic!("no ids"),
    }
}
