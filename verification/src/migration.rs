//! What is read from a legacy tree when it is moved into the store: which
//! directories hold works and which are archived, and the records made of
//! a work's document, an account file, a queued request and an image.
//! Walking the directories and writing the store is left to the caller.
use vstd::prelude::*;
use crate::account::{AccountFile, AccountRecord};
use crate::json::{as_str, field_text, get, json_as_str, json_get, JsonValue, JsonView};
use crate::legacy::{detect_action, detect_param, first_str, legacy_action, legacy_param, parse_request_data, request_from};
use crate::model::{ImageRecord, TaskRecord, TaskStatus, WorkRecord};
use crate::narou::opt_string_view;
use crate::text::{chars_of, string_from_chars, strs_view};
use crate::work_key::{last_component, name_extension, name_stem, path_extension, path_file_stem, plain_path};

verus! {

/// Directories of a legacy data tree that hold no site's works.
pub open spec fn reserved_dir(name: Seq<char>) -> bool {
    ||| name == "cookie"@
    ||| name == "queue"@
    ||| name == "pdf"@
    ||| name == "log"@
    ||| name == "setting"@
    ||| name == "target"@
    ||| name == "archive"@
}

pub fn is_reserved_legacy_dir(name: &str) -> (r: bool)
    ensures
        r == reserved_dir(name@),
{
    crate::text::str_eq(name, "cookie") || crate::text::str_eq(name, "queue") || crate::text::str_eq(name, "pdf")
        || crate::text::str_eq(name, "log") || crate::text::str_eq(name, "setting") || crate::text::str_eq(
        name,
        "target",
    ) || crate::text::str_eq(name, "archive")
}

/// Directories of a legacy tree that are archived whole.
pub open spec fn archived_dir(name: Seq<char>) -> bool {
    ||| name == "sample"@
    ||| name == "webnovel"@
    ||| name == "common"@
    ||| name == "templates"@
}

pub fn is_archived_legacy_dir(name: &str) -> (r: bool)
    ensures
        r == archived_dir(name@),
{
    crate::text::str_eq(name, "sample") || crate::text::str_eq(name, "webnovel") || crate::text::str_eq(name, "common")
        || crate::text::str_eq(name, "templates")
}

/// The record of a legacy work from its document: its fields read from the
/// document, empty where absent, its dates under either spelling.
pub open spec fn legacy_record(r: WorkRecord, site: Seq<char>, work_key: Seq<char>, raw: JsonView) -> bool {
    &&& r.site@ == site
    &&& r.work_key@ == work_key
    &&& r.title@ == field_text(raw, "title"@, Seq::empty())
    &&& r.author@ == field_text(raw, "author"@, Seq::empty())
    &&& opt_string_view(r.author_id) == as_str(get(raw, "author_id"@))
    &&& opt_string_view(r.author_url) == as_str(get(raw, "author_url"@))
    &&& r.work_type@ == field_text(raw, "type"@, Seq::empty())
    &&& r.serialization@ == field_text(raw, "serialization"@, Seq::empty())
    &&& r.caption@ == field_text(raw, "caption"@, Seq::empty())
    &&& r.create_date@ == first_str(raw, seq!["createDate"@, "create_date"@])
    &&& r.update_date@ == first_str(raw, seq!["updateDate"@, "update_date"@])
    &&& r.raw_json.view() == raw
}

fn opt_str_field(v: &JsonValue, key: &str) -> (r: Option<String>)
    ensures
        opt_string_view(r) == as_str(get(v.view(), key@)),
{
    match json_as_str(json_get(v, key)) {
        Some(t) => Some(crate::text::owned(t)),
        None => None,
    }
}

pub fn legacy_work_record(site: &str, work_key: &str, raw: JsonValue) -> (r: WorkRecord)
    ensures
        legacy_record(r, site@, work_key@, raw.view()),
{
    proof {
        reveal_strlit("");
    }
    let keys_create: [&str; 2] = ["createDate", "create_date"];
    let keys_update: [&str; 2] = ["updateDate", "update_date"];
    assert(strs_view(keys_create@) =~= seq!["createDate"@, "create_date"@]);
    assert(strs_view(keys_update@) =~= seq!["updateDate"@, "update_date"@]);
    let title = crate::json::str_field(&raw, "title", "");
    let author = crate::json::str_field(&raw, "author", "");
    let author_id = opt_str_field(&raw, "author_id");
    let author_url = opt_str_field(&raw, "author_url");
    let work_type = crate::json::str_field(&raw, "type", "");
    let serialization = crate::json::str_field(&raw, "serialization", "");
    let caption = crate::json::str_field(&raw, "caption", "");
    let create_date = crate::legacy::pick_first_str(&raw, keys_create.as_slice());
    let update_date = crate::legacy::pick_first_str(&raw, keys_update.as_slice());
    let ghost rv = raw.view();
    let r = WorkRecord {
        site: crate::text::owned(site),
        work_key: crate::text::owned(work_key),
        title,
        author,
        author_id,
        author_url,
        work_type,
        serialization,
        caption,
        create_date,
        update_date,
        raw_json: raw,
    };
    assert(r.raw_json.view() == rv);
    assert(r.site@ == site@);
    assert(opt_string_view(r.author_id) == as_str(get(rv, "author_id"@)));
    assert(r.update_date@ == first_str(rv, seq!["updateDate"@, "update_date"@]));
    assert(r.work_key@ == work_key@);
    assert(r.caption@ == field_text(rv, "caption"@, Seq::empty()));
    assert(r.author@ == field_text(rv, "author"@, Seq::empty()));
    assert(r.work_type@ == field_text(rv, "type"@, Seq::empty()));
    assert(r.title@ == field_text(rv, "title"@, Seq::empty()));
    assert(r.serialization@ == field_text(rv, "serialization"@, Seq::empty()));
    assert(opt_string_view(r.author_url) == as_str(get(rv, "author_url"@)));
    assert(r.create_date@ == first_str(rv, seq!["createDate"@, "create_date"@]));
    r
}

/// The record of a legacy account file: named by its file's stem (`login`
/// where it has none), active when that name is `login`.
pub fn legacy_account_record(site: &str, file_stem: Option<&str>, account: AccountFile, updated_at: &str) -> (r: AccountRecord)
    ensures
        r.site@ == site@,
        r.name@ == match file_stem {
            Some(s) => s@,
            None => "login"@,
        },
        r.active == (r.name@ == "login"@),
        opt_string_view(r.display_name) == opt_string_view(account.display_name),
        r.account.cookies.view() == account.cookies.view(),
        opt_string_view(r.account.user_agent) == opt_string_view(account.user_agent),
        opt_string_view(r.account.display_name) == opt_string_view(account.display_name),
        r.updated_at@ == updated_at@,
{
    let name = match file_stem {
        Some(s) => crate::text::owned(s),
        None => crate::text::owned("login"),
    };
    let active = crate::text::str_eq(name.as_str(), "login");
    let display_name = match &account.display_name {
        Some(d) => Some(crate::text::owned(d.as_str())),
        None => None,
    };
    AccountRecord {
        site: crate::text::owned(site),
        name,
        display_name,
        account,
        active,
        updated_at: crate::text::owned(updated_at),
    }
}

/// The task queued for a request of a legacy queue.
pub fn legacy_task_record(item: &JsonValue, created_at: &str, updated_at: &str) -> (r: TaskRecord)
    ensures
        request_from(item.view(), r.request),
        r.id == 0,
        r.request_id@ == r.request.request_id@,
        r.action@ == legacy_action(r.request),
        r.param@ == legacy_param(r.request),
        r.status == TaskStatus::Queued,
        r.error is None,
        r.created_at@ == created_at@,
        r.updated_at@ == updated_at@,
{
    let req = parse_request_data(item);
    let request_id = crate::text::owned(req.request_id.as_str());
    let action = detect_action(&req);
    let param = detect_param(&req);
    TaskRecord {
        id: 0,
        request_id,
        action,
        param,
        request: req,
        status: TaskStatus::Queued,
        error: None,
        created_at: crate::text::owned(created_at),
        updated_at: crate::text::owned(updated_at),
    }
}

/// The image of a legacy image table: its extension from its name, its
/// hash the string in the table (else empty), a cover where it comes from
/// the covers' table or its name says `cover`.
pub open spec fn table_image(r: ImageRecord, logical_name: Seq<char>, hash: JsonView, cover_table: bool) -> bool {
    &&& r.logical_name@ == logical_name
    &&& r.hash@ == match as_str(Some(hash)) {
        Some(t) => t,
        None => Seq::empty(),
    }
    &&& plain_path(logical_name) ==> r.ext@ == match name_extension(last_component(logical_name)) {
        Some(e) => e,
        None => Seq::empty(),
    }
    &&& r.kind@ == if cover_table || crate::text::contains(logical_name, "cover"@) {
        "cover"@
    } else {
        "image"@
    }
}

pub fn table_image_record(logical_name: &str, hash: &JsonValue, cover_table: bool) -> (r: ImageRecord)
    ensures
        table_image(r, logical_name@, hash.view(), cover_table),
{
    proof {
        reveal_strlit("");
    }
    let ext = match path_extension(logical_name) {
        Some(e) => e,
        None => String::new(),
    };
    let h = match json_as_str(Some(hash)) {
        Some(t) => crate::text::owned(t),
        None => String::new(),
    };
    let name_chars = chars_of(logical_name);
    let kind = if cover_table || crate::text::contains_str(name_chars.as_slice(), "cover") {
        crate::text::owned("cover")
    } else {
        crate::text::owned("image")
    };
    ImageRecord { logical_name: crate::text::owned(logical_name), hash: h, ext, kind }
}

/// The extensions of the images a legacy tree may hold.
pub open spec fn supported_extension(ext: Seq<char>) -> bool {
    ||| ext == "jpg"@
    ||| ext == "jpeg"@
    ||| ext == "png"@
    ||| ext == "gif"@
    ||| ext == "apng"@
    ||| ext == "webp"@
    ||| ext == "bmp"@
    ||| ext == "avif"@
    ||| ext == "svg"@
}

/// The extensions of the images a legacy tree may hold, in the order their
/// directories are read.
pub fn image_extensions() -> (r: Vec<&'static str>)
    ensures
        strs_view(r@) == seq!["jpg"@, "jpeg"@, "png"@, "gif"@, "apng"@, "webp"@, "bmp"@, "avif"@, "svg"@],
        forall|i: int| 0 <= i < r@.len() ==> supported_extension(#[trigger] r@[i]@),
{
    let r = vec!["jpg", "jpeg", "png", "gif", "apng", "webp", "bmp", "avif", "svg"];
    assert(strs_view(r@) =~= seq!["jpg"@, "jpeg"@, "png"@, "gif"@, "apng"@, "webp"@, "bmp"@, "avif"@, "svg"@]);
    assert forall|i: int| 0 <= i < r@.len() implies supported_extension(#[trigger] r@[i]@) by {
        assert(strs_view(r@)[i] == r@[i]@);
    }
    r
}

pub fn is_supported_image_extension(ext: &str) -> (r: bool)
    ensures
        r == supported_extension(ext@),
{
    crate::text::str_eq(ext, "jpg") || crate::text::str_eq(ext, "jpeg") || crate::text::str_eq(ext, "png")
        || crate::text::str_eq(ext, "gif") || crate::text::str_eq(ext, "apng") || crate::text::str_eq(ext, "webp")
        || crate::text::str_eq(ext, "bmp") || crate::text::str_eq(ext, "avif") || crate::text::str_eq(ext, "svg")
}

/// The image stored in a legacy directory named after its extension: its
/// hash the name without the trailing `.ext`.
pub fn extension_dir_image_record(name: &str, ext: &str) -> (r: ImageRecord)
    ensures
        r.logical_name@ == name@,
        r.hash@ == crate::text::strip_suffixes(name@, seq!['.'] + ext@),
        r.ext@ == ext@,
        r.kind@ == "image"@,
{
    let n = chars_of(name);
    let mut suffix: Vec<char> = Vec::new();
    suffix.push('.');
    crate::text::push_str(&mut suffix, ext);
    assert(suffix@ =~= seq!['.'] + ext@);
    let hash = crate::text::strip_suffixes_chars(n.as_slice(), suffix.as_slice());
    ImageRecord {
        logical_name: crate::text::owned(name),
        hash: string_from_chars(hash.as_slice()),
        ext: crate::text::owned(ext),
        kind: crate::text::owned("image"),
    }
}

/// The image of a file lying directly in a legacy images directory: one
/// with a supported extension, its hash the file's stem.
pub open spec fn flat_image(r: Option<ImageRecord>, name: Seq<char>) -> bool {
    match name_extension(last_component(name)) {
        Some(e) => if supported_extension(e) {
            r matches Some(rec) && rec.logical_name@ == name && rec.hash@ == name_stem(last_component(name))
                && rec.ext@ == e && rec.kind@ == "image"@
        } else {
            r is None
        },
        None => r is None,
    }
}

pub fn flat_image_record(name: &str) -> (r: Option<ImageRecord>)
    ensures
        plain_path(name@) ==> flat_image(r, name@),
{
    let ext = match path_extension(name) {
        Some(e) => e,
        None => return None,
    };
    if !is_supported_image_extension(ext.as_str()) {
        return None;
    }
    let hash = match path_file_stem(name) {
        Some(s) => s,
        None => String::new(),
    };
    Some(ImageRecord {
        logical_name: crate::text::owned(name),
        hash,
        ext,
        kind: crate::text::owned("image"),
    })
}

/// The site document that holds a snapshot of a tracked user's artworks.
pub fn snapshot_document(ids: &Vec<String>) -> (r: JsonValue)
    ensures
        r.view() == JsonView::Object(
            seq![("illust_ids"@, crate::json::texts_view(crate::text::strings_view(ids@)))],
        ),
{
    let items = crate::json::texts_json(ids);
    let mut entries: Vec<(String, JsonValue)> = Vec::new();
    entries.push((crate::text::owned("illust_ids"), items));
    let r = JsonValue::Object(entries);
    proof {
        crate::json::lemma_view_parts(r);
        assert(crate::json::entries_view(entries@) =~= seq![("illust_ids"@, crate::json::texts_view(crate::text::strings_view(ids@)))]);
    }
    r
}


/// The site documents of the tracked users of a legacy `user.json`: for
/// each user but the `version` entry, the key of their settings and the
/// settings with novels and comics enabled where they say nothing.
pub open spec fn tracked_user_documents(entries: Seq<(Seq<char>, JsonView)>) -> Seq<(Seq<char>, JsonView)>
    decreases entries.len(),
{
    if entries.len() == 0 {
        Seq::empty()
    } else {
        let prev = tracked_user_documents(entries.drop_last());
        let (id, v) = entries.last();
        if id == "version"@ {
            prev
        } else {
            prev.push((crate::pixiv::config_key(id), crate::legacy::normalized_entry(v)))
        }
    }
}

pub fn legacy_tracked_user_documents(document: &JsonValue) -> (r: Vec<(String, JsonValue)>)
    ensures
        crate::json::entries_view(r@) == match document.view() {
            JsonView::Object(entries) => tracked_user_documents(entries),
            _ => Seq::empty(),
        },
{
    proof {
        crate::json::lemma_view_parts(*document);
    }
    let mut out: Vec<(String, JsonValue)> = Vec::new();
    assert(crate::json::entries_view(out@) =~= Seq::<(Seq<char>, JsonView)>::empty());
    match document {
        JsonValue::Object(entries) => {
            let ghost ev = crate::json::entries_view(entries@);
            let mut i: usize = 0;
            assert(ev.take(0) =~= Seq::<(Seq<char>, JsonView)>::empty());
            while i < entries.len()
                invariant
                    i <= entries.len(),
                    ev == crate::json::entries_view(entries@),
                    crate::json::entries_view(out@) == tracked_user_documents(ev.take(i as int)),
                decreases entries.len() - i,
            {
                assert(ev.take(i + 1).drop_last() =~= ev.take(i as int));
                assert(ev.take(i + 1).last() == ev[i as int]);
                let (id, v) = &entries[i];
                if !crate::text::str_eq(id.as_str(), "version") {
                    let key = crate::pixiv::tracked_user_config_key(id.as_str());
                    let doc = crate::legacy::normalize_pixiv_tracked_user_entry(v);
                    let ghost before = crate::json::entries_view(out@);
                    let ghost item = (key@, doc.view());
                    out.push((key, doc));
                    assert(crate::json::entries_view(out@) =~= before.push(item));
                }
                i = i + 1;
            }
            assert(ev.take(i as int) =~= ev);
        },
        _ => {},
    }
    out
}

} // verus!
