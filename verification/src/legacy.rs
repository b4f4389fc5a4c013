//! Reading the records of the older file layout: queued requests, the
//! action they ask for, tracked Pixiv users and their artwork snapshots.
use vstd::prelude::*;
use crate::json::{
    as_str, entries_view, get, items_view, json_as_str, json_get, lemma_view_parts, map_insert,
    object_insert, opt_view, JsonValue, JsonView,
};
use crate::model::RequestData;
use crate::narou::opt_string_view;
use crate::text::{strings_view, strs_view};
use crate::work_key::{sorted_unique, sorted_unique_strings};

verus! {

/// The string under `key`, if there is one.
pub open spec fn str_entry(v: JsonView, key: Seq<char>) -> Option<Seq<char>> {
    as_str(get(v, key))
}

fn str_entry_exec(v: &JsonValue, key: &str) -> (r: Option<String>)
    ensures
        opt_string_view(r) == str_entry(v.view(), key@),
{
    match json_as_str(json_get(v, key)) {
        Some(t) => Some(crate::text::owned(t)),
        None => None,
    }
}

/// A queued request as the older layout wrote it: each field from the
/// string under its name; the request id empty where it is missing.
pub open spec fn request_from(v: JsonView, r: RequestData) -> bool {
    &&& r.request_id@ == match str_entry(v, "request_id"@) {
        Some(t) => t,
        None => Seq::empty(),
    }
    &&& opt_string_view(r.pdf_path) == str_entry(v, "pdf_path"@)
    &&& opt_string_view(r.pdf_name) == str_entry(v, "pdf_name"@)
    &&& opt_string_view(r.zip_name) == str_entry(v, "zip_name"@)
    &&& opt_string_view(r.author_id) == str_entry(v, "author_id"@)
    &&& opt_string_view(r.author_url) == str_entry(v, "author_url"@)
    &&& opt_string_view(r.novel_type) == str_entry(v, "novel_type"@)
    &&& opt_string_view(r.chapter) == str_entry(v, "chapter"@)
    &&& opt_string_view(r.repair) == str_entry(v, "repair"@)
    &&& opt_string_view(r.login) == str_entry(v, "login"@)
    &&& opt_string_view(r.update) == str_entry(v, "update"@)
    &&& opt_string_view(r.re_download) == str_entry(v, "re_download"@)
    &&& opt_string_view(r.convert) == str_entry(v, "convert"@)
    &&& opt_string_view(r.add) == str_entry(v, "add"@)
}

pub fn parse_request_data(value: &JsonValue) -> (r: RequestData)
    ensures
        request_from(value.view(), r),
{
    let request_id = match str_entry_exec(value, "request_id") {
        Some(t) => t,
        None => String::new(),
    };
    RequestData {
        request_id,
        pdf_path: str_entry_exec(value, "pdf_path"),
        pdf_name: str_entry_exec(value, "pdf_name"),
        zip_name: str_entry_exec(value, "zip_name"),
        author_id: str_entry_exec(value, "author_id"),
        author_url: str_entry_exec(value, "author_url"),
        novel_type: str_entry_exec(value, "novel_type"),
        chapter: str_entry_exec(value, "chapter"),
        repair: str_entry_exec(value, "repair"),
        login: str_entry_exec(value, "login"),
        update: str_entry_exec(value, "update"),
        re_download: str_entry_exec(value, "re_download"),
        convert: str_entry_exec(value, "convert"),
        add: str_entry_exec(value, "add"),
    }
}

/// The action of a queued request: the first present of repair, login,
/// update, re-download and convert, else download.
pub open spec fn legacy_action(req: RequestData) -> Seq<char> {
    if req.repair is Some {
        "repair"@
    } else if req.login is Some {
        "login"@
    } else if req.update is Some {
        "update"@
    } else if req.re_download is Some {
        "re_download"@
    } else if req.convert is Some {
        "convert"@
    } else {
        "download"@
    }
}

pub fn detect_action(req: &RequestData) -> (r: String)
    ensures
        r@ == legacy_action(*req),
{
    let a = if req.repair.is_some() {
        "repair"
    } else if req.login.is_some() {
        "login"
    } else if req.update.is_some() {
        "update"
    } else if req.re_download.is_some() {
        "re_download"
    } else if req.convert.is_some() {
        "convert"
    } else {
        "download"
    };
    crate::text::owned(a)
}

/// The value of a queued request: that of the first present of repair,
/// login, update, re-download, convert and add, else empty.
pub open spec fn legacy_param(req: RequestData) -> Seq<char> {
    if req.repair is Some {
        req.repair->0@
    } else if req.login is Some {
        req.login->0@
    } else if req.update is Some {
        req.update->0@
    } else if req.re_download is Some {
        req.re_download->0@
    } else if req.convert is Some {
        req.convert->0@
    } else if req.add is Some {
        req.add->0@
    } else {
        Seq::empty()
    }
}

pub fn detect_param(req: &RequestData) -> (r: String)
    ensures
        r@ == legacy_param(*req),
{
    let v = if let Some(v) = &req.repair {
        v.as_str()
    } else if let Some(v) = &req.login {
        v.as_str()
    } else if let Some(v) = &req.update {
        v.as_str()
    } else if let Some(v) = &req.re_download {
        v.as_str()
    } else if let Some(v) = &req.convert {
        v.as_str()
    } else if let Some(v) = &req.add {
        v.as_str()
    } else {
        ""
    };
    proof {
        reveal_strlit("");
    }
    crate::text::owned(v)
}

/// The string under the first of `keys` that holds one, else empty.
pub open spec fn first_str(v: JsonView, keys: Seq<Seq<char>>) -> Seq<char>
    decreases keys.len(),
{
    if keys.len() == 0 {
        Seq::empty()
    } else {
        match str_entry(v, keys[0]) {
            Some(t) => t,
            None => first_str(v, keys.drop_first()),
        }
    }
}

pub fn pick_first_str(value: &JsonValue, keys: &[&str]) -> (r: String)
    ensures
        r@ == first_str(value.view(), strs_view(keys@)),
{
    let ghost ks = strs_view(keys@);
    let mut i: usize = 0;
    assert(ks.skip(0) =~= ks);
    while i < keys.len()
        invariant
            i <= keys.len(),
            ks == strs_view(keys@),
            first_str(value.view(), ks) == first_str(value.view(), ks.skip(i as int)),
        decreases keys.len() - i,
    {
        assert(ks.skip(i as int)[0] == keys@[i as int]@);
        if let Some(t) = str_entry_exec(value, keys[i]) {
            return t;
        }
        assert(ks.skip(i as int).drop_first() =~= ks.skip(i + 1));
        i = i + 1;
    }
    String::new()
}

/// A tracked user's settings with novels and comics enabled where they say
/// nothing; anything but an object counts as empty settings.
pub open spec fn normalized_entry(v: JsonView) -> JsonView {
    let entries = match v {
        JsonView::Object(e) => e,
        _ => Seq::empty(),
    };
    let with_novel = match crate::json::lookup(entries, "novel"@) {
        Some(_) => entries,
        None => map_insert(entries, "novel"@, JsonView::Str("enable"@)),
    };
    let with_comic = match crate::json::lookup(with_novel, "comic"@) {
        Some(_) => with_novel,
        None => map_insert(with_novel, "comic"@, JsonView::Str("enable"@)),
    };
    JsonView::Object(with_comic)
}

pub fn normalize_pixiv_tracked_user_entry(value: &JsonValue) -> (r: JsonValue)
    ensures
        r.view() == normalized_entry(value.view()),
{
    proof {
        lemma_view_parts(*value);
    }
    let copy = crate::json::json_clone(value);
    proof {
        lemma_view_parts(copy);
    }
    let mut entries: Vec<(String, JsonValue)> = match copy {
        JsonValue::Object(e) => e,
        _ => Vec::new(),
    };
    assert(entries_view(entries@) == match value.view() {
        JsonView::Object(e) => e,
        _ => Seq::<(Seq<char>, JsonView)>::empty(),
    });
    if !crate::json::has_key(&entries, "novel") {
        object_insert(&mut entries, crate::text::owned("novel"), JsonValue::Str(crate::text::owned("enable")));
    }
    if !crate::json::has_key(&entries, "comic") {
        object_insert(&mut entries, crate::text::owned("comic"), JsonValue::Str(crate::text::owned("enable")));
    }
    let r = JsonValue::Object(entries);
    proof {
        lemma_view_parts(r);
    }
    r
}

/// The ids of an artwork snapshot: its string and number items as text,
/// sorted, each once.
pub open spec fn snapshot_ids(v: JsonView) -> Seq<Seq<char>> {
    match v {
        JsonView::Array(items) => sorted_unique(id_texts(items)),
        _ => Seq::empty(),
    }
}

/// The texts of the string and number items.
pub open spec fn id_texts(items: Seq<JsonView>) -> Seq<Seq<char>>
    decreases items.len(),
{
    if items.len() == 0 {
        Seq::empty()
    } else {
        let prev = id_texts(items.drop_last());
        match items.last() {
            JsonView::Str(t) => prev.push(t),
            JsonView::Number(t, _) => prev.push(t),
            _ => prev,
        }
    }
}

pub fn normalize_pixiv_illust_ids(value: &JsonValue) -> (r: Vec<String>)
    ensures
        strings_view(r@) == snapshot_ids(value.view()),
{
    proof {
        lemma_view_parts(*value);
    }
    match value {
        JsonValue::Array(items) => {
            let ghost iv = items_view(items@);
            let mut ids: Vec<String> = Vec::new();
            let mut i: usize = 0;
            assert(iv.take(0) =~= Seq::<JsonView>::empty());
            assert(strings_view(ids@) =~= Seq::<Seq<char>>::empty());
            while i < items.len()
                invariant
                    i <= items.len(),
                    iv == items_view(items@),
                    strings_view(ids@) == id_texts(iv.take(i as int)),
                decreases items.len() - i,
            {
                assert(iv.take(i + 1).drop_last() =~= iv.take(i as int));
                assert(iv[i as int] == items@[i as int].view());
                let ghost before = strings_view(ids@);
                match &items[i] {
                    JsonValue::Str(t) => {
                        ids.push(crate::text::owned(t.as_str()));
                        assert(strings_view(ids@) =~= before.push(t@));
                    },
                    JsonValue::Number(n) => {
                        ids.push(crate::text::owned(n.text.as_str()));
                        assert(strings_view(ids@) =~= before.push(n.text@));
                    },
                    _ => {},
                }
                i = i + 1;
            }
            assert(iv.take(i as int) =~= iv);
            sorted_unique_strings(ids)
        },
        _ => {
            let r: Vec<String> = Vec::new();
            assert(strings_view(r@) =~= Seq::<Seq<char>>::empty());
            r
        },
    }
}

} // verus!
