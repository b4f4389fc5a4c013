//! Login accounts: reading an account file's JSON, its cookies in either
//! form, checking a Pixiv login, and the cookie header it sends.
use vstd::prelude::*;
use crate::json::{
    as_str, entries_view, get, items_view, json_clone, json_get, lemma_view_parts, lookup, map_insert,
    object_insert, opt_view, JsonValue, JsonView,
};
use crate::narou::opt_string_view;
use crate::text::{join, string_from_chars, strings_view};

verus! {

/// What an account file holds: its cookies, as an object of strings, and
/// the browser it speaks for.
#[derive(Debug)]
pub struct AccountFile {
    pub cookies: JsonValue,
    pub user_agent: Option<String>,
    pub display_name: Option<String>,
}

/// A stored account: the site and name it is kept under, the file it
/// holds, whether it is the site's active one and when it last changed.
#[derive(Debug)]
pub struct AccountRecord {
    pub site: String,
    pub name: String,
    pub display_name: Option<String>,
    pub account: AccountFile,
    pub active: bool,
    pub updated_at: String,
}

/// The text of a scalar: a string, a number as written, `true` or `false`.
pub open spec fn scalar_text(v: JsonView) -> Option<Seq<char>> {
    match v {
        JsonView::Str(t) => Some(t),
        JsonView::Number(t, _) => Some(t),
        JsonView::Bool(b) => Some(
            if b {
                "true"@
            } else {
                "false"@
            },
        ),
        _ => None,
    }
}

pub open spec fn opt_scalar_text(v: Option<JsonView>) -> Option<Seq<char>> {
    match v {
        Some(x) => scalar_text(x),
        None => None,
    }
}

fn scalar_string(value: &JsonValue) -> (r: Option<String>)
    ensures
        opt_string_view(r) == scalar_text(value.view()),
{
    proof {
        reveal_strlit("true");
        reveal_strlit("false");
    }
    match value {
        JsonValue::Str(t) => Some(crate::text::owned(t.as_str())),
        JsonValue::Number(n) => Some(crate::text::owned(n.text.as_str())),
        JsonValue::Bool(b) => if *b {
            Some(crate::text::owned("true"))
        } else {
            Some(crate::text::owned("false"))
        },
        _ => None,
    }
}

/// The text of a scalar value, if there is one.
pub fn optional_string(value: Option<&JsonValue>) -> (r: Option<String>)
    ensures
        opt_string_view(r) == opt_scalar_text(opt_view(value)),
{
    match value {
        Some(v) => scalar_string(v),
        None => None,
    }
}

/// A cookie's value as a string; none for anything but a scalar.
pub fn cookie_value(value: JsonValue) -> (r: Option<JsonValue>)
    ensures
        match r {
            Some(x) => scalar_text(value.view()) is Some && x.view() == JsonView::Str(scalar_text(value.view())->0),
            None => scalar_text(value.view()) is None,
        },
{
    match scalar_string(&value) {
        Some(t) => Some(JsonValue::Str(t)),
        None => None,
    }
}

/// The name of a value's JSON type.
pub open spec fn json_kind(v: JsonView) -> Seq<char> {
    match v {
        JsonView::Null => "null"@,
        JsonView::Bool(_) => "boolean"@,
        JsonView::Number(_, _) => "number"@,
        JsonView::Str(_) => "string"@,
        JsonView::Array(_) => "array"@,
        JsonView::Object(_) => "object"@,
    }
}

pub fn json_type_name(value: &JsonValue) -> (r: &'static str)
    ensures
        r@ == json_kind(value.view()),
{
    match value {
        JsonValue::Null => "null",
        JsonValue::Bool(_) => "boolean",
        JsonValue::Number(_) => "number",
        JsonValue::Str(_) => "string",
        JsonValue::Array(_) => "array",
        JsonValue::Object(_) => "object",
    }
}

// ---------------------------------------------------------------------------
// Cookies
// ---------------------------------------------------------------------------

/// The cookies of an object whose values are scalars, as strings, in order.
pub open spec fn scalar_entries(entries: Seq<(Seq<char>, JsonView)>) -> Seq<(Seq<char>, JsonView)>
    decreases entries.len(),
{
    if entries.len() == 0 {
        Seq::empty()
    } else {
        let prev = scalar_entries(entries.drop_last());
        match scalar_text(entries.last().1) {
            Some(t) => prev.push((entries.last().0, JsonView::Str(t))),
            None => prev,
        }
    }
}

/// The cookies of a list of `{name, value}` objects, put one by one into a
/// map ordered by name; items without a scalar name and value are skipped.
pub open spec fn listed_cookies(items: Seq<JsonView>) -> Seq<(Seq<char>, JsonView)>
    decreases items.len(),
{
    if items.len() == 0 {
        Seq::empty()
    } else {
        let prev = listed_cookies(items.drop_last());
        match items.last() {
            JsonView::Object(cookie) => match (
                opt_scalar_text(lookup(cookie, "name"@)),
                opt_scalar_text(lookup(cookie, "value"@)),
            ) {
                (Some(n), Some(v)) => map_insert(prev, n, JsonView::Str(v)),
                _ => prev,
            },
            _ => prev,
        }
    }
}

/// Cookies as an object of strings: none for null, the scalar entries of an
/// object, or the cookies of a list; anything else is refused.
pub open spec fn cookies_of(v: JsonView) -> Result<JsonView, Seq<char>> {
    match v {
        JsonView::Null => Ok(JsonView::Object(Seq::empty())),
        JsonView::Object(entries) => Ok(JsonView::Object(scalar_entries(entries))),
        JsonView::Array(items) => Ok(JsonView::Object(listed_cookies(items))),
        _ => Err("cookies must be an object or list"@),
    }
}

pub open spec fn result_view(r: Result<JsonValue, String>) -> Result<JsonView, Seq<char>> {
    match r {
        Ok(v) => Ok(v.view()),
        Err(e) => Err(e@),
    }
}

pub fn normalize_cookies(value: JsonValue) -> (r: Result<JsonValue, String>)
    ensures
        result_view(r) == cookies_of(value.view()),
{
    proof {
        lemma_view_parts(value);
    }
    match value {
        JsonValue::Null => {
            let r = JsonValue::Object(Vec::new());
            proof {
                lemma_view_parts(r);
                assert(entries_view(Seq::<(String, JsonValue)>::empty()) =~= Seq::<(Seq<char>, JsonView)>::empty());
            }
            Ok(r)
        },
        JsonValue::Object(entries) => {
            let ghost ev = entries_view(entries@);
            let mut out: Vec<(String, JsonValue)> = Vec::new();
            let mut i: usize = 0;
            assert(ev.take(0) =~= Seq::<(Seq<char>, JsonView)>::empty());
            assert(entries_view(out@) =~= Seq::<(Seq<char>, JsonView)>::empty());
            while i < entries.len()
                invariant
                    i <= entries.len(),
                    ev == entries_view(entries@),
                    entries_view(out@) == scalar_entries(ev.take(i as int)),
                decreases entries.len() - i,
            {
                assert(ev.take(i + 1).drop_last() =~= ev.take(i as int));
                assert(ev[i as int] == (entries@[i as int].0@, entries@[i as int].1.view()));
                let ghost before = entries_view(out@);
                if let Some(t) = scalar_string(&entries[i].1) {
                    out.push((crate::text::owned(entries[i].0.as_str()), JsonValue::Str(t)));
                    assert(entries_view(out@) =~= before.push((ev[i as int].0, JsonView::Str(t@))));
                }
                i = i + 1;
            }
            assert(ev.take(i as int) =~= ev);
            let r = JsonValue::Object(out);
            proof {
                lemma_view_parts(r);
            }
            Ok(r)
        },
        JsonValue::Array(items) => {
            let ghost iv = items_view(items@);
            let mut out: Vec<(String, JsonValue)> = Vec::new();
            let mut i: usize = 0;
            assert(iv.take(0) =~= Seq::<JsonView>::empty());
            assert(entries_view(out@) =~= Seq::<(Seq<char>, JsonView)>::empty());
            while i < items.len()
                invariant
                    i <= items.len(),
                    iv == items_view(items@),
                    entries_view(out@) == listed_cookies(iv.take(i as int)),
                decreases items.len() - i,
            {
                assert(iv.take(i + 1).drop_last() =~= iv.take(i as int));
                assert(iv[i as int] == items@[i as int].view());
                let item = &items[i];
                proof {
                    lemma_view_parts(*item);
                }
                if let JsonValue::Object(_) = item {
                    let name = optional_string(json_get(item, "name"));
                    let v = optional_string(json_get(item, "value"));
                    match (name, v) {
                        (Some(n), Some(val)) => {
                            object_insert(&mut out, n, JsonValue::Str(val));
                        },
                        _ => {},
                    }
                }
                i = i + 1;
            }
            assert(iv.take(i as int) =~= iv);
            let r = JsonValue::Object(out);
            proof {
                lemma_view_parts(r);
            }
            Ok(r)
        },
        _ => Err(crate::text::owned("cookies must be an object or list")),
    }
}

// ---------------------------------------------------------------------------
// Account files
// ---------------------------------------------------------------------------

/// Whether an object names any of an account's fields.
pub open spec fn has_account_fields(entries: Seq<(Seq<char>, JsonView)>) -> bool {
    ||| lookup(entries, "cookies"@) is Some
    ||| lookup(entries, "user_agent"@) is Some
    ||| lookup(entries, "ua"@) is Some
    ||| lookup(entries, "display_name"@) is Some
}

/// What an account file's JSON says: its cookies, user agent (`user_agent`,
/// else `ua`) and display name; an object without account fields, or a
/// list, is the cookies alone.
pub open spec fn account_of(v: JsonView) -> Result<(JsonView, Option<Seq<char>>, Option<Seq<char>>), Seq<char>> {
    match v {
        JsonView::Object(entries) => if has_account_fields(entries) {
            let cookies = match lookup(entries, "cookies"@) {
                Some(c) => c,
                None => JsonView::Null,
            };
            let ua = match lookup(entries, "user_agent"@) {
                Some(x) => Some(x),
                None => lookup(entries, "ua"@),
            };
            match cookies_of(cookies) {
                Ok(c) => Ok((c, opt_scalar_text(ua), opt_scalar_text(lookup(entries, "display_name"@)))),
                Err(e) => Err(e),
            }
        } else {
            match cookies_of(v) {
                Ok(c) => Ok((c, None, None)),
                Err(e) => Err(e),
            }
        },
        JsonView::Array(_) => match cookies_of(v) {
            Ok(c) => Ok((c, None, None)),
            Err(e) => Err(e),
        },
        _ => Err("unsupported account JSON root: "@ + json_kind(v)),
    }
}

pub open spec fn account_view(a: AccountFile) -> (JsonView, Option<Seq<char>>, Option<Seq<char>>) {
    (a.cookies.view(), opt_string_view(a.user_agent), opt_string_view(a.display_name))
}

/// Reads an account file's JSON.
pub fn account_file_from_value(value: JsonValue) -> (r: Result<AccountFile, String>)
    ensures
        match r {
            Ok(a) => account_of(value.view()) == Ok::<(JsonView, Option<Seq<char>>, Option<Seq<char>>), Seq<char>>(
                account_view(a),
            ),
            Err(e) => account_of(value.view()) == Err::<(JsonView, Option<Seq<char>>, Option<Seq<char>>), Seq<char>>(
                e@,
            ),
        },
{
    proof {
        lemma_view_parts(value);
        reveal_strlit("unsupported account JSON root: ");
    }
    let is_object = match &value {
        JsonValue::Object(_) => true,
        _ => false,
    };
    let is_array = match &value {
        JsonValue::Array(_) => true,
        _ => false,
    };
    if is_object {
        let has_fields = json_get(&value, "cookies").is_some() || json_get(&value, "user_agent").is_some()
            || json_get(&value, "ua").is_some() || json_get(&value, "display_name").is_some();
        if has_fields {
            let cookies = match json_get(&value, "cookies") {
                Some(c) => json_clone(c),
                None => JsonValue::Null,
            };
            let ua_value = match json_get(&value, "user_agent") {
                Some(x) => Some(x),
                None => json_get(&value, "ua"),
            };
            let user_agent = optional_string(ua_value);
            let display_name = optional_string(json_get(&value, "display_name"));
            return match normalize_cookies(cookies) {
                Ok(c) => Ok(AccountFile { cookies: c, user_agent, display_name }),
                Err(e) => Err(e),
            };
        }
        return match normalize_cookies(value) {
            Ok(c) => Ok(AccountFile { cookies: c, user_agent: None, display_name: None }),
            Err(e) => Err(e),
        };
    }
    if is_array {
        return match normalize_cookies(value) {
            Ok(c) => Ok(AccountFile { cookies: c, user_agent: None, display_name: None }),
            Err(e) => Err(e),
        };
    }
    let mut msg: Vec<char> = Vec::new();
    crate::text::push_str(&mut msg, "unsupported account JSON root: ");
    crate::text::push_str(&mut msg, json_type_name(&value));
    Err(string_from_chars(msg.as_slice()))
}

// ---------------------------------------------------------------------------
// Pixiv logins
// ---------------------------------------------------------------------------

/// The pattern of a Pixiv session id.
pub open spec fn session_pattern() -> Seq<char> {
    "^\\d+_[A-Za-z0-9]+$"@
}

/// Why an account cannot log in to a site, if it cannot: Pixiv needs a
/// `PHPSESSID` cookie in the form of a session id.
pub open spec fn account_problem(site: Seq<char>, cookies: JsonView) -> Option<Seq<char>> {
    if site != "pixiv"@ {
        None
    } else {
        match as_str(get(cookies, "PHPSESSID"@)) {
            Some(id) => if id.len() == 0 {
                Some("必須クッキー (PHPSESSID) がありません"@)
            } else if !crate::work_key::regex_matches(session_pattern(), id) {
                Some("PHPSESSID が不正な形式です"@)
            } else {
                None
            },
            None => Some("必須クッキー (PHPSESSID) がありません"@),
        }
    }
}

pub fn validate_account_file(site: &str, account: &AccountFile) -> (r: Result<(), String>)
    ensures
        match r {
            Ok(_) => account_problem(site@, account.cookies.view()) is None,
            Err(e) => account_problem(site@, account.cookies.view()) == Some(e@),
        },
{
    if !crate::text::str_eq(site, "pixiv") {
        return Ok(());
    }
    let id = match crate::json::json_as_str(json_get(&account.cookies, "PHPSESSID")) {
        Some(id) => id,
        None => return Err(crate::text::owned("必須クッキー (PHPSESSID) がありません")),
    };
    if id.is_empty() {
        return Err(crate::text::owned("必須クッキー (PHPSESSID) がありません"));
    }
    let pattern = "^\\d+_[A-Za-z0-9]+$";
    assert(pattern@ == session_pattern());
    if !crate::work_key::regex_is_match(pattern, id) {
        return Err(crate::text::owned("PHPSESSID が不正な形式です"));
    }
    Ok(())
}

/// One cookie as `name=value`; a value that is not a string is empty.
pub open spec fn cookie_pair(e: (Seq<char>, JsonView)) -> Seq<char> {
    e.0 + "="@ + match e.1 {
        JsonView::Str(t) => t,
        _ => Seq::empty(),
    }
}

/// The `Cookie` header of an account: its cookies as `name=value`, joined
/// with `; `; empty unless the cookies are an object.
pub open spec fn cookie_header(cookies: JsonView) -> Seq<char> {
    match cookies {
        JsonView::Object(entries) => join(entries.map_values(|e: (Seq<char>, JsonView)| cookie_pair(e)), "; "@),
        _ => Seq::empty(),
    }
}

pub fn build_cookie_string(account: &AccountFile) -> (r: String)
    ensures
        r@ == cookie_header(account.cookies.view()),
{
    proof {
        lemma_view_parts(account.cookies);
        reveal_strlit("=");
    }
    match &account.cookies {
        JsonValue::Object(entries) => {
            let ghost want = entries_view(entries@).map_values(|e: (Seq<char>, JsonView)| cookie_pair(e));
            let mut parts: Vec<Vec<char>> = Vec::new();
            let mut i: usize = 0;
            while i < entries.len()
                invariant
                    i <= entries.len(),
                    want == entries_view(entries@).map_values(|e: (Seq<char>, JsonView)| cookie_pair(e)),
                    crate::text::views(parts@) == want.take(i as int),
                decreases entries.len() - i,
            {
                let mut p: Vec<char> = Vec::new();
                crate::text::push_str(&mut p, entries[i].0.as_str());
                crate::text::push_str(&mut p, "=");
                match &entries[i].1 {
                    JsonValue::Str(t) => crate::text::push_str(&mut p, t.as_str()),
                    _ => {},
                }
                assert(entries_view(entries@)[i as int] == (entries@[i as int].0@, entries@[i as int].1.view()));
                assert(p@ =~= want[i as int]);
                let ghost before = crate::text::views(parts@);
                parts.push(p);
                assert(crate::text::views(parts@) =~= before.push(want[i as int]));
                i = i + 1;
                assert(crate::text::views(parts@) =~= want.take(i as int));
            }
            assert(want.take(i as int) =~= want);
            let joined = crate::text::join_str(&parts, "; ");
            string_from_chars(joined.as_slice())
        },
        _ => String::new(),
    }
}

} // verus!
