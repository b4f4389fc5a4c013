//! JSON values as the library reads them.
use vstd::prelude::*;
use crate::narou::opt_string_view;
use crate::text::{chars_of, str_eq, string_from_chars, strings_view, strs_view};
use crate::pixiv::{format_tags, formatted_tags};
use crate::narou::text_le;
use crate::work_pages::{push_i64, signed_decimal};

verus! {

/// A JSON number: its text as written, and its value where it is an
/// integer that fits in an `i64`.
#[derive(Debug, Clone)]
pub struct JsonNumber {
    pub text: String,
    pub int: Option<i64>,
}

/// A JSON value; an object lists its entries in order, each key once.
#[derive(Debug)]
pub enum JsonValue {
    Null,
    Bool(bool),
    Number(JsonNumber),
    Str(String),
    Array(Vec<JsonValue>),
    Object(Vec<(String, JsonValue)>),
}

/// The mathematical form of a JSON value.
pub enum JsonView {
    Null,
    Bool(bool),
    Number(Seq<char>, Option<i64>),
    Str(Seq<char>),
    Array(Seq<JsonView>),
    Object(Seq<(Seq<char>, JsonView)>),
}

impl JsonValue {
    pub open spec fn view(&self) -> JsonView
        decreases self,
    {
        match self {
            JsonValue::Null => JsonView::Null,
            JsonValue::Bool(b) => JsonView::Bool(*b),
            JsonValue::Number(n) => JsonView::Number(n.text@, n.int),
            JsonValue::Str(s) => JsonView::Str(s@),
            JsonValue::Array(items) => JsonView::Array(
                Seq::new(items.len() as nat, |i: int| if 0 <= i < items.len() { items[i].view() } else { JsonView::Null }),
            ),
            JsonValue::Object(entries) => JsonView::Object(
                Seq::new(
                    entries.len() as nat,
                    |i: int| if 0 <= i < entries.len() { (entries[i].0@, entries[i].1.view()) } else { (Seq::empty(), JsonView::Null) },
                ),
            ),
        }
    }
}

/// The entries of an object, each as its key and value.
pub open spec fn entries_view(entries: Seq<(String, JsonValue)>) -> Seq<(Seq<char>, JsonView)> {
    Seq::new(entries.len(), |i: int| (entries[i].0@, entries[i].1.view()))
}

/// The values of an array.
pub open spec fn items_view(items: Seq<JsonValue>) -> Seq<JsonView> {
    Seq::new(items.len(), |i: int| items[i].view())
}

pub proof fn lemma_view_parts(v: JsonValue)
    ensures
        v matches JsonValue::Array(items) ==> v.view() == JsonView::Array(items_view(items@)),
        v matches JsonValue::Object(entries) ==> v.view() == JsonView::Object(entries_view(entries@)),
{
    match v {
        JsonValue::Array(items) => {
            assert(v.view()->Array_0 =~= items_view(items@));
        },
        JsonValue::Object(entries) => {
            assert(v.view()->Object_0 =~= entries_view(entries@));
        },
        _ => {},
    }
}

/// A copy of a value.
pub fn json_clone(v: &JsonValue) -> (r: JsonValue)
    ensures
        r.view() == v.view(),
    decreases v,
{
    proof {
        lemma_view_parts(*v);
    }
    match v {
        JsonValue::Null => JsonValue::Null,
        JsonValue::Bool(b) => JsonValue::Bool(*b),
        JsonValue::Number(n) => JsonValue::Number(JsonNumber { text: n.text.clone(), int: n.int }),
        JsonValue::Str(s) => JsonValue::Str(s.clone()),
        JsonValue::Array(items) => {
            let mut out: Vec<JsonValue> = Vec::new();
            let mut i: usize = 0;
            while i < items.len()
                invariant
                    i <= items.len(),
                    out.len() == i,
                    *v == JsonValue::Array(*items),
                    forall|k: int| 0 <= k < i ==> (#[trigger] out@[k]).view() == items@[k].view(),
                decreases items.len() - i,
            {
                proof {
                    vstd::std_specs::vec::axiom_vec_index_decreases(*items, i as int);
                    assert(decreases_to!(*v => v->Array_0));
                }
                let c = json_clone(&items[i]);
                out.push(c);
                i = i + 1;
            }
            let r = JsonValue::Array(out);
            proof {
                lemma_view_parts(r);
                assert(items_view(out@) =~= items_view(items@));
            }
            r
        },
        JsonValue::Object(entries) => {
            let mut out: Vec<(String, JsonValue)> = Vec::new();
            let mut i: usize = 0;
            while i < entries.len()
                invariant
                    i <= entries.len(),
                    out.len() == i,
                    *v == JsonValue::Object(*entries),
                    forall|k: int| 0 <= k < i ==> (#[trigger] out@[k]).0@ == entries@[k].0@ && out@[k].1.view()
                        == entries@[k].1.view(),
                decreases entries.len() - i,
            {
                proof {
                    vstd::std_specs::vec::axiom_vec_index_decreases(*entries, i as int);
                    assert(decreases_to!(*v => v->Object_0));
                    assert(decreases_to!(entries[i as int] => entries[i as int].1));
                }
                let c = json_clone(&entries[i].1);
                out.push((entries[i].0.clone(), c));
                i = i + 1;
            }
            let r = JsonValue::Object(out);
            proof {
                lemma_view_parts(r);
                assert(entries_view(out@) =~= entries_view(entries@));
            }
            r
        },
    }
}

// ---------------------------------------------------------------------------
// Reading values
// ---------------------------------------------------------------------------

/// The value of the first entry with `key`.
pub open spec fn lookup(entries: Seq<(Seq<char>, JsonView)>, key: Seq<char>) -> Option<JsonView>
    decreases entries.len(),
{
    if entries.len() == 0 {
        None
    } else if entries[0].0 == key {
        Some(entries[0].1)
    } else {
        lookup(entries.drop_first(), key)
    }
}

/// `Value::get` with a key: the value of an object's entry.
pub open spec fn get(v: JsonView, key: Seq<char>) -> Option<JsonView> {
    match v {
        JsonView::Object(entries) => lookup(entries, key),
        _ => None,
    }
}

/// `get` on a value that may be missing.
pub open spec fn get_opt(v: Option<JsonView>, key: Seq<char>) -> Option<JsonView> {
    match v {
        Some(x) => get(x, key),
        None => None,
    }
}

pub open spec fn as_str(v: Option<JsonView>) -> Option<Seq<char>> {
    match v {
        Some(JsonView::Str(s)) => Some(s),
        _ => None,
    }
}

pub open spec fn as_i64(v: Option<JsonView>) -> Option<i64> {
    match v {
        Some(JsonView::Number(_, n)) => n,
        _ => None,
    }
}

pub open spec fn as_array(v: Option<JsonView>) -> Option<Seq<JsonView>> {
    match v {
        Some(JsonView::Array(items)) => Some(items),
        _ => None,
    }
}

/// The value of an entry of an object, found by its key.
pub fn json_get<'a>(v: &'a JsonValue, key: &str) -> (r: Option<&'a JsonValue>)
    ensures
        match r {
            Some(x) => get(v.view(), key@) == Some(x.view()),
            None => get(v.view(), key@) is None,
        },
{
    proof {
        lemma_view_parts(*v);
    }
    match v {
        JsonValue::Object(entries) => {
            let ghost ev = entries_view(entries@);
            let mut i: usize = 0;
            assert(ev.skip(0) =~= ev);
            while i < entries.len()
                invariant
                    i <= entries.len(),
                    ev == entries_view(entries@),
                    get(v.view(), key@) == lookup(ev, key@),
                    lookup(ev, key@) == lookup(ev.skip(i as int), key@),
                decreases entries.len() - i,
            {
                assert(ev.skip(i as int)[0] == ev[i as int]);
                assert(ev[i as int] == (entries@[i as int].0@, entries@[i as int].1.view()));
                if str_eq(entries[i].0.as_str(), key) {
                    return Some(&entries[i].1);
                }
                assert(ev.skip(i as int).drop_first() =~= ev.skip(i + 1));
                i = i + 1;
            }
            None
        },
        _ => None,
    }
}

/// `Value::as_str`.
pub fn json_as_str<'a>(v: Option<&'a JsonValue>) -> (r: Option<&'a str>)
    ensures
        match r {
            Some(s) => as_str(opt_view(v)) == Some(s@),
            None => as_str(opt_view(v)) is None,
        },
{
    match v {
        Some(JsonValue::Str(s)) => Some(s.as_str()),
        _ => None,
    }
}

/// `Value::as_i64`.
pub fn json_as_i64(v: Option<&JsonValue>) -> (r: Option<i64>)
    ensures
        r == as_i64(opt_view(v)),
{
    match v {
        Some(JsonValue::Number(n)) => n.int,
        _ => None,
    }
}

/// The view of a value that may be missing.
pub open spec fn opt_view(v: Option<&JsonValue>) -> Option<JsonView> {
    match v {
        Some(x) => Some(x.view()),
        None => None,
    }
}

/// The text of a scalar value: a string as it is, a number as written,
/// `true` or `false`; empty for anything else.
pub open spec fn value_text(v: JsonView) -> Seq<char> {
    match v {
        JsonView::Str(s) => s,
        JsonView::Number(t, _) => t,
        JsonView::Bool(b) => if b {
            "true"@
        } else {
            "false"@
        },
        _ => Seq::empty(),
    }
}

pub fn value_to_string(value: &JsonValue) -> (r: String)
    ensures
        r@ == value_text(value.view()),
{
    proof {
        reveal_strlit("true");
        reveal_strlit("false");
    }
    match value {
        JsonValue::Str(s) => s.clone(),
        JsonValue::Number(n) => n.text.clone(),
        JsonValue::Bool(b) => if *b {
            crate::text::owned("true")
        } else {
            crate::text::owned("false")
        },
        _ => String::new(),
    }
}

/// The string value of an entry, else `default`.
pub open spec fn field_text(body: JsonView, key: Seq<char>, default: Seq<char>) -> Seq<char> {
    match as_str(get(body, key)) {
        Some(s) => s,
        None => default,
    }
}

pub fn str_field(body: &JsonValue, key: &str, default: &str) -> (r: String)
    ensures
        r@ == field_text(body.view(), key@, default@),
{
    match json_as_str(json_get(body, key)) {
        Some(s) => crate::text::owned(s),
        None => crate::text::owned(default),
    }
}

/// The integer value of the first of `keys` whose entry holds one, else 0.
pub open spec fn first_int(body: JsonView, keys: Seq<Seq<char>>) -> i64
    decreases keys.len(),
{
    if keys.len() == 0 {
        0
    } else {
        match as_i64(get(body, keys[0])) {
            Some(n) => n,
            None => first_int(body, keys.drop_first()),
        }
    }
}

pub fn int_field(body: &JsonValue, keys: &[&str]) -> (r: i64)
    ensures
        r == first_int(body.view(), strs_view(keys@)),
{
    let ghost ks = strs_view(keys@);
    let mut i: usize = 0;
    assert(ks.skip(0) =~= ks);
    while i < keys.len()
        invariant
            i <= keys.len(),
            ks == strs_view(keys@),
            first_int(body.view(), ks) == first_int(body.view(), ks.skip(i as int)),
        decreases keys.len() - i,
    {
        assert(ks.skip(i as int)[0] == keys@[i as int]@);
        if let Some(n) = json_as_i64(json_get(body, keys[i])) {
            return n;
        }
        assert(ks.skip(i as int).drop_first() =~= ks.skip(i + 1));
        i = i + 1;
    }
    0
}

/// `Value::as_array`: the items of an array.
pub fn json_as_array<'a>(v: Option<&'a JsonValue>) -> (r: Option<&'a Vec<JsonValue>>)
    ensures
        match r {
            Some(a) => as_array(opt_view(v)) == Some(items_view(a@)),
            None => as_array(opt_view(v)) is None,
        },
{
    match v {
        Some(JsonValue::Array(items)) => {
            proof {
                lemma_view_parts(*v->0);
            }
            Some(items)
        },
        _ => None,
    }
}

/// The keys of an object's entries, in order.
pub open spec fn object_keys(entries: Seq<(Seq<char>, JsonView)>) -> Seq<Seq<char>> {
    entries.map_values(|e: (Seq<char>, JsonView)| e.0)
}

/// The keys of an object, none for anything else.
pub open spec fn keys_of(v: Option<JsonView>) -> Seq<Seq<char>> {
    match v {
        Some(JsonView::Object(entries)) => object_keys(entries),
        _ => Seq::empty(),
    }
}

fn entry_keys(entries: &Vec<(String, JsonValue)>) -> (r: Vec<String>)
    ensures
        strings_view(r@) == object_keys(entries_view(entries@)),
{
    let mut out: Vec<String> = Vec::new();
    let mut i: usize = 0;
    while i < entries.len()
        invariant
            i <= entries.len(),
            strings_view(out@) == object_keys(entries_view(entries@)).take(i as int),
        decreases entries.len() - i,
    {
        let ghost before = strings_view(out@);
        assert(object_keys(entries_view(entries@))[i as int] == entries@[i as int].0@);
        out.push(crate::text::owned(entries[i].0.as_str()));
        assert(strings_view(out@) =~= before.push(entries@[i as int].0@));
        i = i + 1;
        assert(strings_view(out@) =~= object_keys(entries_view(entries@)).take(i as int));
    }
    assert(object_keys(entries_view(entries@)).take(i as int) =~= object_keys(entries_view(entries@)));
    out
}

pub fn extract_object_keys(value: Option<&JsonValue>) -> (r: Vec<String>)
    ensures
        strings_view(r@) == keys_of(opt_view(value)),
{
    match value {
        Some(JsonValue::Object(entries)) => {
            proof {
                lemma_view_parts(*value->0);
            }
            entry_keys(entries)
        },
        _ => {
            let r: Vec<String> = Vec::new();
            assert(strings_view(r@) =~= Seq::<Seq<char>>::empty());
            r
        },
    }
}

/// The non-empty texts of the `id` entries of the items, in order.
pub open spec fn item_ids(items: Seq<JsonView>) -> Seq<Seq<char>>
    decreases items.len(),
{
    if items.len() == 0 {
        Seq::empty()
    } else {
        let prev = item_ids(items.drop_last());
        match get(items.last(), "id"@) {
            Some(x) => if value_text(x).len() > 0 {
                prev.push(value_text(x))
            } else {
                prev
            },
            None => prev,
        }
    }
}

/// The ids of a profile's works: the keys of an object, or the ids of the
/// items of an array.
pub open spec fn profile_ids(v: Option<JsonView>) -> Seq<Seq<char>> {
    match v {
        Some(JsonView::Object(entries)) => object_keys(entries),
        Some(JsonView::Array(items)) => item_ids(items),
        _ => Seq::empty(),
    }
}

pub fn extract_profile_ids(value: Option<&JsonValue>) -> (r: Vec<String>)
    ensures
        strings_view(r@) == profile_ids(opt_view(value)),
{
    match value {
        Some(JsonValue::Object(entries)) => {
            proof {
                lemma_view_parts(*value->0);
            }
            entry_keys(entries)
        },
        Some(JsonValue::Array(items)) => {
            proof {
                lemma_view_parts(*value->0);
            }
            let ghost iv = items_view(items@);
            let mut out: Vec<String> = Vec::new();
            let mut i: usize = 0;
            assert(iv.take(0) =~= Seq::<JsonView>::empty());
            while i < items.len()
                invariant
                    i <= items.len(),
                    iv == items_view(items@),
                    strings_view(out@) == item_ids(iv.take(i as int)),
                decreases items.len() - i,
            {
                assert(iv.take(i + 1).drop_last() =~= iv.take(i as int));
                assert(iv.take(i + 1).last() == items@[i as int].view());
                let ghost before = strings_view(out@);
                if let Some(x) = json_get(&items[i], "id") {
                    let t = value_to_string(x);
                    if !t.as_str().is_empty() {
                        out.push(t);
                        assert(strings_view(out@) =~= before.push(value_text(x.view())));
                    } else {
                        assert(t@.len() == 0) by {
                            if t@.len() > 0 {
                                assert(t@.len() == 0);
                            }
                        }
                    }
                }
                i = i + 1;
            }
            assert(iv.take(i as int) =~= iv);
            out
        },
        _ => {
            let r: Vec<String> = Vec::new();
            assert(strings_view(r@) =~= Seq::<Seq<char>>::empty());
            r
        },
    }
}

/// The value reached from `v` by the keys of `path`, one after another.
pub open spec fn walk(v: JsonView, path: Seq<Seq<char>>) -> Option<JsonView>
    decreases path.len(),
{
    if path.len() == 0 {
        Some(v)
    } else {
        match get(v, path[0]) {
            Some(x) => walk(x, path.drop_first()),
            None => None,
        }
    }
}

/// The texts of the `tag` entries of the items that have one.
pub open spec fn tag_texts(items: Seq<JsonView>) -> Seq<Seq<char>>
    decreases items.len(),
{
    if items.len() == 0 {
        Seq::empty()
    } else {
        let prev = tag_texts(items.drop_last());
        match as_str(get(items.last(), "tag"@)) {
            Some(t) => prev.push(t),
            None => prev,
        }
    }
}

/// The tags of the array reached by `path`: the `tag` of each item.
pub open spec fn nested_tags(body: JsonView, path: Seq<Seq<char>>) -> Seq<Seq<char>> {
    match walk(body, path) {
        Some(c) => formatted_tags(
            match as_array(Some(c)) {
                Some(items) => tag_texts(items),
                None => Seq::empty(),
            },
        ),
        None => Seq::empty(),
    }
}

pub fn extract_tag_names_nested(body: &JsonValue, path: &[&str]) -> (r: Vec<String>)
    ensures
        strings_view(r@) == nested_tags(body.view(), strs_view(path@)),
{
    let ghost pv = strs_view(path@);
    let mut current = body;
    let mut i: usize = 0;
    assert(pv.skip(0) =~= pv);
    while i < path.len()
        invariant
            i <= path.len(),
            pv == strs_view(path@),
            walk(body.view(), pv) == walk(current.view(), pv.skip(i as int)),
        decreases path.len() - i,
    {
        assert(pv.skip(i as int)[0] == path@[i as int]@);
        assert(pv.skip(i as int).drop_first() =~= pv.skip(i + 1));
        match json_get(current, path[i]) {
            Some(x) => {
                current = x;
            },
            None => {
                let r: Vec<String> = Vec::new();
                assert(strings_view(r@) =~= Seq::<Seq<char>>::empty());
                return r;
            },
        }
        i = i + 1;
    }
    assert(pv.skip(i as int) =~= Seq::<Seq<char>>::empty());
    let mut raw: Vec<String> = Vec::new();
    if let Some(items) = json_as_array(Some(current)) {
        let ghost iv = items_view(items@);
        let mut k: usize = 0;
        assert(iv.take(0) =~= Seq::<JsonView>::empty());
        assert(strings_view(raw@) =~= Seq::<Seq<char>>::empty());
        while k < items.len()
            invariant
                k <= items.len(),
                iv == items_view(items@),
                strings_view(raw@) == tag_texts(iv.take(k as int)),
            decreases items.len() - k,
        {
            assert(iv.take(k + 1).drop_last() =~= iv.take(k as int));
            assert(iv.take(k + 1).last() == items@[k as int].view());
            let ghost before = strings_view(raw@);
            if let Some(t) = json_as_str(json_get(&items[k], "tag")) {
                raw.push(crate::text::owned(t));
                assert(strings_view(raw@) =~= before.push(t@));
            }
            k = k + 1;
        }
        assert(iv.take(k as int) =~= iv);
    } else {
        assert(strings_view(raw@) =~= Seq::<Seq<char>>::empty());
    }
    format_tags(raw)
}

/// The string items of an array, in order.
pub open spec fn string_items(items: Seq<JsonView>) -> Seq<Seq<char>>
    decreases items.len(),
{
    if items.len() == 0 {
        Seq::empty()
    } else {
        let prev = string_items(items.drop_last());
        match items.last() {
            JsonView::Str(t) => prev.push(t),
            _ => prev,
        }
    }
}

pub fn collect_strings(items: &Vec<JsonValue>) -> (r: Vec<String>)
    ensures
        strings_view(r@) == string_items(items_view(items@)),
{
    let ghost iv = items_view(items@);
    let mut out: Vec<String> = Vec::new();
    let mut k: usize = 0;
    assert(iv.take(0) =~= Seq::<JsonView>::empty());
    assert(strings_view(out@) =~= Seq::<Seq<char>>::empty());
    while k < items.len()
        invariant
            k <= items.len(),
            iv == items_view(items@),
            strings_view(out@) == string_items(iv.take(k as int)),
        decreases items.len() - k,
    {
        assert(iv.take(k + 1).drop_last() =~= iv.take(k as int));
        assert(iv.take(k + 1).last() == items@[k as int].view());
        let ghost before = strings_view(out@);
        if let Some(t) = json_as_str(Some(&items[k])) {
            out.push(crate::text::owned(t));
            assert(strings_view(out@) =~= before.push(t@));
        }
        k = k + 1;
    }
    assert(iv.take(k as int) =~= iv);
    out
}

/// The tags listed as strings under `key`.
pub open spec fn flat_tags(body: JsonView, key: Seq<char>) -> Seq<Seq<char>> {
    match as_array(get(body, key)) {
        Some(items) => formatted_tags(string_items(items)),
        None => Seq::empty(),
    }
}

pub fn extract_flat_tags(body: &JsonValue, key: &str) -> (r: Vec<String>)
    ensures
        strings_view(r@) == flat_tags(body.view(), key@),
{
    match json_as_array(json_get(body, key)) {
        Some(items) => format_tags(collect_strings(items)),
        None => {
            let r: Vec<String> = Vec::new();
            assert(strings_view(r@) =~= Seq::<Seq<char>>::empty());
            r
        },
    }
}

/// The tags of a translation table: its keys, or its string items.
pub open spec fn translation_tags(v: Option<JsonView>) -> Seq<Seq<char>> {
    match v {
        Some(JsonView::Object(entries)) => formatted_tags(object_keys(entries)),
        Some(JsonView::Array(items)) => formatted_tags(string_items(items)),
        _ => Seq::empty(),
    }
}

pub fn extract_tag_names_from_translation(tag_data: Option<&JsonValue>) -> (r: Vec<String>)
    ensures
        strings_view(r@) == translation_tags(opt_view(tag_data)),
{
    match tag_data {
        Some(JsonValue::Object(entries)) => {
            proof {
                lemma_view_parts(*tag_data->0);
            }
            format_tags(entry_keys(entries))
        },
        Some(JsonValue::Array(items)) => {
            proof {
                lemma_view_parts(*tag_data->0);
            }
            format_tags(collect_strings(items))
        },
        _ => {
            let r: Vec<String> = Vec::new();
            assert(strings_view(r@) =~= Seq::<Seq<char>>::empty());
            r
        },
    }
}

// ---------------------------------------------------------------------------
// Surveys
// ---------------------------------------------------------------------------

pub open spec fn or_empty(o: Option<Seq<char>>) -> Seq<char> {
    match o {
        Some(s) => s,
        None => Seq::empty(),
    }
}

pub open spec fn or_zero(o: Option<i64>) -> i64 {
    match o {
        Some(n) => n,
        None => 0,
    }
}

/// One choice of a survey and its votes.
pub open spec fn choice_line(c: JsonView) -> Seq<char> {
    "　　　"@ + or_empty(as_str(get(c, "text"@))) + "　　"@ + signed_decimal(or_zero(as_i64(get(c, "count"@))) as int)
        + "票\n"@
}

pub open spec fn choice_lines(cs: Seq<JsonView>) -> Seq<char>
    decreases cs.len(),
{
    if cs.len() == 0 {
        Seq::empty()
    } else {
        choice_lines(cs.drop_last()) + choice_line(cs.last())
    }
}

/// A survey as text: its question and votes, then each choice; nothing
/// unless it is an object.
pub open spec fn survey_text(survey: Option<JsonView>) -> Seq<char> {
    match survey {
        Some(v) => if v is Object {
            "アンケート　\""@ + or_empty(as_str(get(v, "question"@))) + "\"　　票数"@ + signed_decimal(
                or_zero(as_i64(get(v, "total"@))) as int,
            ) + "票\n\n"@ + match as_array(get(v, "choices"@)) {
                Some(cs) => choice_lines(cs),
                None => Seq::empty(),
            }
        } else {
            Seq::empty()
        },
        None => Seq::empty(),
    }
}

fn push_choice(out: &mut Vec<char>, c: &JsonValue)
    ensures
        final(out)@ == old(out)@ + choice_line(c.view()),
{
    proof {
        reveal_strlit("　　　");
        reveal_strlit("　　");
        reveal_strlit("票\n");
    }
    let ghost start = out@;
    crate::text::push_str(out, "　　　");
    match json_as_str(json_get(c, "text")) {
        Some(t) => crate::text::push_str(out, t),
        None => {},
    }
    crate::text::push_str(out, "　　");
    let count = match json_as_i64(json_get(c, "count")) {
        Some(n) => n,
        None => 0,
    };
    push_i64(out, count);
    crate::text::push_str(out, "票\n");
    assert(out@ =~= start + choice_line(c.view()));
}

/// A survey of a Pixiv work as text.
pub fn format_survey(survey: Option<JsonValue>) -> (r: String)
    ensures
        r@ == survey_text(match survey {
            Some(v) => Some(v.view()),
            None => None,
        }),
{
    let v = match survey {
        Some(v) => v,
        None => return String::new(),
    };
    let is_object = match &v {
        JsonValue::Object(_) => true,
        _ => false,
    };
    if !is_object {
        return String::new();
    }
    proof {
        reveal_strlit("アンケート　\"");
        reveal_strlit("\"　　票数");
        reveal_strlit("票\n\n");
    }
    let mut out: Vec<char> = Vec::new();
    crate::text::push_str(&mut out, "アンケート　\"");
    match json_as_str(json_get(&v, "question")) {
        Some(t) => crate::text::push_str(&mut out, t),
        None => {},
    }
    crate::text::push_str(&mut out, "\"　　票数");
    let total = match json_as_i64(json_get(&v, "total")) {
        Some(n) => n,
        None => 0,
    };
    push_i64(&mut out, total);
    crate::text::push_str(&mut out, "票\n\n");
    let ghost head = out@;
    if let Some(cs) = json_as_array(json_get(&v, "choices")) {
        let ghost cv = items_view(cs@);
        let mut i: usize = 0;
        assert(cv.take(0) =~= Seq::<JsonView>::empty());
        assert(out@ =~= head + choice_lines(cv.take(0)));
        while i < cs.len()
            invariant
                i <= cs.len(),
                cv == items_view(cs@),
                out@ == head + choice_lines(cv.take(i as int)),
            decreases cs.len() - i,
        {
            assert(cv.take(i + 1).drop_last() =~= cv.take(i as int));
            assert(cv.take(i + 1).last() == cs@[i as int].view());
            push_choice(&mut out, &cs[i]);
            i = i + 1;
            assert(out@ =~= head + choice_lines(cv.take(i as int)));
        }
        assert(cv.take(i as int) =~= cv);
    } else {
        assert(out@ =~= head + Seq::<char>::empty());
    }
    string_from_chars(out.as_slice())
}

// ---------------------------------------------------------------------------
// Entries of a comic series
// ---------------------------------------------------------------------------

/// The entries of one page of a comic series, and whether more pages may
/// follow.
#[derive(Debug)]
pub struct ComicSeriesEntriesPage {
    pub entries: Vec<JsonValue>,
    pub has_more: bool,
}

/// The items of a non-empty array.
pub open spec fn nonempty_array(v: Option<JsonView>) -> Option<Seq<JsonView>> {
    match as_array(v) {
        Some(items) => if items.len() > 0 {
            Some(items)
        } else {
            None
        },
        None => None,
    }
}

/// Where a series page lists its entries, in order of preference.
pub open spec fn comic_sources(body: JsonView) -> Seq<Option<JsonView>> {
    seq![
        get_opt(get(body, "page"@), "series"@),
        get_opt(get(body, "page"@), "contentOrder"@),
        get(body, "series"@),
        get(body, "contentOrder"@),
        get_opt(get(body, "page"@), "seriesContents"@),
        get(body, "seriesContents"@),
    ]
}

/// The first source that is a non-empty array.
pub open spec fn first_source(srcs: Seq<Option<JsonView>>) -> Option<Seq<JsonView>>
    decreases srcs.len(),
{
    if srcs.len() == 0 {
        None
    } else {
        match nonempty_array(srcs[0]) {
            Some(items) => Some(items),
            None => first_source(srcs.drop_first()),
        }
    }
}

/// A JSON integer.
pub open spec fn int_view(n: i64) -> JsonView {
    JsonView::Number(signed_decimal(n as int), Some(n))
}

/// The entry made from a thumbnail: its order (`seriesOrder`, else `order`,
/// else `index`) and its work id.
pub open spec fn thumb_entry(item: JsonView, index: i64) -> JsonView {
    let order = match get(item, "seriesOrder"@) {
        Some(x) => Some(x),
        None => get(item, "order"@),
    };
    let n: i64 = match as_i64(order) {
        Some(v) => v,
        None => index,
    };
    JsonView::Object(
        seq![
            ("order"@, int_view(n)),
            ("workId"@, JsonView::Str(match get(item, "id"@) {
                Some(x) => value_text(x),
                None => Seq::empty(),
            })),
        ],
    )
}

/// The thumbnails of a series page, when it has any.
pub open spec fn thumbnails(body: JsonView) -> Option<Seq<JsonView>> {
    nonempty_array(get_opt(get(body, "thumbnails"@), "illust"@))
}

/// The entries of a series page: the first listed source, with more pages to
/// come; else its thumbnails, numbered on from the earlier pages, as the last
/// page; else nothing.
pub open spec fn comic_entries(body: JsonView, page: nat) -> (Seq<JsonView>, bool) {
    match first_source(comic_sources(body)) {
        Some(items) => (items, true),
        None => match thumbnails(body) {
            Some(ill) => {
                let offset = if page > 0 {
                    (page - 1) * ill.len()
                } else {
                    0
                };
                (Seq::new(ill.len(), |i: int| thumb_entry(ill[i], (offset + i + 1) as i64)), false)
            },
            None => (Seq::empty(), false),
        },
    }
}

fn get_in<'a>(v: Option<&'a JsonValue>, key: &str) -> (r: Option<&'a JsonValue>)
    ensures
        opt_view(r) == get_opt(opt_view(v), key@),
{
    match v {
        Some(x) => json_get(x, key),
        None => None,
    }
}

fn nonempty_items<'a>(v: Option<&'a JsonValue>) -> (r: Option<&'a Vec<JsonValue>>)
    ensures
        match r {
            Some(a) => nonempty_array(opt_view(v)) == Some(items_view(a@)),
            None => nonempty_array(opt_view(v)) is None,
        },
{
    match json_as_array(v) {
        Some(a) => if a.len() > 0 {
            Some(a)
        } else {
            None
        },
        None => None,
    }
}

fn clone_items(items: &Vec<JsonValue>) -> (r: Vec<JsonValue>)
    ensures
        items_view(r@) == items_view(items@),
{
    let mut out: Vec<JsonValue> = Vec::new();
    let mut i: usize = 0;
    while i < items.len()
        invariant
            i <= items.len(),
            out.len() == i,
            forall|k: int| 0 <= k < i ==> (#[trigger] out@[k]).view() == items@[k].view(),
        decreases items.len() - i,
    {
        out.push(json_clone(&items[i]));
        i = i + 1;
    }
    assert(items_view(out@) =~= items_view(items@));
    out
}

/// A JSON integer.
pub fn json_int(n: i64) -> (r: JsonValue)
    ensures
        r.view() == int_view(n),
{
    let mut t: Vec<char> = Vec::new();
    push_i64(&mut t, n);
    assert(t@ =~= signed_decimal(n as int));
    JsonValue::Number(JsonNumber { text: string_from_chars(t.as_slice()), int: Some(n) })
}

fn thumb_entry_exec(item: &JsonValue, index: i64) -> (r: JsonValue)
    ensures
        r.view() == thumb_entry(item.view(), index),
{
    proof {
        reveal_strlit("order");
        reveal_strlit("workId");
    }
    let order = match json_get(item, "seriesOrder") {
        Some(x) => Some(x),
        None => json_get(item, "order"),
    };
    let n: i64 = match json_as_i64(order) {
        Some(v) => v,
        None => index,
    };
    let id = match json_get(item, "id") {
        Some(x) => value_to_string(x),
        None => String::new(),
    };
    let ghost idv = id@;
    assert(idv == match get(item.view(), "id"@) {
        Some(x) => value_text(x),
        None => Seq::<char>::empty(),
    });
    assert(n == match as_i64(match get(item.view(), "seriesOrder"@) {
        Some(x) => Some(x),
        None => get(item.view(), "order"@),
    }) {
        Some(v) => v,
        None => index,
    });
    let order_entry = (crate::text::owned("order"), json_int(n));
    let id_entry = (crate::text::owned("workId"), JsonValue::Str(id));
    let entries = vec![order_entry, id_entry];
    let r = JsonValue::Object(entries);
    proof {
        lemma_view_parts(r);
        assert(entries_view(entries@) =~= seq![("order"@, int_view(n)), ("workId"@, JsonView::Str(idv))]);
        assert(r.view() == JsonView::Object(entries_view(entries@)));
        assert(r.view() == JsonView::Object(seq![("order"@, int_view(n)), ("workId"@, JsonView::Str(idv))]));
        let t = thumb_entry(item.view(), index);
        assert(t->Object_0 =~= seq![("order"@, int_view(n)), ("workId"@, JsonView::Str(idv))]);
    }
    r
}

/// The entries of one page of a comic series.
pub fn extract_comic_series_entries(body: &JsonValue, page: usize) -> (r: ComicSeriesEntriesPage)
    requires
        first_source(comic_sources(body.view())) is None && thumbnails(body.view()) is Some ==> {
            let n = (if page > 0 {
                page as int
            } else {
                1
            }) * thumbnails(body.view())->0.len();
            n <= i64::MAX && n <= usize::MAX
        },
    ensures
        (items_view(r.entries@), r.has_more) == comic_entries(body.view(), page as nat),
{
    let ghost b = body.view();
    let pg = json_get(body, "page");
    let sources: [Option<&JsonValue>; 6] = [
        get_in(pg, "series"),
        get_in(pg, "contentOrder"),
        json_get(body, "series"),
        json_get(body, "contentOrder"),
        get_in(pg, "seriesContents"),
        json_get(body, "seriesContents"),
    ];
    let ghost srcs = comic_sources(b);
    assert(sources@.map_values(|o: Option<&JsonValue>| opt_view(o)) =~= srcs);
    let mut k: usize = 0;
    assert(srcs.skip(0) =~= srcs);
    while k < 6
        invariant
            k <= 6,
            srcs == comic_sources(b),
            b == body.view(),
            sources@.len() == 6,
            sources@.map_values(|o: Option<&JsonValue>| opt_view(o)) == srcs,
            first_source(srcs) == first_source(srcs.skip(k as int)),
        decreases 6 - k,
    {
        assert(srcs.skip(k as int)[0] == srcs[k as int]);
        assert(srcs[k as int] == opt_view(sources@[k as int]));
        if let Some(items) = nonempty_items(sources[k]) {
            return ComicSeriesEntriesPage { entries: clone_items(items), has_more: true };
        }
        assert(srcs.skip(k as int).drop_first() =~= srcs.skip(k + 1));
        k = k + 1;
    }
    assert(srcs.skip(6) =~= Seq::<Option<JsonView>>::empty());
    let thumbs = get_in(json_get(body, "thumbnails"), "illust");
    match nonempty_items(thumbs) {
        Some(ill) => {
            let ghost iv = items_view(ill@);
            let len = ill.len();
            let before: usize = if page > 0 {
                page - 1
            } else {
                0
            };
            let ghost top: int = if page > 0 {
                page as int
            } else {
                1
            };
            assert(top * len <= i64::MAX && top * len <= usize::MAX);
            assert(before * len + len <= top * len) by (nonlinear_arith)
                requires
                    before + 1 <= top,
                    len >= 0,
            ;
            let offset: usize = before * len;
            let mut out: Vec<JsonValue> = Vec::new();
            let mut i: usize = 0;
            while i < len
                invariant
                    i <= len,
                    len == ill.len(),
                    iv == items_view(ill@),
                    offset == before * len,
                    before * len + len <= i64::MAX,
                    before * len + len <= usize::MAX,
                    out.len() == i,
                    forall|j: int| 0 <= j < i ==> (#[trigger] out@[j]).view() == thumb_entry(iv[j], (offset + j + 1) as i64),
                decreases len - i,
            {
                let e = thumb_entry_exec(&ill[i], (offset + i + 1) as i64);
                out.push(e);
                i = i + 1;
            }
            assert(items_view(out@) =~= Seq::new(iv.len(), |j: int| thumb_entry(iv[j], (offset + j + 1) as i64)));
            ComicSeriesEntriesPage { entries: out, has_more: false }
        },
        None => ComicSeriesEntriesPage { entries: Vec::new(), has_more: false },
    }
}

// ---------------------------------------------------------------------------
// Searching for a key
// ---------------------------------------------------------------------------

/// The value of the first entry with `key` met in a depth-first walk: an
/// object's own entry first, then its values in order; an array's items in
/// order.
pub open spec fn find_key(v: JsonView, key: Seq<char>) -> Option<JsonView>
    decreases v,
{
    match v {
        JsonView::Object(entries) => match lookup(entries, key) {
            Some(x) => Some(x),
            None => find_in_entries(entries, key),
        },
        JsonView::Array(items) => find_in_items(items, key),
        _ => None,
    }
}

pub open spec fn find_in_items(items: Seq<JsonView>, key: Seq<char>) -> Option<JsonView>
    decreases items,
{
    if items.len() == 0 {
        None
    } else {
        match find_key(items[0], key) {
            Some(x) => Some(x),
            None => find_in_items(items.drop_first(), key),
        }
    }
}

pub open spec fn find_in_entries(entries: Seq<(Seq<char>, JsonView)>, key: Seq<char>) -> Option<JsonView>
    decreases entries,
{
    if entries.len() == 0 {
        None
    } else {
        match find_key(entries[0].1, key) {
            Some(x) => Some(x),
            None => find_in_entries(entries.drop_first(), key),
        }
    }
}

/// The view of a value that may be missing, for owned values.
pub open spec fn opt_owned_view(v: Option<JsonValue>) -> Option<JsonView> {
    match v {
        Some(x) => Some(x.view()),
        None => None,
    }
}

/// The value of the first entry with `key` found anywhere in `value`.
pub fn find_key_recursively(value: &JsonValue, key: &str) -> (r: Option<JsonValue>)
    ensures
        opt_owned_view(r) == find_key(value.view(), key@),
    decreases value,
{
    proof {
        lemma_view_parts(*value);
    }
    match value {
        JsonValue::Object(entries) => {
            if let Some(v) = json_get(value, key) {
                return Some(json_clone(v));
            }
            let ghost ev = entries_view(entries@);
            let mut i: usize = 0;
            assert(ev.skip(0) =~= ev);
            while i < entries.len()
                invariant
                    i <= entries.len(),
                    *value == JsonValue::Object(*entries),
                    ev == entries_view(entries@),
                    find_key(value.view(), key@) == find_in_entries(ev.skip(i as int), key@),
                decreases entries.len() - i,
            {
                proof {
                    vstd::std_specs::vec::axiom_vec_index_decreases(*entries, i as int);
                    assert(decreases_to!(*value => value->Object_0));
                    assert(decreases_to!(entries[i as int] => entries[i as int].1));
                    assert(ev.skip(i as int)[0] == ev[i as int]);
                    assert(ev[i as int].1 == entries@[i as int].1.view());
                    assert(ev.skip(i as int).drop_first() =~= ev.skip(i + 1));
                }
                if let Some(found) = find_key_recursively(&entries[i].1, key) {
                    return Some(found);
                }
                i = i + 1;
            }
            None
        },
        JsonValue::Array(items) => {
            let ghost iv = items_view(items@);
            let mut i: usize = 0;
            assert(iv.skip(0) =~= iv);
            while i < items.len()
                invariant
                    i <= items.len(),
                    *value == JsonValue::Array(*items),
                    iv == items_view(items@),
                    find_key(value.view(), key@) == find_in_items(iv.skip(i as int), key@),
                decreases items.len() - i,
            {
                proof {
                    vstd::std_specs::vec::axiom_vec_index_decreases(*items, i as int);
                    assert(decreases_to!(*value => value->Array_0));
                    assert(iv.skip(i as int)[0] == iv[i as int]);
                    assert(iv.skip(i as int).drop_first() =~= iv.skip(i + 1));
                }
                if let Some(found) = find_key_recursively(&items[i], key) {
                    return Some(found);
                }
                i = i + 1;
            }
            None
        },
        _ => None,
    }
}

// ---------------------------------------------------------------------------
// Episodes in order of creation
// ---------------------------------------------------------------------------

/// The creation date of an episode, empty where it has none.
pub open spec fn created(v: JsonView) -> Seq<char> {
    or_empty(as_str(get(v, "createDate"@)))
}

/// `x` placed after every episode created at or before it.
pub open spec fn insert_by_date(sorted: Seq<JsonView>, x: JsonView) -> Seq<JsonView>
    decreases sorted.len(),
{
    if sorted.len() == 0 {
        seq![x]
    } else if text_le(created(x), created(sorted[0])) && created(x) != created(sorted[0]) {
        seq![x] + sorted
    } else {
        seq![sorted[0]] + insert_by_date(sorted.drop_first(), x)
    }
}

/// The episodes in order of creation date, those with equal dates in the
/// order given (the order of a stable sort).
pub open spec fn sort_by_date(vs: Seq<JsonView>) -> Seq<JsonView>
    decreases vs.len(),
{
    if vs.len() == 0 {
        vs
    } else {
        insert_by_date(sort_by_date(vs.drop_last()), vs.last())
    }
}

fn created_chars(v: &JsonValue) -> (r: Vec<char>)
    ensures
        r@ == created(v.view()),
{
    match json_as_str(json_get(v, "createDate")) {
        Some(t) => chars_of(t),
        None => Vec::new(),
    }
}

fn date_before(x: &JsonValue, y: &JsonValue) -> (r: bool)
    ensures
        r == (text_le(created(x.view()), created(y.view())) && created(x.view()) != created(y.view())),
{
    let xd = created_chars(x);
    let yd = created_chars(y);
    crate::narou::text_less(xd.as_slice(), yd.as_slice())
}

proof fn lemma_insert_by_date_len(sorted: Seq<JsonView>, x: JsonView)
    ensures
        insert_by_date(sorted, x).len() == sorted.len() + 1,
    decreases sorted.len(),
{
    if sorted.len() > 0 {
        lemma_insert_by_date_len(sorted.drop_first(), x);
    }
}

proof fn lemma_sort_by_date_len(vs: Seq<JsonView>)
    ensures
        sort_by_date(vs).len() == vs.len(),
    decreases vs.len(),
{
    if vs.len() > 0 {
        lemma_sort_by_date_len(vs.drop_last());
        lemma_insert_by_date_len(sort_by_date(vs.drop_last()), vs.last());
    }
}

fn insert_episode_by_date(sorted: &mut Vec<JsonValue>, x: JsonValue)
    ensures
        items_view(final(sorted)@) == insert_by_date(items_view(old(sorted)@), x.view()),
{
    let ghost start = items_view(sorted@);
    let mut j: usize = 0;
    assert(start.skip(0) =~= start);
    while j < sorted.len() && !date_before(&x, &sorted[j])
        invariant
            j <= sorted.len(),
            start == items_view(sorted@),
            insert_by_date(start, x.view()) == start.take(j as int) + insert_by_date(start.skip(j as int), x.view()),
        decreases sorted.len() - j,
    {
        let ghost rest = start.skip(j as int);
        assert(rest[0] == sorted@[j as int].view());
        assert(rest.drop_first() =~= start.skip(j + 1));
        assert(start.take(j + 1) =~= start.take(j as int).push(rest[0]));
        assert(start.take(j as int) + (seq![rest[0]] + insert_by_date(rest.drop_first(), x.view())) =~= start.take(
            j + 1,
        ) + insert_by_date(start.skip(j + 1), x.view()));
        j = j + 1;
    }
    let ghost xv = x.view();
    let ghost rest = start.skip(j as int);
    if j < sorted.len() {
        assert(rest[0] == sorted@[j as int].view());
    } else {
        assert(rest =~= Seq::<JsonView>::empty());
    }
    assert(insert_by_date(rest, xv) == seq![xv] + rest);
    sorted.insert(j, x);
    assert(items_view(sorted@) =~= start.take(j as int) + (seq![xv] + rest));
    assert(start.take(j as int) + rest =~= start);
}

/// The episodes keyed `1`, `2`, … in turn, put into an object ordered by
/// key as a map ordered by key stores them.
pub open spec fn numbered(vs: Seq<JsonView>) -> Seq<(Seq<char>, JsonView)>
    decreases vs.len(),
{
    if vs.len() == 0 {
        Seq::empty()
    } else {
        map_insert(numbered(vs.drop_last()), crate::text::decimal(vs.len()), vs.last())
    }
}

/// Episodes renumbered in order of creation date: the values of the given
/// entries, sorted stably by `createDate`, keyed `1`, `2`, … in that order,
/// the entries kept in order of their keys as text.
pub fn sort_episodes_by_create_date(episodes: Vec<(String, JsonValue)>) -> (r: Vec<(String, JsonValue)>)
    requires
        episodes@.len() < u64::MAX,
    ensures
        entries_view(r@) == numbered(sort_by_date(entries_view(episodes@).map_values(|e: (Seq<char>, JsonView)| e.1))),
{
    let ghost all = entries_view(episodes@);
    let ghost values = all.map_values(|e: (Seq<char>, JsonView)| e.1);
    let n = episodes.len();
    let mut rest = episodes;
    let mut sorted: Vec<JsonValue> = Vec::new();
    let mut i: usize = 0;
    assert(values.take(0) =~= Seq::<JsonView>::empty());
    assert(items_view(sorted@) =~= Seq::<JsonView>::empty());
    assert(all.skip(0) =~= all);
    while i < n
        invariant
            i <= n,
            n == all.len(),
            rest.len() == n - i,
            entries_view(rest@) == all.skip(i as int),
            values == all.map_values(|e: (Seq<char>, JsonView)| e.1),
            items_view(sorted@) == sort_by_date(values.take(i as int)),
        decreases n - i,
    {
        let ghost before = entries_view(rest@);
        let ghost old_rest = rest@;
        let e = rest.remove(0);
        assert(rest@ =~= old_rest.drop_first());
        assert(before[0] == (e.0@, e.1.view()));
        assert(values[i as int] == e.1.view());
        assert(values.take(i + 1).drop_last() =~= values.take(i as int));
        insert_episode_by_date(&mut sorted, e.1);
        assert(entries_view(rest@) =~= before.drop_first());
        assert(before.drop_first() =~= all.skip(i + 1));
        i = i + 1;
    }
    assert(values.take(i as int) =~= values);
    proof {
        lemma_sort_by_date_len(values);
    }
    let ghost sv = items_view(sorted@);
    let mut out: Vec<(String, JsonValue)> = Vec::new();
    let mut idx: usize = 0;
    assert(sv.skip(0) =~= sv);
    assert(sv.take(0) =~= Seq::<JsonView>::empty());
    assert(entries_view(out@) =~= numbered(sv.take(0)));
    while idx < n
        invariant
            idx <= n,
            n < u64::MAX,
            sv.len() == n,
            sorted.len() == n - idx,
            items_view(sorted@) == sv.skip(idx as int),
            entries_view(out@) == numbered(sv.take(idx as int)),
        decreases n - idx,
    {
        let ghost before = items_view(sorted@);
        let ghost old_sorted = sorted@;
        let v = sorted.remove(0);
        assert(sorted@ =~= old_sorted.drop_first());
        assert(before[0] == v.view());
        let key = crate::text::decimal_chars(idx as u64 + 1);
        assert(sv.take(idx + 1).drop_last() =~= sv.take(idx as int));
        assert(sv.take(idx + 1).last() == sv[idx as int]);
        object_insert(&mut out, string_from_chars(key.as_slice()), v);
        assert(items_view(sorted@) =~= before.drop_first());
        assert(before.drop_first() =~= sv.skip(idx + 1));
        idx = idx + 1;
    }
    assert(sv.take(idx as int) =~= sv);
    out
}

// ---------------------------------------------------------------------------
// Images named anywhere in a value
// ---------------------------------------------------------------------------

/// The image names of every string in a value, in a depth-first walk.
pub open spec fn markup_names(v: JsonView) -> Seq<Seq<char>>
    decreases v,
{
    match v {
        JsonView::Str(t) => crate::pixiv::image_names(t),
        JsonView::Array(items) => markup_names_items(items),
        JsonView::Object(entries) => markup_names_entries(entries),
        _ => Seq::empty(),
    }
}

pub open spec fn markup_names_items(items: Seq<JsonView>) -> Seq<Seq<char>>
    decreases items,
{
    if items.len() == 0 {
        Seq::empty()
    } else {
        markup_names(items[0]) + markup_names_items(items.drop_first())
    }
}

pub open spec fn markup_names_entries(entries: Seq<(Seq<char>, JsonView)>) -> Seq<Seq<char>>
    decreases entries,
{
    if entries.len() == 0 {
        Seq::empty()
    } else {
        markup_names(entries[0].1) + markup_names_entries(entries.drop_first())
    }
}

fn push_markup_names(value: &JsonValue, out: &mut Vec<String>)
    ensures
        strings_view(final(out)@) == strings_view(old(out)@) + markup_names(value.view()),
    decreases value,
{
    proof {
        lemma_view_parts(*value);
    }
    let ghost start = strings_view(out@);
    match value {
        JsonValue::Str(t) => {
            let names = crate::pixiv::extract_markup_image_names(t.as_str());
            let mut k: usize = 0;
            while k < names.len()
                invariant
                    k <= names.len(),
                    strings_view(out@) == start + strings_view(names@).take(k as int),
                decreases names.len() - k,
            {
                let ghost before = strings_view(out@);
                out.push(crate::text::owned(names[k].as_str()));
                assert(strings_view(out@) =~= before.push(names@[k as int]@));
                k = k + 1;
                assert(strings_view(out@) =~= start + strings_view(names@).take(k as int));
            }
            assert(strings_view(names@).take(k as int) =~= strings_view(names@));
        },
        JsonValue::Array(items) => {
            let ghost iv = items_view(items@);
            let mut i: usize = 0;
            assert(iv.skip(0) =~= iv);
            assert(strings_view(out@) =~= start);
            while i < items.len()
                invariant
                    i <= items.len(),
                    *value == JsonValue::Array(*items),
                    iv == items_view(items@),
                    start + markup_names(value.view()) == strings_view(out@) + markup_names_items(iv.skip(i as int)),
                decreases items.len() - i,
            {
                proof {
                    vstd::std_specs::vec::axiom_vec_index_decreases(*items, i as int);
                    assert(decreases_to!(*value => value->Array_0));
                    assert(iv.skip(i as int)[0] == iv[i as int]);
                    assert(iv.skip(i as int).drop_first() =~= iv.skip(i + 1));
                }
                let ghost before = strings_view(out@);
                push_markup_names(&items[i], out);
                assert(before + (markup_names(iv[i as int]) + markup_names_items(iv.skip(i + 1))) =~= strings_view(out@)
                    + markup_names_items(iv.skip(i + 1)));
                i = i + 1;
            }
            assert(iv.skip(i as int) =~= Seq::<JsonView>::empty());
            assert(strings_view(out@) + Seq::<Seq<char>>::empty() =~= strings_view(out@));
        },
        JsonValue::Object(entries) => {
            let ghost ev = entries_view(entries@);
            let mut i: usize = 0;
            assert(ev.skip(0) =~= ev);
            assert(strings_view(out@) =~= start);
            while i < entries.len()
                invariant
                    i <= entries.len(),
                    *value == JsonValue::Object(*entries),
                    ev == entries_view(entries@),
                    start + markup_names(value.view()) == strings_view(out@) + markup_names_entries(ev.skip(i as int)),
                decreases entries.len() - i,
            {
                proof {
                    vstd::std_specs::vec::axiom_vec_index_decreases(*entries, i as int);
                    assert(decreases_to!(*value => value->Object_0));
                    assert(decreases_to!(entries[i as int] => entries[i as int].1));
                    assert(ev.skip(i as int)[0] == ev[i as int]);
                    assert(ev[i as int].1 == entries@[i as int].1.view());
                    assert(ev.skip(i as int).drop_first() =~= ev.skip(i + 1));
                }
                let ghost before = strings_view(out@);
                push_markup_names(&entries[i].1, out);
                assert(before + (markup_names(ev[i as int].1) + markup_names_entries(ev.skip(i + 1))) =~= strings_view(
                    out@,
                ) + markup_names_entries(ev.skip(i + 1)));
                i = i + 1;
            }
            assert(ev.skip(i as int) =~= Seq::<(Seq<char>, JsonView)>::empty());
            assert(strings_view(out@) + Seq::<Seq<char>>::empty() =~= strings_view(out@));
        },
        _ => {
            assert(strings_view(out@) =~= start + Seq::<Seq<char>>::empty());
        },
    }
}

/// The image names of every string in a value, sorted, each once.
pub fn collect_markup_image_names(value: &JsonValue) -> (r: Vec<String>)
    ensures
        strings_view(r@) == crate::work_key::sorted_unique(markup_names(value.view())),
{
    let mut out: Vec<String> = Vec::new();
    push_markup_names(value, &mut out);
    assert(strings_view(out@) =~= Seq::<Seq<char>>::empty() + markup_names(value.view()));
    crate::work_key::sorted_unique_strings(out)
}

// ---------------------------------------------------------------------------
// The document of a Pixiv work
// ---------------------------------------------------------------------------

/// An optional text as JSON: the string, or null.
pub open spec fn opt_text_view(o: Option<Seq<char>>) -> JsonView {
    match o {
        Some(t) => JsonView::Str(t),
        None => JsonView::Null,
    }
}

/// A list of texts as a JSON array of strings.
pub open spec fn texts_view(ts: Seq<Seq<char>>) -> JsonView {
    JsonView::Array(ts.map_values(|t: Seq<char>| JsonView::Str(t)))
}

/// The fields of a Pixiv work's document, keys in order.
pub struct WorkFields {
    pub work_key: String,
    pub id: String,
    pub title: String,
    pub author: String,
    pub author_id: Option<String>,
    pub author_url: Option<String>,
    pub caption: String,
    pub kind: String,
    pub serialization: String,
    pub tags: Vec<String>,
    pub all_tags: Vec<String>,
    pub create_date: String,
    pub update_date: String,
    pub total_characters: i64,
    pub all_characters: i64,
    pub total_episodes: i64,
    pub all_episodes: i64,
    pub url: String,
}

/// The fields of a Pixiv work's document, as values.
pub struct WorkFieldsView {
    pub work_key: Seq<char>,
    pub id: Seq<char>,
    pub title: Seq<char>,
    pub author: Seq<char>,
    pub author_id: Option<Seq<char>>,
    pub author_url: Option<Seq<char>>,
    pub caption: Seq<char>,
    pub kind: Seq<char>,
    pub serialization: Seq<char>,
    pub tags: Seq<Seq<char>>,
    pub all_tags: Seq<Seq<char>>,
    pub create_date: Seq<char>,
    pub update_date: Seq<char>,
    pub total_characters: i64,
    pub all_characters: i64,
    pub total_episodes: i64,
    pub all_episodes: i64,
    pub url: Seq<char>,
}

impl WorkFields {
    pub open spec fn view(&self) -> WorkFieldsView {
        WorkFieldsView {
            work_key: self.work_key@,
            id: self.id@,
            title: self.title@,
            author: self.author@,
            author_id: opt_string_view(self.author_id),
            author_url: opt_string_view(self.author_url),
            caption: self.caption@,
            kind: self.kind@,
            serialization: self.serialization@,
            tags: strings_view(self.tags@),
            all_tags: strings_view(self.all_tags@),
            create_date: self.create_date@,
            update_date: self.update_date@,
            total_characters: self.total_characters,
            all_characters: self.all_characters,
            total_episodes: self.total_episodes,
            all_episodes: self.all_episodes,
            url: self.url@,
        }
    }
}

/// The document of a Pixiv work as stored: its fields, the time it was
/// fetched and its episodes, under keys in sorted order.
pub open spec fn work_document(f: WorkFieldsView, episodes: Seq<(Seq<char>, JsonView)>, get_date: Seq<char>) -> JsonView {
    JsonView::Object(
        seq![
            ("all_characters"@, int_view(f.all_characters)),
            ("all_episodes"@, int_view(f.all_episodes)),
            ("all_tags"@, texts_view(f.all_tags)),
            ("author"@, JsonView::Str(f.author)),
            ("author_id"@, opt_text_view(f.author_id)),
            ("author_url"@, opt_text_view(f.author_url)),
            ("caption"@, JsonView::Str(f.caption)),
            ("createDate"@, JsonView::Str(f.create_date)),
            ("episodes"@, JsonView::Object(episodes)),
            ("get_date"@, JsonView::Str(get_date)),
            ("id"@, JsonView::Str(f.id)),
            ("nid"@, JsonView::Str(f.work_key)),
            ("serialization"@, JsonView::Str(f.serialization)),
            ("tags"@, texts_view(f.tags)),
            ("title"@, JsonView::Str(f.title)),
            ("total_characters"@, int_view(f.total_characters)),
            ("total_episodes"@, int_view(f.total_episodes)),
            ("type"@, JsonView::Str(f.kind)),
            ("updateDate"@, JsonView::Str(f.update_date)),
            ("url"@, JsonView::Str(f.url)),
            ("version"@, int_view(0)),
        ],
    )
}

fn opt_text_json(o: &Option<String>) -> (r: JsonValue)
    ensures
        r.view() == opt_text_view(opt_string_view(*o)),
{
    match o {
        Some(t) => JsonValue::Str(crate::text::owned(t.as_str())),
        None => JsonValue::Null,
    }
}

pub fn texts_json(ts: &Vec<String>) -> (r: JsonValue)
    ensures
        r.view() == texts_view(strings_view(ts@)),
{
    let mut out: Vec<JsonValue> = Vec::new();
    let mut i: usize = 0;
    while i < ts.len()
        invariant
            i <= ts.len(),
            out.len() == i,
            forall|k: int| 0 <= k < i ==> (#[trigger] out@[k]).view() == JsonView::Str(ts@[k]@),
        decreases ts.len() - i,
    {
        out.push(JsonValue::Str(crate::text::owned(ts[i].as_str())));
        i = i + 1;
    }
    let r = JsonValue::Array(out);
    proof {
        lemma_view_parts(r);
        assert(items_view(out@) =~= strings_view(ts@).map_values(|t: Seq<char>| JsonView::Str(t)));
    }
    r
}

fn text_json(t: &String) -> (r: JsonValue)
    ensures
        r.view() == JsonView::Str(t@),
{
    JsonValue::Str(crate::text::owned(t.as_str()))
}

fn keyed(key: &str, value: JsonValue) -> (r: (String, JsonValue))
    ensures
        r.0@ == key@,
        r.1.view() == value.view(),
{
    (crate::text::owned(key), value)
}

fn clone_entries(entries: &Vec<(String, JsonValue)>) -> (r: JsonValue)
    ensures
        r.view() == JsonView::Object(entries_view(entries@)),
{
    let mut out: Vec<(String, JsonValue)> = Vec::new();
    let mut i: usize = 0;
    while i < entries.len()
        invariant
            i <= entries.len(),
            out.len() == i,
            forall|k: int| 0 <= k < i ==> (#[trigger] out@[k]).0@ == entries@[k].0@ && out@[k].1.view() == entries@[k].1.view(),
        decreases entries.len() - i,
    {
        out.push((crate::text::owned(entries[i].0.as_str()), json_clone(&entries[i].1)));
        i = i + 1;
    }
    let r = JsonValue::Object(out);
    proof {
        lemma_view_parts(r);
        assert(entries_view(out@) =~= entries_view(entries@));
    }
    r
}

/// The document of a Pixiv work fetched at `get_date`.
pub fn work_document_json(f: &WorkFields, episodes: &Vec<(String, JsonValue)>, get_date: &str) -> (r: JsonValue)
    ensures
        r.view() == work_document(f.view(), entries_view(episodes@), get_date@),
{
    let mut e: Vec<(String, JsonValue)> = Vec::new();
    e.push(keyed("all_characters", json_int(f.all_characters)));
    e.push(keyed("all_episodes", json_int(f.all_episodes)));
    e.push(keyed("all_tags", texts_json(&f.all_tags)));
    e.push(keyed("author", text_json(&f.author)));
    e.push(keyed("author_id", opt_text_json(&f.author_id)));
    e.push(keyed("author_url", opt_text_json(&f.author_url)));
    e.push(keyed("caption", text_json(&f.caption)));
    e.push(keyed("createDate", text_json(&f.create_date)));
    e.push(keyed("episodes", clone_entries(episodes)));
    e.push(keyed("get_date", JsonValue::Str(crate::text::owned(get_date))));
    e.push(keyed("id", text_json(&f.id)));
    e.push(keyed("nid", text_json(&f.work_key)));
    e.push(keyed("serialization", text_json(&f.serialization)));
    e.push(keyed("tags", texts_json(&f.tags)));
    e.push(keyed("title", text_json(&f.title)));
    e.push(keyed("total_characters", json_int(f.total_characters)));
    e.push(keyed("total_episodes", json_int(f.total_episodes)));
    e.push(keyed("type", text_json(&f.kind)));
    e.push(keyed("updateDate", text_json(&f.update_date)));
    e.push(keyed("url", text_json(&f.url)));
    e.push(keyed("version", json_int(0)));
    let r = JsonValue::Object(e);
    proof {
        lemma_view_parts(r);
        let w = work_document(f.view(), entries_view(episodes@), get_date@);
        let ev = entries_view(e@);
        assert(ev.len() == 21);
        assert(ev[0] == w->Object_0[0]);
        assert(ev[1] == w->Object_0[1]);
        assert(ev[2] == w->Object_0[2]);
        assert(ev[3] == w->Object_0[3]);
        assert(ev[4] == w->Object_0[4]);
        assert(ev[5] == w->Object_0[5]);
        assert(ev[6] == w->Object_0[6]);
        assert(ev[7] == w->Object_0[7]);
        assert(ev[8] == w->Object_0[8]);
        assert(ev[9] == w->Object_0[9]);
        assert(ev[10] == w->Object_0[10]);
        assert(ev[11] == w->Object_0[11]);
        assert(ev[12] == w->Object_0[12]);
        assert(ev[13] == w->Object_0[13]);
        assert(ev[14] == w->Object_0[14]);
        assert(ev[15] == w->Object_0[15]);
        assert(ev[16] == w->Object_0[16]);
        assert(ev[17] == w->Object_0[17]);
        assert(ev[18] == w->Object_0[18]);
        assert(ev[19] == w->Object_0[19]);
        assert(ev[20] == w->Object_0[20]);
        assert(ev =~= w->Object_0);
    }
    r
}

// ---------------------------------------------------------------------------
// Where images of a Pixiv text are fetched from
// ---------------------------------------------------------------------------

/// The `urls.original` text of a value.
pub open spec fn original_url(v: Option<JsonView>) -> Option<Seq<char>> {
    as_str(get_opt(get_opt(v, "urls"@), "original"@))
}

/// The address of the full-size image of one page of an artwork, unless it
/// is missing or empty.
pub fn page_original_url(page: &JsonValue) -> (r: Option<String>)
    ensures
        opt_string_view(r) == match original_url(Some(page.view())) {
            Some(u) => if u.len() > 0 {
                Some(u)
            } else {
                None
            },
            None => None,
        },
{
    let urls = json_get(page, "urls");
    let original = match urls {
        Some(u) => json_get(u, "original"),
        None => None,
    };
    match json_as_str(original) {
        Some(u) => if u.is_empty() {
            None
        } else {
            Some(crate::text::owned(u))
        },
        None => None,
    }
}

/// The address of the full-size uploaded image with id `id`: the
/// `urls.original` of the first entry keyed by the id found in the work's
/// data.
pub fn uploaded_image_url(data: &JsonValue, id: &str) -> (r: Option<String>)
    ensures
        opt_string_view(r) == original_url(find_key(data.view(), id@)),
{
    let found = find_key_recursively(data, id);
    match &found {
        Some(info) => {
            let urls = json_get(info, "urls");
            let original = match urls {
                Some(u) => json_get(u, "original"),
                None => None,
            };
            match json_as_str(original) {
                Some(u) => Some(crate::text::owned(u)),
                None => None,
            }
        },
        None => None,
    }
}

// ---------------------------------------------------------------------------
// Objects as maps ordered by key
// ---------------------------------------------------------------------------

/// An entry put into an object kept in order of its keys, as a map ordered
/// by key stores it: it replaces the entry with the same key, or goes
/// before the first entry whose key sorts after it.
pub open spec fn map_insert(
    entries: Seq<(Seq<char>, JsonView)>,
    key: Seq<char>,
    value: JsonView,
) -> Seq<(Seq<char>, JsonView)>
    decreases entries.len(),
{
    if entries.len() == 0 {
        seq![(key, value)]
    } else if entries[0].0 == key {
        seq![(key, value)] + entries.drop_first()
    } else if text_le(key, entries[0].0) {
        seq![(key, value)] + entries
    } else {
        seq![entries[0]] + map_insert(entries.drop_first(), key, value)
    }
}

/// Law: after an entry is put into an object, the key reads back the new
/// value and every other key reads back what it held before.
pub proof fn lemma_map_insert_lookup(
    entries: Seq<(Seq<char>, JsonView)>,
    key: Seq<char>,
    value: JsonView,
    other: Seq<char>,
)
    ensures
        lookup(map_insert(entries, key, value), key) == Some(value),
        other != key ==> lookup(map_insert(entries, key, value), other) == lookup(entries, other),
    decreases entries.len(),
{
    let m = map_insert(entries, key, value);
    if entries.len() == 0 {
        assert(m[0] == (key, value));
        assert(m.drop_first() =~= Seq::<(Seq<char>, JsonView)>::empty());
        if other != key {
            assert(lookup(m, other) == lookup(m.drop_first(), other));
        }
    } else if entries[0].0 == key {
        assert(m[0] == (key, value));
        assert(m.drop_first() =~= entries.drop_first());
        if other != key {
            assert(lookup(m, other) == lookup(m.drop_first(), other));
            assert(lookup(entries, other) == lookup(entries.drop_first(), other));
        }
    } else if text_le(key, entries[0].0) {
        assert(m[0] == (key, value));
        assert(m.drop_first() =~= entries);
        if other != key {
            assert(lookup(m, other) == lookup(m.drop_first(), other));
        }
    } else {
        lemma_map_insert_lookup(entries.drop_first(), key, value, other);
        assert(m[0] == entries[0]);
        assert(m.drop_first() =~= map_insert(entries.drop_first(), key, value));
        assert(lookup(m, key) == lookup(m.drop_first(), key));
    }
}

/// Puts an entry into an object kept in order of its keys.
pub fn object_insert(entries: &mut Vec<(String, JsonValue)>, key: String, value: JsonValue)
    ensures
        entries_view(final(entries)@) == map_insert(entries_view(old(entries)@), key@, value.view()),
{
    let ghost start = entries_view(entries@);
    let kv = chars_of(key.as_str());
    let mut j: usize = 0;
    assert(start.skip(0) =~= start);
    while j < entries.len()
        invariant
            j <= entries.len(),
            start == entries_view(entries@),
            start == entries_view(old(entries)@),
            kv@ == key@,
            map_insert(start, key@, value.view()) == start.take(j as int) + map_insert(
                start.skip(j as int),
                key@,
                value.view(),
            ),
        decreases entries.len() - j,
    {
        let ghost rest = start.skip(j as int);
        assert(rest[0] == (entries@[j as int].0@, entries@[j as int].1.view()));
        let ev = chars_of(entries[j].0.as_str());
        if crate::text::chars_eq(ev.as_slice(), kv.as_slice()) {
            let ghost entry = (key@, value.view());
            entries.remove(j);
            entries.insert(j, (key, value));
            assert(entries_view(entries@) =~= start.take(j as int) + (seq![entry] + rest.drop_first()));
            return;
        }
        if crate::narou::text_less(kv.as_slice(), ev.as_slice()) {
            let ghost entry = (key@, value.view());
            entries.insert(j, (key, value));
            assert(entries_view(entries@) =~= start.take(j as int) + (seq![entry] + rest));
            return;
        }
        assert(rest.drop_first() =~= start.skip(j + 1));
        assert(start.take(j + 1) =~= start.take(j as int).push(rest[0]));
        assert(start.take(j as int) + (seq![rest[0]] + map_insert(rest.drop_first(), key@, value.view())) =~= start.take(
            j + 1,
        ) + map_insert(start.skip(j + 1), key@, value.view()));
        j = j + 1;
    }
    assert(start.skip(j as int) =~= Seq::<(Seq<char>, JsonView)>::empty());
    let ghost entry = (key@, value.view());
    entries.push((key, value));
    assert(entries_view(entries@) =~= start + seq![entry]);
}

/// Whether an object's entries hold `key`.
pub fn has_key(entries: &Vec<(String, JsonValue)>, key: &str) -> (r: bool)
    ensures
        r == (lookup(entries_view(entries@), key@) is Some),
{
    let ghost ev = entries_view(entries@);
    let mut i: usize = 0;
    assert(ev.skip(0) =~= ev);
    while i < entries.len()
        invariant
            i <= entries.len(),
            ev == entries_view(entries@),
            lookup(ev, key@) == lookup(ev.skip(i as int), key@),
        decreases entries.len() - i,
    {
        assert(ev.skip(i as int)[0] == ev[i as int]);
        assert(ev[i as int] == (entries@[i as int].0@, entries@[i as int].1.view()));
        if str_eq(entries[i].0.as_str(), key) {
            return true;
        }
        assert(ev.skip(i as int).drop_first() =~= ev.skip(i + 1));
        i = i + 1;
    }
    false
}

} // verus!
