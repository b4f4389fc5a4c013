//! What the library's JSON API answers: a work's metadata without the
//! episodes' texts, one episode found by key or id, and the image names in
//! an episode's texts resolved to stored files.
use vstd::prelude::*;
use crate::json::{
    entries_view, get, json_clone, json_get, lemma_view_parts, lookup, JsonValue, JsonView,
};
use crate::markup::{image_lookup, ImageTable};
use crate::text::{chars_of, find, string_from_chars, strings_view};

verus! {

// ---------------------------------------------------------------------------
// Metadata of a work
// ---------------------------------------------------------------------------

/// Whether a field of an episode holds its text.
pub open spec fn text_field(key: Seq<char>) -> bool {
    key == "text"@ || key == "introduction"@ || key == "postscript"@
}

/// The entries of an episode other than its texts.
pub open spec fn without_texts(fields: Seq<(Seq<char>, JsonView)>) -> Seq<(Seq<char>, JsonView)> {
    fields.filter(|e: (Seq<char>, JsonView)| !text_field(e.0))
}

/// An episode without its texts; anything but an object as it is.
pub open spec fn episode_metadata(v: JsonView) -> JsonView {
    match v {
        JsonView::Object(fields) => JsonView::Object(without_texts(fields)),
        _ => v,
    }
}

/// An entry of a work: the episode tables (`episodes`, `episodes_data`)
/// with each episode's texts left out; any other entry as it is.
pub open spec fn metadata_entry(e: (Seq<char>, JsonView)) -> (Seq<char>, JsonView) {
    if e.0 == "episodes"@ || e.0 == "episodes_data"@ {
        match e.1 {
            JsonView::Object(eps) => (
                e.0,
                JsonView::Object(eps.map_values(|x: (Seq<char>, JsonView)| (x.0, episode_metadata(x.1)))),
            ),
            _ => e,
        }
    } else {
        e
    }
}

/// A work's document without the texts of its episodes.
pub open spec fn work_metadata(v: JsonView) -> JsonView {
    match v {
        JsonView::Object(entries) => JsonView::Object(entries.map_values(|e: (Seq<char>, JsonView)| metadata_entry(e))),
        _ => v,
    }
}

fn is_text_field(key: &str) -> (r: bool)
    ensures
        r == text_field(key@),
{
    crate::text::str_eq(key, "text") || crate::text::str_eq(key, "introduction") || crate::text::str_eq(
        key,
        "postscript",
    )
}

fn episode_metadata_json(v: &JsonValue) -> (r: JsonValue)
    ensures
        r.view() == episode_metadata(v.view()),
{
    proof {
        lemma_view_parts(*v);
    }
    match v {
        JsonValue::Object(fields) => {
            let ghost fv = entries_view(fields@);
            let mut out: Vec<(String, JsonValue)> = Vec::new();
            let mut i: usize = 0;
            assert(fv.take(0) =~= Seq::<(Seq<char>, JsonView)>::empty());
            assert(without_texts(fv.take(0)) =~= Seq::<(Seq<char>, JsonView)>::empty()) by {
                reveal(Seq::filter);
            }
            while i < fields.len()
                invariant
                    i <= fields.len(),
                    fv == entries_view(fields@),
                    entries_view(out@) == without_texts(fv.take(i as int)),
                decreases fields.len() - i,
            {
                let ghost before = entries_view(out@);
                assert(fv[i as int] == (fields@[i as int].0@, fields@[i as int].1.view()));
                assert(fv.take(i + 1).drop_last() =~= fv.take(i as int));
                assert(without_texts(fv.take(i + 1)) == if text_field(fv[i as int].0) {
                    without_texts(fv.take(i as int))
                } else {
                    without_texts(fv.take(i as int)).push(fv[i as int])
                }) by {
                    reveal(Seq::filter);
                }
                if !is_text_field(fields[i].0.as_str()) {
                    out.push((crate::text::owned(fields[i].0.as_str()), json_clone(&fields[i].1)));
                    assert(entries_view(out@) =~= before.push(fv[i as int]));
                }
                i = i + 1;
            }
            assert(fv.take(i as int) =~= fv);
            let r = JsonValue::Object(out);
            proof {
                lemma_view_parts(r);
            }
            r
        },
        _ => json_clone(v),
    }
}

fn metadata_entry_json(key: &String, value: &JsonValue) -> (r: (String, JsonValue))
    ensures
        (r.0@, r.1.view()) == metadata_entry((key@, value.view())),
{
    proof {
        lemma_view_parts(*value);
    }
    let is_table = crate::text::str_eq(key.as_str(), "episodes") || crate::text::str_eq(key.as_str(), "episodes_data");
    if !is_table {
        return (crate::text::owned(key.as_str()), json_clone(value));
    }
    match value {
        JsonValue::Object(eps) => {
            let ghost ev = entries_view(eps@);
            let ghost want = ev.map_values(|x: (Seq<char>, JsonView)| (x.0, episode_metadata(x.1)));
            let mut out: Vec<(String, JsonValue)> = Vec::new();
            let mut i: usize = 0;
            while i < eps.len()
                invariant
                    i <= eps.len(),
                    ev == entries_view(eps@),
                    want == ev.map_values(|x: (Seq<char>, JsonView)| (x.0, episode_metadata(x.1))),
                    entries_view(out@) == want.take(i as int),
                decreases eps.len() - i,
            {
                let ghost before = entries_view(out@);
                assert(ev[i as int] == (eps@[i as int].0@, eps@[i as int].1.view()));
                out.push((crate::text::owned(eps[i].0.as_str()), episode_metadata_json(&eps[i].1)));
                assert(entries_view(out@) =~= before.push(want[i as int]));
                i = i + 1;
                assert(entries_view(out@) =~= want.take(i as int));
            }
            assert(want.take(i as int) =~= want);
            let r = JsonValue::Object(out);
            proof {
                lemma_view_parts(r);
            }
            (crate::text::owned(key.as_str()), r)
        },
        _ => (crate::text::owned(key.as_str()), json_clone(value)),
    }
}

/// A work's document for its metadata: the episodes' texts left out.
pub fn work_metadata_json(raw_json: &JsonValue) -> (r: JsonValue)
    ensures
        r.view() == work_metadata(raw_json.view()),
{
    proof {
        lemma_view_parts(*raw_json);
    }
    match raw_json {
        JsonValue::Object(entries) => {
            let ghost ev = entries_view(entries@);
            let ghost want = ev.map_values(|e: (Seq<char>, JsonView)| metadata_entry(e));
            let mut out: Vec<(String, JsonValue)> = Vec::new();
            let mut i: usize = 0;
            while i < entries.len()
                invariant
                    i <= entries.len(),
                    ev == entries_view(entries@),
                    want == ev.map_values(|e: (Seq<char>, JsonView)| metadata_entry(e)),
                    entries_view(out@) == want.take(i as int),
                decreases entries.len() - i,
            {
                let ghost before = entries_view(out@);
                assert(ev[i as int] == (entries@[i as int].0@, entries@[i as int].1.view()));
                let e = metadata_entry_json(&entries[i].0, &entries[i].1);
                out.push(e);
                assert(entries_view(out@) =~= before.push(want[i as int]));
                i = i + 1;
                assert(entries_view(out@) =~= want.take(i as int));
            }
            assert(want.take(i as int) =~= want);
            let r = JsonValue::Object(out);
            proof {
                lemma_view_parts(r);
            }
            r
        },
        _ => json_clone(raw_json),
    }
}

// ---------------------------------------------------------------------------
// One episode
// ---------------------------------------------------------------------------

/// Whether a scalar is `expected`: a string equal to it, or a number
/// written as it.
pub open spec fn scalar_matches(v: JsonView, expected: Seq<char>) -> bool {
    match v {
        JsonView::Str(t) => t == expected,
        JsonView::Number(t, _) => t == expected,
        _ => false,
    }
}

pub fn json_scalar_matches(value: &JsonValue, expected: &str) -> (r: bool)
    ensures
        r == scalar_matches(value.view(), expected@),
{
    match value {
        JsonValue::Str(t) => crate::text::str_eq(t.as_str(), expected),
        JsonValue::Number(n) => crate::text::str_eq(n.text.as_str(), expected),
        _ => false,
    }
}

/// The first episode whose `id` matches.
pub open spec fn episode_by_id(eps: Seq<(Seq<char>, JsonView)>, episode: Seq<char>) -> Option<JsonView>
    decreases eps.len(),
{
    if eps.len() == 0 {
        None
    } else if (match get(eps[0].1, "id"@) {
        Some(id) => scalar_matches(id, episode),
        None => false,
    }) {
        Some(eps[0].1)
    } else {
        episode_by_id(eps.drop_first(), episode)
    }
}

/// An episode of a work's document: the entry of its episode table under
/// the key, else the first episode with that id. The table is `episodes`,
/// else `episodes_data`.
pub open spec fn raw_episode(raw: JsonView, episode: Seq<char>) -> Option<JsonView> {
    let table = match get(raw, "episodes"@) {
        Some(x) => Some(x),
        None => get(raw, "episodes_data"@),
    };
    match table {
        Some(JsonView::Object(eps)) => match lookup(eps, episode) {
            Some(v) => Some(v),
            None => episode_by_id(eps, episode),
        },
        _ => None,
    }
}

pub fn find_raw_episode(raw_json: &JsonValue, episode: &str) -> (r: Option<JsonValue>)
    ensures
        crate::json::opt_owned_view(r) == raw_episode(raw_json.view(), episode@),
{
    let table = match json_get(raw_json, "episodes") {
        Some(x) => Some(x),
        None => json_get(raw_json, "episodes_data"),
    };
    let t = match table {
        Some(t) => t,
        None => return None,
    };
    proof {
        lemma_view_parts(*t);
    }
    match t {
        JsonValue::Object(eps) => {
            if let Some(v) = json_get(t, episode) {
                return Some(json_clone(v));
            }
            let ghost ev = entries_view(eps@);
            let mut i: usize = 0;
            assert(ev.skip(0) =~= ev);
            while i < eps.len()
                invariant
                    i <= eps.len(),
                    ev == entries_view(eps@),
                    raw_episode(raw_json.view(), episode@) == episode_by_id(ev, episode@),
                    episode_by_id(ev, episode@) == episode_by_id(ev.skip(i as int), episode@),
                decreases eps.len() - i,
            {
                assert(ev.skip(i as int)[0] == ev[i as int]);
                assert(ev[i as int] == (eps@[i as int].0@, eps@[i as int].1.view()));
                assert(ev.skip(i as int).drop_first() =~= ev.skip(i + 1));
                let hit = match json_get(&eps[i].1, "id") {
                    Some(id) => json_scalar_matches(id, episode),
                    None => false,
                };
                if hit {
                    return Some(json_clone(&eps[i].1));
                }
                i = i + 1;
            }
            None
        },
        _ => None,
    }
}

// ---------------------------------------------------------------------------
// Image names in an episode's texts
// ---------------------------------------------------------------------------

/// The stored file of an image: its hash and extension, or the logical
/// name where the image is unknown.
pub open spec fn stored_name(table: Seq<(Seq<char>, (Seq<char>, Seq<char>))>, name: Seq<char>) -> Seq<char> {
    match image_lookup(table, name) {
        Some((h, x)) => h + "."@ + x,
        None => name,
    }
}

/// The text with the name of each closed `[image](name)` mark replaced by
/// the stored file; from the first mark that is not closed on, the text is
/// kept as it is.
pub open spec fn resolved_marks(s: Seq<char>, table: Seq<(Seq<char>, (Seq<char>, Seq<char>))>) -> Seq<char>
    decreases s.len(),
{
    match find(s, "[image]("@) {
        None => s,
        Some(st) => {
            let ns = st + 8;
            let rest = s.skip(ns);
            match find(rest, ")"@) {
                None => s,
                Some(e) => {
                    proof {
                        crate::text::lemma_find(s, "[image]("@);
                        crate::text::lemma_find(rest, ")"@);
                        reveal_strlit("[image](");
                        reveal_strlit(")");
                    }
                    if 0 <= st && ns <= s.len() && 0 <= e < rest.len() {
                        s.take(ns) + stored_name(table, rest.take(e)) + ")"@ + resolved_marks(rest.skip(e + 1), table)
                    } else {
                        s
                    }
                },
            }
        },
    }
}

/// The names of the closed `[image](name)` marks, up to the first that is
/// not closed.
pub open spec fn mark_names(s: Seq<char>) -> Seq<Seq<char>>
    decreases s.len(),
{
    match find(s, "[image]("@) {
        None => Seq::empty(),
        Some(st) => {
            let rest = s.skip(st + 8);
            match find(rest, ")"@) {
                None => Seq::empty(),
                Some(e) => {
                    proof {
                        crate::text::lemma_find(s, "[image]("@);
                        crate::text::lemma_find(rest, ")"@);
                        reveal_strlit("[image](");
                        reveal_strlit(")");
                    }
                    if 0 <= st && st + 8 <= s.len() && 0 <= e < rest.len() {
                        seq![rest.take(e)] + mark_names(rest.skip(e + 1))
                    } else {
                        Seq::empty()
                    }
                },
            }
        },
    }
}

/// Where the next mark of `v` from `pos` opens and closes.
fn next_mark(v: &Vec<char>, pos: usize) -> (r: Option<(usize, usize)>)
    requires
        pos <= v.len(),
    ensures
        ({
            let s = v@.skip(pos as int);
            match r {
                Some((ns, end)) => pos + 8 <= ns <= end < v.len() && find(s, "[image]("@) == Some(ns - 8 - pos)
                    && find(s.skip(ns - pos), ")"@) == Some(end - ns),
                None => match find(s, "[image]("@) {
                    None => true,
                    Some(st) => find(s.skip(st + 8), ")"@) is None,
                },
            }
        }),
{
    proof {
        reveal_strlit("[image](");
        reveal_strlit(")");
    }
    let open_mark = chars_of("[image](");
    let close_mark = chars_of(")");
    let ghost s = v@.skip(pos as int);
    proof {
        crate::text::lemma_find(s, "[image]("@);
    }
    let start = match crate::text::find_in_suffix(v.as_slice(), open_mark.as_slice(), pos) {
        Some(k) => k,
        None => return None,
    };
    let ns = start + 8;
    assert(s.skip(start - pos + 8) =~= v@.skip(ns as int));
    proof {
        crate::text::lemma_find(v@.skip(ns as int), ")"@);
    }
    match crate::text::find_in_suffix(v.as_slice(), close_mark.as_slice(), ns) {
        Some(end) => {
            assert(s.skip(ns - pos) =~= v@.skip(ns as int));
            Some((ns, end))
        },
        None => None,
    }
}

/// The names of the images a text shows, for looking them up.
pub fn markup_logical_names(text: &str) -> (r: Vec<String>)
    ensures
        strings_view(r@) == mark_names(text@),
{
    let v = chars_of(text);
    let mut names: Vec<String> = Vec::new();
    let mut pos: usize = 0;
    assert(v@.skip(0) =~= v@);
    assert(strings_view(names@) + mark_names(v@.skip(0)) =~= mark_names(v@));
    while pos <= v.len()
        invariant
            pos <= v.len(),
            v@ == text@,
            strings_view(names@) + mark_names(v@.skip(pos as int)) == mark_names(v@),
        decreases v.len() - pos,
    {
        let ghost s = v@.skip(pos as int);
        match next_mark(&v, pos) {
            Some((ns, end)) => {
                let name = crate::text::slice_range(v.as_slice(), ns, end);
                let ghost rest = s.skip(ns - pos);
                assert(name@ =~= rest.take(end - ns));
                assert(rest.skip(end - ns + 1) =~= v@.skip(end + 1));
                let ghost before = strings_view(names@);
                names.push(string_from_chars(name.as_slice()));
                assert(strings_view(names@) =~= before.push(name@));
                assert(before + (seq![name@] + mark_names(rest.skip(end - ns + 1))) =~= strings_view(names@)
                    + mark_names(v@.skip(end + 1)));
                pos = end + 1;
            },
            None => {
                assert(mark_names(s) =~= Seq::<Seq<char>>::empty());
                assert(strings_view(names@) + Seq::<Seq<char>>::empty() =~= strings_view(names@));
                return names;
            },
        }
    }
    names
}

/// A text with each image name resolved to the stored file.
pub fn resolve_image_markup_names(text: &str, images: &ImageTable) -> (r: String)
    ensures
        r@ == resolved_marks(text@, images.view_table()),
{
    proof {
        reveal_strlit(")");
        reveal_strlit(".");
    }
    let v = chars_of(text);
    let mut out: Vec<char> = Vec::new();
    let mut pos: usize = 0;
    assert(v@.skip(0) =~= v@);
    assert(out@ + resolved_marks(v@.skip(0), images.view_table()) =~= resolved_marks(v@, images.view_table()));
    while pos <= v.len()
        invariant
            pos <= v.len(),
            v@ == text@,
            out@ + resolved_marks(v@.skip(pos as int), images.view_table()) == resolved_marks(v@, images.view_table()),
        decreases v.len() - pos,
    {
        let ghost s = v@.skip(pos as int);
        proof {
            reveal_strlit(")");
            reveal_strlit(".");
        }
        match next_mark(&v, pos) {
            Some((ns, end)) => {
                let head = crate::text::slice_range(v.as_slice(), pos, ns);
                let name = crate::text::slice_range(v.as_slice(), ns, end);
                let ghost rest = s.skip(ns - pos);
                assert(head@ =~= s.take(ns - pos));
                assert(name@ =~= rest.take(end - ns));
                assert(rest.skip(end - ns + 1) =~= v@.skip(end + 1));
                let ghost before = out@;
                crate::text::push_all(&mut out, head.as_slice());
                match images.get(name.as_slice()) {
                    Some(asset) => {
                        crate::text::push_str(&mut out, asset.hash.as_str());
                        out.push('.');
                        crate::text::push_str(&mut out, asset.ext.as_str());
                    },
                    None => crate::text::push_all(&mut out, name.as_slice()),
                }
                out.push(')');
                assert(out@ =~= before + s.take(ns - pos) + stored_name(images.view_table(), name@) + ")"@);
                pos = end + 1;
            },
            None => {
                let tail = crate::text::slice_range(v.as_slice(), pos, v.len());
                crate::text::push_all(&mut out, tail.as_slice());
                assert(tail@ =~= s);
                return string_from_chars(out.as_slice());
            },
        }
    }
    string_from_chars(out.as_slice())
}

/// A text field of an episode with its image names resolved.
pub open spec fn resolved_field(
    e: (Seq<char>, JsonView),
    table: Seq<(Seq<char>, (Seq<char>, Seq<char>))>,
) -> (Seq<char>, JsonView) {
    if text_field(e.0) {
        match e.1 {
            JsonView::Str(t) => (e.0, JsonView::Str(resolved_marks(t, table))),
            _ => e,
        }
    } else {
        e
    }
}

/// An episode with the image names in its texts resolved.
pub open spec fn episode_resolved(v: JsonView, table: Seq<(Seq<char>, (Seq<char>, Seq<char>))>) -> JsonView {
    match v {
        JsonView::Object(fields) => JsonView::Object(
            fields.map_values(|e: (Seq<char>, JsonView)| resolved_field(e, table)),
        ),
        _ => v,
    }
}

/// An episode with the image names in its introduction, text and
/// postscript resolved to the stored files.
pub fn resolve_episode_image_names(episode: &JsonValue, images: &ImageTable) -> (r: JsonValue)
    ensures
        r.view() == episode_resolved(episode.view(), images.view_table()),
{
    proof {
        lemma_view_parts(*episode);
    }
    match episode {
        JsonValue::Object(fields) => {
            let ghost fv = entries_view(fields@);
            let ghost want = fv.map_values(|e: (Seq<char>, JsonView)| resolved_field(e, images.view_table()));
            let mut out: Vec<(String, JsonValue)> = Vec::new();
            let mut i: usize = 0;
            while i < fields.len()
                invariant
                    i <= fields.len(),
                    fv == entries_view(fields@),
                    want == fv.map_values(|e: (Seq<char>, JsonView)| resolved_field(e, images.view_table())),
                    entries_view(out@) == want.take(i as int),
                decreases fields.len() - i,
            {
                let ghost before = entries_view(out@);
                assert(fv[i as int] == (fields@[i as int].0@, fields@[i as int].1.view()));
                let key = crate::text::owned(fields[i].0.as_str());
                let value = if is_text_field(fields[i].0.as_str()) {
                    match &fields[i].1 {
                        JsonValue::Str(t) => JsonValue::Str(resolve_image_markup_names(t.as_str(), images)),
                        other => json_clone(other),
                    }
                } else {
                    json_clone(&fields[i].1)
                };
                out.push((key, value));
                assert(entries_view(out@) =~= before.push(want[i as int]));
                i = i + 1;
                assert(entries_view(out@) =~= want.take(i as int));
            }
            assert(want.take(i as int) =~= want);
            let r = JsonValue::Object(out);
            proof {
                lemma_view_parts(r);
            }
            r
        },
        _ => json_clone(episode),
    }
}

// ---------------------------------------------------------------------------
// Cover images named in a work's document
// ---------------------------------------------------------------------------

/// The candidates for a work's cover found in a value, in a depth-first
/// walk: the trimmed strings under a cover field, and the images that any
/// string shows.
pub open spec fn cover_candidates(cands: Seq<Seq<char>>, v: JsonView, in_cover: bool) -> Seq<Seq<char>>
    decreases v,
{
    match v {
        JsonView::Object(entries) => cover_candidates_entries(cands, entries, in_cover),
        JsonView::Array(items) => cover_candidates_items(cands, items, in_cover),
        JsonView::Str(t) => {
            let c = if in_cover {
                crate::markup::with_candidate(cands, crate::text::trim(t))
            } else {
                cands
            };
            crate::markup::with_candidates(c, crate::markup::image_refs(t))
        },
        _ => cands,
    }
}

pub open spec fn cover_candidates_entries(
    cands: Seq<Seq<char>>,
    entries: Seq<(Seq<char>, JsonView)>,
    in_cover: bool,
) -> Seq<Seq<char>>
    decreases entries,
{
    if entries.len() == 0 {
        cands
    } else {
        cover_candidates_entries(
            cover_candidates(cands, entries[0].1, in_cover || crate::markup::cover_field(entries[0].0)),
            entries.drop_first(),
            in_cover,
        )
    }
}

pub open spec fn cover_candidates_items(cands: Seq<Seq<char>>, items: Seq<JsonView>, in_cover: bool) -> Seq<Seq<char>>
    decreases items,
{
    if items.len() == 0 {
        cands
    } else {
        cover_candidates_items(cover_candidates(cands, items[0], in_cover), items.drop_first(), in_cover)
    }
}

pub fn collect_narou_cover_candidates(value: &JsonValue, in_cover_field: bool, candidates: &mut Vec<String>)
    ensures
        strings_view(final(candidates)@) == cover_candidates(strings_view(old(candidates)@), value.view(), in_cover_field),
    decreases value,
{
    proof {
        lemma_view_parts(*value);
    }
    match value {
        JsonValue::Object(entries) => {
            let ghost ev = entries_view(entries@);
            let ghost start = strings_view(candidates@);
            let mut i: usize = 0;
            assert(ev.skip(0) =~= ev);
            while i < entries.len()
                invariant
                    i <= entries.len(),
                    *value == JsonValue::Object(*entries),
                    ev == entries_view(entries@),
                    cover_candidates(start, value.view(), in_cover_field) == cover_candidates_entries(
                        strings_view(candidates@),
                        ev.skip(i as int),
                        in_cover_field,
                    ),
                decreases entries.len() - i,
            {
                proof {
                    vstd::std_specs::vec::axiom_vec_index_decreases(*entries, i as int);
                    assert(decreases_to!(*value => value->Object_0));
                    assert(decreases_to!(entries[i as int] => entries[i as int].1));
                    assert(ev.skip(i as int)[0] == ev[i as int]);
                    assert(ev[i as int] == (entries@[i as int].0@, entries@[i as int].1.view()));
                    assert(ev.skip(i as int).drop_first() =~= ev.skip(i + 1));
                }
                let flag = in_cover_field || crate::markup::is_cover_field(entries[i].0.as_str());
                collect_narou_cover_candidates(&entries[i].1, flag, candidates);
                i = i + 1;
            }
            assert(ev.skip(i as int) =~= Seq::<(Seq<char>, JsonView)>::empty());
        },
        JsonValue::Array(items) => {
            let ghost iv = crate::json::items_view(items@);
            let ghost start = strings_view(candidates@);
            let mut i: usize = 0;
            assert(iv.skip(0) =~= iv);
            while i < items.len()
                invariant
                    i <= items.len(),
                    *value == JsonValue::Array(*items),
                    iv == crate::json::items_view(items@),
                    cover_candidates(start, value.view(), in_cover_field) == cover_candidates_items(
                        strings_view(candidates@),
                        iv.skip(i as int),
                        in_cover_field,
                    ),
                decreases items.len() - i,
            {
                proof {
                    vstd::std_specs::vec::axiom_vec_index_decreases(*items, i as int);
                    assert(decreases_to!(*value => value->Array_0));
                    assert(iv.skip(i as int)[0] == iv[i as int]);
                    assert(iv.skip(i as int).drop_first() =~= iv.skip(i + 1));
                }
                collect_narou_cover_candidates(&items[i], in_cover_field, candidates);
                i = i + 1;
            }
            assert(iv.skip(i as int) =~= Seq::<JsonView>::empty());
        },
        JsonValue::Str(t) => {
            if in_cover_field {
                let trimmed = crate::text::trim_str(t.as_str());
                crate::markup::push_unique_candidate(candidates, trimmed.as_str());
            }
            crate::markup::collect_image_markup_candidates(t.as_str(), candidates);
        },
        _ => {},
    }
}

// ---------------------------------------------------------------------------
// Works imported from an archive
// ---------------------------------------------------------------------------

/// Whether a work's document has a non-empty `episodes` object.
pub open spec fn has_episodes(raw: JsonView) -> bool {
    match get(raw, "episodes"@) {
        Some(JsonView::Object(eps)) => eps.len() > 0,
        _ => false,
    }
}

/// Refuses the document of an imported work that has no episodes.
pub fn ensure_work_payload_has_episodes(work_key: &str, raw_json: &JsonValue) -> (r: Result<(), String>)
    ensures
        r is Ok <==> has_episodes(raw_json.view()),
        r matches Err(e) ==> e@ == "zip work payload "@ + work_key@ + " is missing episodes"@,
{
    let ok = match json_get(raw_json, "episodes") {
        Some(JsonValue::Object(eps)) => {
            proof {
                lemma_view_parts(JsonValue::Object(*eps));
            }
            eps.len() > 0
        },
        _ => false,
    };
    if ok {
        Ok(())
    } else {
        let mut msg: Vec<char> = Vec::new();
        crate::text::push_str(&mut msg, "zip work payload ");
        crate::text::push_str(&mut msg, work_key);
        crate::text::push_str(&mut msg, " is missing episodes");
        Err(string_from_chars(msg.as_slice()))
    }
}

} // verus!
