//! The records of Pixiv works built from what Pixiv answers: a novel, an
//! artwork, the episodes of a novel series and of a comic series, and the
//! choices made when a user's works are downloaded. Fetching the answers,
//! the images and the covers is left to the caller.
use vstd::prelude::*;
use crate::json::{
    as_array, as_i64, as_str, entries_view, field_text, find_key, first_int, get, items_view, json_as_i64,
    json_as_str, json_get, lemma_view_parts, nested_tags, object_insert, opt_owned_view, survey_text,
    value_text, JsonValue, JsonView, WorkFieldsView,
};
use crate::model::WorkRecord;
use crate::narou::opt_string_view;
use crate::narou_doc::episode_doc;
use crate::pixiv::{breaks_to_newlines, decoded_query};
use crate::followed::PixivTrackedUserEntry;
use crate::text::{chars_of, decimal, string_from_chars, strings_view};
use crate::work_key::{sorted_unique, sorted_unique_strings};

verus! {

// ---------------------------------------------------------------------------
// What every work reads from its answer
// ---------------------------------------------------------------------------

/// The text of the scalar under `key`, unless it is empty.
pub open spec fn nonempty_text(v: JsonView, key: Seq<char>) -> Option<Seq<char>> {
    match get(v, key) {
        Some(x) => if value_text(x).len() > 0 {
            Some(value_text(x))
        } else {
            None
        },
        None => None,
    }
}

fn nonempty_text_exec(v: &JsonValue, key: &str) -> (r: Option<String>)
    ensures
        opt_string_view(r) == nonempty_text(v.view(), key@),
{
    match json_get(v, key) {
        Some(x) => {
            let t = crate::json::value_to_string(x);
            if t.as_str().is_empty() {
                None
            } else {
                Some(t)
            }
        },
        None => None,
    }
}

/// The page of a Pixiv user.
pub open spec fn user_url(id: Option<Seq<char>>) -> Option<Seq<char>> {
    match id {
        Some(u) => Some("https://www.pixiv.net/users/"@ + u),
        None => None,
    }
}

fn user_url_exec(id: &Option<String>) -> (r: Option<String>)
    ensures
        opt_string_view(r) == user_url(opt_string_view(*id)),
{
    match id {
        Some(u) => {
            let mut out: Vec<char> = Vec::new();
            crate::text::push_str(&mut out, "https://www.pixiv.net/users/");
            crate::text::push_str(&mut out, u.as_str());
            Some(string_from_chars(out.as_slice()))
        },
        None => None,
    }
}

/// Tags with `AI生成` added for AI-generated works (AI type 2).
pub open spec fn ai_tagged(tags: Seq<Seq<char>>, ai_type: Option<i64>) -> Seq<Seq<char>> {
    if ai_type == Some(2i64) && !tags.contains("AI生成"@) {
        tags.push("AI生成"@)
    } else {
        tags
    }
}

/// The tags of a work's answer: its nested tags, and `AI生成` where it
/// says so.
pub open spec fn answer_tags(body: JsonView) -> Seq<Seq<char>> {
    ai_tagged(nested_tags(body, seq!["tags"@, "tags"@]), as_i64(get(body, "aiType"@)))
}

fn answer_tags_exec(body: &JsonValue) -> (r: Vec<String>)
    ensures
        strings_view(r@) == answer_tags(body.view()),
{
    let path: [&str; 2] = ["tags", "tags"];
    assert(crate::text::strs_view(path@) =~= seq!["tags"@, "tags"@]);
    let mut tags = crate::json::extract_tag_names_nested(body, path.as_slice());
    crate::pixiv::add_ai_tag_if_needed(json_as_i64(json_get(body, "aiType")), &mut tags);
    tags
}

/// A text under `key` with its HTML line breaks as newlines.
pub open spec fn caption_at(v: JsonView, key: Seq<char>) -> Seq<char> {
    breaks_to_newlines(
        match as_str(get(v, key)) {
            Some(t) => t,
            None => Seq::empty(),
        },
    )
}

fn caption_at_exec(v: &JsonValue, key: &str) -> (r: String)
    ensures
        r@ == caption_at(v.view(), key@),
{
    let t = match json_as_str(json_get(v, key)) {
        Some(t) => t,
        None => "",
    };
    proof {
        reveal_strlit("");
    }
    crate::pixiv::html_breaks_to_newlines(t)
}

/// A work's creation date, empty where it has none.
pub open spec fn created_at(v: JsonView) -> Seq<char> {
    field_text(v, "createDate"@, Seq::empty())
}

/// The date under `key`, else the creation date.
pub open spec fn date_or_created(v: JsonView, key: Seq<char>) -> Seq<char> {
    match as_str(get(v, key)) {
        Some(t) => t,
        None => created_at(v),
    }
}

fn created_exec(v: &JsonValue) -> (r: String)
    ensures
        r@ == created_at(v.view()),
{
    proof {
        reveal_strlit("");
    }
    crate::json::str_field(v, "createDate", "")
}

fn date_or_created_exec(v: &JsonValue, key: &str) -> (r: String)
    ensures
        r@ == date_or_created(v.view(), key@),
{
    match json_as_str(json_get(v, key)) {
        Some(t) => crate::text::owned(t),
        None => created_exec(v),
    }
}

/// The poll of a work, as text.
pub open spec fn poll_text(v: JsonView) -> Seq<char> {
    survey_text(find_key(v, "pollData"@))
}

fn poll_text_exec(v: &JsonValue) -> (r: String)
    ensures
        r@ == poll_text(v.view()),
{
    let poll = crate::json::find_key_recursively(v, "pollData");
    crate::json::format_survey(poll)
}

fn opt_copy(o: &Option<String>) -> (r: Option<String>)
    ensures
        opt_string_view(r) == opt_string_view(*o),
{
    match o {
        Some(t) => Some(crate::text::owned(t.as_str())),
        None => None,
    }
}

// ---------------------------------------------------------------------------
// A novel and an artwork
// ---------------------------------------------------------------------------

/// The single episode of a novel or an artwork.
pub open spec fn single_episode(id: Seq<char>, body: JsonView, title: Seq<char>, text: Seq<char>, count: i64) -> JsonView {
    episode_doc(
        id,
        None,
        title,
        decoded_query(caption_at(body, "description"@)),
        text,
        poll_text(body),
        answer_tags(body),
        count,
        created_at(body),
        date_or_created(body, "uploadDate"@),
    )
}

/// The fields of a novel or an artwork.
pub open spec fn single_fields(
    work_key: Seq<char>,
    id: Seq<char>,
    body: JsonView,
    kind: Seq<char>,
    count: i64,
    url: Seq<char>,
) -> WorkFieldsView {
    let tags = answer_tags(body);
    let author_id = nonempty_text(body, "userId"@);
    WorkFieldsView {
        work_key,
        id,
        title: field_text(body, "title"@, id),
        author: field_text(body, "userName"@, "pixiv"@),
        author_id,
        author_url: user_url(author_id),
        caption: caption_at(body, "description"@),
        kind,
        serialization: "短編"@,
        tags,
        all_tags: tags,
        create_date: created_at(body),
        update_date: date_or_created(body, "uploadDate"@),
        total_characters: count,
        all_characters: count,
        total_episodes: 1,
        all_episodes: 1,
        url,
    }
}

/// What a record of a single-episode work holds: its fields, and a document
/// of those fields with the one episode under `1`, fetched at some time.
pub open spec fn single_record(r: WorkRecord, f: WorkFieldsView, episode: JsonView) -> bool {
    &&& r.site@ == "pixiv"@
    &&& r.work_key@ == f.work_key
    &&& r.title@ == f.title
    &&& r.author@ == f.author
    &&& opt_string_view(r.author_id) == f.author_id
    &&& opt_string_view(r.author_url) == f.author_url
    &&& r.work_type@ == f.kind
    &&& r.caption@ == f.caption
    &&& r.create_date@ == f.create_date
    &&& r.update_date@ == f.update_date
    &&& exists|d: Seq<char>| r.raw_json.view() == #[trigger] crate::json::work_document(
        f,
        seq![("1"@, episode)],
        d,
    )
}

fn single_record_exec(
    work_key: &str,
    id: &str,
    body: &JsonValue,
    text: &str,
    kind: &str,
    count: i64,
    url: &str,
) -> (r: WorkRecord)
    ensures
        single_record(
            r,
            single_fields(work_key@, id@, body.view(), kind@, count, url@),
            single_episode(id@, body.view(), field_text(body.view(), "title"@, id@), text@, count),
        ),
{
    let title = crate::json::str_field(body, "title", id);
    let author = crate::json::str_field(body, "userName", "pixiv");
    let author_id = nonempty_text_exec(body, "userId");
    let author_url = user_url_exec(&author_id);
    let caption = caption_at_exec(body, "description");
    let tags = answer_tags_exec(body);
    let postscript = poll_text_exec(body);
    let create_date = created_exec(body);
    let update_date = date_or_created_exec(body, "uploadDate");
    let introduction = crate::pixiv::url_decode(caption.as_str());
    let doc = crate::narou_doc::episode_doc_json(
        id,
        &None,
        title.as_str(),
        introduction.as_str(),
        text,
        postscript.as_str(),
        &tags,
        count,
        create_date.as_str(),
        update_date.as_str(),
    );
    let ghost docv = doc.view();
    let episodes = vec![(crate::text::owned("1"), doc)];
    proof {
        reveal_strlit("1");
        assert(entries_view(episodes@) =~= seq![("1"@, docv)]);
    }
    crate::pixiv::build_work(
        work_key,
        id,
        title.as_str(),
        author.as_str(),
        opt_copy(&author_id),
        opt_copy(&author_url),
        caption.as_str(),
        kind,
        "短編",
        tags.as_slice(),
        tags.as_slice(),
        create_date.as_str(),
        update_date.as_str(),
        count,
        count,
        1,
        1,
        &episodes,
        url,
    )
}

/// The key of a work: a letter for its kind, then its id.
pub open spec fn keyed_id(letter: char, id: Seq<char>) -> Seq<char> {
    seq![letter] + id
}

fn keyed_id_exec(letter: char, id: &str) -> (r: String)
    ensures
        r@ == keyed_id(letter, id@),
{
    let mut out: Vec<char> = Vec::new();
    out.push(letter);
    crate::text::push_str(&mut out, id);
    string_from_chars(out.as_slice())
}

/// The number of characters of a novel: the first count it gives.
pub open spec fn novel_count(body: JsonView) -> i64 {
    first_int(body, seq!["characterCount"@, "textLength"@, "wordCount"@])
}

/// The record of a novel from its answer and its text, images in place.
pub fn novel_work_record(novel_id: &str, body: &JsonValue, text: &str) -> (r: WorkRecord)
    ensures
        single_record(
            r,
            single_fields(
                keyed_id('n', novel_id@),
                novel_id@,
                body.view(),
                "novel"@,
                novel_count(body.view()),
                "https://www.pixiv.net/novel/show.php?id="@ + novel_id@,
            ),
            single_episode(
                novel_id@,
                body.view(),
                field_text(body.view(), "title"@, novel_id@),
                text@,
                novel_count(body.view()),
            ),
        ),
{
    let keys: [&str; 3] = ["characterCount", "textLength", "wordCount"];
    assert(crate::text::strs_view(keys@) =~= seq!["characterCount"@, "textLength"@, "wordCount"@]);
    let count = crate::json::int_field(body, keys.as_slice());
    let work_key = keyed_id_exec('n', novel_id);
    let mut url: Vec<char> = Vec::new();
    crate::text::push_str(&mut url, "https://www.pixiv.net/novel/show.php?id=");
    crate::text::push_str(&mut url, novel_id);
    let url = string_from_chars(url.as_slice());
    single_record_exec(work_key.as_str(), novel_id, body, text, "novel", count, url.as_str())
}

/// The record of an artwork from its answer and its text of page images.
pub fn art_work_record(art_id: &str, body: &JsonValue, text: &str) -> (r: WorkRecord)
    ensures
        single_record(
            r,
            single_fields(
                keyed_id('a', art_id@),
                art_id@,
                body.view(),
                "comic"@,
                0,
                "https://www.pixiv.net/artworks/"@ + art_id@,
            ),
            single_episode(art_id@, body.view(), field_text(body.view(), "title"@, art_id@), text@, 0),
        ),
{
    let work_key = keyed_id_exec('a', art_id);
    let mut url: Vec<char> = Vec::new();
    crate::text::push_str(&mut url, "https://www.pixiv.net/artworks/");
    crate::text::push_str(&mut url, art_id);
    let url = string_from_chars(url.as_slice());
    single_record_exec(work_key.as_str(), art_id, body, text, "comic", 0, url.as_str())
}

// ---------------------------------------------------------------------------
// The pages of an artwork as image marks
// ---------------------------------------------------------------------------

/// The pattern of a page number in an image's address.
pub open spec fn page_number_pattern() -> Seq<char> {
    "_p(\\d+)\\."@
}

/// The number of a page counted from 1: the number in its address plus
/// one (0 where it does not parse), as a 32-bit integer that wraps.
pub open spec fn page_number(g: Seq<char>) -> i32 {
    let v: int = match crate::text::parse_bounded(g, 0x7fff_ffff) {
        Some(n) => n as int,
        None => 0,
    };
    if v == 0x7fff_ffff {
        -0x8000_0000i32
    } else {
        (v + 1) as i32
    }
}

/// The mark of one page of an artwork, on a line of its own; nothing for a
/// page whose address is missing, empty or without a page number.
pub open spec fn page_mark_line(art_id: Seq<char>, page: JsonView) -> Seq<char> {
    match crate::json::original_url(Some(page)) {
        Some(u) => if u.len() == 0 {
            Seq::empty()
        } else {
            match crate::work_key::regex_group(page_number_pattern(), u, 1) {
                Some(g) => "[pixivimage:"@ + art_id + "-"@ + crate::work_pages::signed_decimal(page_number(g) as int)
                    + "]\n"@,
                None => Seq::empty(),
            }
        },
        None => Seq::empty(),
    }
}

pub open spec fn page_marks(art_id: Seq<char>, pages: Seq<JsonView>) -> Seq<char>
    decreases pages.len(),
{
    if pages.len() == 0 {
        Seq::empty()
    } else {
        page_marks(art_id, pages.drop_last()) + page_mark_line(art_id, pages.last())
    }
}

/// The text of an artwork before its images are fetched: a mark for each
/// of its pages, in order.
pub open spec fn art_page_text(art_id: Seq<char>, pages: JsonView) -> Seq<char> {
    match pages {
        JsonView::Array(items) => page_marks(art_id, items),
        _ => Seq::empty(),
    }
}

fn push_page_mark(out: &mut Vec<char>, art_id: &str, page: &JsonValue)
    ensures
        final(out)@ == old(out)@ + page_mark_line(art_id@, page.view()),
{
    let ghost start = out@;
    let url = match json_get(page, "urls") {
        Some(u) => json_get(u, "original"),
        None => None,
    };
    let u = match json_as_str(url) {
        Some(u) => u,
        None => {
            assert(out@ =~= start + Seq::<char>::empty());
            return;
        },
    };
    if u.is_empty() {
        assert(out@ =~= start + Seq::<char>::empty());
        return;
    }
    let pattern = "_p(\\d+)\\.";
    assert(pattern@ == page_number_pattern());
    match crate::pixiv::regex_capture(pattern, u) {
        Some(g) => {
            let gv = chars_of_string(&g);
            let num: i32 = match crate::text::parse_unsigned_chars(gv.as_slice(), 0x7fff_ffff) {
                Some(v) => {
                    let w = v as i32;
                    w.wrapping_add(1)
                },
                None => 1,
            };
            proof {
                if crate::text::parse_bounded(g@, 0x7fff_ffff) is Some {
                    let v = crate::text::parse_bounded(g@, 0x7fff_ffff)->0;
                    assert(v <= 0x7fff_ffff);
                }
            }
            assert(num == page_number(g@));
            crate::text::push_str(out, "[pixivimage:");
            crate::text::push_str(out, art_id);
            crate::text::push_str(out, "-");
            crate::work_pages::push_i64(out, num as i64);
            crate::text::push_str(out, "]\n");
        },
        None => {
            assert(out@ =~= start + Seq::<char>::empty());
        },
    }
}

fn chars_of_string(s: &String) -> (r: Vec<char>)
    ensures
        r@ == s@,
{
    crate::text::chars_of(s.as_str())
}

/// The text of an artwork's pages as image marks.
pub fn art_pages_text(art_id: &str, pages: &JsonValue) -> (r: String)
    ensures
        r@ == art_page_text(art_id@, pages.view()),
{
    proof {
        lemma_view_parts(*pages);
    }
    let mut out: Vec<char> = Vec::new();
    match pages {
        JsonValue::Array(items) => {
            let ghost iv = items_view(items@);
            let mut i: usize = 0;
            assert(iv.take(0) =~= Seq::<JsonView>::empty());
            assert(out@ =~= page_marks(art_id@, iv.take(0)));
            while i < items.len()
                invariant
                    i <= items.len(),
                    iv == items_view(items@),
                    out@ == page_marks(art_id@, iv.take(i as int)),
                decreases items.len() - i,
            {
                assert(iv.take(i + 1).drop_last() =~= iv.take(i as int));
                assert(iv.take(i + 1).last() == items@[i as int].view());
                push_page_mark(&mut out, art_id, &items[i]);
                i = i + 1;
            }
            assert(iv.take(i as int) =~= iv);
        },
        _ => {},
    }
    string_from_chars(out.as_slice())
}

// ---------------------------------------------------------------------------
// A novel series
// ---------------------------------------------------------------------------

pub open spec fn as_bool(v: Option<JsonView>) -> Option<bool> {
    match v {
        Some(JsonView::Bool(b)) => Some(b),
        _ => None,
    }
}

pub(crate) fn json_as_bool(v: Option<&JsonValue>) -> (r: Option<bool>)
    ensures
        r == as_bool(crate::json::opt_view(v)),
{
    match v {
        Some(JsonValue::Bool(b)) => Some(*b),
        _ => None,
    }
}

/// An episode of a series' table of contents that is fetched: one that is
/// available (as it is unless it says otherwise) and has an id; its
/// position, id and title.
pub open spec fn toc_target(index: int, entry: JsonView) -> Option<(int, Seq<char>, Seq<char>)> {
    let available = match as_bool(get(entry, "available"@)) {
        Some(b) => b,
        None => true,
    };
    let id = match get(entry, "id"@) {
        Some(x) => value_text(x),
        None => Seq::empty(),
    };
    if !available || id.len() == 0 {
        None
    } else {
        Some(
            (
                index,
                id,
                match as_str(get(entry, "title"@)) {
                    Some(t) => t,
                    None => Seq::empty(),
                },
            ),
        )
    }
}

pub open spec fn toc_targets_of(entries: Seq<JsonView>) -> Seq<(int, Seq<char>, Seq<char>)>
    decreases entries.len(),
{
    if entries.len() == 0 {
        Seq::empty()
    } else {
        let prev = toc_targets_of(entries.drop_last());
        match toc_target(entries.len() - 1, entries.last()) {
            Some(t) => prev.push(t),
            None => prev,
        }
    }
}

/// The episodes of a series' table of contents to fetch, in order.
pub open spec fn toc_targets(toc: JsonView) -> Seq<(int, Seq<char>, Seq<char>)> {
    match toc {
        JsonView::Array(items) => toc_targets_of(items),
        _ => Seq::empty(),
    }
}

pub open spec fn targets_view(v: Seq<(usize, String, String)>) -> Seq<(int, Seq<char>, Seq<char>)> {
    v.map_values(|t: (usize, String, String)| (t.0 as int, t.1@, t.2@))
}

pub fn series_toc_targets(toc: &JsonValue) -> (r: Vec<(usize, String, String)>)
    ensures
        targets_view(r@) == toc_targets(toc.view()),
{
    proof {
        lemma_view_parts(*toc);
    }
    let mut out: Vec<(usize, String, String)> = Vec::new();
    assert(targets_view(out@) =~= Seq::<(int, Seq<char>, Seq<char>)>::empty());
    match toc {
        JsonValue::Array(items) => {
            let ghost iv = items_view(items@);
            let mut i: usize = 0;
            assert(iv.take(0) =~= Seq::<JsonView>::empty());
            while i < items.len()
                invariant
                    i <= items.len(),
                    iv == items_view(items@),
                    targets_view(out@) == toc_targets_of(iv.take(i as int)),
                decreases items.len() - i,
            {
                assert(iv.take(i + 1).drop_last() =~= iv.take(i as int));
                assert(iv.take(i + 1).last() == items@[i as int].view());
                let entry = &items[i];
                let available = match json_as_bool(json_get(entry, "available")) {
                    Some(b) => b,
                    None => true,
                };
                let id = match json_get(entry, "id") {
                    Some(x) => crate::json::value_to_string(x),
                    None => String::new(),
                };
                let ghost before = targets_view(out@);
                if available && !id.as_str().is_empty() {
                    let title = match json_as_str(json_get(entry, "title")) {
                        Some(t) => crate::text::owned(t),
                        None => String::new(),
                    };
                    let ghost t = (i as int, id@, title@);
                    out.push((i, id, title));
                    assert(targets_view(out@) =~= before.push(t));
                } else {
                    assert(id@.len() == 0 || !available);
                }
                i = i + 1;
            }
            assert(iv.take(i as int) =~= iv);
        },
        _ => {},
    }
    out
}

/// The characters of an episode of a series.
pub open spec fn episode_count(ep: JsonView) -> i64 {
    match as_i64(get(ep, "characterCount"@)) {
        Some(n) => n,
        None => 0,
    }
}

/// An episode of a series as stored.
pub open spec fn series_episode(ep_id: Seq<char>, ep_title: Seq<char>, ep: JsonView, text: Seq<char>) -> JsonView {
    episode_doc(
        ep_id,
        None,
        ep_title,
        decoded_query(caption_at(ep, "description"@)),
        text,
        poll_text(ep),
        answer_tags(ep),
        episode_count(ep),
        created_at(ep),
        date_or_created(ep, "uploadDate"@),
    )
}

/// An episode of a series, from its answer and its text with images in
/// place: its document, its tags and its count of characters.
pub fn series_episode_doc(ep_id: &str, ep_title: &str, ep: &JsonValue, text: &str) -> (r: (JsonValue, Vec<String>, i64))
    ensures
        strings_view(r.1@) == answer_tags(ep.view()),
        r.2 == episode_count(ep.view()),
        r.0.view() == series_episode(ep_id@, ep_title@, ep.view(), text@),
{
    let tags = answer_tags_exec(ep);
    let count = match json_as_i64(json_get(ep, "characterCount")) {
        Some(n) => n,
        None => 0,
    };
    let caption = caption_at_exec(ep, "description");
    let introduction = crate::pixiv::url_decode(caption.as_str());
    let postscript = poll_text_exec(ep);
    let create_date = created_exec(ep);
    let update_date = date_or_created_exec(ep, "uploadDate");
    let doc = crate::narou_doc::episode_doc_json(
        ep_id,
        &None,
        ep_title,
        introduction.as_str(),
        text,
        postscript.as_str(),
        &tags,
        count,
        create_date.as_str(),
        update_date.as_str(),
    );
    (doc, tags, count)
}

/// The episodes of a series gathered so far: under their positions from 1
/// in an object ordered by key, the tags of the series and its episodes,
/// and the characters counted (a sum that wraps).
pub struct SeriesEpisodes {
    pub episodes: Vec<(String, JsonValue)>,
    pub all_tags: Vec<String>,
    pub total_text: i64,
}

impl SeriesEpisodes {
    /// None gathered yet; the series' own tags come first.
    pub fn new(series_tags: Vec<String>) -> (r: Self)
        ensures
            entries_view(r.episodes@) == Seq::<(Seq<char>, JsonView)>::empty(),
            strings_view(r.all_tags@) == strings_view(series_tags@),
            r.total_text == 0,
    {
        let r = SeriesEpisodes { episodes: Vec::new(), all_tags: series_tags, total_text: 0 };
        assert(entries_view(r.episodes@) =~= Seq::<(Seq<char>, JsonView)>::empty());
        r
    }

    /// Adds the episode at position `index` (from 0) of the contents.
    pub fn add(&mut self, index: usize, doc: JsonValue, tags: Vec<String>, count: i64)
        requires
            index < u64::MAX,
        ensures
            entries_view(final(self).episodes@) == crate::json::map_insert(
                entries_view(old(self).episodes@),
                decimal((index + 1) as nat),
                doc.view(),
            ),
            strings_view(final(self).all_tags@) == strings_view(old(self).all_tags@) + strings_view(tags@),
            final(self).total_text == old(self).total_text.wrapping_add(count),
    {
        let key = crate::text::decimal_chars(index as u64 + 1);
        object_insert(&mut self.episodes, string_from_chars(key.as_slice()), doc);
        append_tags(&mut self.all_tags, &tags);
        self.total_text = self.total_text.wrapping_add(count);
    }
}

fn append_tags(all: &mut Vec<String>, tags: &Vec<String>)
    ensures
        strings_view(final(all)@) == strings_view(old(all)@) + strings_view(tags@),
{
    let mut i: usize = 0;
    let ghost start = strings_view(all@);
    assert(strings_view(tags@).take(0) =~= Seq::<Seq<char>>::empty());
    assert(start + Seq::<Seq<char>>::empty() =~= start);
    while i < tags.len()
        invariant
            i <= tags.len(),
            start == strings_view(old(all)@),
            strings_view(all@) == start + strings_view(tags@).take(i as int),
        decreases tags.len() - i,
    {
        let ghost before = strings_view(all@);
        all.push(crate::text::owned(tags[i].as_str()));
        assert(strings_view(all@) =~= before.push(tags@[i as int]@));
        i = i + 1;
        assert(strings_view(all@) =~= start + strings_view(tags@).take(i as int));
    }
    assert(strings_view(tags@).take(i as int) =~= strings_view(tags@));
}

/// The tags of a series: its flat tags, and `AI生成` where it says so.
pub open spec fn series_tags(body: JsonView) -> Seq<Seq<char>> {
    ai_tagged(crate::json::flat_tags(body, "tags"@), as_i64(get(body, "aiType"@)))
}

pub fn series_tags_of(body: &JsonValue) -> (r: Vec<String>)
    ensures
        strings_view(r@) == series_tags(body.view()),
{
    let mut tags = crate::json::extract_flat_tags(body, "tags");
    crate::pixiv::add_ai_tag_if_needed(json_as_i64(json_get(body, "aiType")), &mut tags);
    tags
}

/// The values of an object's entries.
pub open spec fn entry_values(entries: Seq<(Seq<char>, JsonView)>) -> Seq<JsonView> {
    entries.map_values(|e: (Seq<char>, JsonView)| e.1)
}

/// The fields of a series with `episodes` episodes.
pub open spec fn series_fields(
    series_id: Seq<char>,
    body: JsonView,
    all_tags: Seq<Seq<char>>,
    total_text: i64,
    episodes: int,
) -> WorkFieldsView {
    let author_id = nonempty_text(body, "userId"@);
    WorkFieldsView {
        work_key: keyed_id('s', series_id),
        id: series_id,
        title: field_text(body, "title"@, series_id),
        author: field_text(body, "userName"@, "pixiv"@),
        author_id,
        author_url: user_url(author_id),
        caption: caption_at(body, "caption"@),
        kind: "novel"@,
        serialization: if as_bool(get(body, "isConcluded"@)) == Some(true) {
            "完結済"@
        } else {
            "連載中"@
        },
        tags: series_tags(body),
        all_tags: crate::pixiv::dedup(all_tags),
        create_date: created_at(body),
        update_date: date_or_created(body, "updateDate"@),
        total_characters: total_text,
        all_characters: match as_i64(get(body, "publishedTotalCharacterCount"@)) {
            Some(n) => n,
            None => total_text,
        },
        total_episodes: episodes as i64,
        all_episodes: match as_i64(get(body, "total"@)) {
            Some(n) => n,
            None => episodes as i64,
        },
        url: "https://www.pixiv.net/novel/series/"@ + series_id,
    }
}

/// What a record of a work with several episodes holds: its fields, and a
/// document of those fields and the episodes, fetched at some time.
pub open spec fn series_record(r: WorkRecord, f: WorkFieldsView, episodes: Seq<(Seq<char>, JsonView)>) -> bool {
    &&& r.site@ == "pixiv"@
    &&& r.work_key@ == f.work_key
    &&& r.title@ == f.title
    &&& r.author@ == f.author
    &&& opt_string_view(r.author_id) == f.author_id
    &&& opt_string_view(r.author_url) == f.author_url
    &&& r.work_type@ == f.kind
    &&& r.serialization@ == f.serialization
    &&& r.caption@ == f.caption
    &&& r.create_date@ == f.create_date
    &&& r.update_date@ == f.update_date
    &&& exists|d: Seq<char>| r.raw_json.view() == #[trigger] crate::json::work_document(f, episodes, d)
}

/// Law: a series record is dated by its answer: created at the answer's
/// `createDate` (empty where it has none) and updated at its `updateDate`
/// where the answer has one, falling back to the creation date only where
/// `updateDate` is absent.
pub proof fn lemma_series_record_dates(
    r: WorkRecord,
    series_id: Seq<char>,
    body: JsonView,
    all_tags: Seq<Seq<char>>,
    total_text: i64,
    episodes: int,
    documents: Seq<(Seq<char>, JsonView)>,
)
    requires
        series_record(r, series_fields(series_id, body, all_tags, total_text, episodes), documents),
    ensures
        r.create_date@ == match as_str(get(body, "createDate"@)) {
            Some(c) => c,
            None => Seq::<char>::empty(),
        },
        as_str(get(body, "updateDate"@)) matches Some(u) ==> r.update_date@ == u,
        as_str(get(body, "updateDate"@)) is None ==> r.update_date@ == r.create_date@,
{
}

/// The record of a series from its answer and its gathered episodes:
/// episodes renumbered in order of creation, tags without repeats.
pub fn series_work_record(series_id: &str, body: &JsonValue, gathered: SeriesEpisodes) -> (r: WorkRecord)
    requires
        gathered.episodes@.len() < u64::MAX,
    ensures
        series_record(
            r,
            series_fields(
                series_id@,
                body.view(),
                strings_view(gathered.all_tags@),
                gathered.total_text,
                gathered.episodes@.len() as int,
            ),
            crate::json::numbered(crate::json::sort_by_date(entry_values(entries_view(gathered.episodes@)))),
        ),
{
    let ghost n = gathered.episodes@.len();
    let ghost tags_before = strings_view(gathered.all_tags@);
    let ghost values = entry_values(entries_view(gathered.episodes@));
    assert(values =~= entries_view(gathered.episodes@).map_values(|e: (Seq<char>, JsonView)| e.1));
    let SeriesEpisodes { episodes, all_tags, total_text } = gathered;
    let count = episodes.len();
    let episodes = crate::json::sort_episodes_by_create_date(episodes);
    let mut all_tags = all_tags;
    crate::pixiv::dedup_tags(&mut all_tags);
    let title = crate::json::str_field(body, "title", series_id);
    let author = crate::json::str_field(body, "userName", "pixiv");
    let author_id = nonempty_text_exec(body, "userId");
    let author_url = user_url_exec(&author_id);
    let caption = caption_at_exec(body, "caption");
    let create_date = created_exec(body);
    let update_date = date_or_created_exec(body, "updateDate");
    let all_episodes = match json_as_i64(json_get(body, "total")) {
        Some(v) => v,
        None => count as i64,
    };
    let all_characters = match json_as_i64(json_get(body, "publishedTotalCharacterCount")) {
        Some(v) => v,
        None => total_text,
    };
    let serialization = if json_as_bool(json_get(body, "isConcluded")) == Some(true) {
        "完結済"
    } else {
        "連載中"
    };
    let tags = series_tags_of(body);
    let work_key = keyed_id_exec('s', series_id);
    let mut url: Vec<char> = Vec::new();
    crate::text::push_str(&mut url, "https://www.pixiv.net/novel/series/");
    crate::text::push_str(&mut url, series_id);
    let url = string_from_chars(url.as_slice());
    crate::pixiv::build_work(
        work_key.as_str(),
        series_id,
        title.as_str(),
        author.as_str(),
        opt_copy(&author_id),
        opt_copy(&author_url),
        caption.as_str(),
        "novel",
        serialization,
        tags.as_slice(),
        all_tags.as_slice(),
        create_date.as_str(),
        update_date.as_str(),
        total_text,
        all_characters,
        count as i64,
        all_episodes,
        &episodes,
        url.as_str(),
    )
}

// ---------------------------------------------------------------------------
// A comic series
// ---------------------------------------------------------------------------

/// The first series in the list whose id is `comic_id`.
pub open spec fn series_with_id(items: Seq<JsonView>, comic_id: Seq<char>) -> Option<JsonView>
    decreases items.len(),
{
    if items.len() == 0 {
        None
    } else if (match get(items[0], "id"@) {
        Some(x) => value_text(x) == comic_id,
        None => false,
    }) {
        Some(items[0])
    } else {
        series_with_id(items.drop_first(), comic_id)
    }
}

/// The series a comic's first page describes: the one with its id, else
/// the first listed, else null.
pub open spec fn series_info_of(resp: JsonView, comic_id: Seq<char>) -> JsonView {
    match as_array(get(resp, "illustSeries"@)) {
        Some(items) => match series_with_id(items, comic_id) {
            Some(x) => x,
            None => if items.len() > 0 {
                items[0]
            } else {
                JsonView::Null
            },
        },
        None => JsonView::Null,
    }
}

/// The first user a comic's first page lists, else null.
pub open spec fn user_info_of(resp: JsonView) -> JsonView {
    match as_array(get(resp, "users"@)) {
        Some(items) => if items.len() > 0 {
            items[0]
        } else {
            JsonView::Null
        },
        None => JsonView::Null,
    }
}

/// The tags of a comic: those of its translation table, else the string
/// tags of its first thumbnail.
pub open spec fn comic_tags(resp: JsonView) -> Seq<Seq<char>> {
    let t = crate::json::translation_tags(get(resp, "tagTranslation"@));
    if t.len() > 0 {
        t
    } else {
        match crate::json::nonempty_array(crate::json::get_opt(get(resp, "thumbnails"@), "illust"@)) {
            Some(ill) => match as_array(get(ill[0], "tags"@)) {
                Some(items) => crate::json::string_items(items),
                None => Seq::empty(),
            },
            None => Seq::empty(),
        }
    }
}

/// What the first page of a comic series says of it.
pub struct ComicSeriesMeta {
    pub series_info: JsonValue,
    pub user_info: JsonValue,
    pub first_tags: Vec<String>,
}

fn first_item_or_null(items: Option<&Vec<JsonValue>>) -> (r: JsonValue)
    ensures
        r.view() == match items {
            Some(a) => if a@.len() > 0 {
                a@[0].view()
            } else {
                JsonView::Null
            },
            None => JsonView::Null,
        },
{
    match items {
        Some(a) => if a.len() > 0 {
            crate::json::json_clone(&a[0])
        } else {
            JsonValue::Null
        },
        None => JsonValue::Null,
    }
}

fn series_index(items: &Vec<JsonValue>, comic_id: &str) -> (r: Option<usize>)
    ensures
        match r {
            Some(k) => k < items@.len() && series_with_id(items_view(items@), comic_id@) == Some(items@[k as int].view()),
            None => series_with_id(items_view(items@), comic_id@) is None,
        },
{
    let ghost iv = items_view(items@);
    let mut i: usize = 0;
    assert(iv.skip(0) =~= iv);
    while i < items.len()
        invariant
            i <= items.len(),
            iv == items_view(items@),
            series_with_id(iv, comic_id@) == series_with_id(iv.skip(i as int), comic_id@),
        decreases items.len() - i,
    {
        assert(iv.skip(i as int)[0] == items@[i as int].view());
        let hit = match json_get(&items[i], "id") {
            Some(x) => {
                let t = crate::json::value_to_string(x);
                crate::text::str_eq(t.as_str(), comic_id)
            },
            None => false,
        };
        if hit {
            return Some(i);
        }
        assert(iv.skip(i as int).drop_first() =~= iv.skip(i + 1));
        i = i + 1;
    }
    assert(iv.skip(i as int).len() == 0);
    None
}

pub fn comic_series_meta(resp: &JsonValue, comic_id: &str) -> (r: ComicSeriesMeta)
    ensures
        r.series_info.view() == series_info_of(resp.view(), comic_id@),
        r.user_info.view() == user_info_of(resp.view()),
        strings_view(r.first_tags@) == comic_tags(resp.view()),
{
    let list = crate::json::json_as_array(json_get(resp, "illustSeries"));
    let series_info = match list {
        Some(items) => match series_index(items, comic_id) {
            Some(k) => crate::json::json_clone(&items[k]),
            None => first_item_or_null(Some(items)),
        },
        None => JsonValue::Null,
    };
    let user_info = first_item_or_null(crate::json::json_as_array(json_get(resp, "users")));
    let mut first_tags = crate::json::extract_tag_names_from_translation(json_get(resp, "tagTranslation"));
    if first_tags.len() == 0 {
        let thumbs = match json_get(resp, "thumbnails") {
            Some(t) => json_get(t, "illust"),
            None => None,
        };
        first_tags = match crate::json::json_as_array(thumbs) {
            Some(ill) => if ill.len() > 0 {
                match crate::json::json_as_array(json_get(&ill[0], "tags")) {
                    Some(items) => crate::json::collect_strings(items),
                    None => {
                        let e: Vec<String> = Vec::new();
                        assert(strings_view(e@) =~= Seq::<Seq<char>>::empty());
                        e
                    },
                }
            } else {
                let e: Vec<String> = Vec::new();
                assert(strings_view(e@) =~= Seq::<Seq<char>>::empty());
                e
            },
            None => {
                let e: Vec<String> = Vec::new();
                assert(strings_view(e@) =~= Seq::<Seq<char>>::empty());
                e
            },
        };
    }
    ComicSeriesMeta { series_info, user_info, first_tags }
}

/// An artwork put into a list ordered by its order in the series; a later
/// artwork with the same order replaces the earlier.
pub open spec fn arts_insert(arts: Seq<(i64, Seq<char>)>, order: i64, id: Seq<char>) -> Seq<(i64, Seq<char>)>
    decreases arts.len(),
{
    if arts.len() == 0 {
        seq![(order, id)]
    } else if arts[0].0 == order {
        seq![(order, id)] + arts.drop_first()
    } else if order < arts[0].0 {
        seq![(order, id)] + arts
    } else {
        seq![arts[0]] + arts_insert(arts.drop_first(), order, id)
    }
}

/// The work id of a series entry: `workId`, else `id`, as text.
pub open spec fn entry_work_id(item: JsonView) -> Seq<char> {
    match (match get(item, "workId"@) {
        Some(x) => Some(x),
        None => get(item, "id"@),
    }) {
        Some(x) => value_text(x),
        None => Seq::empty(),
    }
}

/// The artworks of a series page added to those gathered, by order.
pub open spec fn arts_with_entries(arts: Seq<(i64, Seq<char>)>, entries: Seq<JsonView>) -> Seq<(i64, Seq<char>)>
    decreases entries.len(),
{
    if entries.len() == 0 {
        arts
    } else {
        let prev = arts_with_entries(arts, entries.drop_last());
        let item = entries.last();
        let order = match as_i64(get(item, "order"@)) {
            Some(n) => n,
            None => 0,
        };
        if entry_work_id(item).len() > 0 {
            arts_insert(prev, order, entry_work_id(item))
        } else {
            prev
        }
    }
}

pub open spec fn arts_view(v: Seq<(i64, String)>) -> Seq<(i64, Seq<char>)> {
    v.map_values(|a: (i64, String)| (a.0, a.1@))
}

fn arts_insert_exec(arts: &mut Vec<(i64, String)>, order: i64, id: String)
    ensures
        arts_view(final(arts)@) == arts_insert(arts_view(old(arts)@), order, id@),
{
    let ghost start = arts_view(arts@);
    let mut j: usize = 0;
    assert(start.skip(0) =~= start);
    while j < arts.len() && arts[j].0 < order
        invariant
            j <= arts.len(),
            start == arts_view(arts@),
            start == arts_view(old(arts)@),
            arts_insert(start, order, id@) == start.take(j as int) + arts_insert(start.skip(j as int), order, id@),
        decreases arts.len() - j,
    {
        let ghost rest = start.skip(j as int);
        assert(rest[0] == (arts@[j as int].0, arts@[j as int].1@));
        assert(rest.drop_first() =~= start.skip(j + 1));
        assert(start.take(j + 1) =~= start.take(j as int).push(rest[0]));
        assert(start.take(j as int) + (seq![rest[0]] + arts_insert(rest.drop_first(), order, id@)) =~= start.take(
            j + 1,
        ) + arts_insert(start.skip(j + 1), order, id@));
        j = j + 1;
    }
    let ghost rest = start.skip(j as int);
    let ghost entry = (order, id@);
    if j < arts.len() && arts[j].0 == order {
        assert(rest[0] == (arts@[j as int].0, arts@[j as int].1@));
        arts.remove(j);
        arts.insert(j, (order, id));
        assert(arts_view(arts@) =~= start.take(j as int) + (seq![entry] + rest.drop_first()));
    } else {
        if j < arts.len() {
            assert(rest[0] == (arts@[j as int].0, arts@[j as int].1@));
        } else {
            assert(rest =~= Seq::<(i64, Seq<char>)>::empty());
        }
        arts.insert(j, (order, id));
        assert(arts_view(arts@) =~= start.take(j as int) + (seq![entry] + rest));
    }
    assert(start.take(j as int) + rest =~= start);
}

/// Adds the artworks listed on one page of a comic series.
pub fn add_comic_entries(arts: &mut Vec<(i64, String)>, entries: &Vec<JsonValue>)
    ensures
        arts_view(final(arts)@) == arts_with_entries(arts_view(old(arts)@), items_view(entries@)),
{
    let ghost start = arts_view(arts@);
    let ghost ev = items_view(entries@);
    let mut i: usize = 0;
    assert(ev.take(0) =~= Seq::<JsonView>::empty());
    while i < entries.len()
        invariant
            i <= entries.len(),
            ev == items_view(entries@),
            start == arts_view(old(arts)@),
            arts_view(arts@) == arts_with_entries(start, ev.take(i as int)),
        decreases entries.len() - i,
    {
        assert(ev.take(i + 1).drop_last() =~= ev.take(i as int));
        assert(ev.take(i + 1).last() == entries@[i as int].view());
        let item = &entries[i];
        let order = match json_as_i64(json_get(item, "order")) {
            Some(n) => n,
            None => 0,
        };
        let picked = match json_get(item, "workId") {
            Some(x) => Some(x),
            None => json_get(item, "id"),
        };
        let id = match picked {
            Some(x) => crate::json::value_to_string(x),
            None => String::new(),
        };
        if !id.as_str().is_empty() {
            arts_insert_exec(arts, order, id);
        }
        i = i + 1;
    }
    assert(ev.take(i as int) =~= ev);
}

/// An artwork of a comic series as stored.
pub open spec fn comic_episode(illust_id: Seq<char>, ep: JsonView, text: Seq<char>) -> JsonView {
    episode_doc(
        illust_id,
        None,
        field_text(ep, "title"@, Seq::empty()),
        decoded_query(caption_at(ep, "description"@)),
        text,
        poll_text(ep),
        answer_tags(ep),
        0,
        created_at(ep),
        date_or_created(ep, "uploadDate"@),
    )
}

/// An artwork of a comic series, from its answer and its text with images
/// in place: its document and its tags.
pub fn comic_episode_doc(illust_id: &str, ep: &JsonValue, text: &str) -> (r: (JsonValue, Vec<String>))
    ensures
        strings_view(r.1@) == answer_tags(ep.view()),
        r.0.view() == comic_episode(illust_id@, ep.view(), text@),
{
    proof {
        reveal_strlit("");
    }
    let tags = answer_tags_exec(ep);
    let title = crate::json::str_field(ep, "title", "");
    let caption = caption_at_exec(ep, "description");
    let introduction = crate::pixiv::url_decode(caption.as_str());
    let postscript = poll_text_exec(ep);
    let create_date = created_exec(ep);
    let update_date = date_or_created_exec(ep, "uploadDate");
    assert(title@ == field_text(ep.view(), "title"@, Seq::empty()));
    let doc = crate::narou_doc::episode_doc_json(
        illust_id,
        &None,
        title.as_str(),
        introduction.as_str(),
        text,
        postscript.as_str(),
        &tags,
        0,
        create_date.as_str(),
        update_date.as_str(),
    );
    (doc, tags)
}

/// The artworks of a comic series gathered so far: under their orders in
/// an object ordered by key, and the tags of the series and its artworks.
pub struct ComicEpisodes {
    pub episodes: Vec<(String, JsonValue)>,
    pub all_tags: Vec<String>,
}

impl ComicEpisodes {
    pub fn new(first_tags: &Vec<String>) -> (r: Self)
        ensures
            entries_view(r.episodes@) == Seq::<(Seq<char>, JsonView)>::empty(),
            strings_view(r.all_tags@) == strings_view(first_tags@),
    {
        let mut all_tags: Vec<String> = Vec::new();
        append_tags(&mut all_tags, first_tags);
        assert(Seq::<Seq<char>>::empty() + strings_view(first_tags@) =~= strings_view(first_tags@));
        let r = ComicEpisodes { episodes: Vec::new(), all_tags };
        assert(entries_view(r.episodes@) =~= Seq::<(Seq<char>, JsonView)>::empty());
        r
    }

    /// Adds the artwork at `order` in the series.
    pub fn add(&mut self, order: i64, doc: JsonValue, tags: &Vec<String>)
        ensures
            entries_view(final(self).episodes@) == crate::json::map_insert(
                entries_view(old(self).episodes@),
                crate::work_pages::signed_decimal(order as int),
                doc.view(),
            ),
            strings_view(final(self).all_tags@) == strings_view(old(self).all_tags@) + strings_view(tags@),
    {
        let mut key: Vec<char> = Vec::new();
        crate::work_pages::push_i64(&mut key, order);
        assert(key@ =~= crate::work_pages::signed_decimal(order as int));
        object_insert(&mut self.episodes, string_from_chars(key.as_slice()), doc);
        append_tags(&mut self.all_tags, tags);
    }
}

/// The description of a comic series: that of its page's metadata, else
/// its caption, with HTML line breaks as newlines.
pub open spec fn comic_caption(meta: JsonView, series: JsonView) -> Seq<char> {
    let d = as_str(crate::json::get_opt(crate::json::get_opt(get(meta, "extraData"@), "meta"@), "description"@));
    breaks_to_newlines(
        match d {
            Some(t) => t,
            None => match as_str(get(series, "caption"@)) {
                Some(t) => t,
                None => Seq::empty(),
            },
        },
    )
}

/// The fields of a comic series with `episodes` artworks.
pub open spec fn comic_fields(
    comic_id: Seq<char>,
    meta_body: JsonView,
    series: JsonView,
    user: JsonView,
    first_tags: Seq<Seq<char>>,
    all_tags: Seq<Seq<char>>,
    episodes: int,
) -> WorkFieldsView {
    let author_id = nonempty_text(user, "userId"@);
    let create = match as_str(get(series, "createDate"@)) {
        Some(t) => t,
        None => Seq::empty(),
    };
    WorkFieldsView {
        work_key: keyed_id('c', comic_id),
        id: comic_id,
        title: match as_str(get(series, "title"@)) {
            Some(t) => t,
            None => comic_id,
        },
        author: match as_str(get(user, "name"@)) {
            Some(t) => t,
            None => "Unknown"@,
        },
        author_id,
        author_url: user_url(author_id),
        caption: comic_caption(meta_body, series),
        kind: "comic"@,
        serialization: "連載中"@,
        tags: first_tags,
        all_tags: crate::pixiv::dedup(all_tags),
        create_date: create,
        update_date: match as_str(get(series, "updateDate"@)) {
            Some(t) => t,
            None => create,
        },
        total_characters: 0,
        all_characters: 0,
        total_episodes: episodes as i64,
        all_episodes: episodes as i64,
        url: "https://www.pixiv.net/user/"@ + match author_id {
            Some(u) => u,
            None => "0"@,
        } + "/series/"@ + comic_id,
    }
}

fn str_or(v: &JsonValue, key: &str, default: &str) -> (r: String)
    ensures
        r@ == match as_str(get(v.view(), key@)) {
            Some(t) => t,
            None => default@,
        },
{
    match json_as_str(json_get(v, key)) {
        Some(t) => crate::text::owned(t),
        None => crate::text::owned(default),
    }
}

/// The record of a comic series from its first page and its gathered
/// artworks: artworks renumbered in order of creation, tags without repeats.
pub fn comic_work_record(comic_id: &str, meta_body: &JsonValue, meta: &ComicSeriesMeta, gathered: ComicEpisodes) -> (r: WorkRecord)
    requires
        gathered.episodes@.len() < u64::MAX,
    ensures
        series_record(
            r,
            comic_fields(
                comic_id@,
                meta_body.view(),
                meta.series_info.view(),
                meta.user_info.view(),
                strings_view(meta.first_tags@),
                strings_view(gathered.all_tags@),
                gathered.episodes@.len() as int,
            ),
            crate::json::numbered(crate::json::sort_by_date(entry_values(entries_view(gathered.episodes@)))),
        ),
{
    proof {
        reveal_strlit("");
    }
    let ghost values = entry_values(entries_view(gathered.episodes@));
    assert(values =~= entries_view(gathered.episodes@).map_values(|e: (Seq<char>, JsonView)| e.1));
    let ghost old_tags = gathered.all_tags@;
    let ComicEpisodes { episodes, all_tags } = gathered;
    let count = episodes.len();
    let episodes = crate::json::sort_episodes_by_create_date(episodes);
    let mut all_tags = all_tags;
    crate::pixiv::dedup_tags(&mut all_tags);
    let series = &meta.series_info;
    let user = &meta.user_info;
    let title = str_or(series, "title", comic_id);
    let author = str_or(user, "name", "Unknown");
    let author_id = nonempty_text_exec(user, "userId");
    let author_url = user_url_exec(&author_id);
    let description = match json_get(meta_body, "extraData") {
        Some(x) => match json_get(x, "meta") {
            Some(m) => json_as_str(json_get(m, "description")),
            None => None,
        },
        None => None,
    };
    let raw_caption = match description {
        Some(t) => crate::text::owned(t),
        None => str_or(series, "caption", ""),
    };
    let caption = crate::pixiv::html_breaks_to_newlines(raw_caption.as_str());
    let create_date = str_or(series, "createDate", "");
    let update_date = str_or(series, "updateDate", create_date.as_str());
    let work_key = keyed_id_exec('c', comic_id);
    let mut url: Vec<char> = Vec::new();
    crate::text::push_str(&mut url, "https://www.pixiv.net/user/");
    match &author_id {
        Some(u) => crate::text::push_str(&mut url, u.as_str()),
        None => crate::text::push_str(&mut url, "0"),
    }
    crate::text::push_str(&mut url, "/series/");
    crate::text::push_str(&mut url, comic_id);
    let url = string_from_chars(url.as_slice());
    proof {
        let f = comic_fields(
            comic_id@,
            meta_body.view(),
            meta.series_info.view(),
            meta.user_info.view(),
            strings_view(meta.first_tags@),
            strings_view(old_tags),
            count as int,
        );
        assert(caption@ == f.caption);
        assert(url@ == f.url);
        assert(title@ == f.title);
        assert(author@ == f.author);
        assert(update_date@ == f.update_date);
        assert(create_date@ == f.create_date);
    }
    crate::pixiv::build_work(
        work_key.as_str(),
        comic_id,
        title.as_str(),
        author.as_str(),
        opt_copy(&author_id),
        opt_copy(&author_url),
        caption.as_str(),
        "comic",
        "連載中",
        meta.first_tags.as_slice(),
        all_tags.as_slice(),
        create_date.as_str(),
        update_date.as_str(),
        0,
        0,
        count as i64,
        count as i64,
        &episodes,
        url.as_str(),
    )
}


/// Fails with the error the download of a comic series gives when no
/// artwork was found in it.
pub fn check_comic_arts(arts: &Vec<(i64, String)>, comic_id: &str) -> (r: Result<(), String>)
    ensures
        arts@.len() > 0 ==> r is Ok,
        arts@.len() == 0 ==> (r matches Err(e) && e@ == "no artworks found in comic series "@ + comic_id@),
{
    if arts.len() > 0 {
        Ok(())
    } else {
        let mut t: Vec<char> = Vec::new();
        crate::text::push_str(&mut t, "no artworks found in comic series ");
        crate::text::push_str(&mut t, comic_id);
        Err(string_from_chars(t.as_slice()))
    }
}

// ---------------------------------------------------------------------------
// The works of a user
// ---------------------------------------------------------------------------

/// The name of a user from the answer about them, where it has a non-empty
/// one.
pub open spec fn user_name_of(body: Option<JsonView>) -> Option<Seq<char>> {
    match body {
        Some(b) => match as_str(get(b, "name"@)) {
            Some(n) => if n.len() > 0 {
                Some(n)
            } else {
                None
            },
            None => None,
        },
        None => None,
    }
}

pub fn user_display_name(body: Option<&JsonValue>) -> (r: Option<String>)
    ensures
        opt_string_view(r) == user_name_of(crate::json::opt_view(body)),
{
    match body {
        Some(b) => match json_as_str(json_get(b, "name")) {
            Some(n) => if n.is_empty() {
                None
            } else {
                Some(crate::text::owned(n))
            },
            None => None,
        },
        None => None,
    }
}

/// The non-empty ids of the entries of a list, in order.
pub open spec fn listed_ids(items: Seq<JsonView>) -> Seq<Seq<char>>
    decreases items.len(),
{
    if items.len() == 0 {
        Seq::empty()
    } else {
        let prev = listed_ids(items.drop_last());
        match get(items.last(), "id"@) {
            Some(x) => if value_text(x).len() > 0 {
                prev.push(value_text(x))
            } else {
                prev
            },
            None => prev,
        }
    }
}

/// The ids of the novels of a series, from the list of its contents; none
/// where the answer is no list.
pub open spec fn content_ids(body: JsonView) -> Seq<Seq<char>> {
    match body {
        JsonView::Array(items) => listed_ids(items),
        _ => Seq::empty(),
    }
}

pub fn series_content_ids(body: &JsonValue) -> (r: Vec<String>)
    ensures
        strings_view(r@) == content_ids(body.view()),
{
    proof {
        lemma_view_parts(*body);
    }
    let mut out: Vec<String> = Vec::new();
    match body {
        JsonValue::Array(items) => {
            let ghost iv = items_view(items@);
            let mut i: usize = 0;
            assert(iv.take(0) =~= Seq::<JsonView>::empty());
            assert(strings_view(out@) =~= Seq::<Seq<char>>::empty());
            while i < items.len()
                invariant
                    i <= items.len(),
                    iv == items_view(items@),
                    strings_view(out@) == listed_ids(iv.take(i as int)),
                decreases items.len() - i,
            {
                assert(iv.take(i + 1).drop_last() =~= iv.take(i as int));
                assert(iv.take(i + 1).last() == items@[i as int].view());
                match json_get(&items[i], "id") {
                    Some(x) => {
                        let t = crate::json::value_to_string(x);
                        if !t.as_str().is_empty() {
                            let ghost before = strings_view(out@);
                            let ghost tv = t@;
                            out.push(t);
                            assert(strings_view(out@) =~= before.push(tv));
                        }
                    },
                    None => {},
                }
                i = i + 1;
            }
            assert(iv.take(i as int) =~= iv);
        },
        _ => {
            assert(strings_view(out@) =~= Seq::<Seq<char>>::empty());
        },
    }
    out
}

/// The items that are not among `excluded`, in order.
pub open spec fn without(items: Seq<Seq<char>>, excluded: Seq<Seq<char>>) -> Seq<Seq<char>>
    decreases items.len(),
{
    if items.len() == 0 {
        Seq::empty()
    } else if excluded.contains(items.last()) {
        without(items.drop_last(), excluded)
    } else {
        without(items.drop_last(), excluded).push(items.last())
    }
}

fn listed_in(list: &Vec<String>, x: &String) -> (r: bool)
    ensures
        r == strings_view(list@).contains(x@),
{
    let xv = chars_of(x.as_str());
    let r = crate::text::contains_string(list, xv.as_slice());
    proof {
        if strings_view(list@).contains(x@) {
            let k = choose|k: int| 0 <= k < strings_view(list@).len() && strings_view(list@)[k] == x@;
            assert(list@[k]@ == xv@);
        }
    }
    r
}

/// Appends the items of `items` that are not among `excluded`.
fn push_without(out: &mut Vec<String>, items: &Vec<String>, excluded: &Vec<String>)
    ensures
        strings_view(final(out)@) == strings_view(old(out)@) + without(strings_view(items@), strings_view(excluded@)),
{
    let ghost start = strings_view(out@);
    let ghost all = strings_view(items@);
    let ghost ex = strings_view(excluded@);
    let mut i: usize = 0;
    assert(all.take(0) =~= Seq::<Seq<char>>::empty());
    assert(start + Seq::<Seq<char>>::empty() =~= start);
    while i < items.len()
        invariant
            i <= items.len(),
            all == strings_view(items@),
            ex == strings_view(excluded@),
            start == strings_view(old(out)@),
            strings_view(out@) == start + without(all.take(i as int), ex),
        decreases items.len() - i,
    {
        assert(all.take(i + 1).drop_last() =~= all.take(i as int));
        assert(all.take(i + 1).last() == items@[i as int]@);
        if !listed_in(excluded, &items[i]) {
            let ghost before = strings_view(out@);
            let t = items[i].clone();
            let ghost tv = t@;
            out.push(t);
            assert(strings_view(out@) =~= before.push(tv));
            assert(start + without(all.take(i as int), ex).push(tv) =~= (start + without(all.take(i as int), ex)).push(tv));
        }
        i = i + 1;
    }
    assert(all.take(i as int) =~= all);
}

/// The novels of a user that belong to none of their series, in order.
pub fn standalone_novels(novels: &Vec<String>, series_novels: &Vec<String>) -> (r: Vec<String>)
    ensures
        strings_view(r@) == without(strings_view(novels@), strings_view(series_novels@)),
{
    let mut out: Vec<String> = Vec::new();
    push_without(&mut out, novels, series_novels);
    assert(Seq::<Seq<char>>::empty() + without(strings_view(novels@), strings_view(series_novels@))
        =~= without(strings_view(novels@), strings_view(series_novels@)));
    out
}

/// The ids of the artworks a page of a comic series lists, in order.
pub open spec fn page_art_ids(entries: Seq<JsonView>) -> Seq<Seq<char>>
    decreases entries.len(),
{
    if entries.len() == 0 {
        Seq::empty()
    } else {
        let prev = page_art_ids(entries.drop_last());
        let id = entry_work_id(entries.last());
        if id.len() > 0 {
            prev.push(id)
        } else {
            prev
        }
    }
}

pub fn comic_page_art_ids(entries: &Vec<JsonValue>) -> (r: Vec<String>)
    ensures
        strings_view(r@) == page_art_ids(items_view(entries@)),
{
    let ghost ev = items_view(entries@);
    let mut out: Vec<String> = Vec::new();
    let mut i: usize = 0;
    assert(ev.take(0) =~= Seq::<JsonView>::empty());
    assert(strings_view(out@) =~= Seq::<Seq<char>>::empty());
    while i < entries.len()
        invariant
            i <= entries.len(),
            ev == items_view(entries@),
            strings_view(out@) == page_art_ids(ev.take(i as int)),
        decreases entries.len() - i,
    {
        assert(ev.take(i + 1).drop_last() =~= ev.take(i as int));
        assert(ev.take(i + 1).last() == entries@[i as int].view());
        let item = &entries[i];
        let picked = match json_get(item, "workId") {
            Some(x) => Some(x),
            None => json_get(item, "id"),
        };
        let id = match picked {
            Some(x) => crate::json::value_to_string(x),
            None => String::new(),
        };
        if !id.as_str().is_empty() {
            let ghost before = strings_view(out@);
            let ghost tv = id@;
            out.push(id);
            assert(strings_view(out@) =~= before.push(tv));
        }
        i = i + 1;
    }
    assert(ev.take(i as int) =~= ev);
    out
}

/// The artworks of a user that are watched: their illustrations and their
/// manga outside any comic series, in order, each once.
pub fn art_targets(illusts: &Vec<String>, mangas: &Vec<String>, series_arts: &Vec<String>) -> (r: Vec<String>)
    ensures
        strings_view(r@) == sorted_unique(
            without(strings_view(illusts@), strings_view(series_arts@)) + without(strings_view(mangas@), strings_view(series_arts@)),
        ),
{
    let mut all: Vec<String> = Vec::new();
    push_without(&mut all, illusts, series_arts);
    push_without(&mut all, mangas, series_arts);
    assert(Seq::<Seq<char>>::empty() + without(strings_view(illusts@), strings_view(series_arts@))
        =~= without(strings_view(illusts@), strings_view(series_arts@)));
    sorted_unique_strings(all)
}

/// The artworks to download: all the watched ones, or on an update those
/// not in the last snapshot.
pub open spec fn arts_to_fetch(targets: Seq<Seq<char>>, previous: Seq<Seq<char>>, update: bool) -> Seq<Seq<char>> {
    if update {
        without(targets, previous)
    } else {
        targets
    }
}

pub fn new_art_ids(targets: &Vec<String>, previous: &Vec<String>, update: bool) -> (r: Vec<String>)
    ensures
        strings_view(r@) == arts_to_fetch(strings_view(targets@), strings_view(previous@), update),
{
    let mut out: Vec<String> = Vec::new();
    if update {
        push_without(&mut out, targets, previous);
    } else {
        let empty: Vec<String> = Vec::new();
        push_without(&mut out, targets, &empty);
        proof {
            lemma_without_nothing(strings_view(targets@));
        }
        assert(strings_view(empty@) =~= Seq::<Seq<char>>::empty());
    }
    assert(Seq::<Seq<char>>::empty() + without(strings_view(targets@), strings_view(previous@))
        =~= without(strings_view(targets@), strings_view(previous@)));
    assert(Seq::<Seq<char>>::empty() + strings_view(targets@) =~= strings_view(targets@));
    out
}

proof fn lemma_without_nothing(items: Seq<Seq<char>>)
    ensures
        without(items, Seq::empty()) == items,
    decreases items.len(),
{
    if items.len() > 0 {
        lemma_without_nothing(items.drop_last());
        assert(items.drop_last().push(items.last()) =~= items);
    }
}

/// Takes the outcome of one work's download into a user's summary: a stored
/// work is counted; a failed one is reported as `{kind} {id}: {error}`.
pub fn tally_download(summary: &mut crate::followed::UserDownloadSummary, kind: &str, id: &str, outcome: Result<(), String>)
    requires
        outcome is Ok ==> old(summary).downloaded_works < usize::MAX,
    ensures
        final(summary).user_id == old(summary).user_id,
        final(summary).user_name == old(summary).user_name,
        final(summary).tracked_artworks == old(summary).tracked_artworks,
        match outcome {
            Ok(_) => final(summary).downloaded_works == old(summary).downloaded_works + 1
                && final(summary).failures@ == old(summary).failures@,
            Err(e) => final(summary).downloaded_works == old(summary).downloaded_works
                && final(summary).failures@.len() == old(summary).failures@.len() + 1
                && final(summary).failures@.drop_last() == old(summary).failures@
                && final(summary).failures@.last()@ == kind@ + " "@ + id@ + ": "@ + e@,
        },
{
    match outcome {
        Ok(_) => {
            summary.downloaded_works = summary.downloaded_works + 1;
        },
        Err(e) => {
            let line = failure_text(kind, id, e.as_str());
            summary.failures.push(line);
        },
    }
}

/// The line that reports a failed download: the kind of work, its id and
/// the error.
pub fn failure_text(kind: &str, id: &str, err: &str) -> (r: String)
    ensures
        r@ == kind@ + " "@ + id@ + ": "@ + err@,
{
    let mut t: Vec<char> = Vec::new();
    crate::text::push_str(&mut t, kind);
    crate::text::push_str(&mut t, " ");
    crate::text::push_str(&mut t, id);
    crate::text::push_str(&mut t, ": ");
    crate::text::push_str(&mut t, err);
    string_from_chars(t.as_slice())
}

/// Notes on a tracked user what a download learnt: the hash of the new
/// snapshot of their artworks and their name, each where there is one.
pub fn note_tracked_user(entry: &mut PixivTrackedUserEntry, snapshot_hash: Option<String>, user_name: &Option<String>)
    ensures
        final(entry).novel == old(entry).novel,
        final(entry).comic == old(entry).comic,
        final(entry).illust_ids_snapshot_hash == match snapshot_hash {
            Some(h) => Some(h),
            None => old(entry).illust_ids_snapshot_hash,
        },
        opt_string_view(final(entry).name) == match user_name {
            Some(n) => Some(n@),
            None => opt_string_view(old(entry).name),
        },
{
    match snapshot_hash {
        Some(h) => {
            entry.illust_ids_snapshot_hash = Some(h);
        },
        None => {},
    }
    match user_name {
        Some(n) => {
            entry.name = Some(crate::text::owned(n.as_str()));
        },
        None => {},
    }
}

/// What a page of a comic series' listing gave: the page could not be
/// fetched, or it listed (some or no) artworks and said whether more follow.
#[derive(Debug, Clone, Copy, PartialEq, Eq, Structural)]
pub enum ComicPageEvent {
    Failed,
    Listed { any_entries: bool, has_more: bool },
}

/// What to do after a page of a comic series' listing.
#[derive(Debug, Clone, Copy, PartialEq, Eq, Structural)]
pub enum ComicPageAction {
    /// Fetch this page next.
    Fetch(usize),
    /// Stop paging and go on with the artworks found so far.
    Stop,
    /// Give up with the error of the first page.
    Fail,
}

/// Paging through a comic series: a failure on the first page is the
/// download's error, a failure on a later page ends the listing, and the
/// listing also ends at a page with no artworks or one that says no more
/// follow; otherwise the next page is fetched.
pub open spec fn comic_paging(page: nat, event: ComicPageEvent) -> ComicPageAction {
    match event {
        ComicPageEvent::Failed => if page == 1 {
            ComicPageAction::Fail
        } else {
            ComicPageAction::Stop
        },
        ComicPageEvent::Listed { any_entries, has_more } => if !any_entries || !has_more {
            ComicPageAction::Stop
        } else {
            ComicPageAction::Fetch((page + 1) as usize)
        },
    }
}

pub fn comic_paging_step(page: usize, event: ComicPageEvent) -> (r: ComicPageAction)
    requires
        page < usize::MAX,
    ensures
        r == comic_paging(page as nat, event),
{
    match event {
        ComicPageEvent::Failed => if page == 1 {
            ComicPageAction::Fail
        } else {
            ComicPageAction::Stop
        },
        ComicPageEvent::Listed { any_entries, has_more } => if !any_entries || !has_more {
            ComicPageAction::Stop
        } else {
            ComicPageAction::Fetch(page + 1)
        },
    }
}

/// Paging through a comic series only to learn its artwork ids: every page
/// with artworks is followed by the next, and the first page without any
/// ends the listing (a page that cannot be fetched is an error).
pub open spec fn comic_id_paging(page: nat, any_entries: bool) -> ComicPageAction {
    if any_entries {
        ComicPageAction::Fetch((page + 1) as usize)
    } else {
        ComicPageAction::Stop
    }
}

pub fn comic_id_paging_step(page: usize, any_entries: bool) -> (r: ComicPageAction)
    requires
        page < usize::MAX,
    ensures
        r == comic_id_paging(page as nat, any_entries),
{
    if any_entries {
        ComicPageAction::Fetch(page + 1)
    } else {
        ComicPageAction::Stop
    }
}

} // verus!
