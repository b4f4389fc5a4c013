//! The stored document of a Narou work: its fields and its episodes as
//! JSON, from the pages of an imported PDF or from what was read of it.
use vstd::prelude::*;
use crate::json::{
    entries_view, int_view, items_view, json_int, lemma_view_parts, map_insert, object_insert,
    opt_text_view, texts_view, work_document, work_document_json, JsonValue, JsonView, WorkFields,
    WorkFieldsView,
};
use crate::narou::{opt_string_view, ImportedEpisode};
use crate::pdf::{ParsedEpisode, ParsedNarouPdf};
use crate::text::{decimal, string_from_chars, strings_view, trim};

verus! {

/// An episode as stored: its fields under keys in sorted order.
pub open spec fn episode_doc(
    id: Seq<char>,
    chapter: Option<Seq<char>>,
    title: Seq<char>,
    introduction: Seq<char>,
    text: Seq<char>,
    postscript: Seq<char>,
    tags: Seq<Seq<char>>,
    text_count: i64,
    create_date: Seq<char>,
    update_date: Seq<char>,
) -> JsonView {
    JsonView::Object(
        seq![
            ("chapter"@, opt_text_view(chapter)),
            ("createDate"@, JsonView::Str(create_date)),
            ("id"@, JsonView::Str(id)),
            ("introduction"@, JsonView::Str(introduction)),
            ("postscript"@, JsonView::Str(postscript)),
            ("tags"@, texts_view(tags)),
            ("text"@, JsonView::Str(text)),
            ("textCount"@, int_view(text_count)),
            ("title"@, JsonView::Str(title)),
            ("updateDate"@, JsonView::Str(update_date)),
        ],
    )
}

pub fn episode_doc_json(
    id: &str,
    chapter: &Option<String>,
    title: &str,
    introduction: &str,
    text: &str,
    postscript: &str,
    tags: &Vec<String>,
    text_count: i64,
    create_date: &str,
    update_date: &str,
) -> (r: JsonValue)
    ensures
        r.view() == episode_doc(
            id@,
            opt_string_view(*chapter),
            title@,
            introduction@,
            text@,
            postscript@,
            strings_view(tags@),
            text_count,
            create_date@,
            update_date@,
        ),
{
    let ch = match chapter {
        Some(c) => JsonValue::Str(crate::text::owned(c.as_str())),
        None => JsonValue::Null,
    };
    let tags_json = crate::json::texts_json(tags);
    let mut e: Vec<(String, JsonValue)> = Vec::new();
    e.push((crate::text::owned("chapter"), ch));
    e.push((crate::text::owned("createDate"), JsonValue::Str(crate::text::owned(create_date))));
    e.push((crate::text::owned("id"), JsonValue::Str(crate::text::owned(id))));
    e.push((crate::text::owned("introduction"), JsonValue::Str(crate::text::owned(introduction))));
    e.push((crate::text::owned("postscript"), JsonValue::Str(crate::text::owned(postscript))));
    e.push((crate::text::owned("tags"), tags_json));
    e.push((crate::text::owned("text"), JsonValue::Str(crate::text::owned(text))));
    e.push((crate::text::owned("textCount"), json_int(text_count)));
    e.push((crate::text::owned("title"), JsonValue::Str(crate::text::owned(title))));
    e.push((crate::text::owned("updateDate"), JsonValue::Str(crate::text::owned(update_date))));
    let r = JsonValue::Object(e);
    proof {
        lemma_view_parts(r);
        let w = episode_doc(
            id@,
            opt_string_view(*chapter),
            title@,
            introduction@,
            text@,
            postscript@,
            strings_view(tags@),
            text_count,
            create_date@,
            update_date@,
        );
        let ev = entries_view(e@);
        assert(ev[0] == w->Object_0[0]);
        assert(ev[1] == w->Object_0[1]);
        assert(ev[2] == w->Object_0[2]);
        assert(ev[3] == w->Object_0[3]);
        assert(ev[4] == w->Object_0[4]);
        assert(ev[5] == w->Object_0[5]);
        assert(ev[6] == w->Object_0[6]);
        assert(ev[7] == w->Object_0[7]);
        assert(ev[8] == w->Object_0[8]);
        assert(ev[9] == w->Object_0[9]);
        assert(ev =~= w->Object_0);
    }
    r
}

// ---------------------------------------------------------------------------
// Character counts
// ---------------------------------------------------------------------------

pub open spec fn counts_sum(counts: Seq<i64>) -> int
    decreases counts.len(),
{
    if counts.len() == 0 {
        0
    } else {
        counts_sum(counts.drop_last()) + counts.last()
    }
}

/// Whether every running total of the counts is an `i64`.
pub open spec fn counts_fit(counts: Seq<i64>) -> bool {
    forall|k: int| 0 <= k <= counts.len() ==> i64::MIN <= #[trigger] counts_sum(counts.take(k)) <= i64::MAX
}

/// The sum of the counts, where every running total is an `i64`.
pub fn text_count_total(counts: &[i64]) -> (r: Option<i64>)
    ensures
        match r {
            Some(t) => counts_fit(counts@) && t == counts_sum(counts@),
            None => !counts_fit(counts@),
        },
{
    let mut total: i64 = 0;
    let mut i: usize = 0;
    assert(counts@.take(0) =~= Seq::<i64>::empty());
    while i < counts.len()
        invariant
            i <= counts.len(),
            total == counts_sum(counts@.take(i as int)),
            forall|k: int| 0 <= k <= i ==> i64::MIN <= #[trigger] counts_sum(counts@.take(k)) <= i64::MAX,
        decreases counts.len() - i,
    {
        assert(counts@.take(i + 1).drop_last() =~= counts@.take(i as int));
        match total.checked_add(counts[i]) {
            Some(t) => {
                total = t;
            },
            None => {
                assert(!(i64::MIN <= counts_sum(counts@.take(i + 1)) <= i64::MAX));
                return None;
            },
        }
        i = i + 1;
    }
    assert(counts@.take(i as int) =~= counts@);
    Some(total)
}

// ---------------------------------------------------------------------------
// A work imported from the pages of a PDF
// ---------------------------------------------------------------------------

pub open spec fn imported_counts(eps: Seq<ImportedEpisode>) -> Seq<i64> {
    eps.map_values(|e: ImportedEpisode| e.text_count)
}

/// An imported episode as stored, dated `now`, without postscript.
pub open spec fn imported_doc(e: ImportedEpisode, now: Seq<char>) -> JsonView {
    episode_doc(
        e.id@,
        opt_string_view(e.chapter),
        e.title@,
        e.introduction@,
        e.text@,
        Seq::empty(),
        Seq::empty(),
        e.text_count,
        now,
        now,
    )
}

/// The episodes of an imported work keyed `1`, `2`, … in turn, in an
/// object ordered by key.
pub open spec fn imported_entries(eps: Seq<ImportedEpisode>, now: Seq<char>) -> Seq<(Seq<char>, JsonView)>
    decreases eps.len(),
{
    if eps.len() == 0 {
        Seq::empty()
    } else {
        map_insert(imported_entries(eps.drop_last(), now), decimal(eps.len()), imported_doc(eps.last(), now))
    }
}

/// The fields of an imported work.
pub open spec fn imported_fields(
    work_key: Seq<char>,
    title: Seq<char>,
    author: Seq<char>,
    author_id: Option<Seq<char>>,
    author_url: Option<Seq<char>>,
    caption: Seq<char>,
    source_url: Seq<char>,
    serialization: Seq<char>,
    total: i64,
    episodes: i64,
    now: Seq<char>,
) -> WorkFieldsView {
    WorkFieldsView {
        work_key,
        id: work_key,
        title,
        author,
        author_id,
        author_url,
        caption,
        kind: "novel"@,
        serialization,
        tags: Seq::empty(),
        all_tags: Seq::empty(),
        create_date: now,
        update_date: now,
        total_characters: total,
        all_characters: total,
        total_episodes: episodes,
        all_episodes: episodes,
        url: source_url,
    }
}

fn numbered_key(index: usize) -> (r: String)
    requires
        index < u64::MAX,
    ensures
        r@ == decimal((index + 1) as nat),
{
    let k = crate::text::decimal_chars(index as u64 + 1);
    string_from_chars(k.as_slice())
}

/// The document of a work imported from a PDF's pages, from its episodes,
/// at the time `now`.
pub fn build_raw_json(
    work_key: &str,
    title: &str,
    author: &str,
    author_id: &Option<String>,
    author_url: &Option<String>,
    caption: &str,
    source_url: &str,
    serialization: &str,
    episodes: &[ImportedEpisode],
    now: &str,
) -> (r: JsonValue)
    requires
        counts_fit(imported_counts(episodes@)),
        episodes@.len() <= i64::MAX,
    ensures
        r.view() == work_document(
            imported_fields(
                work_key@,
                title@,
                author@,
                opt_string_view(*author_id),
                opt_string_view(*author_url),
                caption@,
                source_url@,
                serialization@,
                counts_sum(imported_counts(episodes@)) as i64,
                episodes@.len() as i64,
                now@,
            ),
            imported_entries(episodes@, now@),
            now@,
        ),
{
    let ghost counts = imported_counts(episodes@);
    let no_tags: Vec<String> = Vec::new();
    assert(strings_view(no_tags@) =~= Seq::<Seq<char>>::empty());
    let mut entries: Vec<(String, JsonValue)> = Vec::new();
    let mut total: i64 = 0;
    let mut i: usize = 0;
    assert(counts.take(0) =~= Seq::<i64>::empty());
    assert(episodes@.take(0) =~= Seq::<ImportedEpisode>::empty());
    assert(entries_view(entries@) =~= Seq::<(Seq<char>, JsonView)>::empty());
    while i < episodes.len()
        invariant
            i <= episodes.len(),
            episodes@.len() <= i64::MAX,
            counts == imported_counts(episodes@),
            counts_fit(counts),
            total == counts_sum(counts.take(i as int)),
            entries_view(entries@) == imported_entries(episodes@.take(i as int), now@),
            strings_view(no_tags@) == Seq::<Seq<char>>::empty(),
        decreases episodes.len() - i,
    {
        let e = &episodes[i];
        let doc = episode_doc_json(
            e.id.as_str(),
            &e.chapter,
            e.title.as_str(),
            e.introduction.as_str(),
            e.text.as_str(),
            "",
            &no_tags,
            e.text_count,
            now,
            now,
        );
        proof {
            reveal_strlit("");
            assert(""@ =~= Seq::<char>::empty());
            assert(counts.take(i + 1).drop_last() =~= counts.take(i as int));
            assert(counts[i as int] == e.text_count);
            assert(i64::MIN <= counts_sum(counts.take(i + 1)) <= i64::MAX);
        }
        total = total + e.text_count;
        assert(episodes@.take(i + 1).drop_last() =~= episodes@.take(i as int));
        assert(episodes@.take(i + 1).last() == episodes@[i as int]);
        object_insert(&mut entries, numbered_key(i), doc);
        i = i + 1;
    }
    assert(episodes@.take(i as int) =~= episodes@);
    assert(counts.take(i as int) =~= counts);
    let fields = WorkFields {
        work_key: crate::text::owned(work_key),
        id: crate::text::owned(work_key),
        title: crate::text::owned(title),
        author: crate::text::owned(author),
        author_id: copy_opt(author_id),
        author_url: copy_opt(author_url),
        caption: crate::text::owned(caption),
        kind: crate::text::owned("novel"),
        serialization: crate::text::owned(serialization),
        tags: Vec::new(),
        all_tags: Vec::new(),
        create_date: crate::text::owned(now),
        update_date: crate::text::owned(now),
        total_characters: total,
        all_characters: total,
        total_episodes: episodes.len() as i64,
        all_episodes: episodes.len() as i64,
        url: crate::text::owned(source_url),
    };
    proof {
        assert(strings_view(Seq::<String>::empty()) =~= Seq::<Seq<char>>::empty());
    }
    work_document_json(&fields, &entries, now)
}

fn copy_opt(o: &Option<String>) -> (r: Option<String>)
    ensures
        opt_string_view(r) == opt_string_view(*o),
{
    match o {
        Some(s) => Some(crate::text::owned(s.as_str())),
        None => None,
    }
}

// ---------------------------------------------------------------------------
// A work read from a Narou PDF
// ---------------------------------------------------------------------------

/// A value that was read, unless it is blank; else the fallback.
pub open spec fn or_fallback(v: Option<Seq<char>>, fallback: Seq<char>) -> Seq<char> {
    match v {
        Some(t) => if trim(t).len() > 0 {
            t
        } else {
            fallback
        },
        None => fallback,
    }
}

fn or_fallback_exec(v: &Option<String>, fallback: &str) -> (r: String)
    ensures
        r@ == or_fallback(opt_string_view(*v), fallback@),
{
    match v {
        Some(t) => {
            let tt = crate::text::trim_str(t.as_str());
            if tt.as_str().is_empty() {
                crate::text::owned(fallback)
            } else {
                crate::text::owned(t.as_str())
            }
        },
        None => crate::text::owned(fallback),
    }
}

pub open spec fn parsed_counts(eps: Seq<ParsedEpisode>) -> Seq<i64> {
    eps.map_values(|e: ParsedEpisode| e.text_count)
}

pub open spec fn or_date(d: Option<String>, fallback: Seq<char>) -> Seq<char> {
    match d {
        Some(t) => t@,
        None => fallback,
    }
}

/// An episode read from a PDF as stored; without dates it takes the work's.
pub open spec fn extracted_doc(e: ParsedEpisode, create: Seq<char>, update: Seq<char>) -> JsonView {
    episode_doc(
        e.id@,
        opt_string_view(e.chapter),
        e.title@,
        e.introduction@,
        e.text@,
        e.postscript@,
        Seq::empty(),
        e.text_count,
        or_date(e.create_date, create),
        or_date(e.update_date, update),
    )
}

/// The episodes read from a PDF keyed `1`, `2`, … in turn, in an object
/// ordered by key.
pub open spec fn extracted_entries(eps: Seq<ParsedEpisode>, create: Seq<char>, update: Seq<char>) -> Seq<(Seq<char>, JsonView)>
    decreases eps.len(),
{
    if eps.len() == 0 {
        Seq::empty()
    } else {
        map_insert(
            extracted_entries(eps.drop_last(), create, update),
            decimal(eps.len()),
            extracted_doc(eps.last(), create, update),
        )
    }
}

/// The address of a Narou work.
pub open spec fn ncode_url(nid: Seq<char>) -> Seq<char> {
    "https://ncode.syosetu.com/"@ + nid + "/"@
}

/// The fields of a work read from a PDF, with the given fallbacks.
pub open spec fn extracted_fields(
    work_key: Seq<char>,
    parsed: ParsedNarouPdf,
    fallback_title: Seq<char>,
    fallback_author: Seq<char>,
    author_id: Option<Seq<char>>,
    author_url: Option<Seq<char>>,
    fallback_caption: Seq<char>,
    fallback_serialization: Seq<char>,
    now: Seq<char>,
) -> WorkFieldsView {
    let nid = or_fallback(opt_string_view(parsed.nid), work_key);
    let total = counts_sum(parsed_counts(parsed.episodes@)) as i64;
    let n = parsed.episodes@.len() as i64;
    WorkFieldsView {
        work_key: nid,
        id: nid,
        title: or_fallback(opt_string_view(parsed.title), fallback_title),
        author: or_fallback(opt_string_view(parsed.author), fallback_author),
        author_id,
        author_url,
        caption: or_fallback(opt_string_view(parsed.caption), fallback_caption),
        kind: "novel"@,
        serialization: or_fallback(opt_string_view(parsed.serialization), fallback_serialization),
        tags: strings_view(parsed.tags@),
        all_tags: strings_view(parsed.tags@),
        create_date: or_fallback(opt_string_view(parsed.create_date), now),
        update_date: or_fallback(opt_string_view(parsed.update_date), now),
        total_characters: total,
        all_characters: total,
        total_episodes: n,
        all_episodes: n,
        url: ncode_url(
            match opt_string_view(parsed.nid) {
                Some(x) => x,
                None => work_key,
            },
        ),
    }
}

/// The document of a work read from a PDF at the time `now`; an error when
/// no episode was read.
pub fn build_raw_json_from_extracted(
    work_key: &str,
    parsed: &ParsedNarouPdf,
    fallback_title: &str,
    fallback_author: &str,
    author_id: &Option<String>,
    author_url: &Option<String>,
    fallback_caption: &str,
    fallback_serialization: &str,
    now: &str,
) -> (r: Result<JsonValue, String>)
    requires
        counts_fit(parsed_counts(parsed.episodes@)),
        parsed.episodes@.len() <= i64::MAX,
    ensures
        parsed.episodes@.len() == 0 <==> r is Err,
        r matches Err(e) ==> e@ == "narou PDF extraction produced no episodes"@,
        r matches Ok(v) ==> v.view() == work_document(
            extracted_fields(
                work_key@,
                *parsed,
                fallback_title@,
                fallback_author@,
                opt_string_view(*author_id),
                opt_string_view(*author_url),
                fallback_caption@,
                fallback_serialization@,
                now@,
            ),
            extracted_entries(
                parsed.episodes@,
                or_fallback(opt_string_view(parsed.create_date), now@),
                or_fallback(opt_string_view(parsed.update_date), now@),
            ),
            now@,
        ),
{
    let nid = or_fallback_exec(&parsed.nid, work_key);
    let title = or_fallback_exec(&parsed.title, fallback_title);
    let author = or_fallback_exec(&parsed.author, fallback_author);
    let caption = or_fallback_exec(&parsed.caption, fallback_caption);
    let serialization = or_fallback_exec(&parsed.serialization, fallback_serialization);
    let create_date = or_fallback_exec(&parsed.create_date, now);
    let update_date = or_fallback_exec(&parsed.update_date, now);
    let episodes = &parsed.episodes;
    let ghost counts = parsed_counts(episodes@);
    let no_tags: Vec<String> = Vec::new();
    assert(strings_view(no_tags@) =~= Seq::<Seq<char>>::empty());
    let mut entries: Vec<(String, JsonValue)> = Vec::new();
    let mut total: i64 = 0;
    let mut i: usize = 0;
    assert(counts.take(0) =~= Seq::<i64>::empty());
    assert(episodes@.take(0) =~= Seq::<ParsedEpisode>::empty());
    assert(entries_view(entries@) =~= Seq::<(Seq<char>, JsonView)>::empty());
    while i < episodes.len()
        invariant
            i <= episodes.len(),
            episodes@.len() <= i64::MAX,
            counts == parsed_counts(episodes@),
            counts_fit(counts),
            total == counts_sum(counts.take(i as int)),
            entries_view(entries@) == extracted_entries(episodes@.take(i as int), create_date@, update_date@),
            strings_view(no_tags@) == Seq::<Seq<char>>::empty(),
        decreases episodes.len() - i,
    {
        let e = &episodes[i];
        let created = match &e.create_date {
            Some(d) => d.as_str(),
            None => create_date.as_str(),
        };
        let updated = match &e.update_date {
            Some(d) => d.as_str(),
            None => update_date.as_str(),
        };
        let doc = episode_doc_json(
            e.id.as_str(),
            &e.chapter,
            e.title.as_str(),
            e.introduction.as_str(),
            e.text.as_str(),
            e.postscript.as_str(),
            &no_tags,
            e.text_count,
            created,
            updated,
        );
        proof {
            assert(counts.take(i + 1).drop_last() =~= counts.take(i as int));
            assert(counts[i as int] == e.text_count);
            assert(i64::MIN <= counts_sum(counts.take(i + 1)) <= i64::MAX);
        }
        total = total + e.text_count;
        assert(episodes@.take(i + 1).drop_last() =~= episodes@.take(i as int));
        assert(episodes@.take(i + 1).last() == episodes@[i as int]);
        object_insert(&mut entries, numbered_key(i), doc);
        i = i + 1;
    }
    if episodes.len() == 0 {
        return Err(crate::text::owned("narou PDF extraction produced no episodes"));
    }
    assert(episodes@.take(i as int) =~= episodes@);
    assert(counts.take(i as int) =~= counts);
    let url_nid = match &parsed.nid {
        Some(n) => n.as_str(),
        None => work_key,
    };
    let mut url: Vec<char> = Vec::new();
    crate::text::push_str(&mut url, "https://ncode.syosetu.com/");
    crate::text::push_str(&mut url, url_nid);
    crate::text::push_str(&mut url, "/");
    let fields = WorkFields {
        work_key: crate::text::owned(nid.as_str()),
        id: nid,
        title,
        author,
        author_id: copy_opt(author_id),
        author_url: copy_opt(author_url),
        caption,
        kind: crate::text::owned("novel"),
        serialization,
        tags: copy_strings(&parsed.tags),
        all_tags: copy_strings(&parsed.tags),
        create_date,
        update_date,
        total_characters: total,
        all_characters: total,
        total_episodes: episodes.len() as i64,
        all_episodes: episodes.len() as i64,
        url: string_from_chars(url.as_slice()),
    };
    Ok(work_document_json(&fields, &entries, now))
}

fn copy_strings(v: &Vec<String>) -> (r: Vec<String>)
    ensures
        strings_view(r@) == strings_view(v@),
{
    let mut out: Vec<String> = Vec::new();
    let mut i: usize = 0;
    while i < v.len()
        invariant
            i <= v.len(),
            strings_view(out@) == strings_view(v@).take(i as int),
        decreases v.len() - i,
    {
        let ghost before = strings_view(out@);
        out.push(crate::text::owned(v[i].as_str()));
        assert(strings_view(out@) =~= before.push(v@[i as int]@));
        i = i + 1;
        assert(strings_view(out@) =~= strings_view(v@).take(i as int));
    }
    assert(strings_view(v@).take(i as int) =~= strings_view(v@));
    out
}

} // verus!
