//! The index page of a site: the listing options, the table of works, the
//! paging links, and the template they fill.
use vstd::prelude::*;
use crate::markup::{escape, escape_html, selected, selected_attr, selected_sort, selected_usize};
use crate::narou::opt_string_view;
use crate::tasks::{work_list_sort_query_value, WorkListFilters, WorkListSort};
use crate::text::{
    chars_of, decimal, join, push_all, push_decimal, push_str, replace_all, replace_str,
    string_from_chars, strings_view,
};

verus! {

// ---------------------------------------------------------------------------
// Outside calls
// ---------------------------------------------------------------------------

#[verifier::external_type_specification]
#[verifier::external_body]
pub struct ExFormError(serde_urlencoded::ser::Error);

/// Bytes that the form encoding writes as they are.
pub open spec fn form_unchanged(b: u8) -> bool {
    b == 42 || b == 45 || b == 46 || (48 <= b <= 57) || (65 <= b <= 90) || b == 95 || (97 <= b <= 122)
}

/// An upper-case hex digit.
pub open spec fn hex_upper(d: nat) -> char {
    if d < 10 {
        ((d + 48) as u8) as char
    } else {
        ((d + 55) as u8) as char
    }
}

/// One byte as the form encoding writes it: kept, `+` for a space, else
/// `%` and two upper-case hex digits.
pub open spec fn form_byte(b: u8) -> Seq<char> {
    if form_unchanged(b) {
        seq![(b as u8) as char]
    } else if b == 32 {
        seq!['+']
    } else {
        seq!['%', hex_upper((b / 16) as nat), hex_upper((b % 16) as nat)]
    }
}

pub open spec fn form_bytes(bs: Seq<u8>) -> Seq<char>
    decreases bs.len(),
{
    if bs.len() == 0 {
        Seq::empty()
    } else {
        form_byte(bs[0]) + form_bytes(bs.drop_first())
    }
}

/// The `application/x-www-form-urlencoded` text of key-value pairs: each
/// key and value form-encoded as UTF-8, joined with `=`, the pairs joined
/// with `&`.
pub open spec fn form_encoded(pairs: Seq<(Seq<char>, Seq<char>)>) -> Seq<char> {
    crate::text::join(
        pairs.map_values(
            |p: (Seq<char>, Seq<char>)|
                form_bytes(vstd::utf8::encode_utf8(p.0)) + "="@ + form_bytes(vstd::utf8::encode_utf8(p.1)),
        ),
        "&"@,
    )
}

pub open spec fn pairs_view(v: Seq<(String, String)>) -> Seq<(Seq<char>, Seq<char>)> {
    v.map_values(|p: (String, String)| (p.0@, p.1@))
}

/// `serde_urlencoded::to_string` of a list of key-value pairs: each pair
/// appended by `form_urlencoded::Serializer::append_pair` (`&` before all
/// but the first, key and value through `byte_serialize`), in order. A sequence of pairs of
/// strings takes no path of its serializer that fails (each pair is a
/// two-element tuple of a string key and a string value), so it succeeds.
#[verifier::external_body]
fn urlencode_pairs(pairs: &Vec<(String, String)>) -> (r: Result<String, serde_urlencoded::ser::Error>)
    ensures
        r is Ok,
        r matches Ok(s) ==> s@ == form_encoded(pairs_view(pairs@)),
{
    serde_urlencoded::to_string(pairs)
}

/// An RFC 3339 time in its own offset, in a `strftime` format.
pub uninterp spec fn offset_date_text(value: Seq<char>, format: Seq<char>) -> Option<Seq<char>>;

/// `chrono::DateTime::parse_from_rfc3339` and `format`: the time in its own
/// offset in the format, nothing when it does not parse; a function of its
/// arguments alone.  Only the listing's format is passed.
#[verifier::external_body]
fn format_offset_date(value: &str, format: &str) -> (r: Option<String>)
    requires
        format@ == "%Y/%m/%d %H:%M"@,
    ensures
        opt_string_view(r) == offset_date_text(value@, format@),
{
    match chrono::DateTime::parse_from_rfc3339(value) {
        Ok(date) => Some(date.format(format).to_string()),
        Err(_) => None,
    }
}

// ---------------------------------------------------------------------------
// Options
// ---------------------------------------------------------------------------

/// What a visitor asked of a site index.
#[derive(Debug, Clone)]
pub struct SiteIndexRenderOptions {
    pub page: usize,
    pub per_page: usize,
    pub search: Option<String>,
    pub work_type: Option<String>,
    pub serialization: Option<String>,
    pub sort: WorkListSort,
}

/// The page sizes on offer; anything else shows 25 works.
pub open spec fn allowed_per_page(n: nat) -> nat {
    if n == 10 || n == 25 || n == 50 || n == 100 {
        n
    } else {
        25
    }
}

/// Options with the page at least 1 and a page size on offer.
pub fn normalize_site_index_options(options: SiteIndexRenderOptions) -> (r: SiteIndexRenderOptions)
    ensures
        r.page as nat == if options.page < 1 {
            1
        } else {
            options.page as nat
        },
        r.per_page as nat == allowed_per_page(options.per_page as nat),
        r.search == options.search,
        r.work_type == options.work_type,
        r.serialization == options.serialization,
        r.sort == options.sort,
{
    let mut o = options;
    if o.page < 1 {
        o.page = 1;
    }
    if !(o.per_page == 10 || o.per_page == 25 || o.per_page == 50 || o.per_page == 100) {
        o.per_page = 25;
    }
    o
}

/// The listing filters of a site index: the site and the visitor's search,
/// type and serialization.
pub fn site_index_filters(site: &str, options: &SiteIndexRenderOptions) -> (r: WorkListFilters)
    ensures
        opt_string_view(r.site) == Some(site@),
        r.search == options.search,
        r.work_type == options.work_type,
        r.serialization == options.serialization,
        r.author_id is None,
        r.author is None,
{
    WorkListFilters {
        site: Some(crate::text::owned(site)),
        search: options.search.clone(),
        author_id: None,
        author: None,
        work_type: options.work_type.clone(),
        serialization: options.serialization.clone(),
    }
}

/// The first work of a page: `(page - 1) * per_page`, saturating.
pub fn site_index_offset(page: usize, per_page: usize) -> (r: usize)
    requires
        page >= 1,
    ensures
        r as int == if (page - 1) * per_page > usize::MAX {
            usize::MAX as int
        } else {
            (page - 1) * per_page
        },
{
    match (page - 1).checked_mul(per_page) {
        Some(x) => x,
        None => usize::MAX,
    }
}

/// The number of pages: the works divided by the page size, rounded up,
/// and at least one.
pub open spec fn page_count(total: nat, per_page: nat) -> nat {
    let n = (total + per_page - 1) / per_page as int;
    if n < 1 {
        1
    } else {
        n as nat
    }
}

pub fn total_pages(total: usize, per_page: usize) -> (r: usize)
    requires
        per_page > 0,
    ensures
        r as nat == page_count(total as nat, per_page as nat),
{
    let q = total / per_page;
    let n = if total % per_page == 0 {
        q
    } else {
        assert(per_page >= 2);
        assert(q < usize::MAX) by (nonlinear_arith)
            requires
                per_page >= 2,
                q == total / per_page,
                total <= usize::MAX,
        ;
        q + 1
    };
    assert(n as int == (total + per_page - 1) / per_page as int) by (nonlinear_arith)
        requires
            per_page > 0,
            q == total / per_page,
            n == if total % per_page == 0 { q } else { (q + 1) as usize },
    {
        assert(total == q * per_page + total % per_page);
        if total % per_page == 0 {
            assert(total + per_page - 1 == q * per_page + (per_page - 1));
        } else {
            assert(total + per_page - 1 == (q + 1) * per_page + (total % per_page - 1));
        }
    }
    if n < 1 {
        1
    } else {
        n
    }
}

/// Moves a page past the last one back to the last page; says whether it
/// moved, in which case the listing is read again.
pub fn clamp_site_index_page(options: &mut SiteIndexRenderOptions, total_pages: usize) -> (moved: bool)
    ensures
        moved == (old(options).page > total_pages),
        final(options).page == if moved {
            total_pages
        } else {
            old(options).page
        },
        final(options).per_page == old(options).per_page,
        final(options).search == old(options).search,
        final(options).work_type == old(options).work_type,
        final(options).serialization == old(options).serialization,
        final(options).sort == old(options).sort,
{
    if options.page > total_pages {
        options.page = total_pages;
        true
    } else {
        false
    }
}

// ---------------------------------------------------------------------------
// The table of works
// ---------------------------------------------------------------------------

/// One work of a site index.
#[derive(Debug, Clone)]
pub struct SiteListEntry {
    pub title: String,
    pub author: String,
    pub author_url: Option<String>,
    pub work_type: String,
    pub serialization: String,
    pub all_tags: Vec<String>,
    pub create_date: String,
    pub update_date: String,
}

/// The heading row of the table of works.
pub open spec fn site_head_html() -> Seq<char> {
    "<tr><th class=\"th-serialization\" style=\"width:10ch\">連載状況</th><th class=\"th-title\" style=\"width:50%\">タイトル</th><th class=\"th-author\" style=\"width:20%\">作者名</th><th class=\"th-type\" style=\"width:8ch\">形式</th><th class=\"th-tags\" style=\"width:30%\">タグ</th><th class=\"th-create_date\" style=\"width:14ch\">掲載日時</th><th class=\"th-update_date\" style=\"width:14ch\">更新日時</th></tr>"@
}

pub fn render_initial_site_head() -> (r: String)
    ensures
        r@ == site_head_html(),
{
    crate::text::owned(
        "<tr><th class=\"th-serialization\" style=\"width:10ch\">連載状況</th><th class=\"th-title\" style=\"width:50%\">タイトル</th><th class=\"th-author\" style=\"width:20%\">作者名</th><th class=\"th-type\" style=\"width:8ch\">形式</th><th class=\"th-tags\" style=\"width:30%\">タグ</th><th class=\"th-create_date\" style=\"width:14ch\">掲載日時</th><th class=\"th-update_date\" style=\"width:14ch\">更新日時</th></tr>",
    )
}

/// A listing date as `YYYY/MM/DD HH:MM`, or as stored when it does not parse.
pub open spec fn listing_date(value: Seq<char>) -> Seq<char> {
    match offset_date_text(value, "%Y/%m/%d %H:%M"@) {
        Some(f) => f,
        None => value,
    }
}

pub fn format_site_index_date(value: &str) -> (r: String)
    ensures
        r@ == listing_date(value@),
{
    match format_offset_date(value, "%Y/%m/%d %H:%M") {
        Some(f) => f,
        None => crate::text::owned(value),
    }
}

/// The tags of a work, each in its own span.
pub open spec fn tag_spans(tags: Seq<Seq<char>>) -> Seq<char>
    decreases tags.len(),
{
    if tags.len() == 0 {
        Seq::empty()
    } else {
        tag_spans(tags.drop_last()) + "<span class=\"tag-item\">"@ + escape(tags.last()) + "</span>"@
    }
}

/// The author of a listed work, linked when it has an author URL.
pub open spec fn listed_author(e: SiteListEntry) -> Seq<char> {
    match e.author_url {
        Some(u) => if u@.len() > 0 {
            "<a href=\""@ + escape(u@) + "\">"@ + escape(e.author@) + "</a>"@
        } else {
            escape(e.author@)
        },
        None => escape(e.author@),
    }
}

/// One row of the table of works.
pub open spec fn site_row(key: Seq<char>, e: SiteListEntry) -> Seq<char> {
    "<tr><td class=\"td-serialization\" style=\"width:10ch\">"@ + escape(e.serialization@)
        + "</td><td class=\"td-title\" style=\"width:50%\"><a href=\"./"@ + escape(key) + "/\">"@ + escape(
        e.title@,
    ) + "</a></td><td class=\"td-author\" style=\"width:20%\">"@ + listed_author(e)
        + "</td><td class=\"td-type\" style=\"width:8ch\">"@ + (if e.work_type@ == "novel"@ {
        "小説"@
    } else {
        "漫画"@
    }) + "</td><td class=\"td-tags\" style=\"width:30%\">"@ + tag_spans(strings_view(e.all_tags@))
        + "</td><td class=\"td-create_date\" style=\"width:14ch\">"@ + escape(listing_date(e.create_date@))
        + "</td><td class=\"td-update_date\" style=\"width:14ch\">"@ + escape(listing_date(e.update_date@))
        + "</td></tr>"@
}

/// The rows of the table of works, or a notice when there are none.
pub open spec fn site_rows(entries: Seq<(String, SiteListEntry)>) -> Seq<char>
    decreases entries.len(),
{
    if entries.len() == 0 {
        Seq::empty()
    } else {
        site_rows(entries.drop_last()) + site_row(entries.last().0@, entries.last().1)
    }
}

pub open spec fn site_rows_html(entries: Seq<(String, SiteListEntry)>) -> Seq<char> {
    if entries.len() == 0 {
        "<tr><td colspan=\"7\">該当する作品はありません。</td></tr>"@
    } else {
        site_rows(entries)
    }
}

fn push_tag_spans(out: &mut Vec<char>, tags: &Vec<String>)
    ensures
        final(out)@ == old(out)@ + tag_spans(strings_view(tags@)),
{
    let ghost start = out@;
    let ghost tv = strings_view(tags@);
    let mut i: usize = 0;
    assert(tv.take(0) =~= Seq::<Seq<char>>::empty());
    while i < tags.len()
        invariant
            i <= tags.len(),
            tv == strings_view(tags@),
            out@ == start + tag_spans(tv.take(i as int)),
        decreases tags.len() - i,
    {
        assert(tv.take(i + 1).drop_last() =~= tv.take(i as int));
        assert(tv.take(i + 1).last() == tags@[i as int]@);
        push_str(out, "<span class=\"tag-item\">");
        let e = escape_html(tags[i].as_str());
        push_str(out, e.as_str());
        push_str(out, "</span>");
        i = i + 1;
        assert(out@ =~= start + tag_spans(tv.take(i as int)));
    }
    assert(tv.take(i as int) =~= tv);
}

fn push_listed_author(out: &mut Vec<char>, e: &SiteListEntry)
    ensures
        final(out)@ == old(out)@ + listed_author(*e),
{
    let ghost start = out@;
    let author = escape_html(e.author.as_str());
    match &e.author_url {
        Some(u) => if !u.as_str().is_empty() {
            push_str(out, "<a href=\"");
            let eu = escape_html(u.as_str());
            push_str(out, eu.as_str());
            push_str(out, "\">");
            push_str(out, author.as_str());
            push_str(out, "</a>");
        } else {
            push_str(out, author.as_str());
        },
        None => {
            push_str(out, author.as_str());
        },
    }
    assert(out@ =~= start + listed_author(*e));
}

fn push_site_row(out: &mut Vec<char>, key: &str, e: &SiteListEntry)
    ensures
        final(out)@ == old(out)@ + site_row(key@, *e),
{
    let ghost start = out@;
    push_str(out, "<tr><td class=\"td-serialization\" style=\"width:10ch\">");
    let s = escape_html(e.serialization.as_str());
    push_str(out, s.as_str());
    push_str(out, "</td><td class=\"td-title\" style=\"width:50%\"><a href=\"./");
    let k = escape_html(key);
    push_str(out, k.as_str());
    push_str(out, "/\">");
    let t = escape_html(e.title.as_str());
    push_str(out, t.as_str());
    push_str(out, "</a></td><td class=\"td-author\" style=\"width:20%\">");
    push_listed_author(out, e);
    push_str(out, "</td><td class=\"td-type\" style=\"width:8ch\">");
    if crate::text::str_eq(e.work_type.as_str(), "novel") {
        push_str(out, "小説");
    } else {
        push_str(out, "漫画");
    }
    push_str(out, "</td><td class=\"td-tags\" style=\"width:30%\">");
    push_tag_spans(out, &e.all_tags);
    push_str(out, "</td><td class=\"td-create_date\" style=\"width:14ch\">");
    let cd = format_site_index_date(e.create_date.as_str());
    let ecd = escape_html(cd.as_str());
    push_str(out, ecd.as_str());
    push_str(out, "</td><td class=\"td-update_date\" style=\"width:14ch\">");
    let ud = format_site_index_date(e.update_date.as_str());
    let eud = escape_html(ud.as_str());
    push_str(out, eud.as_str());
    push_str(out, "</td></tr>");
    assert(out@ =~= start + site_row(key@, *e));
}

pub fn render_initial_site_rows(entries: &[(String, SiteListEntry)]) -> (r: String)
    ensures
        r@ == site_rows_html(entries@),
{
    if entries.len() == 0 {
        return crate::text::owned("<tr><td colspan=\"7\">該当する作品はありません。</td></tr>");
    }
    let mut out: Vec<char> = Vec::new();
    let mut i: usize = 0;
    assert(entries@.take(0) =~= Seq::<(String, SiteListEntry)>::empty());
    while i < entries.len()
        invariant
            i <= entries.len(),
            out@ == site_rows(entries@.take(i as int)),
        decreases entries.len() - i,
    {
        assert(entries@.take(i + 1).drop_last() =~= entries@.take(i as int));
        assert(entries@.take(i + 1).last() == entries@[i as int]);
        push_site_row(&mut out, entries[i].0.as_str(), &entries[i].1);
        i = i + 1;
    }
    assert(entries@.take(i as int) =~= entries@);
    string_from_chars(out.as_slice())
}

// ---------------------------------------------------------------------------
// Paging links
// ---------------------------------------------------------------------------

/// The query of a paging link: page, page size and sort, then the search,
/// type and serialization that are set.
pub open spec fn page_query(options: SiteIndexRenderOptions, page: nat) -> Seq<(Seq<char>, Seq<char>)> {
    let base = seq![
        ("page"@, decimal(page)),
        ("per_page"@, decimal(options.per_page as nat)),
        ("sort"@, crate::tasks::sort_query_text(options.sort)),
    ];
    let a = match options.search {
        Some(v) => seq![("search"@, v@)],
        None => Seq::empty(),
    };
    let b = match options.work_type {
        Some(v) => seq![("type"@, v@)],
        None => Seq::empty(),
    };
    let c = match options.serialization {
        Some(v) => seq![("serialization"@, v@)],
        None => Seq::empty(),
    };
    base + a + b + c
}

/// A disabled paging button.
pub open spec fn disabled_link(label: Seq<char>) -> Seq<char> {
    "<span class=\"btn btn-outline\" aria-disabled=\"true\">"@ + escape(label) + "</span>"@
}

/// A paging link to the encoded query.
pub open spec fn enabled_link(query: Seq<char>, label: Seq<char>) -> Seq<char> {
    "<a class=\"btn btn-outline\" href=\""@ + escape("?"@ + query) + "\">"@ + escape(label) + "</a>"@
}

/// Why a paging link could not be made.
#[derive(Debug, Clone, PartialEq, Eq)]
pub enum PageLinkError {
    QueryEncoding,
}

fn decimal_string(n: usize) -> (r: String)
    ensures
        r@ == decimal(n as nat),
{
    let mut v: Vec<char> = Vec::new();
    push_decimal(&mut v, n as u64);
    string_from_chars(v.as_slice())
}

fn push_pair(pairs: &mut Vec<(String, String)>, key: &str, value: String)
    ensures
        pairs_view(final(pairs)@) == pairs_view(old(pairs)@).push((key@, value@)),
{
    let ghost before = pairs_view(pairs@);
    let ghost v = value@;
    pairs.push((crate::text::owned(key), value));
    assert(pairs_view(pairs@) =~= before.push((key@, v)));
}

/// A paging button: disabled when there is no such page, else a link whose
/// query keeps the visitor's options.
pub fn render_page_link(options: &SiteIndexRenderOptions, page: usize, label: &str, enabled: bool) -> (r: Result<String, PageLinkError>)
    ensures
        !enabled ==> (r matches Ok(s) && s@ == disabled_link(label@)),
        enabled ==> (r matches Ok(s) && s@ == enabled_link(form_encoded(page_query(*options, page as nat)), label@)),
{
    let l = escape_html(label);
    if !enabled {
        let mut out = chars_of("<span class=\"btn btn-outline\" aria-disabled=\"true\">");
        push_str(&mut out, l.as_str());
        push_str(&mut out, "</span>");
        return Ok(string_from_chars(out.as_slice()));
    }
    let mut pairs: Vec<(String, String)> = Vec::new();
    assert(pairs_view(pairs@) =~= Seq::<(Seq<char>, Seq<char>)>::empty());
    push_pair(&mut pairs, "page", decimal_string(page));
    push_pair(&mut pairs, "per_page", decimal_string(options.per_page));
    push_pair(&mut pairs, "sort", crate::text::owned(work_list_sort_query_value(options.sort)));
    let ghost base = pairs_view(pairs@);
    if let Some(v) = &options.search {
        push_pair(&mut pairs, "search", v.clone());
    }
    let ghost a = pairs_view(pairs@);
    if let Some(v) = &options.work_type {
        push_pair(&mut pairs, "type", v.clone());
    }
    let ghost b = pairs_view(pairs@);
    if let Some(v) = &options.serialization {
        push_pair(&mut pairs, "serialization", v.clone());
    }
    assert(pairs_view(pairs@) =~= page_query(*options, page as nat));
    let query = match urlencode_pairs(&pairs) {
        Ok(q) => q,
        Err(_) => return Err(PageLinkError::QueryEncoding),
    };
    let mut href = chars_of("?");
    push_str(&mut href, query.as_str());
    let hs = string_from_chars(href.as_slice());
    let eh = escape_html(hs.as_str());
    let mut out = chars_of("<a class=\"btn btn-outline\" href=\"");
    push_str(&mut out, eh.as_str());
    push_str(&mut out, "\">");
    push_str(&mut out, l.as_str());
    push_str(&mut out, "</a>");
    Ok(string_from_chars(out.as_slice()))
}

// ---------------------------------------------------------------------------
// The page
// ---------------------------------------------------------------------------

/// The template with each placeholder replaced in turn.
pub open spec fn replace_each(s: Seq<char>, pairs: Seq<(Seq<char>, Seq<char>)>) -> Seq<char>
    decreases pairs.len(),
{
    if pairs.len() == 0 {
        s
    } else {
        replace_each(replace_all(s, pairs[0].0, pairs[0].1), pairs.drop_first())
    }
}

pub fn fill_template(template: &str, pairs: &Vec<(String, String)>) -> (r: String)
    ensures
        r@ == replace_each(template@, pairs_view(pairs@)),
{
    let ghost pv = pairs_view(pairs@);
    let mut cur = chars_of(template);
    let mut i: usize = 0;
    assert(pv.skip(0) =~= pv);
    while i < pairs.len()
        invariant
            i <= pairs.len(),
            pv == pairs_view(pairs@),
            replace_each(template@, pv) == replace_each(cur@, pv.skip(i as int)),
        decreases pairs.len() - i,
    {
        let ghost rest = pv.skip(i as int);
        assert(rest[0] == (pairs@[i as int].0@, pairs@[i as int].1@));
        assert(rest.drop_first() =~= pv.skip(i + 1));
        if !pairs[i].0.as_str().is_empty() {
            let next = replace_str(cur.as_slice(), pairs[i].0.as_str(), pairs[i].1.as_str());
            cur = next;
        }
        i = i + 1;
    }
    assert(pv.skip(i as int) =~= Seq::<(Seq<char>, Seq<char>)>::empty());
    string_from_chars(cur.as_slice())
}

pub open spec fn opt_text(o: Option<String>) -> Option<Seq<char>> {
    opt_string_view(o)
}

/// `N / M（全T件）`.
pub open spec fn page_info(page: nat, total_pages: nat, total: nat) -> Seq<char> {
    decimal(page) + " / "@ + decimal(total_pages) + "（全"@ + decimal(total) + "件）"@
}

/// What each placeholder of the site index template becomes.
pub open spec fn site_index_pairs(
    site: Seq<char>,
    o: SiteIndexRenderOptions,
    total: nat,
    total_pages: nat,
    rows: Seq<char>,
    prev: Seq<char>,
    next: Seq<char>,
) -> Seq<(Seq<char>, Seq<char>)> {
    let ty = opt_text(o.work_type);
    let se = opt_text(o.serialization);
    seq![
        ("{site_name}"@, escape(site)),
        ("{search_value}"@, escape(match o.search { Some(v) => v@, None => Seq::empty() })),
        ("{type_all_selected}"@, selected_attr(ty is None)),
        ("{type_novel_selected}"@, selected_attr(ty == Some("novel"@))),
        ("{type_comic_selected}"@, selected_attr(ty == Some("comic"@))),
        ("{serialization_all_selected}"@, selected_attr(se is None)),
        ("{serialization_short_selected}"@, selected_attr(se == Some("短編"@))),
        ("{serialization_active_selected}"@, selected_attr(se == Some("連載中"@))),
        ("{serialization_complete_selected}"@, selected_attr(se == Some("完結済"@))),
        ("{sort_updated_desc_selected}"@, selected_attr(o.sort == WorkListSort::UpdatedDesc)),
        ("{sort_updated_asc_selected}"@, selected_attr(o.sort == WorkListSort::UpdatedAsc)),
        ("{sort_title_asc_selected}"@, selected_attr(o.sort == WorkListSort::TitleAsc)),
        ("{sort_title_desc_selected}"@, selected_attr(o.sort == WorkListSort::TitleDesc)),
        ("{sort_author_asc_selected}"@, selected_attr(o.sort == WorkListSort::AuthorAsc)),
        ("{sort_author_desc_selected}"@, selected_attr(o.sort == WorkListSort::AuthorDesc)),
        ("{per_page_10_selected}"@, selected_attr(o.per_page == 10)),
        ("{per_page_25_selected}"@, selected_attr(o.per_page == 25)),
        ("{per_page_50_selected}"@, selected_attr(o.per_page == 50)),
        ("{per_page_100_selected}"@, selected_attr(o.per_page == 100)),
        ("{initial_table_head}"@, site_head_html()),
        ("{initial_table_rows}"@, rows),
        ("{page_info}"@, page_info(o.page as nat, total_pages, total)),
        ("{previous_page_link}"@, prev),
        ("{next_page_link}"@, next),
    ]
}

fn push_static(pairs: &mut Vec<(String, String)>, key: &str, value: &'static str)
    ensures
        pairs_view(final(pairs)@) == pairs_view(old(pairs)@).push((key@, value@)),
{
    push_pair(pairs, key, crate::text::owned(value));
}

fn site_index_replacements(
    site: &str,
    o: &SiteIndexRenderOptions,
    total: usize,
    total_pages: usize,
    rows: String,
    prev: String,
    next: String,
) -> (r: Vec<(String, String)>)
    ensures
        pairs_view(r@) == site_index_pairs(site@, *o, total as nat, total_pages as nat, rows@, prev@, next@),
{
    let ghost rv = rows@;
    let ghost pv = prev@;
    let ghost nv = next@;
    let ty: Option<&str> = match &o.work_type {
        Some(v) => Some(v.as_str()),
        None => None,
    };
    let se: Option<&str> = match &o.serialization {
        Some(v) => Some(v.as_str()),
        None => None,
    };
    let mut p: Vec<(String, String)> = Vec::new();
    assert(pairs_view(p@) =~= Seq::<(Seq<char>, Seq<char>)>::empty());
    push_pair(&mut p, "{site_name}", escape_html(site));
    proof {
        reveal_strlit("");
    }
    let search: &str = match &o.search {
        Some(v) => v.as_str(),
        None => "",
    };
    push_pair(&mut p, "{search_value}", escape_html(search));
    push_static(&mut p, "{type_all_selected}", selected(ty, None));
    push_static(&mut p, "{type_novel_selected}", selected(ty, Some("novel")));
    push_static(&mut p, "{type_comic_selected}", selected(ty, Some("comic")));
    push_static(&mut p, "{serialization_all_selected}", selected(se, None));
    push_static(&mut p, "{serialization_short_selected}", selected(se, Some("短編")));
    push_static(&mut p, "{serialization_active_selected}", selected(se, Some("連載中")));
    push_static(&mut p, "{serialization_complete_selected}", selected(se, Some("完結済")));
    push_static(&mut p, "{sort_updated_desc_selected}", selected_sort(o.sort, WorkListSort::UpdatedDesc));
    push_static(&mut p, "{sort_updated_asc_selected}", selected_sort(o.sort, WorkListSort::UpdatedAsc));
    push_static(&mut p, "{sort_title_asc_selected}", selected_sort(o.sort, WorkListSort::TitleAsc));
    push_static(&mut p, "{sort_title_desc_selected}", selected_sort(o.sort, WorkListSort::TitleDesc));
    push_static(&mut p, "{sort_author_asc_selected}", selected_sort(o.sort, WorkListSort::AuthorAsc));
    push_static(&mut p, "{sort_author_desc_selected}", selected_sort(o.sort, WorkListSort::AuthorDesc));
    push_static(&mut p, "{per_page_10_selected}", selected_usize(o.per_page, 10));
    push_static(&mut p, "{per_page_25_selected}", selected_usize(o.per_page, 25));
    push_static(&mut p, "{per_page_50_selected}", selected_usize(o.per_page, 50));
    push_static(&mut p, "{per_page_100_selected}", selected_usize(o.per_page, 100));
    push_pair(&mut p, "{initial_table_head}", render_initial_site_head());
    push_pair(&mut p, "{initial_table_rows}", rows);
    let mut info: Vec<char> = Vec::new();
    push_decimal(&mut info, o.page as u64);
    push_str(&mut info, " / ");
    push_decimal(&mut info, total_pages as u64);
    push_str(&mut info, "（全");
    push_decimal(&mut info, total as u64);
    push_str(&mut info, "件）");
    push_pair(&mut p, "{page_info}", string_from_chars(info.as_slice()));
    push_pair(&mut p, "{previous_page_link}", prev);
    push_pair(&mut p, "{next_page_link}", next);
    assert(pairs_view(p@).len() == 24);
    assert(pairs_view(p@)[0] == site_index_pairs(site@, *o, total as nat, total_pages as nat, rv, pv, nv)[0]);
    assert(pairs_view(p@)[1] == site_index_pairs(site@, *o, total as nat, total_pages as nat, rv, pv, nv)[1]);
    assert(pairs_view(p@)[2] == site_index_pairs(site@, *o, total as nat, total_pages as nat, rv, pv, nv)[2]);
    assert(pairs_view(p@)[3] == site_index_pairs(site@, *o, total as nat, total_pages as nat, rv, pv, nv)[3]);
    assert(pairs_view(p@)[4] == site_index_pairs(site@, *o, total as nat, total_pages as nat, rv, pv, nv)[4]);
    assert(pairs_view(p@)[5] == site_index_pairs(site@, *o, total as nat, total_pages as nat, rv, pv, nv)[5]);
    assert(pairs_view(p@)[6] == site_index_pairs(site@, *o, total as nat, total_pages as nat, rv, pv, nv)[6]);
    assert(pairs_view(p@)[7] == site_index_pairs(site@, *o, total as nat, total_pages as nat, rv, pv, nv)[7]);
    assert(pairs_view(p@)[8] == site_index_pairs(site@, *o, total as nat, total_pages as nat, rv, pv, nv)[8]);
    assert(pairs_view(p@)[9] == site_index_pairs(site@, *o, total as nat, total_pages as nat, rv, pv, nv)[9]);
    assert(pairs_view(p@)[10] == site_index_pairs(site@, *o, total as nat, total_pages as nat, rv, pv, nv)[10]);
    assert(pairs_view(p@)[11] == site_index_pairs(site@, *o, total as nat, total_pages as nat, rv, pv, nv)[11]);
    assert(pairs_view(p@)[12] == site_index_pairs(site@, *o, total as nat, total_pages as nat, rv, pv, nv)[12]);
    assert(pairs_view(p@)[13] == site_index_pairs(site@, *o, total as nat, total_pages as nat, rv, pv, nv)[13]);
    assert(pairs_view(p@)[14] == site_index_pairs(site@, *o, total as nat, total_pages as nat, rv, pv, nv)[14]);
    assert(pairs_view(p@)[15] == site_index_pairs(site@, *o, total as nat, total_pages as nat, rv, pv, nv)[15]);
    assert(pairs_view(p@)[16] == site_index_pairs(site@, *o, total as nat, total_pages as nat, rv, pv, nv)[16]);
    assert(pairs_view(p@)[17] == site_index_pairs(site@, *o, total as nat, total_pages as nat, rv, pv, nv)[17]);
    assert(pairs_view(p@)[18] == site_index_pairs(site@, *o, total as nat, total_pages as nat, rv, pv, nv)[18]);
    assert(pairs_view(p@)[19] == site_index_pairs(site@, *o, total as nat, total_pages as nat, rv, pv, nv)[19]);
    assert(pairs_view(p@)[20] == site_index_pairs(site@, *o, total as nat, total_pages as nat, rv, pv, nv)[20]);
    assert(pairs_view(p@)[21] == site_index_pairs(site@, *o, total as nat, total_pages as nat, rv, pv, nv)[21]);
    assert(pairs_view(p@)[22] == site_index_pairs(site@, *o, total as nat, total_pages as nat, rv, pv, nv)[22]);
    assert(pairs_view(p@)[23] == site_index_pairs(site@, *o, total as nat, total_pages as nat, rv, pv, nv)[23]);
    assert(pairs_view(p@) =~= site_index_pairs(site@, *o, total as nat, total_pages as nat, rv, pv, nv));
    p
}

/// The page of a site's index that is shown: the options with the page
/// size allowed and the page kept between 1 and the last page, the number of
/// pages, where the listing starts, the page line and which of the previous
/// and next links lead anywhere.
#[derive(Debug, Clone)]
pub struct SiteIndexPage {
    pub options: SiteIndexRenderOptions,
    pub total_pages: usize,
    pub offset: usize,
    pub page_info: String,
    pub has_previous: bool,
    pub has_next: bool,
}

/// The page shown when `page` is asked for and there are `pages` pages.
pub open spec fn shown_page(page: nat, pages: nat) -> nat {
    let p = if page < 1 {
        1
    } else {
        page
    };
    if p > pages {
        pages
    } else {
        p
    }
}

pub fn site_index_page(options: SiteIndexRenderOptions, total: usize) -> (r: SiteIndexPage)
    ensures
        r.options.per_page as nat == allowed_per_page(options.per_page as nat),
        r.total_pages as nat == page_count(total as nat, r.options.per_page as nat),
        r.options.page as nat == shown_page(options.page as nat, r.total_pages as nat),
        1 <= r.options.page <= r.total_pages,
        r.offset as int == if (r.options.page - 1) * r.options.per_page > usize::MAX {
            usize::MAX as int
        } else {
            (r.options.page - 1) * r.options.per_page
        },
        r.page_info@ == page_info(r.options.page as nat, r.total_pages as nat, total as nat),
        r.has_previous == (r.options.page > 1),
        r.has_next == (r.options.page < r.total_pages),
        r.options.search == options.search,
        r.options.work_type == options.work_type,
        r.options.serialization == options.serialization,
        r.options.sort == options.sort,
{
    let mut o = normalize_site_index_options(options);
    assert(o.per_page >= 10);
    let pages = total_pages(total, o.per_page);
    assert(pages >= 1);
    clamp_site_index_page(&mut o, pages);
    let offset = site_index_offset(o.page, o.per_page);
    let mut info: Vec<char> = Vec::new();
    push_decimal(&mut info, o.page as u64);
    push_str(&mut info, " / ");
    push_decimal(&mut info, pages as u64);
    push_str(&mut info, "（全");
    push_decimal(&mut info, total as u64);
    push_str(&mut info, "件）");
    let has_previous = o.page > 1;
    let has_next = o.page < pages;
    SiteIndexPage {
        options: o,
        total_pages: pages,
        offset,
        page_info: string_from_chars(info.as_slice()),
        has_previous,
        has_next,
    }
}

/// The index page of a site: the table of the listed works, the visitor's
/// options marked as selected, and links to the neighbouring pages.
pub fn render_site_index(
    template: &str,
    site: &str,
    options: &SiteIndexRenderOptions,
    total: usize,
    total_pages: usize,
    entries: &[(String, SiteListEntry)],
) -> (r: Result<String, PageLinkError>)
    requires
        1 <= options.page < usize::MAX,
    ensures
        r is Ok,
        match r {
            Ok(html) => exists|prev: Seq<char>, next: Seq<char>|
                #![trigger site_index_pairs(site@, *options, total as nat, total_pages as nat, site_rows_html(entries@), prev, next)]
                html@ == replace_each(
                    template@,
                    site_index_pairs(site@, *options, total as nat, total_pages as nat, site_rows_html(entries@), prev, next),
                ) && (if options.page > 1 {
                    prev == enabled_link(form_encoded(page_query(*options, (options.page - 1) as nat)), "前へ"@)
                } else {
                    prev == disabled_link("前へ"@)
                }) && (if options.page < total_pages {
                    next == enabled_link(form_encoded(page_query(*options, (options.page + 1) as nat)), "次へ"@)
                } else {
                    next == disabled_link("次へ"@)
                }),
            Err(e) => e == PageLinkError::QueryEncoding,
        },
{
    let rows = render_initial_site_rows(entries);
    let prev = match render_page_link(options, options.page - 1, "前へ", options.page > 1) {
        Ok(l) => l,
        Err(e) => return Err(e),
    };
    let next = match render_page_link(options, options.page + 1, "次へ", options.page < total_pages) {
        Ok(l) => l,
        Err(e) => return Err(e),
    };
    let ghost pv = prev@;
    let ghost nv = next@;
    let pairs = site_index_replacements(site, options, total, total_pages, rows, prev, next);
    let html = fill_template(template, &pairs);
    assert(html@ == replace_each(
        template@,
        site_index_pairs(site@, *options, total as nat, total_pages as nat, site_rows_html(entries@), pv, nv),
    ));
    Ok(html)
}

} // verus!
