//! The pages of a stored work: its episode pages, its index and its
//! information page, filled into the novel page template.
use vstd::prelude::*;
use crate::markup::{
    build_og_tags, canonical_url, cover_image_url, cover_url, escape, escape_attr, escape_html,
    escape_html_attr, format_canonical_url, image_base, inline_image_base, og_lines, reader_link,
    reader_url, render_rich_text, rich_result, ImageTable,
};
use crate::narou::opt_string_view;
use crate::text::{
    chars_of, decimal, join, join_str, parse_bounded, parse_unsigned_chars, push_all, push_decimal,
    push_str, replace_all, replace_str, string_from_chars, strings_view, trim_end, views,
};
use crate::narou::{text_le, text_less};

verus! {

// ---------------------------------------------------------------------------
// Stored works
// ---------------------------------------------------------------------------

/// One episode of a stored work document.
#[derive(Debug, Clone, Default)]
pub struct RawEpisode {
    pub id: String,
    pub chapter: Option<String>,
    pub title: String,
    pub text_count: i64,
    pub tags: Vec<String>,
    pub introduction: String,
    pub text: String,
    pub postscript: String,
    pub create_date: String,
    pub update_date: String,
}

/// A stored work document.
#[derive(Debug, Clone, Default)]
pub struct RawWork {
    pub version: i64,
    pub get_date: String,
    pub title: String,
    pub id: String,
    pub nid: String,
    pub url: String,
    pub author: String,
    pub author_id: Option<String>,
    pub author_url: Option<String>,
    pub caption: String,
    pub total_episodes: i64,
    pub all_episodes: i64,
    pub total_characters: i64,
    pub all_characters: i64,
    pub work_type: String,
    pub serialization: String,
    pub tags: Vec<String>,
    pub all_tags: Vec<String>,
    pub create_date: String,
    pub update_date: String,
}

/// The parts of a page that the novel page template takes.
#[derive(Debug, Clone)]
pub struct NovelPage {
    pub title: String,
    pub extra_head: String,
    pub body: String,
    pub back_url: String,
    pub header_title: String,
    pub nav_links: String,
}

/// title, extra head, body, back URL, header title and navigation.
pub type NovelPageView = (Seq<char>, Seq<char>, Seq<char>, Seq<char>, Seq<char>, Seq<char>);

impl NovelPage {
    pub open spec fn view(&self) -> NovelPageView {
        (self.title@, self.extra_head@, self.body@, self.back_url@, self.header_title@, self.nav_links@)
    }
}

/// The template with its placeholders filled in turn: the title, back URL
/// and header title escaped, the head, body and navigation as they are.
pub open spec fn filled_template(template: Seq<char>, p: NovelPageView) -> Seq<char> {
    let a = replace_all(template, "{title}"@, escape(p.0));
    let b = replace_all(a, "{extra_head}"@, p.1);
    let c = replace_all(b, "{body}"@, p.2);
    let d = replace_all(c, "{back_url}"@, escape(p.3));
    let e = replace_all(d, "{header_title}"@, escape(p.4));
    replace_all(e, "{nav_links}"@, p.5)
}

pub fn render_novel_page(template: &str, page: &NovelPage) -> (r: String)
    ensures
        r@ == filled_template(template@, page.view()),
{
    proof {
        reveal_strlit("{title}");
        reveal_strlit("{extra_head}");
        reveal_strlit("{body}");
        reveal_strlit("{back_url}");
        reveal_strlit("{header_title}");
        reveal_strlit("{nav_links}");
    }
    let t = chars_of(template);
    let title = escape_html(page.title.as_str());
    let back = escape_html(page.back_url.as_str());
    let header = escape_html(page.header_title.as_str());
    let a = replace_str(t.as_slice(), "{title}", title.as_str());
    let b = replace_str(a.as_slice(), "{extra_head}", page.extra_head.as_str());
    let c = replace_str(b.as_slice(), "{body}", page.body.as_str());
    let d = replace_str(c.as_slice(), "{back_url}", back.as_str());
    let e = replace_str(d.as_slice(), "{header_title}", header.as_str());
    let f = replace_str(e.as_slice(), "{nav_links}", page.nav_links.as_str());
    string_from_chars(f.as_slice())
}

// ---------------------------------------------------------------------------
// Episode pages
// ---------------------------------------------------------------------------

/// A work published as a single short story.
pub open spec fn short_story(serialization: Seq<char>) -> bool {
    serialization == "短編"@
}

/// The navigation of an episode page: the information page and the simple
/// reader, opened at this episode unless the work is a short story.
pub open spec fn episode_nav(short: bool, reader: Seq<char>, episode_id: Seq<char>) -> Seq<char> {
    if short {
        "<a href=\"./info/index.html\" class=\"header-nav-link\">作品情報</a><a href=\""@ + escape(reader)
            + "\" class=\"header-nav-link\">簡易リーダー</a>"@
    } else {
        "<a href=\"../info/index.html\" class=\"header-nav-link\">作品情報</a><a href=\""@ + escape(
            reader + "&eid="@ + escape_attr(episode_id),
        ) + "\" class=\"header-nav-link\">簡易リーダー</a>"@
    }
}

/// An episode part in its block, or nothing when it renders empty.
pub open spec fn episode_block(html: Seq<char>, plain_open: Seq<char>, styled_open: Seq<char>) -> Seq<char> {
    if html.len() == 0 {
        Seq::empty()
    } else {
        replace_all(plain_open + html + "</div>"@, plain_open, styled_open)
    }
}

pub open spec fn intro_open() -> Seq<char> {
    "<div class=\"episode-block introduction\">"@
}

pub open spec fn intro_styled() -> Seq<char> {
    "<div class=\"js-novel-text p-novel__text p-novel__text--preface\">"@
}

pub open spec fn post_open() -> Seq<char> {
    "<div class=\"episode-block postscript\">"@
}

pub open spec fn post_styled() -> Seq<char> {
    "<div class=\"js-novel-text p-novel__text p-novel__text--afterword\">"@
}

/// A rich text rendered with paragraph numbers from 1.
pub open spec fn rich_html(text: Seq<char>, t: crate::markup::ImagesView, base: Seq<char>, prefix: Seq<char>) -> Seq<char> {
    join(rich_result(text, t, base, prefix, 1).0, "\n"@)
}

/// What an episode page needs of the paragraph counter: each part fits.
pub open spec fn episode_fits(episode: RawEpisode, t: crate::markup::ImagesView, base: Seq<char>) -> bool {
    &&& rich_result(episode.introduction@, t, base, "Lp"@, 1).2 <= usize::MAX
    &&& rich_result(episode.text@, t, base, "L"@, 1).2 <= usize::MAX
    &&& rich_result(episode.postscript@, t, base, "La"@, 1).2 <= usize::MAX
}

/// The body of an episode page: its heading, preface, text and afterword.
pub open spec fn episode_body(work_title: Seq<char>, episode: RawEpisode, short: bool, t: crate::markup::ImagesView, base: Seq<char>) -> Seq<char> {
    let heading = if short {
        "<p class=\"novel_title\">"@ + escape(work_title) + "</p>"@
    } else {
        "<p class=\"novel_subtitle\">"@ + escape(episode.title@) + "</p>"@
    };
    heading + "\n"@ + episode_block(rich_html(episode.introduction@, t, base, "Lp"@), intro_open(), intro_styled())
        + "\n<div class=\"js-novel-text p-novel__text\">"@ + rich_html(episode.text@, t, base, "L"@)
        + "</div>\n"@ + episode_block(rich_html(episode.postscript@, t, base, "La"@), post_open(), post_styled())
        + "\n<script src=\"/script/image.js\"></script>"@
}

/// The address of an episode page under the public host.
pub open spec fn episode_canonical(host_name: Seq<char>, site: Seq<char>, work_key: Seq<char>, episode_id: Seq<char>, short: bool) -> Seq<char> {
    if short {
        canonical_url(host_name, "/"@ + site + "/"@ + work_key + "/index.html"@)
    } else {
        canonical_url(host_name, "/"@ + site + "/"@ + work_key + "/"@ + episode_id + "/index.html"@)
    }
}

/// The parts of an episode page.
pub open spec fn episode_page_view(
    site: Seq<char>,
    work_key: Seq<char>,
    work: RawWork,
    episode: RawEpisode,
    host_name: Seq<char>,
    img_url: Seq<char>,
    t: crate::markup::ImagesView,
) -> NovelPageView {
    let short = short_story(work.serialization@);
    let page_title = episode.title@ + " - "@ + work.title@;
    let base = image_base(img_url, short);
    let extra_head = trim_end(
        og_lines(
            page_title,
            episode.introduction@,
            "article"@,
            episode_canonical(host_name, site, work_key, episode.id@, short),
            cover_url(host_name, img_url, site, work_key, t),
        ),
    ) + "\n<style>\n            img { display: block; }\n        </style>"@;
    (
        page_title,
        extra_head,
        episode_body(work.title@, episode, short, t, base),
        "../"@,
        if short {
            work.title@
        } else {
            episode.title@
        },
        episode_nav(short, reader_link(host_name, site, work_key), episode.id@),
    )
}

fn render_block(html: &String, plain_open: &str, styled_open: &str) -> (r: Vec<char>)
    requires
        plain_open@.len() > 0,
    ensures
        r@ == episode_block(html@, plain_open@, styled_open@),
{
    if html.as_str().is_empty() {
        return Vec::new();
    }
    let mut b = chars_of(plain_open);
    push_str(&mut b, html.as_str());
    push_str(&mut b, "</div>");
    replace_str(b.as_slice(), plain_open, styled_open)
}

fn episode_body_html(
    work_title: &str,
    episode: &RawEpisode,
    short: bool,
    site: &str,
    work_key: &str,
    images: &ImageTable,
    base: &str,
) -> (r: Vec<char>)
    requires
        episode_fits(*episode, images.view_table(), base@),
    ensures
        r@ == episode_body(work_title@, *episode, short, images.view_table(), base@),
{
    proof {
        reveal_strlit("<div class=\"episode-block introduction\">");
        reveal_strlit("<div class=\"episode-block postscript\">");
    }
    let mut pre: usize = 1;
    let intro = render_rich_text(episode.introduction.as_str(), site, work_key, images, base, "Lp", &mut pre);
    let mut body_id: usize = 1;
    let text = render_rich_text(episode.text.as_str(), site, work_key, images, base, "L", &mut body_id);
    let mut post_id: usize = 1;
    let post = render_rich_text(episode.postscript.as_str(), site, work_key, images, base, "La", &mut post_id);
    let intro_block = render_block(&intro, "<div class=\"episode-block introduction\">", "<div class=\"js-novel-text p-novel__text p-novel__text--preface\">");
    let post_block = render_block(&post, "<div class=\"episode-block postscript\">", "<div class=\"js-novel-text p-novel__text p-novel__text--afterword\">");
    let mut out: Vec<char> = Vec::new();
    if short {
        push_str(&mut out, "<p class=\"novel_title\">");
        let e = escape_html(work_title);
        push_str(&mut out, e.as_str());
    } else {
        push_str(&mut out, "<p class=\"novel_subtitle\">");
        let e = escape_html(episode.title.as_str());
        push_str(&mut out, e.as_str());
    }
    push_str(&mut out, "</p>");
    push_str(&mut out, "\n");
    push_all(&mut out, intro_block.as_slice());
    push_str(&mut out, "\n<div class=\"js-novel-text p-novel__text\">");
    push_str(&mut out, text.as_str());
    push_str(&mut out, "</div>\n");
    push_all(&mut out, post_block.as_slice());
    push_str(&mut out, "\n<script src=\"/script/image.js\"></script>");
    assert(out@ =~= episode_body(work_title@, *episode, short, images.view_table(), base@));
    out
}

fn episode_nav_html(short: bool, host_name: &str, site: &str, work_key: &str, episode_id: &str) -> (r: Vec<char>)
    ensures
        r@ == episode_nav(short, reader_link(host_name@, site@, work_key@), episode_id@),
{
    let reader = reader_url(host_name, site, work_key);
    let mut out: Vec<char> = Vec::new();
    if short {
        push_str(&mut out, "<a href=\"./info/index.html\" class=\"header-nav-link\">作品情報</a><a href=\"");
        let e = escape_html(reader.as_str());
        push_str(&mut out, e.as_str());
    } else {
        push_str(&mut out, "<a href=\"../info/index.html\" class=\"header-nav-link\">作品情報</a><a href=\"");
        let mut link = chars_of(reader.as_str());
        push_str(&mut link, "&eid=");
        let id = escape_html_attr(episode_id);
        push_str(&mut link, id.as_str());
        let ls = string_from_chars(link.as_slice());
        let e = escape_html(ls.as_str());
        push_str(&mut out, e.as_str());
    }
    push_str(&mut out, "\" class=\"header-nav-link\">簡易リーダー</a>");
    assert(out@ =~= episode_nav(short, reader_link(host_name@, site@, work_key@), episode_id@));
    out
}

fn episode_canonical_url(host_name: &str, site: &str, work_key: &str, episode_id: &str, short: bool) -> (r: String)
    ensures
        r@ == episode_canonical(host_name@, site@, work_key@, episode_id@, short),
{
    let mut p = chars_of("/");
    push_str(&mut p, site);
    push_str(&mut p, "/");
    push_str(&mut p, work_key);
    if !short {
        push_str(&mut p, "/");
        push_str(&mut p, episode_id);
    }
    push_str(&mut p, "/index.html");
    let ps = string_from_chars(p.as_slice());
    format_canonical_url(host_name, ps.as_str())
}

/// The parts of the page of one episode.
pub fn episode_page(
    site: &str,
    work_key: &str,
    work: &RawWork,
    episode: &RawEpisode,
    host_name: &str,
    img_url: &str,
    images: &ImageTable,
) -> (r: NovelPage)
    requires
        episode_fits(*episode, images.view_table(), image_base(img_url@, short_story(work.serialization@))),
    ensures
        r.view() == episode_page_view(site@, work_key@, *work, *episode, host_name@, img_url@, images.view_table()),
{
    let short = crate::text::str_eq(work.serialization.as_str(), "短編");
    let mut title = chars_of(episode.title.as_str());
    push_str(&mut title, " - ");
    push_str(&mut title, work.title.as_str());
    let page_title = string_from_chars(title.as_slice());
    let base = inline_image_base(img_url, short);
    let body = episode_body_html(work.title.as_str(), episode, short, site, work_key, images, base.as_str());
    let nav = episode_nav_html(short, host_name, site, work_key, episode.id.as_str());
    let canonical = episode_canonical_url(host_name, site, work_key, episode.id.as_str(), short);
    let cover = cover_image_url(host_name, img_url, site, work_key, images);
    let og = build_og_tags(page_title.as_str(), episode.introduction.as_str(), "article", canonical.as_str(), cover.as_str());
    let mut head = chars_of(og.as_str());
    push_str(&mut head, "\n<style>\n            img { display: block; }\n        </style>");
    let header = if short {
        work.title.clone()
    } else {
        episode.title.clone()
    };
    NovelPage {
        title: page_title,
        extra_head: string_from_chars(head.as_slice()),
        body: string_from_chars(body.as_slice()),
        back_url: crate::text::owned("../"),
        header_title: header,
        nav_links: string_from_chars(nav.as_slice()),
    }
}

/// The page of one episode, filled into the template.
pub fn render_episode_page(
    template: &str,
    site: &str,
    work_key: &str,
    work: &RawWork,
    episode: &RawEpisode,
    host_name: &str,
    img_url: &str,
    images: &ImageTable,
) -> (r: String)
    requires
        episode_fits(*episode, images.view_table(), image_base(img_url@, short_story(work.serialization@))),
    ensures
        r@ == filled_template(
            template@,
            episode_page_view(site@, work_key@, *work, *episode, host_name@, img_url@, images.view_table()),
        ),
{
    let page = episode_page(site, work_key, work, episode, host_name, img_url, images);
    render_novel_page(template, &page)
}

// ---------------------------------------------------------------------------
// Dates
// ---------------------------------------------------------------------------

/// An RFC 3339 time shown in UTC with a `strftime` format; empty when the
/// time does not parse.
pub uninterp spec fn utc_date_text(iso_date: Seq<char>, format: Seq<char>) -> Seq<char>;

/// The date formats that pages use.
pub open spec fn page_date_format(format: Seq<char>) -> bool {
    format == "%Y/%m/%d %H:%M"@ || format == "%Y年 %m月%d日 %H時%M分"@
}

/// `chrono::DateTime::parse_from_rfc3339`, then `with_timezone(&Utc)` and
/// `format`: the time in UTC in the given format, empty when it does not
/// parse; a function of its arguments alone.  Only the page formats are
/// passed, which format without error.
#[verifier::external_body]
fn format_date_jp(iso_date: &str, format: &str) -> (r: String)
    requires
        page_date_format(format@),
    ensures
        r@ == utc_date_text(iso_date@, format@),
{
    match chrono::DateTime::parse_from_rfc3339(iso_date) {
        Ok(date) => date.with_timezone(&chrono::Utc).format(format).to_string(),
        Err(_) => String::new(),
    }
}

/// The formatted date, or the stored text when it does not parse.
pub open spec fn date_or_raw(iso_date: Seq<char>, format: Seq<char>) -> Seq<char> {
    if utc_date_text(iso_date, format).len() == 0 {
        iso_date
    } else {
        utc_date_text(iso_date, format)
    }
}

fn format_date_jp_or_default(iso_date: &str, format: &str) -> (r: String)
    requires
        page_date_format(format@),
    ensures
        r@ == date_or_raw(iso_date@, format@),
{
    let f = format_date_jp(iso_date, format);
    if f.as_str().is_empty() {
        crate::text::owned(iso_date)
    } else {
        f
    }
}

// ---------------------------------------------------------------------------
// Work index
// ---------------------------------------------------------------------------

/// One entry of the episode list.
pub open spec fn eplist_item(e: RawEpisode) -> Seq<char> {
    "<div class=\"p-eplist__sublist\">\n<a href=\"./"@ + escape(e.id@) + "/index.html\" class=\"p-eplist__subtitle\">\n"@
        + escape(e.title@) + "\n</a>\n<div class=\"p-eplist__update\">\n"@ + escape(
        date_or_raw(e.create_date@, "%Y/%m/%d %H:%M"@),
    ) + "\n<span title=\""@ + escape(date_or_raw(e.update_date@, "%Y/%m/%d %H:%M"@))
        + " 改稿\">（<u>改</u>）</span>\n</div>\n</div>"@
}

/// The entries of the episode list from the front: a chapter heading where
/// the chapter changes to a named one, then the episode.
pub open spec fn eplist_items(eps: Seq<RawEpisode>, current: Option<Seq<char>>) -> Seq<Seq<char>>
    decreases eps.len(),
{
    if eps.len() == 0 {
        Seq::empty()
    } else {
        let ch = opt_string_view(eps[0].chapter);
        let heading = if ch != current && ch is Some && ch->0.len() > 0 {
            seq!["<div class=\"p-eplist__chapter-title\">"@ + escape(ch->0) + "</div>"@]
        } else {
            Seq::empty()
        };
        heading + seq![eplist_item(eps[0])] + eplist_items(eps.drop_first(), ch)
    }
}

pub open spec fn second_of(v: Seq<(String, RawEpisode)>) -> Seq<RawEpisode> {
    v.map_values(|p: (String, RawEpisode)| p.1)
}

/// The episode list of a work index.
pub open spec fn episode_index_html(eps: Seq<RawEpisode>) -> Seq<char> {
    join(seq!["<div class=\"p-eplist\">"@] + eplist_items(eps, None) + seq!["</div>"@], "\n"@)
}

fn eplist_item_html(e: &RawEpisode) -> (r: Vec<char>)
    ensures
        r@ == eplist_item(*e),
{
    let create = format_date_jp_or_default(e.create_date.as_str(), "%Y/%m/%d %H:%M");
    let update = format_date_jp_or_default(e.update_date.as_str(), "%Y/%m/%d %H:%M");
    let mut out = chars_of("<div class=\"p-eplist__sublist\">\n<a href=\"./");
    let id = escape_html(e.id.as_str());
    push_str(&mut out, id.as_str());
    push_str(&mut out, "/index.html\" class=\"p-eplist__subtitle\">\n");
    let title = escape_html(e.title.as_str());
    push_str(&mut out, title.as_str());
    push_str(&mut out, "\n</a>\n<div class=\"p-eplist__update\">\n");
    let c = escape_html(create.as_str());
    push_str(&mut out, c.as_str());
    push_str(&mut out, "\n<span title=\"");
    let u = escape_html(update.as_str());
    push_str(&mut out, u.as_str());
    push_str(&mut out, " 改稿\">（<u>改</u>）</span>\n</div>\n</div>");
    assert(out@ =~= eplist_item(*e));
    out
}

fn same_chapter(a: &Option<String>, b: &Option<String>) -> (r: bool)
    ensures
        r == (opt_string_view(*a) == opt_string_view(*b)),
{
    match (a, b) {
        (Some(x), Some(y)) => crate::text::str_eq(x.as_str(), y.as_str()),
        (None, None) => true,
        _ => false,
    }
}

/// The episode list of a work index, with chapter headings.
pub fn render_episode_index_content(episodes: &[(String, RawEpisode)]) -> (r: String)
    ensures
        r@ == episode_index_html(second_of(episodes@)),
{
    let ghost eps = second_of(episodes@);
    let mut items: Vec<Vec<char>> = Vec::new();
    items.push(chars_of("<div class=\"p-eplist\">"));
    let mut current: Option<String> = None;
    let mut i: usize = 0;
    assert(eps.skip(0) =~= eps);
    assert(views(items@) =~= seq!["<div class=\"p-eplist\">"@]);
    while i < episodes.len()
        invariant
            i <= episodes.len(),
            eps == second_of(episodes@),
            seq!["<div class=\"p-eplist\">"@] + eplist_items(eps, None) == views(items@) + eplist_items(
                eps.skip(i as int),
                opt_string_view(current),
            ),
        decreases episodes.len() - i,
    {
        let ghost rest = eps.skip(i as int);
        assert(rest[0] == episodes@[i as int].1);
        assert(rest.drop_first() =~= eps.skip(i + 1));
        let e = &episodes[i].1;
        let ghost before = views(items@);
        let ghost ch = opt_string_view(e.chapter);
        let ghost heading = if ch != opt_string_view(current) && ch is Some && ch->0.len() > 0 {
            seq!["<div class=\"p-eplist__chapter-title\">"@ + escape(ch->0) + "</div>"@]
        } else {
            Seq::<Seq<char>>::empty()
        };
        if !same_chapter(&e.chapter, &current) {
            current = e.chapter.clone();
            if let Some(c) = &e.chapter {
                if !c.as_str().is_empty() {
                    let mut h = chars_of("<div class=\"p-eplist__chapter-title\">");
                    let ec = escape_html(c.as_str());
                    push_str(&mut h, ec.as_str());
                    push_str(&mut h, "</div>");
                    items.push(h);
                }
            }
        }
        assert(views(items@) =~= before + heading);
        let ghost mid = views(items@);
        items.push(eplist_item_html(e));
        assert(views(items@) =~= mid + seq![eplist_item(*e)]);
        assert(opt_string_view(current) == ch);
        assert(before + (heading + seq![eplist_item(rest[0])] + eplist_items(rest.drop_first(), ch)) =~= views(items@)
            + eplist_items(rest.drop_first(), ch));
        i = i + 1;
    }
    let ghost before = views(items@);
    items.push(chars_of("</div>"));
    assert(eps.skip(i as int) =~= Seq::<RawEpisode>::empty());
    assert(views(items@) =~= seq!["<div class=\"p-eplist\">"@] + eplist_items(eps, None) + seq!["</div>"@]);
    let out = join_str(&items, "\n");
    string_from_chars(out.as_slice())
}

/// The parts of a work's index page.
pub open spec fn work_index_view(
    site: Seq<char>,
    work_key: Seq<char>,
    work: RawWork,
    eps: Seq<RawEpisode>,
    host_name: Seq<char>,
    img_url: Seq<char>,
    t: crate::markup::ImagesView,
) -> NovelPageView {
    let page_title = work.title@ + " - "@ + site;
    (
        page_title,
        trim_end(
            og_lines(
                page_title,
                work.caption@,
                "article"@,
                canonical_url(host_name, "/"@ + site + "/"@ + work_key + "/index.html"@),
                cover_url(host_name, img_url, site, work_key, t),
            ),
        ),
        "<p class=\"novel_title\">"@ + escape(work.title@) + "</p>\n<div class=\"index_box\">\n"@
            + episode_index_html(eps) + "\n</div>"@,
        "../"@,
        work.title@,
        "<a href=\"./info/index.html\" class=\"header-nav-link\">作品情報</a><a href=\""@ + escape(
            reader_link(host_name, site, work_key),
        ) + "\" class=\"header-nav-link\">簡易リーダー</a>"@,
    )
}

fn work_path(site: &str, work_key: &str, tail: &str) -> (r: String)
    ensures
        r@ == "/"@ + site@ + "/"@ + work_key@ + tail@,
{
    let mut p = chars_of("/");
    push_str(&mut p, site);
    push_str(&mut p, "/");
    push_str(&mut p, work_key);
    push_str(&mut p, tail);
    string_from_chars(p.as_slice())
}

/// The parts of a work's index page.
pub fn work_index_page(
    site: &str,
    work_key: &str,
    work: &RawWork,
    episodes: &[(String, RawEpisode)],
    host_name: &str,
    img_url: &str,
    images: &ImageTable,
) -> (r: NovelPage)
    ensures
        r.view() == work_index_view(site@, work_key@, *work, second_of(episodes@), host_name@, img_url@, images.view_table()),
{
    let mut t = chars_of(work.title.as_str());
    push_str(&mut t, " - ");
    push_str(&mut t, site);
    let page_title = string_from_chars(t.as_slice());
    let reader = reader_url(host_name, site, work_key);
    let mut nav = chars_of("<a href=\"./info/index.html\" class=\"header-nav-link\">作品情報</a><a href=\"");
    let er = escape_html(reader.as_str());
    push_str(&mut nav, er.as_str());
    push_str(&mut nav, "\" class=\"header-nav-link\">簡易リーダー</a>");
    let mut body = chars_of("<p class=\"novel_title\">");
    let et = escape_html(work.title.as_str());
    push_str(&mut body, et.as_str());
    push_str(&mut body, "</p>\n<div class=\"index_box\">\n");
    let list = render_episode_index_content(episodes);
    push_str(&mut body, list.as_str());
    push_str(&mut body, "\n</div>");
    let path = work_path(site, work_key, "/index.html");
    let canonical = format_canonical_url(host_name, path.as_str());
    let cover = cover_image_url(host_name, img_url, site, work_key, images);
    let head = build_og_tags(page_title.as_str(), work.caption.as_str(), "article", canonical.as_str(), cover.as_str());
    assert(body@ =~= "<p class=\"novel_title\">"@ + escape(work.title@) + "</p>\n<div class=\"index_box\">\n"@
        + episode_index_html(second_of(episodes@)) + "\n</div>"@);
    NovelPage {
        title: page_title,
        extra_head: head,
        body: string_from_chars(body.as_slice()),
        back_url: crate::text::owned("../"),
        header_title: work.title.clone(),
        nav_links: string_from_chars(nav.as_slice()),
    }
}

// ---------------------------------------------------------------------------
// Work information
// ---------------------------------------------------------------------------

/// `{}` of a signed integer.
pub open spec fn signed_decimal(n: int) -> Seq<char> {
    if n < 0 {
        "-"@ + decimal((-n) as nat)
    } else {
        decimal(n as nat)
    }
}

pub(crate) fn push_i64(out: &mut Vec<char>, n: i64)
    ensures
        final(out)@ == old(out)@ + signed_decimal(n as int),
{
    let ghost start = out@;
    if n < 0 {
        out.push('-');
        let m: u64 = if n == i64::MIN {
            9223372036854775808u64
        } else {
            (-n) as u64
        };
        assert(m as int == -(n as int));
        push_decimal(out, m);
        proof {
            reveal_strlit("-");
        }
        assert("-"@ =~= seq!['-']);
        assert(out@ =~= start + signed_decimal(n as int));
    } else {
        push_decimal(out, n as u64);
    }
}

/// The author, linked when the work has an author URL.
pub open spec fn author_html(work: RawWork) -> Seq<char> {
    match work.author_url {
        Some(u) => if u@.len() > 0 {
            "<a href=\""@ + escape(u@) + "\" target=\"_blank\">"@ + escape(work.author@) + "</a>"@
        } else {
            escape(work.author@)
        },
        None => escape(work.author@),
    }
}

/// The keywords separated by spaces, or a notice when there are none.
pub open spec fn tags_html(tags: Seq<Seq<char>>) -> Seq<char> {
    if tags.len() == 0 {
        "\n<span>キーワードが設定されていません</span>\n"@
    } else {
        join(tags.map_values(|t: Seq<char>| escape(t)), " "@)
    }
}

/// The structured information of a work.
pub open spec fn info_content(work: RawWork, episode_count: nat) -> Seq<char> {
    let ser = work.serialization@;
    let novel_type = if ser == "短編"@ {
        "<div><span id=\"noveltype\">短編</span></div>"@
    } else {
        "<div><span id=\"noveltype\">"@ + escape(ser) + "</span> 全"@ + decimal(episode_count) + "エピソード</div>"@
    };
    let date_label = if ser == "短編"@ {
        "最終更新日"@
    } else if ser == "連載中"@ {
        "最新掲載日"@
    } else {
        "最終掲載日"@
    };
    "<h1><a href=\""@ + escape(work.url@) + "\" target=\"_blank\">"@ + escape(work.title@) + "</a></h1>\n"@
        + novel_type + "\n<table>\n<tr><th class=\"ex\">あらすじ</th><td class=\"ex\">"@ + escape(work.caption@)
        + "</td></tr>\n<tr><th>作者名</th><td>"@ + author_html(work) + "</td></tr>\n<tr><th>キーワード</th><td>"@
        + tags_html(strings_view(work.all_tags@)) + "</td></tr>\n<tr><th>掲載日</th><td>"@ + escape(
        utc_date_text(work.create_date@, "%Y年 %m月%d日 %H時%M分"@),
    ) + "</td></tr>\n<tr><th>"@ + date_label + "</th><td>"@ + escape(
        utc_date_text(work.update_date@, "%Y年 %m月%d日 %H時%M分"@),
    ) + "</td></tr>\n<tr><th>文字数</th><td>"@ + signed_decimal(work.total_characters as int)
        + "文字</td></tr>\n</table>"@
}

fn author_part(work: &RawWork) -> (r: Vec<char>)
    ensures
        r@ == author_html(*work),
{
    match &work.author_url {
        Some(u) => if !u.as_str().is_empty() {
            let mut out = chars_of("<a href=\"");
            let eu = escape_html(u.as_str());
            push_str(&mut out, eu.as_str());
            push_str(&mut out, "\" target=\"_blank\">");
            let ea = escape_html(work.author.as_str());
            push_str(&mut out, ea.as_str());
            push_str(&mut out, "</a>");
            assert(out@ =~= author_html(*work));
            out
        } else {
            let ea = escape_html(work.author.as_str());
            chars_of(ea.as_str())
        },
        None => {
            let ea = escape_html(work.author.as_str());
            chars_of(ea.as_str())
        },
    }
}

fn tags_part(tags: &Vec<String>) -> (r: Vec<char>)
    ensures
        r@ == tags_html(strings_view(tags@)),
{
    if tags.len() == 0 {
        return chars_of("\n<span>キーワードが設定されていません</span>\n");
    }
    let ghost want = strings_view(tags@).map_values(|t: Seq<char>| escape(t));
    let mut parts: Vec<Vec<char>> = Vec::new();
    let mut i: usize = 0;
    while i < tags.len()
        invariant
            i <= tags.len(),
            want == strings_view(tags@).map_values(|t: Seq<char>| escape(t)),
            views(parts@) == want.take(i as int),
        decreases tags.len() - i,
    {
        let e = escape_html(tags[i].as_str());
        let ghost before = views(parts@);
        parts.push(chars_of(e.as_str()));
        assert(views(parts@) =~= before.push(want[i as int]));
        assert(want.take(i + 1) =~= want.take(i as int).push(want[i as int]));
        i = i + 1;
    }
    assert(want.take(i as int) =~= want);
    join_str(&parts, " ")
}

pub fn render_info_content(work: &RawWork, episode_count: usize) -> (r: String)
    ensures
        r@ == info_content(*work, episode_count as nat),
{
    let short = crate::text::str_eq(work.serialization.as_str(), "短編");
    let mut out = chars_of("<h1><a href=\"");
    let url = escape_html(work.url.as_str());
    push_str(&mut out, url.as_str());
    push_str(&mut out, "\" target=\"_blank\">");
    let title = escape_html(work.title.as_str());
    push_str(&mut out, title.as_str());
    push_str(&mut out, "</a></h1>\n");
    let ghost s1 = out@;
    if short {
        push_str(&mut out, "<div><span id=\"noveltype\">短編</span></div>");
    } else {
        push_str(&mut out, "<div><span id=\"noveltype\">");
        let ser = escape_html(work.serialization.as_str());
        push_str(&mut out, ser.as_str());
        push_str(&mut out, "</span> 全");
        push_decimal(&mut out, episode_count as u64);
        push_str(&mut out, "エピソード</div>");
    }
    let ghost s2 = out@;
    push_str(&mut out, "\n<table>\n<tr><th class=\"ex\">あらすじ</th><td class=\"ex\">");
    let cap = escape_html(work.caption.as_str());
    push_str(&mut out, cap.as_str());
    push_str(&mut out, "</td></tr>\n<tr><th>作者名</th><td>");
    let a = author_part(work);
    push_all(&mut out, a.as_slice());
    push_str(&mut out, "</td></tr>\n<tr><th>キーワード</th><td>");
    let tg = tags_part(&work.all_tags);
    push_all(&mut out, tg.as_slice());
    push_str(&mut out, "</td></tr>\n<tr><th>掲載日</th><td>");
    let cd = format_date_jp(work.create_date.as_str(), "%Y年 %m月%d日 %H時%M分");
    let ecd = escape_html(cd.as_str());
    push_str(&mut out, ecd.as_str());
    push_str(&mut out, "</td></tr>\n<tr><th>");
    let ghost s3 = out@;
    if short {
        push_str(&mut out, "最終更新日");
    } else if crate::text::str_eq(work.serialization.as_str(), "連載中") {
        push_str(&mut out, "最新掲載日");
    } else {
        push_str(&mut out, "最終掲載日");
    }
    let ghost s4 = out@;
    push_str(&mut out, "</th><td>");
    let ud = format_date_jp(work.update_date.as_str(), "%Y年 %m月%d日 %H時%M分");
    let eud = escape_html(ud.as_str());
    push_str(&mut out, eud.as_str());
    push_str(&mut out, "</td></tr>\n<tr><th>文字数</th><td>");
    push_i64(&mut out, work.total_characters);
    push_str(&mut out, "文字</td></tr>\n</table>");
    assert(out@ =~= info_content(*work, episode_count as nat));
    string_from_chars(out.as_slice())
}

/// The parts of a work's information page.
pub open spec fn work_info_view(
    site: Seq<char>,
    work_key: Seq<char>,
    work: RawWork,
    episode_count: nat,
    host_name: Seq<char>,
    img_url: Seq<char>,
    t: crate::markup::ImagesView,
) -> NovelPageView {
    let page_title = work.title@ + " info"@;
    (
        page_title,
        trim_end(
            og_lines(
                page_title,
                work.caption@,
                "article"@,
                canonical_url(host_name, "/"@ + site + "/"@ + work_key + "/info/index.html"@),
                cover_url(host_name, img_url, site, work_key, t),
            ),
        ),
        info_content(work, episode_count),
        "../"@,
        work.title@,
        "<a href=\""@ + escape(reader_link(host_name, site, work_key)) + "\" class=\"header-nav-link\">簡易リーダー</a>"@,
    )
}

pub fn work_info_page(
    site: &str,
    work_key: &str,
    work: &RawWork,
    episode_count: usize,
    host_name: &str,
    img_url: &str,
    images: &ImageTable,
) -> (r: NovelPage)
    ensures
        r.view() == work_info_view(site@, work_key@, *work, episode_count as nat, host_name@, img_url@, images.view_table()),
{
    let mut t = chars_of(work.title.as_str());
    push_str(&mut t, " info");
    let page_title = string_from_chars(t.as_slice());
    let reader = reader_url(host_name, site, work_key);
    let mut nav = chars_of("<a href=\"");
    let er = escape_html(reader.as_str());
    push_str(&mut nav, er.as_str());
    push_str(&mut nav, "\" class=\"header-nav-link\">簡易リーダー</a>");
    let body = render_info_content(work, episode_count);
    let path = work_path(site, work_key, "/info/index.html");
    let canonical = format_canonical_url(host_name, path.as_str());
    let cover = cover_image_url(host_name, img_url, site, work_key, images);
    let head = build_og_tags(page_title.as_str(), work.caption.as_str(), "article", canonical.as_str(), cover.as_str());
    NovelPage {
        title: page_title,
        extra_head: head,
        body,
        back_url: crate::text::owned("../"),
        header_title: work.title.clone(),
        nav_links: string_from_chars(nav.as_slice()),
    }
}

// ---------------------------------------------------------------------------
// Episode order and routes
// ---------------------------------------------------------------------------

/// `str::parse::<i64>`: an optional sign, then one or more ASCII digits,
/// within the range of `i64`.
pub open spec fn parse_i64(s: Seq<char>) -> Option<int> {
    if s.len() > 0 && s[0] == '-' {
        let body = s.drop_first();
        if body.len() > 0 && body[0] != '+' {
            match parse_bounded(body, 9223372036854775808) {
                Some(n) => Some(-(n as int)),
                None => None,
            }
        } else {
            None
        }
    } else {
        match parse_bounded(s, i64::MAX as nat) {
            Some(n) => Some(n as int),
            None => None,
        }
    }
}

/// The number that orders an episode key: its value, or last when it is
/// not a number.
pub open spec fn episode_number(key: Seq<char>) -> int {
    match parse_i64(key) {
        Some(n) => n,
        None => i64::MAX as int,
    }
}

pub fn episode_sort_key(value: &str) -> (r: (i64, String))
    ensures
        r.0 as int == episode_number(value@),
        r.1@ == value@,
{
    let v = chars_of(value);
    let n: i64 = if v.len() > 0 && v[0] == '-' {
        let body = crate::text::slice_range(v.as_slice(), 1, v.len());
        assert(body@ =~= v@.drop_first());
        if body.len() > 0 && body[0] != '+' {
            match parse_unsigned_chars(body.as_slice(), 9223372036854775808u64) {
                Some(m) => if m == 9223372036854775808u64 {
                    i64::MIN
                } else {
                    -(m as i64)
                },
                None => i64::MAX,
            }
        } else {
            i64::MAX
        }
    } else {
        match parse_unsigned_chars(v.as_slice(), i64::MAX as u64) {
            Some(m) => m as i64,
            None => i64::MAX,
        }
    };
    (n, crate::text::owned(value))
}

/// Episode `a` comes before `b`: by number, then by key.
pub open spec fn episode_before(a: Seq<char>, b: Seq<char>) -> bool {
    episode_number(a) < episode_number(b) || (episode_number(a) == episode_number(b) && text_le(a, b) && a != b)
}

/// `x` placed before the first episode that it comes before.
pub open spec fn insert_episode(sorted: Seq<(String, RawEpisode)>, x: (String, RawEpisode)) -> Seq<(String, RawEpisode)>
    decreases sorted.len(),
{
    if sorted.len() == 0 {
        seq![x]
    } else if episode_before(x.0@, sorted[0].0@) {
        seq![x] + sorted
    } else {
        seq![sorted[0]] + insert_episode(sorted.drop_first(), x)
    }
}

/// The episodes of a work in reading order.
pub open spec fn sorted_episodes(s: Seq<(String, RawEpisode)>) -> Seq<(String, RawEpisode)>
    decreases s.len(),
{
    if s.len() == 0 {
        s
    } else {
        insert_episode(sorted_episodes(s.drop_last()), s.last())
    }
}

fn episode_key_less(a: &str, b: &str) -> (r: bool)
    ensures
        r == episode_before(a@, b@),
{
    let ka = episode_sort_key(a);
    let kb = episode_sort_key(b);
    if ka.0 != kb.0 {
        return ka.0 < kb.0;
    }
    let av = chars_of(a);
    let bv = chars_of(b);
    text_less(av.as_slice(), bv.as_slice())
}

fn insert_episode_sorted(sorted: &mut Vec<(String, RawEpisode)>, x: (String, RawEpisode))
    ensures
        final(sorted)@ == insert_episode(old(sorted)@, x),
{
    let ghost start = sorted@;
    let mut j: usize = 0;
    assert(start.skip(0) =~= start);
    while j < sorted.len() && !episode_key_less(x.0.as_str(), sorted[j].0.as_str())
        invariant
            j <= sorted.len(),
            start == sorted@,
            insert_episode(start, x) == start.take(j as int) + insert_episode(start.skip(j as int), x),
        decreases sorted.len() - j,
    {
        let ghost rest = start.skip(j as int);
        assert(rest.drop_first() =~= start.skip(j + 1));
        assert(start.take(j + 1) =~= start.take(j as int).push(rest[0]));
        assert(start.take(j as int) + (seq![rest[0]] + insert_episode(rest.drop_first(), x)) =~= start.take(j + 1)
            + insert_episode(start.skip(j + 1), x));
        j = j + 1;
    }
    sorted.insert(j, x);
    assert(sorted@ =~= start.take(j as int) + insert_episode(start.skip(j as int), x)) by {
        if j < start.len() {
            assert(insert_episode(start.skip(j as int), x) == seq![x] + start.skip(j as int));
        } else {
            assert(start.skip(j as int) =~= Seq::<(String, RawEpisode)>::empty());
        }
    }
}

/// The episodes in reading order: by number where the key is one, the
/// others last, ties broken by key.
pub fn sort_episodes(episodes: Vec<(String, RawEpisode)>) -> (r: Vec<(String, RawEpisode)>)
    ensures
        r@ == sorted_episodes(episodes@),
{
    let ghost all = episodes@;
    let mut rest = episodes;
    let mut sorted: Vec<(String, RawEpisode)> = Vec::new();
    let mut i: usize = 0;
    let n = rest.len();
    assert(all.take(0) =~= Seq::<(String, RawEpisode)>::empty());
    assert(all.skip(0) =~= all);
    while i < n
        invariant
            i <= n,
            n == all.len(),
            rest@ == all.skip(i as int),
            sorted@ == sorted_episodes(all.take(i as int)),
        decreases n - i,
    {
        let ghost before_rest = rest@;
        let x = rest.remove(0);
        assert(x == all[i as int]);
        assert(rest@ =~= all.skip(i + 1));
        assert(all.take(i + 1).drop_last() =~= all.take(i as int));
        insert_episode_sorted(&mut sorted, x);
        i = i + 1;
    }
    assert(all.take(i as int) =~= all);
    sorted
}

/// The first episode whose key or id is the route's id.
pub open spec fn route_match(eps: Seq<(String, RawEpisode)>, id: Seq<char>, k: int) -> Option<int>
    decreases eps.len() - k,
{
    if k < 0 || k >= eps.len() {
        None
    } else if eps[k].0@ == id || eps[k].1.id@ == id {
        Some(k)
    } else {
        route_match(eps, id, k + 1)
    }
}

pub fn find_episode_for_route(episodes: &[(String, RawEpisode)], episode_id: &str) -> (r: Option<usize>)
    ensures
        match r {
            Some(k) => route_match(episodes@, episode_id@, 0) == Some(k as int),
            None => route_match(episodes@, episode_id@, 0) is None,
        },
{
    let mut k: usize = 0;
    while k < episodes.len()
        invariant
            k <= episodes.len(),
            route_match(episodes@, episode_id@, 0) == route_match(episodes@, episode_id@, k as int),
        decreases episodes.len() - k,
    {
        if crate::text::str_eq(episodes[k].0.as_str(), episode_id) || crate::text::str_eq(
            episodes[k].1.id.as_str(),
            episode_id,
        ) {
            return Some(k);
        }
        k = k + 1;
    }
    None
}

/// The page at a work's root: a short story shows its episode, any other
/// work its index.
pub fn render_work_root_html(
    template: &str,
    site: &str,
    work_key: &str,
    work: &RawWork,
    episodes: &[(String, RawEpisode)],
    host_name: &str,
    img_url: &str,
    images: &ImageTable,
) -> (r: String)
    requires
        short_story(work.serialization@) && episodes.len() > 0 ==> episode_fits(
            episodes@[0].1,
            images.view_table(),
            image_base(img_url@, true),
        ),
    ensures
        r@ == if short_story(work.serialization@) && episodes.len() > 0 {
            filled_template(
                template@,
                episode_page_view(site@, work_key@, *work, episodes@[0].1, host_name@, img_url@, images.view_table()),
            )
        } else {
            filled_template(
                template@,
                work_index_view(site@, work_key@, *work, second_of(episodes@), host_name@, img_url@, images.view_table()),
            )
        },
{
    if crate::text::str_eq(work.serialization.as_str(), "短編") && episodes.len() > 0 {
        return render_episode_page(template, site, work_key, work, &episodes[0].1, host_name, img_url, images);
    }
    let page = work_index_page(site, work_key, work, episodes, host_name, img_url, images);
    render_novel_page(template, &page)
}

/// A work's index page, filled into the template.
pub fn render_work_index(
    template: &str,
    site: &str,
    work_key: &str,
    work: &RawWork,
    episodes: &[(String, RawEpisode)],
    host_name: &str,
    img_url: &str,
    images: &ImageTable,
) -> (r: String)
    ensures
        r@ == filled_template(
            template@,
            work_index_view(site@, work_key@, *work, second_of(episodes@), host_name@, img_url@, images.view_table()),
        ),
{
    let page = work_index_page(site, work_key, work, episodes, host_name, img_url, images);
    render_novel_page(template, &page)
}

/// A work's information page, filled into the template.
pub fn render_work_info(
    template: &str,
    site: &str,
    work_key: &str,
    work: &RawWork,
    episode_count: usize,
    host_name: &str,
    img_url: &str,
    images: &ImageTable,
) -> (r: String)
    ensures
        r@ == filled_template(
            template@,
            work_info_view(site@, work_key@, *work, episode_count as nat, host_name@, img_url@, images.view_table()),
        ),
{
    let page = work_info_page(site, work_key, work, episode_count, host_name, img_url, images);
    render_novel_page(template, &page)
}

} // verus!
