//! Narou works imported from PDF: serialization labels, the chapter field
//! of a request, and the split of a PDF's pages into episodes.
use vstd::prelude::*;
use crate::sites::{NarouSite, Site, SiteId};
use crate::text::{
    chars_eq_str, chars_of, find, find_chars, lemma_find, parse_bounded, parse_unsigned_chars,
    push_all, push_decimal, push_str, slice_range, split_at_char, split_by, string_from_chars,
    trim, trim_chars, views, decimal, join, join_str, replace_all, replace_str, strings_view,
};

verus! {

/// The handler of the Narou site.
pub fn site() -> (r: NarouSite)
    ensures
        r.site_of() == SiteId::Narou,
{
    NarouSite
}

// ---------------------------------------------------------------------------
// Data
// ---------------------------------------------------------------------------

/// Pages `start_page..=end_page` (counted from 1) form the chapter `title`.
#[derive(Debug, Clone, PartialEq, Eq)]
pub struct ChapterRange {
    pub start_page: usize,
    pub end_page: usize,
    pub title: String,
}

impl ChapterRange {
    pub open spec fn view(&self) -> (nat, nat, Seq<char>) {
        (self.start_page as nat, self.end_page as nat, self.title@)
    }
}

/// What the chapter field of a request asks for.
#[derive(Debug, Clone, PartialEq, Eq)]
pub enum ChapterInput {
    NoChapter,
    Label(String),
    Sections(Vec<ChapterRange>),
}

pub enum ChapterInputView {
    NoChapter,
    Label(Seq<char>),
    Sections(Seq<(nat, nat, Seq<char>)>),
}

pub open spec fn ranges_view(v: Seq<ChapterRange>) -> Seq<(nat, nat, Seq<char>)> {
    v.map_values(|c: ChapterRange| c.view())
}

impl ChapterInput {
    pub open spec fn view(&self) -> ChapterInputView {
        match self {
            ChapterInput::NoChapter => ChapterInputView::NoChapter,
            ChapterInput::Label(l) => ChapterInputView::Label(l@),
            ChapterInput::Sections(s) => ChapterInputView::Sections(ranges_view(s@)),
        }
    }
}

/// Why a chapter field or its page ranges were refused.
#[derive(Debug, Clone, PartialEq, Eq)]
pub enum ChapterError {
    InvalidSegment(String),
    EmptyTitle(String),
    MissingRangeStart(String),
    InvalidRangeStart(String),
    InvalidRangeEnd(String),
    InvalidRange(String),
    RangeExceedsPages { start: usize, end: usize, pages: usize },
    RangesOverlap { page: usize },
}

pub enum ChapterErrorView {
    InvalidSegment(Seq<char>),
    EmptyTitle(Seq<char>),
    MissingRangeStart(Seq<char>),
    InvalidRangeStart(Seq<char>),
    InvalidRangeEnd(Seq<char>),
    InvalidRange(Seq<char>),
    RangeExceedsPages { start: nat, end: nat, pages: nat },
    RangesOverlap { page: nat },
}

impl ChapterError {
    pub open spec fn view(&self) -> ChapterErrorView {
        match self {
            ChapterError::InvalidSegment(s) => ChapterErrorView::InvalidSegment(s@),
            ChapterError::EmptyTitle(s) => ChapterErrorView::EmptyTitle(s@),
            ChapterError::MissingRangeStart(s) => ChapterErrorView::MissingRangeStart(s@),
            ChapterError::InvalidRangeStart(s) => ChapterErrorView::InvalidRangeStart(s@),
            ChapterError::InvalidRangeEnd(s) => ChapterErrorView::InvalidRangeEnd(s@),
            ChapterError::InvalidRange(s) => ChapterErrorView::InvalidRange(s@),
            ChapterError::RangeExceedsPages { start, end, pages } => ChapterErrorView::RangeExceedsPages {
                start: *start as nat,
                end: *end as nat,
                pages: *pages as nat,
            },
            ChapterError::RangesOverlap { page } => ChapterErrorView::RangesOverlap { page: *page as nat },
        }
    }

    /// The error as a sentence.
    pub fn message(&self) -> (r: String)
        ensures
            r@ == error_message(self.view()),
    {
        let mut out: Vec<char> = Vec::new();
        match self {
            ChapterError::InvalidSegment(s) => {
                push_str(&mut out, "invalid chapter segment: ");
                push_str(&mut out, s.as_str());
            },
            ChapterError::EmptyTitle(s) => {
                push_str(&mut out, "chapter title is empty in segment: ");
                push_str(&mut out, s.as_str());
            },
            ChapterError::MissingRangeStart(s) => {
                push_str(&mut out, "missing chapter range start: ");
                push_str(&mut out, s.as_str());
            },
            ChapterError::InvalidRangeStart(s) => {
                push_str(&mut out, "invalid chapter range start: ");
                push_str(&mut out, s.as_str());
            },
            ChapterError::InvalidRangeEnd(s) => {
                push_str(&mut out, "invalid chapter range end: ");
                push_str(&mut out, s.as_str());
            },
            ChapterError::InvalidRange(s) => {
                push_str(&mut out, "invalid chapter range: ");
                push_str(&mut out, s.as_str());
            },
            ChapterError::RangeExceedsPages { start, end, pages } => {
                push_str(&mut out, "chapter range ");
                push_decimal(&mut out, *start as u64);
                push_str(&mut out, "-");
                push_decimal(&mut out, *end as u64);
                push_str(&mut out, " exceeds PDF page count ");
                push_decimal(&mut out, *pages as u64);
            },
            ChapterError::RangesOverlap { page } => {
                push_str(&mut out, "chapter ranges overlap around page ");
                push_decimal(&mut out, *page as u64);
            },
        }
        assert(out@ =~= error_message(self.view()));
        string_from_chars(out.as_slice())
    }
}

pub open spec fn error_message(e: ChapterErrorView) -> Seq<char> {
    match e {
        ChapterErrorView::InvalidSegment(s) => "invalid chapter segment: "@ + s,
        ChapterErrorView::EmptyTitle(s) => "chapter title is empty in segment: "@ + s,
        ChapterErrorView::MissingRangeStart(s) => "missing chapter range start: "@ + s,
        ChapterErrorView::InvalidRangeStart(s) => "invalid chapter range start: "@ + s,
        ChapterErrorView::InvalidRangeEnd(s) => "invalid chapter range end: "@ + s,
        ChapterErrorView::InvalidRange(s) => "invalid chapter range: "@ + s,
        ChapterErrorView::RangeExceedsPages { start, end, pages } => "chapter range "@ + decimal(start)
            + "-"@ + decimal(end) + " exceeds PDF page count "@ + decimal(pages),
        ChapterErrorView::RangesOverlap { page } => "chapter ranges overlap around page "@ + decimal(page),
    }
}

// ---------------------------------------------------------------------------
// Serialization
// ---------------------------------------------------------------------------

/// The serialization label of an imported work: the legacy codes and
/// spellings read as `連載中`, `完結済` or `短編`; without one, a work with
/// chapters is ongoing and one without is a short story.
pub open spec fn serialization_label(raw: Option<Seq<char>>, input: ChapterInputView) -> Seq<char> {
    let t = match raw {
        Some(r) => trim(r),
        None => Seq::<char>::empty(),
    };
    if t.len() > 0 {
        if t == "0"@ || t == "連載"@ || t == "連載中"@ {
            "連載中"@
        } else if t == "1"@ || t == "完結"@ || t == "完結済"@ {
            "完結済"@
        } else if t == "2"@ || t == "短編"@ {
            "短編"@
        } else {
            t
        }
    } else {
        match input {
            ChapterInputView::NoChapter => "短編"@,
            _ => "連載中"@,
        }
    }
}

pub open spec fn opt_str_view(o: Option<&str>) -> Option<Seq<char>> {
    match o {
        Some(s) => Some(s@),
        None => None,
    }
}

pub fn normalize_serialization(raw: Option<&str>, chapter_input: &ChapterInput) -> (r: String)
    ensures
        r@ == serialization_label(opt_str_view(raw), chapter_input.view()),
{
    let t = match raw {
        Some(r) => {
            let v = chars_of(r);
            trim_chars(v.as_slice())
        },
        None => Vec::new(),
    };
    if t.len() > 0 {
        let ts = t.as_slice();
        if chars_eq_str(ts, "0") || chars_eq_str(ts, "連載") || chars_eq_str(ts, "連載中") {
            crate::text::owned("連載中")
        } else if chars_eq_str(ts, "1") || chars_eq_str(ts, "完結") || chars_eq_str(ts, "完結済") {
            crate::text::owned("完結済")
        } else if chars_eq_str(ts, "2") || chars_eq_str(ts, "短編") {
            crate::text::owned("短編")
        } else {
            string_from_chars(ts)
        }
    } else {
        match chapter_input {
            ChapterInput::NoChapter => crate::text::owned("短編"),
            _ => crate::text::owned("連載中"),
        }
    }
}

// ---------------------------------------------------------------------------
// Page ranges and the chapter field
// ---------------------------------------------------------------------------

/// `〜` and `~` read as `-`.
pub open spec fn dashed(s: Seq<char>) -> Seq<char> {
    s.map_values(|c: char| if c == '〜' || c == '~' { '-' } else { c })
}

/// A page range `start[-end]` (a single page without `-end`); pages count
/// from 1 and the range may not run backwards.
pub open spec fn page_range(raw: Seq<char>) -> Result<(nat, nat), ChapterErrorView> {
    let n = dashed(trim(raw));
    let first = match find(n, seq!['-']) {
        Some(i) => n.take(i),
        None => n,
    };
    let second = match find(n, seq!['-']) {
        Some(i) => trim(n.skip(i + 1)),
        None => Seq::<char>::empty(),
    };
    if trim(first).len() == 0 {
        Err(ChapterErrorView::MissingRangeStart(raw))
    } else {
        match parse_bounded(trim(first), usize::MAX as nat) {
            None => Err(ChapterErrorView::InvalidRangeStart(raw)),
            Some(start) => {
                let end = if second.len() > 0 {
                    parse_bounded(second, usize::MAX as nat)
                } else {
                    Some(start)
                };
                match end {
                    None => Err(ChapterErrorView::InvalidRangeEnd(raw)),
                    Some(end) => if start == 0 || end == 0 || start > end {
                        Err(ChapterErrorView::InvalidRange(raw))
                    } else {
                        Ok((start, end))
                    },
                }
            },
        }
    }
}

fn dash_chars(v: &[char]) -> (r: Vec<char>)
    ensures
        r@ == dashed(v@),
{
    let mut r: Vec<char> = Vec::new();
    let mut i: usize = 0;
    while i < v.len()
        invariant
            i <= v.len(),
            r@ == dashed(v@.take(i as int)),
        decreases v.len() - i,
    {
        let c = v[i];
        if c == '〜' || c == '~' {
            r.push('-');
        } else {
            r.push(c);
        }
        i = i + 1;
        assert(r@ =~= dashed(v@.take(i as int)));
    }
    assert(v@.take(i as int) =~= v@);
    r
}

fn parse_page_number(v: &[char]) -> (r: Option<usize>)
    ensures
        match r {
            Some(n) => parse_bounded(v@, usize::MAX as nat) == Some(n as nat),
            None => parse_bounded(v@, usize::MAX as nat) is None,
        },
{
    match parse_unsigned_chars(v, usize::MAX as u64) {
        Some(n) => Some(n as usize),
        None => None,
    }
}

pub fn parse_page_range(raw: &str) -> (r: Result<(usize, usize), ChapterError>)
    ensures
        match r {
            Ok((s, e)) => page_range(raw@) == Ok::<(nat, nat), ChapterErrorView>((s as nat, e as nat)),
            Err(err) => page_range(raw@) == Err::<(nat, nat), ChapterErrorView>(err.view()),
        },
{
    let v = chars_of(raw);
    let t = trim_chars(v.as_slice());
    let n = dash_chars(t.as_slice());
    let dash = vec!['-'];
    assert(dash@ =~= seq!['-']);
    let found = find_chars(n.as_slice(), dash.as_slice());
    proof {
        lemma_find(n@, seq!['-']);
    }
    let (first, second) = match found {
        Some(i) => {
            let nlen = n.len();
            assert(find(n@, seq!['-']) == Some(i as int));
            assert(i + 1 <= nlen);
            let f = slice_range(n.as_slice(), 0, i);
            let s = slice_range(n.as_slice(), i + 1, nlen);
            assert(f@ =~= n@.take(i as int));
            assert(s@ =~= n@.skip(i + 1));
            (f, trim_chars(s.as_slice()))
        },
        None => {
            let f = slice_range(n.as_slice(), 0, n.len());
            assert(f@ =~= n@);
            (f, Vec::new())
        },
    };
    let start_text = trim_chars(first.as_slice());
    if start_text.len() == 0 {
        return Err(ChapterError::MissingRangeStart(crate::text::owned(raw)));
    }
    let start = match parse_page_number(start_text.as_slice()) {
        Some(s) => s,
        None => return Err(ChapterError::InvalidRangeStart(crate::text::owned(raw))),
    };
    let end = if second.len() > 0 {
        match parse_page_number(second.as_slice()) {
            Some(e) => e,
            None => return Err(ChapterError::InvalidRangeEnd(crate::text::owned(raw))),
        }
    } else {
        start
    };
    if start == 0 || end == 0 || start > end {
        return Err(ChapterError::InvalidRange(crate::text::owned(raw)));
    }
    Ok((start, end))
}

/// One `range:title` segment of the chapter field.
pub open spec fn chapter_segment(p: Seq<char>) -> Result<(nat, nat, Seq<char>), ChapterErrorView> {
    match find(p, seq![':']) {
        None => Err(ChapterErrorView::InvalidSegment(p)),
        Some(i) => {
            let title = trim(p.skip(i + 1));
            if title.len() == 0 {
                Err(ChapterErrorView::EmptyTitle(p))
            } else {
                match page_range(trim(p.take(i))) {
                    Err(e) => Err(e),
                    Ok((s, e)) => Ok((s, e, title)),
                }
            }
        },
    }
}

/// The segments between commas, in order, blank ones skipped; the first
/// refused segment decides the error.
pub open spec fn chapter_segments(parts: Seq<Seq<char>>) -> Result<Seq<(nat, nat, Seq<char>)>, ChapterErrorView>
    decreases parts.len(),
{
    if parts.len() == 0 {
        Ok(Seq::empty())
    } else if trim(parts[0]).len() == 0 {
        chapter_segments(parts.drop_first())
    } else {
        match chapter_segment(trim(parts[0])) {
            Err(e) => Err(e),
            Ok(sec) => match chapter_segments(parts.drop_first()) {
                Err(e) => Err(e),
                Ok(rest) => Ok(seq![sec] + rest),
            },
        }
    }
}

/// The chapter field: empty means none, text without `:` is a chapter label,
/// and otherwise it lists page ranges with their titles.
pub open spec fn chapter_input(raw: Option<Seq<char>>) -> Result<ChapterInputView, ChapterErrorView> {
    let t = match raw {
        Some(r) => trim(r),
        None => Seq::<char>::empty(),
    };
    if t.len() == 0 {
        Ok(ChapterInputView::NoChapter)
    } else if !t.contains(':') {
        Ok(ChapterInputView::Label(t))
    } else {
        match chapter_segments(split_by(t, seq![','])) {
            Err(e) => Err(e),
            Ok(s) => if s.len() == 0 {
                Ok(ChapterInputView::NoChapter)
            } else {
                Ok(ChapterInputView::Sections(s))
            },
        }
    }
}

fn parse_segment(p: &[char]) -> (r: Result<ChapterRange, ChapterError>)
    ensures
        match r {
            Ok(c) => chapter_segment(p@) == Ok::<(nat, nat, Seq<char>), ChapterErrorView>(c.view()),
            Err(e) => chapter_segment(p@) == Err::<(nat, nat, Seq<char>), ChapterErrorView>(e.view()),
        },
{
    let colon = vec![':'];
    assert(colon@ =~= seq![':']);
    let i = match find_chars(p, colon.as_slice()) {
        Some(i) => i,
        None => return Err(ChapterError::InvalidSegment(string_from_chars(p))),
    };
    proof {
        lemma_find(p@, seq![':']);
    }
    let plen = p.len();
    assert(find(p@, seq![':']) == Some(i as int));
    assert(i + 1 <= plen);
    let after = slice_range(p, i + 1, plen);
    assert(after@ =~= p@.skip(i + 1));
    let title = trim_chars(after.as_slice());
    if title.len() == 0 {
        return Err(ChapterError::EmptyTitle(string_from_chars(p)));
    }
    let before = slice_range(p, 0, i);
    assert(before@ =~= p@.take(i as int));
    let range_text = trim_chars(before.as_slice());
    let rs = string_from_chars(range_text.as_slice());
    match parse_page_range(rs.as_str()) {
        Ok((s, e)) => Ok(ChapterRange { start_page: s, end_page: e, title: string_from_chars(title.as_slice()) }),
        Err(e) => Err(e),
    }
}

pub fn parse_chapter_input(raw: Option<&str>) -> (r: Result<ChapterInput, ChapterError>)
    ensures
        match r {
            Ok(c) => chapter_input(opt_str_view(raw)) == Ok::<ChapterInputView, ChapterErrorView>(c.view()),
            Err(e) => chapter_input(opt_str_view(raw)) == Err::<ChapterInputView, ChapterErrorView>(e.view()),
        },
{
    let t = match raw {
        Some(r) => {
            let v = chars_of(r);
            trim_chars(v.as_slice())
        },
        None => Vec::new(),
    };
    if t.len() == 0 {
        return Ok(ChapterInput::NoChapter);
    }
    if !crate::text::contains_char(t.as_slice(), ':') {
        return Ok(ChapterInput::Label(string_from_chars(t.as_slice())));
    }
    let parts = split_at_char(t.as_slice(), ',');
    let ghost all = views(parts@);
    let mut sections: Vec<ChapterRange> = Vec::new();
    let mut k: usize = 0;
    assert(all.skip(0) =~= all);
    assert(ranges_view(sections@) =~= Seq::<(nat, nat, Seq<char>)>::empty());
    while k < parts.len()
        invariant
            k <= parts.len(),
            all == views(parts@),
            all == split_by(t@, seq![',']),
            chapter_input(opt_str_view(raw)) == match chapter_segments(all) {
                Err(e) => Err(e),
                Ok(s) => if s.len() == 0 {
                    Ok(ChapterInputView::NoChapter)
                } else {
                    Ok(ChapterInputView::Sections(s))
                },
            },
            chapter_segments(all) == match chapter_segments(all.skip(k as int)) {
                Err(e) => Err(e),
                Ok(rest) => Ok(ranges_view(sections@) + rest),
            },
        decreases parts.len() - k,
    {
        let ghost rest = all.skip(k as int);
        assert(rest[0] == parts@[k as int]@);
        assert(rest.drop_first() =~= all.skip(k + 1));
        let p = trim_chars(parts[k].as_slice());
        if p.len() > 0 {
            match parse_segment(p.as_slice()) {
                Ok(c) => {
                    let ghost before = ranges_view(sections@);
                    sections.push(c);
                    assert(ranges_view(sections@) =~= before.push(c.view()));
                    proof {
                        match chapter_segments(all.skip(k + 1)) {
                            Err(e) => {},
                            Ok(tail) => {
                                assert(before + (seq![c.view()] + tail) =~= before.push(c.view()) + tail);
                            },
                        }
                    }
                },
                Err(e) => {
                    assert(p@ == crate::text::trim(rest[0]));
                    assert(chapter_segments(rest) == Err::<Seq<(nat, nat, Seq<char>)>, ChapterErrorView>(e.view()));
                    return Err(e);
                },
            }
        }
        k = k + 1;
    }
    assert(all.skip(k as int) =~= Seq::<Seq<char>>::empty());
    assert(ranges_view(sections@) + Seq::<(nat, nat, Seq<char>)>::empty() =~= ranges_view(sections@));
    if sections.len() == 0 {
        return Ok(ChapterInput::NoChapter);
    }
    Ok(ChapterInput::Sections(sections))
}

// ---------------------------------------------------------------------------
// Episodes
// ---------------------------------------------------------------------------

/// One episode of an imported PDF.
#[derive(Debug, Clone, PartialEq, Eq)]
pub struct ImportedEpisode {
    pub id: String,
    pub chapter: Option<String>,
    pub title: String,
    pub introduction: String,
    pub text: String,
    pub text_count: i64,
}

/// id, chapter, title, introduction and text.
pub type EpisodeView = (Seq<char>, Option<Seq<char>>, Seq<char>, Seq<char>, Seq<char>);

pub open spec fn opt_string_view(o: Option<String>) -> Option<Seq<char>> {
    match o {
        Some(s) => Some(s@),
        None => None,
    }
}

impl ImportedEpisode {
    pub open spec fn view(&self) -> EpisodeView {
        (self.id@, opt_string_view(self.chapter), self.title@, self.introduction@, self.text@)
    }
}

pub open spec fn episodes_view(v: Seq<ImportedEpisode>) -> Seq<EpisodeView> {
    v.map_values(|e: ImportedEpisode| e.view())
}

/// `page-N` for one page, `pages-A-B` for several.
pub open spec fn page_label_text(start: nat, end: nat) -> Seq<char> {
    if start == end {
        "page-"@ + decimal(start)
    } else {
        "pages-"@ + decimal(start) + "-"@ + decimal(end)
    }
}

pub fn page_label(start_page: usize, end_page: usize) -> (r: String)
    ensures
        r@ == page_label_text(start_page as nat, end_page as nat),
{
    let mut out: Vec<char> = Vec::new();
    if start_page == end_page {
        push_str(&mut out, "page-");
        push_decimal(&mut out, start_page as u64);
    } else {
        push_str(&mut out, "pages-");
        push_decimal(&mut out, start_page as u64);
        push_str(&mut out, "-");
        push_decimal(&mut out, end_page as u64);
    }
    assert(out@ =~= page_label_text(start_page as nat, end_page as nat));
    string_from_chars(out.as_slice())
}

/// A page's text with `\r\n` read as `\n`, trimmed.
pub open spec fn page_text(text: Seq<char>) -> Seq<char> {
    trim(replace_all(text, "\r\n"@, "\n"@))
}

pub fn normalize_page_text(text: &str) -> (r: String)
    ensures
        r@ == page_text(text@),
{
    let v = chars_of(text);
    proof {
        reveal_strlit("\r\n");
    }
    let n = replace_str(v.as_slice(), "\r\n", "\n");
    let t = trim_chars(n.as_slice());
    string_from_chars(t.as_slice())
}

/// The separator between the pages of one episode.
pub open spec fn page_break() -> Seq<char> {
    "\n\n[newpage]\n\n"@
}

/// The trimmed pages joined by page breaks, trimmed.
pub open spec fn joined_pages(pages: Seq<Seq<char>>) -> Seq<char> {
    trim(join(pages.map_values(|p: Seq<char>| trim(p)), page_break()))
}

fn join_pages_range(pages: &[String], from: usize, to: usize) -> (r: Vec<char>)
    requires
        from <= to <= pages.len(),
    ensures
        r@ == joined_pages(strings_view(pages@).subrange(from as int, to as int)),
{
    let ghost sel = strings_view(pages@).subrange(from as int, to as int);
    let ghost want = sel.map_values(|p: Seq<char>| trim(p));
    let mut parts: Vec<Vec<char>> = Vec::new();
    let mut k: usize = from;
    while k < to
        invariant
            from <= k <= to <= pages.len(),
            sel == strings_view(pages@).subrange(from as int, to as int),
            want == sel.map_values(|p: Seq<char>| trim(p)),
            views(parts@) == want.take(k - from),
        decreases to - k,
    {
        let v = chars_of(pages[k].as_str());
        let t = trim_chars(v.as_slice());
        assert(t@ == want[k - from]);
        let ghost prev = parts@;
        parts.push(t);
        assert(views(parts@) =~= views(prev).push(want[k - from]));
        assert(want.take(k - from + 1) =~= want.take(k - from).push(want[k - from]));
        k = k + 1;
    }
    assert(want.take(k - from) =~= want);
    let joined = join_str(&parts, "\n\n[newpage]\n\n");
    trim_chars(joined.as_slice())
}

pub fn join_page_text(pages: &[String]) -> (r: String)
    ensures
        r@ == joined_pages(strings_view(pages@)),
{
    let j = join_pages_range(pages, 0, pages.len());
    assert(strings_view(pages@).subrange(0, pages@.len() as int) =~= strings_view(pages@));
    string_from_chars(j.as_slice())
}

/// The episode made of pages `start..=end` (counted from 1): titled by its
/// chapter, else by the work (numbered when the work has several).
pub open spec fn episode_segment(
    work_title: Seq<char>,
    caption: Seq<char>,
    pages: Seq<Seq<char>>,
    start: nat,
    end: nat,
    chapter: Option<Seq<char>>,
    index: nat,
    total_segments: nat,
) -> EpisodeView {
    let text = joined_pages(pages.subrange(start - 1, end as int));
    let title = match chapter {
        Some(c) => c,
        None => if total_segments == 1 {
            work_title
        } else {
            work_title + " "@ + decimal(index)
        },
    };
    let introduction = if total_segments == 1 {
        caption
    } else {
        page_label_text(start, end)
    };
    (page_label_text(start, end), chapter, title, introduction, text)
}

pub fn build_episode_segment(
    work_title: &str,
    caption: &str,
    pages: &[String],
    start_page: usize,
    end_page: usize,
    chapter: Option<&str>,
    index: usize,
    total_segments: usize,
) -> (r: ImportedEpisode)
    requires
        1 <= start_page,
        start_page - 1 <= end_page,
        end_page <= pages.len(),
    ensures
        r.view() == episode_segment(
            work_title@,
            caption@,
            strings_view(pages@),
            start_page as nat,
            end_page as nat,
            opt_str_view(chapter),
            index as nat,
            total_segments as nat,
        ),
        r.text_count == r.text@.len() as i64,
{
    let text_chars = join_pages_range(pages, start_page - 1, end_page);
    let text = string_from_chars(text_chars.as_slice());
    let chapter_owned = match chapter {
        Some(c) => Some(crate::text::owned(c)),
        None => None,
    };
    let title = match chapter {
        Some(c) => crate::text::owned(c),
        None => if total_segments == 1 {
            crate::text::owned(work_title)
        } else {
            let mut t = chars_of(work_title);
            push_str(&mut t, " ");
            push_decimal(&mut t, index as u64);
            string_from_chars(t.as_slice())
        },
    };
    let introduction = if total_segments == 1 {
        crate::text::owned(caption)
    } else {
        page_label(start_page, end_page)
    };
    let count = text_chars.len() as i64;
    ImportedEpisode {
        id: page_label(start_page, end_page),
        chapter: chapter_owned,
        title,
        introduction,
        text,
        text_count: count,
    }
}

// ---------------------------------------------------------------------------
// Chapter sections
// ---------------------------------------------------------------------------

/// `a` sorts before or with `b`, character by character.
pub open spec fn text_le(a: Seq<char>, b: Seq<char>) -> bool
    decreases a.len(),
{
    if a.len() == 0 {
        true
    } else if b.len() == 0 {
        false
    } else if a[0] != b[0] {
        (a[0] as u32) < (b[0] as u32)
    } else {
        text_le(a.drop_first(), b.drop_first())
    }
}

/// `x` sorts strictly before `y` by (start, end, title).
pub open spec fn range_before(x: (nat, nat, Seq<char>), y: (nat, nat, Seq<char>)) -> bool {
    ||| x.0 < y.0
    ||| x.0 == y.0 && x.1 < y.1
    ||| x.0 == y.0 && x.1 == y.1 && text_le(x.2, y.2) && x.2 != y.2
}

/// `x` placed before the first element that it sorts before.
pub open spec fn insert_range(sorted: Seq<(nat, nat, Seq<char>)>, x: (nat, nat, Seq<char>)) -> Seq<(nat, nat, Seq<char>)>
    decreases sorted.len(),
{
    if sorted.len() == 0 {
        seq![x]
    } else if range_before(x, sorted[0]) {
        seq![x] + sorted
    } else {
        seq![sorted[0]] + insert_range(sorted.drop_first(), x)
    }
}

/// The ranges in order of (start, end, title).
pub open spec fn sort_ranges(s: Seq<(nat, nat, Seq<char>)>) -> Seq<(nat, nat, Seq<char>)>
    decreases s.len(),
{
    if s.len() == 0 {
        s
    } else {
        insert_range(sort_ranges(s.drop_last()), s.last())
    }
}

pub fn text_less(a: &[char], b: &[char]) -> (r: bool)
    ensures
        r == (text_le(a@, b@) && a@ != b@),
{
    let mut i: usize = 0;
    assert(a@.skip(0) =~= a@);
    assert(b@.skip(0) =~= b@);
    assert(a@.take(0) =~= b@.take(0));
    while i < a.len() && i < b.len()
        invariant
            i <= a.len(),
            i <= b.len(),
            a@.take(i as int) == b@.take(i as int),
            text_le(a@, b@) == text_le(a@.skip(i as int), b@.skip(i as int)),
        decreases a.len() - i,
    {
        assert(a@.skip(i as int)[0] == a@[i as int]);
        assert(b@.skip(i as int)[0] == b@[i as int]);
        if a[i] != b[i] {
            assert(a@[i as int] != b@[i as int]);
            return (a[i] as u32) < (b[i] as u32);
        }
        assert(a@.skip(i as int).drop_first() =~= a@.skip(i + 1));
        assert(b@.skip(i as int).drop_first() =~= b@.skip(i + 1));
        assert(a@.take(i + 1) =~= a@.take(i as int).push(a@[i as int]));
        assert(b@.take(i + 1) =~= b@.take(i as int).push(b@[i as int]));
        i = i + 1;
    }
    if i == a.len() {
        assert(a@.skip(i as int).len() == 0);
        assert(a@ =~= a@.take(i as int));
        if i == b.len() {
            assert(b@ =~= b@.take(i as int));
        } else {
            assert(a@.len() != b@.len());
        }
        i < b.len()
    } else {
        assert(b@.skip(i as int).len() == 0);
        false
    }
}

fn range_less(x: &ChapterRange, y: &ChapterRange) -> (r: bool)
    ensures
        r == range_before(x.view(), y.view()),
{
    if x.start_page != y.start_page {
        return x.start_page < y.start_page;
    }
    if x.end_page != y.end_page {
        return x.end_page < y.end_page;
    }
    let a = chars_of(x.title.as_str());
    let b = chars_of(y.title.as_str());
    text_less(a.as_slice(), b.as_slice())
}

fn insert_sorted(sorted: &mut Vec<ChapterRange>, x: ChapterRange)
    ensures
        ranges_view(final(sorted)@) == insert_range(ranges_view(old(sorted)@), x.view()),
{
    let ghost start = ranges_view(sorted@);
    let mut j: usize = 0;
    assert(start.skip(0) =~= start);
    while j < sorted.len() && !range_less(&x, &sorted[j])
        invariant
            j <= sorted.len(),
            start == ranges_view(sorted@),
            insert_range(start, x.view()) == start.take(j as int) + insert_range(start.skip(j as int), x.view()),
        decreases sorted.len() - j,
    {
        let ghost rest = start.skip(j as int);
        assert(rest[0] == sorted@[j as int].view());
        assert(rest.drop_first() =~= start.skip(j + 1));
        assert(start.take(j + 1) =~= start.take(j as int).push(rest[0]));
        assert(start.take(j as int) + (seq![rest[0]] + insert_range(rest.drop_first(), x.view())) =~= start.take(
            j + 1,
        ) + insert_range(start.skip(j + 1), x.view()));
        j = j + 1;
    }
    let ghost xv = x.view();
    sorted.insert(j, x);
    assert(ranges_view(sorted@) =~= start.take(j as int) + insert_range(start.skip(j as int), xv)) by {
        if j < start.len() {
            assert(insert_range(start.skip(j as int), xv) == seq![xv] + start.skip(j as int));
        } else {
            assert(start.skip(j as int) =~= Seq::<(nat, nat, Seq<char>)>::empty());
        }
    }
}

fn copy_range(c: &ChapterRange) -> (r: ChapterRange)
    ensures
        r.view() == c.view(),
{
    ChapterRange { start_page: c.start_page, end_page: c.end_page, title: c.title.clone() }
}

/// The chapter ranges sorted by (start, end, title).
pub fn sort_chapter_ranges(sections: &[ChapterRange]) -> (r: Vec<ChapterRange>)
    ensures
        ranges_view(r@) == sort_ranges(ranges_view(sections@)),
{
    let ghost all = ranges_view(sections@);
    let mut sorted: Vec<ChapterRange> = Vec::new();
    let mut i: usize = 0;
    assert(all.take(0) =~= Seq::<(nat, nat, Seq<char>)>::empty());
    assert(ranges_view(sorted@) =~= Seq::<(nat, nat, Seq<char>)>::empty());
    while i < sections.len()
        invariant
            i <= sections.len(),
            all == ranges_view(sections@),
            ranges_view(sorted@) == sort_ranges(all.take(i as int)),
        decreases sections.len() - i,
    {
        assert(all.take(i + 1).drop_last() =~= all.take(i as int));
        assert(all.take(i + 1).last() == sections@[i as int].view());
        let c = copy_range(&sections[i]);
        insert_sorted(&mut sorted, c);
        i = i + 1;
    }
    assert(all.take(i as int) =~= all);
    sorted
}

/// The first reason to refuse ranges taken in order: one that runs past the
/// last page, or one that starts at or before the end of the one before.
pub open spec fn range_problem(ord: Seq<(nat, nat, Seq<char>)>, total: nat, last_end: nat) -> Option<ChapterErrorView>
    decreases ord.len(),
{
    if ord.len() == 0 {
        None
    } else {
        let s = ord[0];
        if s.0 > total || s.1 > total {
            Some(ChapterErrorView::RangeExceedsPages { start: s.0, end: s.1, pages: total })
        } else if s.0 <= last_end {
            Some(ChapterErrorView::RangesOverlap { page: s.0 })
        } else {
            range_problem(ord.drop_first(), total, s.1)
        }
    }
}

/// The page spans of the episodes, from page `current` on: each chapter in
/// order, with the pages before, between and after chapters as untitled
/// spans.
pub open spec fn page_segments(ord: Seq<(nat, nat, Seq<char>)>, total: nat, current: nat) -> Seq<(nat, nat, Option<Seq<char>>)>
    decreases ord.len(),
{
    if ord.len() == 0 {
        if current <= total {
            seq![(current, total, None::<Seq<char>>)]
        } else {
            Seq::empty()
        }
    } else {
        let s = ord[0];
        let gap = if current < s.0 {
            seq![(current, (s.0 - 1) as nat, None::<Seq<char>>)]
        } else {
            Seq::empty()
        };
        gap + seq![(s.0, s.1, Some(s.2))] + page_segments(ord.drop_first(), total, s.1 + 1)
    }
}

/// The episodes of the given page spans, numbered from 1.
pub open spec fn segment_episodes(
    work_title: Seq<char>,
    caption: Seq<char>,
    pages: Seq<Seq<char>>,
    segs: Seq<(nat, nat, Option<Seq<char>>)>,
) -> Seq<EpisodeView> {
    let total: nat = if segs.len() > 1 {
        segs.len()
    } else {
        1
    };
    Seq::new(
        segs.len(),
        |k: int| episode_segment(work_title, caption, pages, segs[k].0, segs[k].1, segs[k].2, (k + 1) as nat, total),
    )
}

/// Episodes of a PDF split by chapter ranges, or why the ranges are refused.
pub open spec fn chapter_sections(
    work_title: Seq<char>,
    caption: Seq<char>,
    pages: Seq<Seq<char>>,
    sections: Seq<(nat, nat, Seq<char>)>,
) -> Result<Seq<EpisodeView>, ChapterErrorView> {
    let ord = sort_ranges(sections);
    match range_problem(ord, pages.len(), 0) {
        Some(e) => Err(e),
        None => Ok(segment_episodes(work_title, caption, pages, page_segments(ord, pages.len(), 1))),
    }
}

/// No chapter ends more than one page before it starts.
pub open spec fn ranges_ordered(ord: Seq<(nat, nat, Seq<char>)>) -> bool {
    forall|i: int| 0 <= i < ord.len() ==> #[trigger] ord[i].0 <= ord[i].1 + 1
}

pub open spec fn segs_view(v: Seq<(usize, usize, Option<String>)>) -> Seq<(nat, nat, Option<Seq<char>>)> {
    v.map_values(|t: (usize, usize, Option<String>)| (t.0 as nat, t.1 as nat, opt_string_view(t.2)))
}

fn check_ranges(ord: &Vec<ChapterRange>, total: usize) -> (r: Option<ChapterError>)
    ensures
        match r {
            Some(e) => range_problem(ranges_view(ord@), total as nat, 0) == Some(e.view()),
            None => range_problem(ranges_view(ord@), total as nat, 0) is None,
        },
{
    let ghost all = ranges_view(ord@);
    let mut last_end: usize = 0;
    let mut i: usize = 0;
    assert(all.skip(0) =~= all);
    while i < ord.len()
        invariant
            i <= ord.len(),
            all == ranges_view(ord@),
            range_problem(all, total as nat, 0) == range_problem(all.skip(i as int), total as nat, last_end as nat),
        decreases ord.len() - i,
    {
        let ghost rest = all.skip(i as int);
        assert(rest[0] == ord@[i as int].view());
        assert(rest.drop_first() =~= all.skip(i + 1));
        let s = &ord[i];
        if s.start_page > total || s.end_page > total {
            return Some(ChapterError::RangeExceedsPages { start: s.start_page, end: s.end_page, pages: total });
        }
        if s.start_page <= last_end {
            return Some(ChapterError::RangesOverlap { page: s.start_page });
        }
        last_end = s.end_page;
        i = i + 1;
    }
    None
}

fn collect_segments(ord: &Vec<ChapterRange>, total: usize) -> (r: Vec<(usize, usize, Option<String>)>)
    requires
        total < usize::MAX,
        range_problem(ranges_view(ord@), total as nat, 0) is None,
        ranges_ordered(ranges_view(ord@)),
    ensures
        segs_view(r@) == page_segments(ranges_view(ord@), total as nat, 1),
        forall|k: int| 0 <= k < r@.len() ==> 1 <= (#[trigger] r@[k]).0 && r@[k].0 <= r@[k].1 + 1 && r@[k].1 <= total,
{
    let ghost all = ranges_view(ord@);
    let mut segs: Vec<(usize, usize, Option<String>)> = Vec::new();
    let mut current: usize = 1;
    let mut i: usize = 0;
    assert(all.skip(0) =~= all);
    assert(segs_view(segs@) =~= Seq::<(nat, nat, Option<Seq<char>>)>::empty());
    while i < ord.len()
        invariant
            i <= ord.len(),
            total < usize::MAX,
            all == ranges_view(ord@),
            ranges_ordered(all),
            1 <= current <= total + 1,
            range_problem(all.skip(i as int), total as nat, (current - 1) as nat) is None,
            page_segments(all, total as nat, 1) == segs_view(segs@) + page_segments(
                all.skip(i as int),
                total as nat,
                current as nat,
            ),
            forall|k: int| 0 <= k < segs@.len() ==> 1 <= (#[trigger] segs@[k]).0 && segs@[k].0 <= segs@[k].1 + 1 && segs@[k].1 <= total,
        decreases ord.len() - i,
    {
        let ghost rest = all.skip(i as int);
        assert(rest[0] == ord@[i as int].view());
        assert(rest.drop_first() =~= all.skip(i + 1));
        assert(all[i as int] == rest[0]);
        let s = &ord[i];
        let ghost before = segs_view(segs@);
        let ghost gap = if current < s.start_page {
            seq![(current as nat, (s.start_page - 1) as nat, None::<Seq<char>>)]
        } else {
            Seq::<(nat, nat, Option<Seq<char>>)>::empty()
        };
        if current < s.start_page {
            segs.push((current, s.start_page - 1, None));
        }
        assert(segs_view(segs@) =~= before + gap);
        let ghost mid = segs_view(segs@);
        segs.push((s.start_page, s.end_page, Some(s.title.clone())));
        assert(segs_view(segs@) =~= mid + seq![(s.start_page as nat, s.end_page as nat, Some(s.title@))]);
        assert(before + (gap + seq![(rest[0].0, rest[0].1, Some(rest[0].2))] + page_segments(
            rest.drop_first(),
            total as nat,
            rest[0].1 + 1,
        )) =~= segs_view(segs@) + page_segments(rest.drop_first(), total as nat, rest[0].1 + 1));
        current = s.end_page + 1;
        i = i + 1;
    }
    if current <= total {
        let ghost before = segs_view(segs@);
        segs.push((current, total, None));
        assert(segs_view(segs@) =~= before + seq![(current as nat, total as nat, None::<Seq<char>>)]);
    } else {
        assert(segs_view(segs@) + Seq::<(nat, nat, Option<Seq<char>>)>::empty() =~= segs_view(segs@));
    }
    segs
}

/// Splits the pages of a PDF into episodes by chapter ranges, refusing
/// ranges past the last page or overlapping one another.
/// Every episode counts the characters of its text.
pub open spec fn counts_text(eps: Seq<ImportedEpisode>) -> bool {
    forall|i: int| 0 <= i < eps.len() ==> (#[trigger] eps[i]).text_count == eps[i].text@.len() as i64
}

pub fn build_chapter_sections(
    work_title: &str,
    caption: &str,
    pages: &[String],
    sections: &[ChapterRange],
) -> (r: Result<Vec<ImportedEpisode>, ChapterError>)
    requires
        pages.len() < usize::MAX,
        range_problem(sort_ranges(ranges_view(sections@)), pages.len() as nat, 0) is None ==> ranges_ordered(
            ranges_view(sections@),
        ),
    ensures
        match r {
            Ok(eps) => chapter_sections(work_title@, caption@, strings_view(pages@), ranges_view(sections@))
                == Ok::<Seq<EpisodeView>, ChapterErrorView>(episodes_view(eps@)) && counts_text(eps@),
            Err(e) => chapter_sections(work_title@, caption@, strings_view(pages@), ranges_view(sections@))
                == Err::<Seq<EpisodeView>, ChapterErrorView>(e.view()),
        },
{
    let total = pages.len();
    proof {
        if ranges_ordered(ranges_view(sections@)) {
            lemma_sort_keeps_ordered(ranges_view(sections@));
        }
    }
    let ord = sort_chapter_ranges(sections);
    if let Some(e) = check_ranges(&ord, total) {
        return Err(e);
    }
    let segs = collect_segments(&ord, total);
    let ghost sv = segs_view(segs@);
    let total_segments: usize = if segs.len() > 1 {
        segs.len()
    } else {
        1
    };
    let ghost want = segment_episodes(work_title@, caption@, strings_view(pages@), sv);
    let mut episodes: Vec<ImportedEpisode> = Vec::new();
    let mut k: usize = 0;
    while k < segs.len()
        invariant
            k <= segs.len(),
            sv == segs_view(segs@),
            total == pages.len(),
            total_segments as nat == (if sv.len() > 1 {
                sv.len()
            } else {
                1
            }),
            want == segment_episodes(work_title@, caption@, strings_view(pages@), sv),
            forall|j: int| 0 <= j < segs@.len() ==> 1 <= (#[trigger] segs@[j]).0 && segs@[j].0 <= segs@[j].1 + 1 && segs@[j].1 <= total,
            episodes_view(episodes@) == want.take(k as int),
            counts_text(episodes@),
        decreases segs.len() - k,
    {
        let seg = &segs[k];
        assert(1 <= segs@[k as int].0);
        let chapter: Option<&str> = match &seg.2 {
            Some(c) => Some(c.as_str()),
            None => None,
        };
        let ep = build_episode_segment(work_title, caption, pages, seg.0, seg.1, chapter, k + 1, total_segments);
        assert(ep.view() == want[k as int]);
        let ghost prev = episodes_view(episodes@);
        let ghost before = episodes@;
        episodes.push(ep);
        assert(episodes@ =~= before.push(ep));
        assert(episodes_view(episodes@) =~= prev.push(want[k as int]));
        assert(want.take(k + 1) =~= want.take(k as int).push(want[k as int]));
        k = k + 1;
    }
    assert(want.take(k as int) =~= want);
    Ok(episodes)
}

/// The pages of a PDF as episodes read them: each normalized, and one empty
/// page for a PDF without text.
pub open spec fn normalized_pages(pages: Seq<Seq<char>>) -> Seq<Seq<char>> {
    if pages.len() == 0 {
        seq![Seq::<char>::empty()]
    } else {
        pages.map_values(|p: Seq<char>| page_text(p))
    }
}

/// The episodes of an imported PDF: one for the whole text, under the
/// chapter label if there is one, or one per span of the chapter ranges.
pub open spec fn pdf_episodes(
    work_title: Seq<char>,
    caption: Seq<char>,
    pages: Seq<Seq<char>>,
    input: ChapterInputView,
) -> Result<Seq<EpisodeView>, ChapterErrorView> {
    let np = normalized_pages(pages);
    match input {
        ChapterInputView::NoChapter => Ok(
            seq![episode_segment(work_title, caption, np, 1, np.len(), None, 1, 1)],
        ),
        ChapterInputView::Label(l) => Ok(
            seq![episode_segment(work_title, caption, np, 1, np.len(), Some(l), 1, 1)],
        ),
        ChapterInputView::Sections(s) => chapter_sections(work_title, caption, np, s),
    }
}

/// Every chapter range starts on page 1 or later and does not run backwards.
pub open spec fn ranges_valid(s: Seq<(nat, nat, Seq<char>)>) -> bool {
    forall|i: int| 0 <= i < s.len() ==> 1 <= (#[trigger] s[i]).0 && s[i].0 <= s[i].1
}

/// What `build_pdf_episodes` needs of chapter ranges that pass the checks:
/// none ends more than one page before it starts (a page span that the
/// episode builder could not take).
pub open spec fn sections_usable(input: ChapterInputView, page_count: nat) -> bool {
    match input {
        ChapterInputView::Sections(s) => range_problem(sort_ranges(s), page_count, 0) is None
            ==> ranges_ordered(s),
        _ => true,
    }
}

fn normalize_pages(pages: &[String]) -> (r: Vec<String>)
    ensures
        strings_view(r@) == normalized_pages(strings_view(pages@)),
{
    let mut out: Vec<String> = Vec::new();
    if pages.len() == 0 {
        out.push(String::new());
        assert(strings_view(out@) =~= seq![Seq::<char>::empty()]);
        return out;
    }
    let ghost want = strings_view(pages@).map_values(|p: Seq<char>| page_text(p));
    let mut i: usize = 0;
    while i < pages.len()
        invariant
            i <= pages.len(),
            want == strings_view(pages@).map_values(|p: Seq<char>| page_text(p)),
            strings_view(out@) == want.take(i as int),
        decreases pages.len() - i,
    {
        let t = normalize_page_text(pages[i].as_str());
        let ghost prev = strings_view(out@);
        out.push(t);
        assert(strings_view(out@) =~= prev.push(want[i as int]));
        assert(want.take(i + 1) =~= want.take(i as int).push(want[i as int]));
        i = i + 1;
    }
    assert(want.take(i as int) =~= want);
    out
}

/// Splits the text of a PDF into episodes as the chapter field asks.
pub fn build_pdf_episodes(
    work_title: &str,
    caption: &str,
    pages: &[String],
    chapter_input: &ChapterInput,
) -> (r: Result<Vec<ImportedEpisode>, ChapterError>)
    requires
        pages.len() < usize::MAX,
        sections_usable(chapter_input.view(), normalized_pages(strings_view(pages@)).len()),
    ensures
        match r {
            Ok(eps) => pdf_episodes(work_title@, caption@, strings_view(pages@), chapter_input.view())
                == Ok::<Seq<EpisodeView>, ChapterErrorView>(episodes_view(eps@)) && counts_text(eps@),
            Err(e) => pdf_episodes(work_title@, caption@, strings_view(pages@), chapter_input.view())
                == Err::<Seq<EpisodeView>, ChapterErrorView>(e.view()),
        },
{
    let normalized = normalize_pages(pages);
    match chapter_input {
        ChapterInput::NoChapter => {
            let ep = build_episode_segment(work_title, caption, normalized.as_slice(), 1, normalized.len(), None, 1, 1);
            let mut v: Vec<ImportedEpisode> = Vec::new();
            v.push(ep);
            assert(episodes_view(v@) =~= seq![ep.view()]);
            assert(v@[0] == ep);
            Ok(v)
        },
        ChapterInput::Label(label) => {
            let ep = build_episode_segment(
                work_title,
                caption,
                normalized.as_slice(),
                1,
                normalized.len(),
                Some(label.as_str()),
                1,
                1,
            );
            let mut v: Vec<ImportedEpisode> = Vec::new();
            v.push(ep);
            assert(episodes_view(v@) =~= seq![ep.view()]);
            assert(v@[0] == ep);
            Ok(v)
        },
        ChapterInput::Sections(sections) => {
            build_chapter_sections(work_title, caption, normalized.as_slice(), sections.as_slice())
        },
    }
}

// ---------------------------------------------------------------------------
// Laws of the chapter ranges
// ---------------------------------------------------------------------------

proof fn lemma_page_range_valid(raw: Seq<char>)
    ensures
        page_range(raw) matches Ok((s, e)) ==> 1 <= s && s <= e,
{
}

proof fn lemma_chapter_segments_valid(parts: Seq<Seq<char>>)
    ensures
        chapter_segments(parts) matches Ok(ss) ==> ranges_valid(ss),
    decreases parts.len(),
{
    if parts.len() > 0 {
        lemma_chapter_segments_valid(parts.drop_first());
        let p = trim(parts[0]);
        if p.len() > 0 {
            if let Some(i) = find(p, seq![':']) {
                lemma_page_range_valid(trim(p.take(i)));
            }
            if let (Ok(sec), Ok(rest)) = (chapter_segment(p), chapter_segments(parts.drop_first())) {
                let all = seq![sec] + rest;
                assert forall|i: int| 0 <= i < all.len() implies 1 <= (#[trigger] all[i]).0 && all[i].0 <= all[i].1 by {
                    if i > 0 {
                        assert(all[i] == rest[i - 1]);
                    }
                }
            }
        }
    }
}

proof fn lemma_insert_range_elements(sorted: Seq<(nat, nat, Seq<char>)>, x: (nat, nat, Seq<char>))
    ensures
        forall|y: (nat, nat, Seq<char>)| #[trigger] insert_range(sorted, x).contains(y) ==> y == x || sorted.contains(y),
    decreases sorted.len(),
{
    if sorted.len() > 0 && !range_before(x, sorted[0]) {
        lemma_insert_range_elements(sorted.drop_first(), x);
        let r = seq![sorted[0]] + insert_range(sorted.drop_first(), x);
        assert forall|y: (nat, nat, Seq<char>)| #[trigger] r.contains(y) implies y == x || sorted.contains(y) by {
            let k = choose|k: int| 0 <= k < r.len() && r[k] == y;
            if k == 0 {
                assert(sorted[0] == y);
            } else {
                assert(insert_range(sorted.drop_first(), x).contains(y)) by {
                    assert(insert_range(sorted.drop_first(), x)[k - 1] == y);
                }
                if sorted.drop_first().contains(y) {
                    let j = choose|j: int| 0 <= j < sorted.drop_first().len() && sorted.drop_first()[j] == y;
                    assert(sorted[j + 1] == y);
                }
            }
        }
    } else if sorted.len() > 0 {
        let r = seq![x] + sorted;
        assert forall|y: (nat, nat, Seq<char>)| #[trigger] r.contains(y) implies y == x || sorted.contains(y) by {
            let k = choose|k: int| 0 <= k < r.len() && r[k] == y;
            if k > 0 {
                assert(sorted[k - 1] == y);
            }
        }
    } else {
        assert forall|y: (nat, nat, Seq<char>)| #[trigger] seq![x].contains(y) implies y == x || sorted.contains(y) by {
            let k = choose|k: int| 0 <= k < seq![x].len() && seq![x][k] == y;
        }
    }
}

proof fn lemma_sort_ranges_elements(s: Seq<(nat, nat, Seq<char>)>)
    ensures
        forall|y: (nat, nat, Seq<char>)| #[trigger] sort_ranges(s).contains(y) ==> s.contains(y),
    decreases s.len(),
{
    if s.len() > 0 {
        lemma_sort_ranges_elements(s.drop_last());
        lemma_insert_range_elements(sort_ranges(s.drop_last()), s.last());
        assert forall|y: (nat, nat, Seq<char>)| #[trigger] sort_ranges(s).contains(y) implies s.contains(y) by {
            if y == s.last() {
                assert(s[s.len() - 1] == y);
            } else {
                assert(sort_ranges(s.drop_last()).contains(y));
                let j = choose|j: int| 0 <= j < s.drop_last().len() && s.drop_last()[j] == y;
                assert(s[j] == y);
            }
        }
    }
}

/// Sorting keeps every range from running backwards.
proof fn lemma_sort_keeps_ordered(s: Seq<(nat, nat, Seq<char>)>)
    requires
        ranges_ordered(s),
    ensures
        ranges_ordered(sort_ranges(s)),
{
    lemma_sort_ranges_elements(s);
    let ord = sort_ranges(s);
    assert forall|i: int| 0 <= i < ord.len() implies #[trigger] ord[i].0 <= ord[i].1 + 1 by {
        assert(ord.contains(ord[i]));
        let j = choose|j: int| 0 <= j < s.len() && s[j] == ord[i];
        assert(s[j].0 <= s[j].1 + 1);
    }
}

/// Law: the chapter ranges that the chapter field yields always meet what
/// `build_pdf_episodes` needs of them.
pub proof fn lemma_parsed_sections_usable(raw: Option<Seq<char>>, page_count: nat)
    ensures
        chapter_input(raw) matches Ok(input) ==> sections_usable(input, page_count),
{
    let t = match raw {
        Some(r) => trim(r),
        None => Seq::<char>::empty(),
    };
    lemma_chapter_segments_valid(split_by(t, seq![',']));
    if let Ok(ChapterInputView::Sections(s)) = chapter_input(raw) {
        assert(ranges_valid(s));
        lemma_sort_ranges_elements(s);
        let ord = sort_ranges(s);
        assert forall|i: int| 0 <= i < ord.len() implies #[trigger] ord[i].0 <= ord[i].1 + 1 by {
            assert(ord.contains(ord[i]));
            let j = choose|j: int| 0 <= j < s.len() && s[j] == ord[i];
            assert(1 <= s[j].0 && s[j].0 <= s[j].1);
        }
    }
}

/// The spans from page `current` on cover the pages up to the last, each
/// starting right after the one before.
proof fn lemma_segments_contiguous(ord: Seq<(nat, nat, Seq<char>)>, total: nat, current: nat)
    requires
        1 <= current <= total + 1,
        range_problem(ord, total, (current - 1) as nat) is None,
        ranges_ordered(ord),
    ensures
        ({
            let segs = page_segments(ord, total, current);
            &&& segs.len() == 0 <==> current == total + 1
            &&& segs.len() > 0 ==> segs[0].0 == current && segs.last().1 == total
            &&& forall|k: int| 0 <= k < segs.len() - 1 ==> #[trigger] segs[k + 1].0 == segs[k].1 + 1
            &&& forall|k: int| 0 <= k < segs.len() ==> #[trigger] segs[k].0 <= segs[k].1 + 1
        }),
    decreases ord.len(),
{
    if ord.len() > 0 {
        let s = ord[0];
        assert(ranges_ordered(ord.drop_first())) by {
            assert forall|i: int| 0 <= i < ord.drop_first().len() implies #[trigger] ord.drop_first()[i].0
                <= ord.drop_first()[i].1 + 1 by {
                assert(ord.drop_first()[i] == ord[i + 1]);
            }
        }
        assert(ord[0].0 <= ord[0].1 + 1);
        lemma_segments_contiguous(ord.drop_first(), total, s.1 + 1);
        let gap = if current < s.0 {
            seq![(current, (s.0 - 1) as nat, None::<Seq<char>>)]
        } else {
            Seq::<(nat, nat, Option<Seq<char>>)>::empty()
        };
        let head = gap + seq![(s.0, s.1, Some(s.2))];
        let tail = page_segments(ord.drop_first(), total, s.1 + 1);
        let segs = page_segments(ord, total, current);
        assert(segs == head + tail);
        assert forall|k: int| 0 <= k < segs.len() - 1 implies #[trigger] segs[k + 1].0 == segs[k].1 + 1 by {
            if k + 1 < head.len() {
                assert(segs[k] == head[k]);
                assert(segs[k + 1] == head[k + 1]);
                assert(head[k] == gap[0]);
                assert(head[k + 1] == (s.0, s.1, Some(s.2)));
            } else if k + 1 == head.len() {
                assert(segs[k] == head[k]);
                assert(head[k] == (s.0, s.1, Some(s.2)));
                assert(segs[k + 1] == tail[0]);
            } else {
                let j = k - head.len();
                assert(segs[k + 1] == tail[j + 1]);
                assert(segs[k] == tail[j]);
                assert(tail[j + 1].0 == tail[j].1 + 1);
            }
        }
        assert forall|k: int| 0 <= k < segs.len() implies #[trigger] segs[k].0 <= segs[k].1 + 1 by {
            if k >= head.len() {
                assert(segs[k] == tail[k - head.len()]);
            }
        }
        if tail.len() > 0 {
            assert(segs.last() == tail.last());
        }
    }
}

/// Law: when the chapter ranges are accepted, the episodes' page spans run
/// from the first page to the last, each starting right after the one
/// before, so every page lands in exactly one episode.
pub proof fn lemma_sections_partition_pages(sections: Seq<(nat, nat, Seq<char>)>, total: nat)
    requires
        range_problem(sort_ranges(sections), total, 0) is None,
        ranges_ordered(sort_ranges(sections)),
    ensures
        ({
            let segs = page_segments(sort_ranges(sections), total, 1);
            &&& total == 0 <==> segs.len() == 0
            &&& segs.len() > 0 ==> segs[0].0 == 1 && segs.last().1 == total
            &&& forall|k: int| 0 <= k < segs.len() - 1 ==> #[trigger] segs[k + 1].0 == segs[k].1 + 1
            &&& forall|k: int| 0 <= k < segs.len() ==> #[trigger] segs[k].0 <= segs[k].1 + 1
        }),
{
    lemma_segments_contiguous(sort_ranges(sections), total, 1);
}

/// The chapter spans among page spans, in order.
pub open spec fn titled(segs: Seq<(nat, nat, Option<Seq<char>>)>) -> Seq<(nat, nat, Option<Seq<char>>)> {
    segs.filter(|g: (nat, nat, Option<Seq<char>>)| g.2 is Some)
}

/// Chapter ranges as titled page spans.
pub open spec fn as_spans(ord: Seq<(nat, nat, Seq<char>)>) -> Seq<(nat, nat, Option<Seq<char>>)> {
    ord.map_values(|s: (nat, nat, Seq<char>)| (s.0, s.1, Some(s.2)))
}

proof fn lemma_titled_segments(ord: Seq<(nat, nat, Seq<char>)>, total: nat, current: nat)
    ensures
        titled(page_segments(ord, total, current)) == as_spans(ord),
    decreases ord.len(),
{
    reveal_with_fuel(Seq::filter, 2);
    let pred = |g: (nat, nat, Option<Seq<char>>)| g.2 is Some;
    if ord.len() == 0 {
        if current <= total {
            let one = seq![(current, total, None::<Seq<char>>)];
            assert(one.drop_last() =~= Seq::<(nat, nat, Option<Seq<char>>)>::empty());
            assert(one.filter(pred) =~= Seq::<(nat, nat, Option<Seq<char>>)>::empty());
        }
        assert(as_spans(ord) =~= Seq::<(nat, nat, Option<Seq<char>>)>::empty());
    } else {
        let s = ord[0];
        lemma_titled_segments(ord.drop_first(), total, s.1 + 1);
        let gap = if current < s.0 {
            seq![(current, (s.0 - 1) as nat, None::<Seq<char>>)]
        } else {
            Seq::<(nat, nat, Option<Seq<char>>)>::empty()
        };
        let mid = seq![(s.0, s.1, Some(s.2))];
        let rest = page_segments(ord.drop_first(), total, s.1 + 1);
        assert(page_segments(ord, total, current) == gap + mid + rest);
        Seq::filter_distributes_over_add(gap + mid, rest, pred);
        Seq::filter_distributes_over_add(gap, mid, pred);
        if gap.len() > 0 {
            assert(gap.drop_last() =~= Seq::<(nat, nat, Option<Seq<char>>)>::empty());
        }
        assert(gap.filter(pred) =~= Seq::<(nat, nat, Option<Seq<char>>)>::empty());
        assert(mid.drop_last() =~= Seq::<(nat, nat, Option<Seq<char>>)>::empty());
        assert(mid.filter(pred) =~= mid);
        assert(as_spans(ord) =~= mid + as_spans(ord.drop_first()));
        assert(gap.filter(pred) + mid.filter(pred) + rest.filter(pred) =~= mid + as_spans(ord.drop_first()));
    }
}

proof fn lemma_insert_range_keeps(sorted: Seq<(nat, nat, Seq<char>)>, x: (nat, nat, Seq<char>))
    ensures
        insert_range(sorted, x).contains(x),
        forall|y: (nat, nat, Seq<char>)| #[trigger] sorted.contains(y) ==> insert_range(sorted, x).contains(y),
    decreases sorted.len(),
{
    if sorted.len() == 0 {
        assert(insert_range(sorted, x)[0] == x);
    } else if range_before(x, sorted[0]) {
        let r = seq![x] + sorted;
        assert(r[0] == x);
        assert forall|y: (nat, nat, Seq<char>)| #[trigger] sorted.contains(y) implies r.contains(y) by {
            let k = choose|k: int| 0 <= k < sorted.len() && sorted[k] == y;
            assert(r[k + 1] == y);
        }
    } else {
        lemma_insert_range_keeps(sorted.drop_first(), x);
        let inner = insert_range(sorted.drop_first(), x);
        let r = seq![sorted[0]] + inner;
        let k = choose|k: int| 0 <= k < inner.len() && inner[k] == x;
        assert(r[k + 1] == x);
        assert forall|y: (nat, nat, Seq<char>)| #[trigger] sorted.contains(y) implies r.contains(y) by {
            let j = choose|j: int| 0 <= j < sorted.len() && sorted[j] == y;
            if j == 0 {
                assert(r[0] == y);
            } else {
                assert(sorted.drop_first()[j - 1] == y);
                assert(sorted.drop_first().contains(y));
                let m = choose|m: int| 0 <= m < inner.len() && inner[m] == y;
                assert(r[m + 1] == y);
            }
        }
    }
}

proof fn lemma_sort_ranges_keeps(s: Seq<(nat, nat, Seq<char>)>)
    ensures
        forall|y: (nat, nat, Seq<char>)| #[trigger] s.contains(y) ==> sort_ranges(s).contains(y),
    decreases s.len(),
{
    if s.len() > 0 {
        lemma_sort_ranges_keeps(s.drop_last());
        lemma_insert_range_keeps(sort_ranges(s.drop_last()), s.last());
        assert forall|y: (nat, nat, Seq<char>)| #[trigger] s.contains(y) implies sort_ranges(s).contains(y) by {
            let k = choose|k: int| 0 <= k < s.len() && s[k] == y;
            if k < s.len() - 1 {
                assert(s.drop_last()[k] == y);
                assert(s.drop_last().contains(y));
            }
        }
    }
}

/// Law: chapter ranges are refused exactly when, taken in order, one runs
/// past the last page or overlaps the one before; otherwise the episodes
/// follow the page spans one for one, each with the id of its pages and its
/// chapter, a chapter's episode titled by it; the spans run from the first
/// page to the last, each starting right after the one before; and the
/// chapter spans are the given ranges, each once for each time it is
/// given, in order.
pub proof fn lemma_chapter_sections_law(
    work_title: Seq<char>,
    caption: Seq<char>,
    pages: Seq<Seq<char>>,
    sections: Seq<(nat, nat, Seq<char>)>,
)
    requires
        ranges_ordered(sections),
    ensures
        chapter_sections(work_title, caption, pages, sections) is Err <==> range_problem(
            sort_ranges(sections),
            pages.len(),
            0,
        ) is Some,
        chapter_sections(work_title, caption, pages, sections) matches Err(e) ==> range_problem(
            sort_ranges(sections),
            pages.len(),
            0,
        ) == Some(e),
        chapter_sections(work_title, caption, pages, sections) matches Ok(eps) ==> ({
            let segs = page_segments(sort_ranges(sections), pages.len(), 1);
            &&& eps.len() == segs.len()
            &&& forall|k: int| 0 <= k < eps.len() ==> (#[trigger] eps[k]).0 == page_label_text(segs[k].0, segs[k].1)
                && eps[k].1 == segs[k].2
            &&& forall|k: int| 0 <= k < eps.len() && (#[trigger] segs[k]).2 is Some ==> eps[k].2 == segs[k].2->0
            &&& pages.len() == 0 <==> segs.len() == 0
            &&& segs.len() > 0 ==> segs[0].0 == 1 && segs.last().1 == pages.len()
            &&& forall|k: int| 0 <= k < segs.len() - 1 ==> #[trigger] segs[k + 1].0 == segs[k].1 + 1
            &&& titled(segs) == as_spans(sort_ranges(sections))
            &&& forall|y: (nat, nat, Seq<char>)| #[trigger] sort_ranges(sections).contains(y) <==> sections.contains(y)
        }),
{
    lemma_sort_keeps_ordered(sections);
    lemma_sort_ranges_elements(sections);
    lemma_sort_ranges_keeps(sections);
    let ord = sort_ranges(sections);
    if range_problem(ord, pages.len(), 0) is None {
        lemma_sections_partition_pages(sections, pages.len());
        lemma_titled_segments(ord, pages.len(), 1);
    }
}

} // verus!
