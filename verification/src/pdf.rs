//! Reading the text of a Narou PDF: full-width characters, metadata labels
//! and values, the sections of a page, and the assembly of episodes from
//! the pages in order.
use vstd::prelude::*;
use crate::text::{
    chars_of, contains, contains_str, find, find_str, has_prefix, join, join_str, keep_nonempty,
    lemma_find, lower, lower_chars, push_str, replace_all, replace_str, slice_range, split_by,
    split_chars, string_from_chars, strings_view, trim, trim_bounds, trim_chars, trim_start,
    trim_start_set, trim_start_set_chars, views,
};
use crate::narou::{opt_string_view, page_label, page_label_text};
use crate::text::{decimal, push_decimal, parse_bounded, strs_view};
use crate::work_key::{regex_capture, regex_group, regex_is_match, regex_matches, to_lowercase, unicode_lower};

verus! {

// ---------------------------------------------------------------------------
// Characters and labels
// ---------------------------------------------------------------------------

/// Full-width digits, letters, space, colon, slash and hyphen read as their
/// ASCII forms.
pub open spec fn ascii_width_char(c: char) -> char {
    let n = c as u32;
    if n == 0x3000 {
        ' '
    } else if (0xFF10 <= n <= 0xFF19) || (0xFF21 <= n <= 0xFF3A) || (0xFF41 <= n <= 0xFF5A) {
        ((n - 0xFEE0) as u8) as char
    } else if c == '：' {
        ':'
    } else if c == '／' {
        '/'
    } else if c == '－' {
        '-'
    } else {
        c
    }
}

pub open spec fn ascii_width(s: Seq<char>) -> Seq<char> {
    s.map_values(|c: char| ascii_width_char(c))
}

fn ascii_width_of(c: char) -> (r: char)
    ensures
        r == ascii_width_char(c),
{
    let n = c as u32;
    if n == 0x3000 {
        ' '
    } else if (0xFF10 <= n && n <= 0xFF19) || (0xFF21 <= n && n <= 0xFF3A) || (0xFF41 <= n && n <= 0xFF5A) {
        ((n - 0xFEE0) as u8) as char
    } else if c == '：' {
        ':'
    } else if c == '／' {
        '/'
    } else if c == '－' {
        '-'
    } else {
        c
    }
}

fn ascii_width_chars(v: &[char]) -> (r: Vec<char>)
    ensures
        r@ == ascii_width(v@),
{
    let mut r: Vec<char> = Vec::new();
    let mut i: usize = 0;
    while i < v.len()
        invariant
            i <= v.len(),
            r@ == ascii_width(v@.take(i as int)),
        decreases v.len() - i,
    {
        r.push(ascii_width_of(v[i]));
        i = i + 1;
        assert(r@ =~= ascii_width(v@.take(i as int)));
    }
    assert(v@.take(i as int) =~= v@);
    r
}

pub fn normalize_ascii_width(value: &str) -> (r: String)
    ensures
        r@ == ascii_width(value@),
{
    let v = chars_of(value);
    let r = ascii_width_chars(v.as_slice());
    string_from_chars(r.as_slice())
}

/// The labels that mark a metadata line.
pub open spec fn metadata_labels() -> Seq<Seq<char>> {
    seq![
        "作品情報"@, "小説タイトル"@, "ncode"@, "nコード"@, "作者"@, "author"@, "あらすじ"@, "summary"@,
        "caption"@, "キーワード"@, "keyword"@, "掲載日"@, "公開日"@, "更新日"@, "最終掲載日"@,
        "posted"@, "published"@,
    ]
}

fn metadata_label_list() -> (r: Vec<String>)
    ensures
        strings_view(r@) == metadata_labels(),
{
    let mut r: Vec<String> = Vec::new();
    r.push(crate::text::owned("作品情報"));
    r.push(crate::text::owned("小説タイトル"));
    r.push(crate::text::owned("ncode"));
    r.push(crate::text::owned("nコード"));
    r.push(crate::text::owned("作者"));
    r.push(crate::text::owned("author"));
    r.push(crate::text::owned("あらすじ"));
    r.push(crate::text::owned("summary"));
    r.push(crate::text::owned("caption"));
    r.push(crate::text::owned("キーワード"));
    r.push(crate::text::owned("keyword"));
    r.push(crate::text::owned("掲載日"));
    r.push(crate::text::owned("公開日"));
    r.push(crate::text::owned("更新日"));
    r.push(crate::text::owned("最終掲載日"));
    r.push(crate::text::owned("posted"));
    r.push(crate::text::owned("published"));
    assert(strings_view(r@) =~= metadata_labels());
    r
}

/// A line that names a metadata field: it holds one of the labels, ignoring
/// ASCII case and full width.
pub open spec fn metadata_label(text: Seq<char>) -> bool {
    exists|i: int| 0 <= i < metadata_labels().len() && contains(lower(ascii_width(text)), lower(#[trigger] metadata_labels()[i]))
}

pub fn looks_like_metadata_label(text: &str) -> (r: bool)
    ensures
        r == metadata_label(text@),
{
    let v = chars_of(text);
    let n = ascii_width_chars(v.as_slice());
    let l = lower_chars(n.as_slice());
    let labels = metadata_label_list();
    let mut i: usize = 0;
    while i < labels.len()
        invariant
            i <= labels.len(),
            strings_view(labels@) == metadata_labels(),
            l@ == lower(ascii_width(text@)),
            forall|k: int| 0 <= k < i ==> !contains(l@, lower(#[trigger] metadata_labels()[k])),
        decreases labels.len() - i,
    {
        assert(metadata_labels()[i as int] == labels@[i as int]@);
        let lv = chars_of(labels[i].as_str());
        let ll = lower_chars(lv.as_slice());
        proof {
            crate::text::lemma_find(l@, ll@);
        }
        if crate::text::find_chars(l.as_slice(), ll.as_slice()).is_some() {
            return true;
        }
        i = i + 1;
    }
    false
}

/// Separators between the values of a metadata line after its label.
pub open spec fn label_separators() -> Seq<char> {
    seq![':', '：', ' ', '　']
}

/// The rest of a line that starts with `label` (ignoring ASCII case and full
/// width in the label), without the separators after the label; empty when
/// the line is just the label.
pub open spec fn strip_label_text(line: Seq<char>, label: Seq<char>) -> Option<Seq<char>> {
    let nl = ascii_width(label);
    let t = trim_start(line);
    if lower(t) == lower(nl) {
        Some(Seq::empty())
    } else if has_prefix(lower(t), lower(nl)) {
        Some(trim_start_set(t.skip(nl.len() as int), label_separators()))
    } else {
        None
    }
}

fn strip_label(line: &[char], label: &str) -> (r: Option<Vec<char>>)
    ensures
        match r {
            Some(v) => strip_label_text(line@, label@) == Some(v@),
            None => strip_label_text(line@, label@) is None,
        },
{
    let lv = chars_of(label);
    let nl = ascii_width_chars(lv.as_slice());
    let (b, _) = trim_bounds(line);
    let t = slice_range(line, b, line.len());
    let lt = lower_chars(t.as_slice());
    let lnl = lower_chars(nl.as_slice());
    if crate::text::chars_eq(lt.as_slice(), lnl.as_slice()) {
        return Some(Vec::new());
    }
    if lnl.len() <= lt.len() && crate::text::occurs_at_exec(lt.as_slice(), lnl.as_slice(), 0) {
        assert(lt@.subrange(0, lnl@.len() as int) =~= lt@.take(lnl@.len() as int));
        let rest = slice_range(t.as_slice(), nl.len(), t.len());
        assert(rest@ =~= t@.skip(nl@.len() as int));
        let seps = vec![':', '：', ' ', '　'];
        assert(seps@ =~= label_separators());
        return Some(trim_start_set_chars(rest.as_slice(), seps.as_slice()));
    }
    assert(!has_prefix(lower(t@), lower(nl@))) by {
        if has_prefix(lower(t@), lower(nl@)) {
            assert(lt@.subrange(0, lnl@.len() as int) =~= lt@.take(lnl@.len() as int));
        }
    }
    None
}

/// Tags of a keyword line: the pieces between spaces, full-width spaces,
/// commas and `、`, trimmed, empty ones dropped.
pub open spec fn tag_list(raw: Seq<char>) -> Seq<Seq<char>> {
    keep_nonempty(split_by(raw, seq![' ', '　', ',', '、']).map_values(|p: Seq<char>| trim(p)))
}

pub fn split_tags(raw: &str) -> (r: Vec<String>)
    ensures
        strings_view(r@) == tag_list(raw@),
{
    let v = chars_of(raw);
    let seps = vec![' ', '　', ',', '、'];
    assert(seps@ =~= seq![' ', '　', ',', '、']);
    let parts = split_chars(v.as_slice(), seps.as_slice());
    let ghost trimmed = views(parts@).map_values(|p: Seq<char>| trim(p));
    let mut out: Vec<String> = Vec::new();
    let mut i: usize = 0;
    assert(trimmed.take(0) =~= Seq::<Seq<char>>::empty());
    assert(strings_view(out@) =~= Seq::<Seq<char>>::empty());
    while i < parts.len()
        invariant
            i <= parts.len(),
            trimmed == views(parts@).map_values(|p: Seq<char>| trim(p)),
            strings_view(out@) == keep_nonempty(trimmed.take(i as int)),
        decreases parts.len() - i,
    {
        let t = trim_chars(parts[i].as_slice());
        assert(trimmed.take(i + 1).drop_last() =~= trimmed.take(i as int));
        assert(trimmed.take(i + 1).last() == t@);
        if t.len() > 0 {
            let ghost before = strings_view(out@);
            out.push(string_from_chars(t.as_slice()));
            assert(strings_view(out@) =~= before.push(t@));
        }
        i = i + 1;
    }
    assert(trimmed.take(i as int) =~= trimmed);
    out
}

// ---------------------------------------------------------------------------
// Metadata values
// ---------------------------------------------------------------------------

/// The value of `label` on line `i`: the rest of the line, else the next
/// line when that is not empty and not itself a label.
pub open spec fn label_value(lines: Seq<Seq<char>>, i: int, label: Seq<char>) -> Option<Seq<char>> {
    match strip_label_text(ascii_width(lines[i]), label) {
        None => None,
        Some(v) => if v.len() > 0 {
            Some(v)
        } else if i + 1 < lines.len() && trim(lines[i + 1]).len() > 0 && !metadata_label(
            trim(lines[i + 1]),
        ) {
            Some(trim(lines[i + 1]))
        } else {
            None
        },
    }
}

/// The first of the labels that gives line `i` a value.
pub open spec fn labels_value(lines: Seq<Seq<char>>, i: int, labels: Seq<Seq<char>>) -> Option<Seq<char>>
    decreases labels.len(),
{
    if labels.len() == 0 {
        None
    } else {
        match label_value(lines, i, labels[0]) {
            Some(v) => Some(v),
            None => labels_value(lines, i, labels.drop_first()),
        }
    }
}

/// The value of the first line, from line `i` on, that one of the labels
/// gives a value.
pub open spec fn line_value(lines: Seq<Seq<char>>, labels: Seq<Seq<char>>, i: int) -> Option<Seq<char>>
    decreases lines.len() - i,
{
    if i < 0 || i >= lines.len() {
        None
    } else {
        match labels_value(lines, i, labels) {
            Some(v) => Some(v),
            None => line_value(lines, labels, i + 1),
        }
    }
}

fn label_value_at(lines: &[String], i: usize, label: &str) -> (r: Option<String>)
    requires
        i < lines.len(),
    ensures
        opt_string_view(r) == label_value(strings_view(lines@), i as int, label@),
{
    let ghost lv = strings_view(lines@);
    let v = chars_of(lines[i].as_str());
    let n = ascii_width_chars(v.as_slice());
    assert(lv[i as int] == lines@[i as int]@);
    match strip_label(n.as_slice(), label) {
        None => None,
        Some(value) => {
            if value.len() > 0 {
                return Some(string_from_chars(value.as_slice()));
            }
            if i + 1 < lines.len() {
                assert(lv[i + 1] == lines@[i + 1]@);
                let nv = chars_of(lines[i + 1].as_str());
                let t = trim_chars(nv.as_slice());
                if t.len() > 0 {
                    let ts = string_from_chars(t.as_slice());
                    if !looks_like_metadata_label(ts.as_str()) {
                        return Some(ts);
                    }
                }
            }
            None
        },
    }
}

fn labels_value_at(lines: &[String], i: usize, labels: &[&str]) -> (r: Option<String>)
    requires
        i < lines.len(),
    ensures
        opt_string_view(r) == labels_value(strings_view(lines@), i as int, labels@.map_values(|l: &str| l@)),
{
    let ghost all = labels@.map_values(|l: &str| l@);
    let mut j: usize = 0;
    assert(all.skip(0) =~= all);
    while j < labels.len()
        invariant
            j <= labels.len(),
            i < lines.len(),
            all == labels@.map_values(|l: &str| l@),
            labels_value(strings_view(lines@), i as int, all) == labels_value(
                strings_view(lines@),
                i as int,
                all.skip(j as int),
            ),
        decreases labels.len() - j,
    {
        let ghost rest = all.skip(j as int);
        assert(rest[0] == labels@[j as int]@);
        assert(rest.drop_first() =~= all.skip(j + 1));
        if let Some(v) = label_value_at(lines, i, labels[j]) {
            return Some(v);
        }
        j = j + 1;
    }
    None
}

/// The value given by the first labelled line: on the line after the label,
/// or on the next line.
pub fn extract_line_value(lines: &[String], labels: &[&str]) -> (r: Option<String>)
    ensures
        opt_string_view(r) == line_value(strings_view(lines@), labels@.map_values(|l: &str| l@), 0),
{
    let ghost lv = strings_view(lines@);
    let ghost ls = labels@.map_values(|l: &str| l@);
    let mut i: usize = 0;
    while i < lines.len()
        invariant
            i <= lines.len(),
            lv == strings_view(lines@),
            ls == labels@.map_values(|l: &str| l@),
            line_value(lv, ls, 0) == line_value(lv, ls, i as int),
        decreases lines.len() - i,
    {
        if let Some(v) = labels_value_at(lines, i, labels) {
            return Some(v);
        }
        i = i + 1;
    }
    None
}

/// The lines after line `k` up to the next label line, trimmed, blank ones
/// skipped.
pub open spec fn block_after(lines: Seq<Seq<char>>, k: int) -> Seq<Seq<char>>
    decreases lines.len() - k,
{
    if k < 0 || k >= lines.len() {
        Seq::empty()
    } else if trim(lines[k]).len() == 0 {
        block_after(lines, k + 1)
    } else if metadata_label(trim(lines[k])) {
        Seq::empty()
    } else {
        seq![trim(lines[k])] + block_after(lines, k + 1)
    }
}

/// The block value of `label` on line `i`: the rest of the line and the
/// following lines up to the next label, joined by newlines.
pub open spec fn label_block(lines: Seq<Seq<char>>, i: int, label: Seq<char>) -> Option<Seq<char>> {
    match strip_label_text(ascii_width(lines[i]), label) {
        None => None,
        Some(v) => {
            let parts = (if v.len() > 0 {
                seq![v]
            } else {
                Seq::empty()
            }) + block_after(lines, i + 1);
            if parts.len() == 0 {
                None
            } else {
                Some(trim(join(parts, "\n"@)))
            }
        },
    }
}

pub open spec fn labels_block(lines: Seq<Seq<char>>, i: int, labels: Seq<Seq<char>>) -> Option<Seq<char>>
    decreases labels.len(),
{
    if labels.len() == 0 {
        None
    } else {
        match label_block(lines, i, labels[0]) {
            Some(v) => Some(v),
            None => labels_block(lines, i, labels.drop_first()),
        }
    }
}

/// The block value of the first line, from line `i` on, that one of the
/// labels gives one.
pub open spec fn block_value(lines: Seq<Seq<char>>, labels: Seq<Seq<char>>, i: int) -> Option<Seq<char>>
    decreases lines.len() - i,
{
    if i < 0 || i >= lines.len() {
        None
    } else {
        match labels_block(lines, i, labels) {
            Some(v) => Some(v),
            None => block_value(lines, labels, i + 1),
        }
    }
}

fn collect_block(lines: &[String], from: usize, parts: &mut Vec<Vec<char>>)
    requires
        from <= lines.len(),
    ensures
        views(final(parts)@) == views(old(parts)@) + block_after(strings_view(lines@), from as int),
{
    let ghost lv = strings_view(lines@);
    let ghost start = views(parts@);
    let mut k: usize = from;
    while k < lines.len()
        invariant
            from <= k <= lines.len(),
            lv == strings_view(lines@),
            start == views(old(parts)@),
            start + block_after(lv, from as int) == views(parts@) + block_after(lv, k as int),
        decreases lines.len() - k,
    {
        assert(lv[k as int] == lines@[k as int]@);
        let v = chars_of(lines[k].as_str());
        let t = trim_chars(v.as_slice());
        if t.len() == 0 {
            k = k + 1;
            continue;
        }
        let ts = string_from_chars(t.as_slice());
        if looks_like_metadata_label(ts.as_str()) {
            assert(views(parts@) + Seq::<Seq<char>>::empty() =~= views(parts@));
            return;
        }
        let ghost before = views(parts@);
        parts.push(t);
        assert(views(parts@) =~= before.push(t@));
        assert(before + (seq![t@] + block_after(lv, k + 1)) =~= views(parts@) + block_after(lv, k + 1));
        k = k + 1;
    }
    assert(views(parts@) + Seq::<Seq<char>>::empty() =~= views(parts@));
}

fn label_block_at(lines: &[String], i: usize, label: &str) -> (r: Option<String>)
    requires
        i < lines.len(),
    ensures
        opt_string_view(r) == label_block(strings_view(lines@), i as int, label@),
{
    let v = chars_of(lines[i].as_str());
    let n = ascii_width_chars(v.as_slice());
    assert(strings_view(lines@)[i as int] == lines@[i as int]@);
    match strip_label(n.as_slice(), label) {
        None => None,
        Some(value) => {
            let mut parts: Vec<Vec<char>> = Vec::new();
            let ghost first = if value@.len() > 0 {
                seq![value@]
            } else {
                Seq::<Seq<char>>::empty()
            };
            if value.len() > 0 {
                parts.push(value);
            }
            assert(views(parts@) =~= first);
            collect_block(lines, i + 1, &mut parts);
            if parts.len() == 0 {
                return None;
            }
            let j = join_str(&parts, "\n");
            let t = trim_chars(j.as_slice());
            Some(string_from_chars(t.as_slice()))
        },
    }
}

fn labels_block_at(lines: &[String], i: usize, labels: &[&str]) -> (r: Option<String>)
    requires
        i < lines.len(),
    ensures
        opt_string_view(r) == labels_block(strings_view(lines@), i as int, labels@.map_values(|l: &str| l@)),
{
    let ghost all = labels@.map_values(|l: &str| l@);
    let mut j: usize = 0;
    assert(all.skip(0) =~= all);
    while j < labels.len()
        invariant
            j <= labels.len(),
            i < lines.len(),
            all == labels@.map_values(|l: &str| l@),
            labels_block(strings_view(lines@), i as int, all) == labels_block(
                strings_view(lines@),
                i as int,
                all.skip(j as int),
            ),
        decreases labels.len() - j,
    {
        let ghost rest = all.skip(j as int);
        assert(rest[0] == labels@[j as int]@);
        assert(rest.drop_first() =~= all.skip(j + 1));
        if let Some(v) = label_block_at(lines, i, labels[j]) {
            return Some(v);
        }
        j = j + 1;
    }
    None
}

/// The value given by the first labelled line together with the lines
/// after it up to the next label.
pub fn extract_block_value(lines: &[String], labels: &[&str]) -> (r: Option<String>)
    ensures
        opt_string_view(r) == block_value(strings_view(lines@), labels@.map_values(|l: &str| l@), 0),
{
    let ghost lv = strings_view(lines@);
    let ghost ls = labels@.map_values(|l: &str| l@);
    let mut i: usize = 0;
    while i < lines.len()
        invariant
            i <= lines.len(),
            lv == strings_view(lines@),
            ls == labels@.map_values(|l: &str| l@),
            block_value(lv, ls, 0) == block_value(lv, ls, i as int),
        decreases lines.len() - i,
    {
        if let Some(v) = labels_block_at(lines, i, labels) {
            return Some(v);
        }
        i = i + 1;
    }
    None
}

// ---------------------------------------------------------------------------
// Page sections
// ---------------------------------------------------------------------------

/// Where the first of two markers occurs, trying them in order, and the
/// marker's length.
pub open spec fn first_marker(s: Seq<char>, m1: Seq<char>, m2: Seq<char>) -> Option<(int, int)> {
    match find(s, m1) {
        Some(i) => Some((i, m1.len() as int)),
        None => match find(s, m2) {
            Some(i) => Some((i, m2.len() as int)),
            None => None,
        },
    }
}

/// The postscript of a body: what follows `【あとがき】` or `[postscript]`.
pub open spec fn split_postscript(body: Seq<char>) -> (Seq<char>, Seq<char>) {
    match first_marker(body, "【あとがき】"@, "[postscript]"@) {
        Some((i, n)) => (trim(body.take(i)), trim(body.skip(i + n))),
        None => (body, Seq::empty()),
    }
}

/// A page's (introduction, body, postscript): the introduction follows
/// `【まえがき】` or `[frontmatter]` and runs to `【あとがき】` when that
/// follows it; otherwise the postscript is split off the body.
pub open spec fn page_sections(page_text: Seq<char>) -> (Seq<char>, Seq<char>, Seq<char>) {
    let body = trim(replace_all(page_text, "\r\n"@, "\n"@));
    match first_marker(body, "【まえがき】"@, "[frontmatter]"@) {
        Some((i, n)) => {
            let prefix = trim(body.take(i));
            let suffix = trim(body.skip(i + n));
            match find(suffix, "【あとがき】"@) {
                Some(p) => (trim(suffix.take(p)), prefix, trim(suffix.skip(p + "【あとがき】"@.len()))),
                None => {
                    let (b, post) = split_postscript(prefix);
                    (suffix, b, post)
                },
            }
        },
        None => {
            let (b, post) = split_postscript(body);
            (Seq::empty(), b, post)
        },
    }
}

fn find_first_marker(v: &[char], m1: &str, m2: &str) -> (r: Option<(usize, usize)>)
    ensures
        match r {
            Some((i, n)) => first_marker(v@, m1@, m2@) == Some((i as int, n as int)) && i + n <= v.len(),
            None => first_marker(v@, m1@, m2@) is None,
        },
{
    let p1 = chars_of(m1);
    proof {
        lemma_find(v@, m1@);
        lemma_find(v@, m2@);
    }
    if let Some(i) = crate::text::find_chars(v, p1.as_slice()) {
        return Some((i, p1.len()));
    }
    let p2 = chars_of(m2);
    if let Some(i) = crate::text::find_chars(v, p2.as_slice()) {
        return Some((i, p2.len()));
    }
    None
}

fn split_off_postscript(body: &[char]) -> (r: (Vec<char>, Vec<char>))
    ensures
        (r.0@, r.1@) == split_postscript(body@),
{
    match find_first_marker(body, "【あとがき】", "[postscript]") {
        Some((i, n)) => {
            let b = slice_range(body, 0, i);
            let post = slice_range(body, i + n, body.len());
            assert(b@ =~= body@.take(i as int));
            assert(post@ =~= body@.skip(i + n));
            (trim_chars(b.as_slice()), trim_chars(post.as_slice()))
        },
        None => (slice_range(body, 0, body.len()), Vec::new()),
    }
}

pub fn split_page_sections(page_text: &str) -> (r: (String, String, String))
    ensures
        (r.0@, r.1@, r.2@) == page_sections(page_text@),
{
    let v = chars_of(page_text);
    proof {
        reveal_strlit("\r\n");
    }
    let n = replace_str(v.as_slice(), "\r\n", "\n");
    let body = trim_chars(n.as_slice());
    match find_first_marker(body.as_slice(), "【まえがき】", "[frontmatter]") {
        Some((i, len)) => {
            let p = slice_range(body.as_slice(), 0, i);
            let sfx = slice_range(body.as_slice(), i + len, body.len());
            assert(p@ =~= body@.take(i as int));
            assert(sfx@ =~= body@.skip(i + len));
            let prefix = trim_chars(p.as_slice());
            let suffix = trim_chars(sfx.as_slice());
            let after = chars_of("【あとがき】");
            proof {
                lemma_find(suffix@, after@);
            }
            if let Some(pi) = crate::text::find_chars(suffix.as_slice(), after.as_slice()) {
                let slen = suffix.len();
                let alen = after.len();
                assert(find(suffix@, after@) == Some(pi as int));
                assert(pi + alen <= slen);
                let a = slice_range(suffix.as_slice(), 0, pi);
                let b = slice_range(suffix.as_slice(), pi + alen, slen);
                assert(a@ =~= suffix@.take(pi as int));
                assert(b@ =~= suffix@.skip(pi + after@.len()));
                let intro = trim_chars(a.as_slice());
                let post = trim_chars(b.as_slice());
                return (string_from_chars(intro.as_slice()), string_from_chars(prefix.as_slice()), string_from_chars(post.as_slice()));
            }
            let (b, post) = split_off_postscript(prefix.as_slice());
            (string_from_chars(suffix.as_slice()), string_from_chars(b.as_slice()), string_from_chars(post.as_slice()))
        },
        None => {
            let (b, post) = split_off_postscript(body.as_slice());
            (String::new(), string_from_chars(b.as_slice()), string_from_chars(post.as_slice()))
        },
    }
}

// ---------------------------------------------------------------------------
// Titles and novel codes
// ---------------------------------------------------------------------------

/// A heading that opens an episode: `第…話`, `Episode N` or `Chapter N`.
pub open spec fn episode_title(text: Seq<char>) -> bool {
    let t = trim(text);
    t.len() > 0 && ({
        let n = ascii_width(t);
        ||| regex_matches("^第.+話$"@, n)
        ||| regex_matches("(?i)^episode\\s+\\d+"@, n)
        ||| regex_matches("(?i)^chapter\\s+\\d+"@, n)
    })
}

pub fn looks_like_episode_title(text: &str) -> (r: bool)
    ensures
        r == episode_title(text@),
{
    let v = chars_of(text);
    let t = trim_chars(v.as_slice());
    if t.len() == 0 {
        return false;
    }
    let n = ascii_width_chars(t.as_slice());
    let ns = string_from_chars(n.as_slice());
    regex_is_match("^第.+話$", ns.as_str()) || regex_is_match("(?i)^episode\\s+\\d+", ns.as_str())
        || regex_is_match("(?i)^chapter\\s+\\d+", ns.as_str())
}

/// The pattern of an `ncode` line.
pub open spec fn ncode_pattern() -> Seq<char> {
    "(?i)\\b(?:ncode|nコード)\\s*[:：]?\\s*(n[0-9]+[a-z0-9]+)\\b"@
}

/// The novel code of the first line, from line `k` on, that states one, in
/// lower case.
pub open spec fn nid_in_lines(lines: Seq<Seq<char>>, k: int) -> Option<Seq<char>>
    decreases lines.len() - k,
{
    if k < 0 || k >= lines.len() {
        None
    } else {
        match regex_group(ncode_pattern(), ascii_width(lines[k]), 1) {
            Some(m) => Some(unicode_lower(m)),
            None => nid_in_lines(lines, k + 1),
        }
    }
}

pub fn extract_nid(lines: &[String]) -> (r: Option<String>)
    ensures
        opt_string_view(r) == nid_in_lines(strings_view(lines@), 0),
{
    let ghost lv = strings_view(lines@);
    let mut k: usize = 0;
    while k < lines.len()
        invariant
            k <= lines.len(),
            lv == strings_view(lines@),
            nid_in_lines(lv, 0) == nid_in_lines(lv, k as int),
        decreases lines.len() - k,
    {
        assert(lv[k as int] == lines@[k as int]@);
        let v = chars_of(lines[k].as_str());
        let n = ascii_width_chars(v.as_slice());
        let ns = string_from_chars(n.as_slice());
        if let Some(m) = regex_capture("(?i)\\b(?:ncode|nコード)\\s*[:：]?\\s*(n[0-9]+[a-z0-9]+)\\b", ns.as_str(), 1) {
            return Some(to_lowercase(m.as_str()));
        }
        k = k + 1;
    }
    None
}

// ---------------------------------------------------------------------------
// Dates
// ---------------------------------------------------------------------------

pub open spec fn leap_year(y: int) -> bool {
    (y % 4 == 0 && y % 100 != 0) || y % 400 == 0
}

pub open spec fn days_in_month(y: int, m: int) -> int {
    if m == 2 {
        if leap_year(y) {
            29
        } else {
            28
        }
    } else if m == 4 || m == 6 || m == 9 || m == 11 {
        30
    } else {
        31
    }
}

/// A day of the Gregorian calendar.
pub open spec fn valid_date(y: int, m: int, d: int) -> bool {
    1 <= m <= 12 && 1 <= d <= days_in_month(y, m)
}

/// `n` in decimal with at least two digits.
pub open spec fn pad2(n: nat) -> Seq<char> {
    if n < 10 {
        seq!['0'] + decimal(n)
    } else {
        decimal(n)
    }
}

/// `n` in decimal with at least four digits.
pub open spec fn pad4(n: nat) -> Seq<char> {
    if n < 10 {
        "000"@ + decimal(n)
    } else if n < 100 {
        "00"@ + decimal(n)
    } else if n < 1000 {
        "0"@ + decimal(n)
    } else {
        decimal(n)
    }
}

/// A time of day at +09:00 in RFC 3339, when the day and time exist.
pub open spec fn jst_stamp(y: nat, m: nat, d: nat, h: nat, mi: nat) -> Option<Seq<char>> {
    if valid_date(y as int, m as int, d as int) && h < 24 && mi < 60 {
        Some(
            pad4(y) + "-"@ + pad2(m) + "-"@ + pad2(d) + "T"@ + pad2(h) + ":"@ + pad2(mi) + ":00+09:00"@,
        )
    } else {
        None
    }
}

/// chrono: `NaiveDate::from_ymd_opt(y, m, d)`, `and_hms_opt(h, mi, 0)`,
/// read at the offset `FixedOffset::east_opt(offset)` by `from_local_datetime`
/// and written by `DateTime::to_rfc3339`. For the offset +09:00 and years 0 to
/// 9999 chrono's source gives the result: none for a day or time that does
/// not exist, else the time written with four-digit year, two-digit fields,
/// whole seconds and the offset; for other years nothing is stated.
#[verifier::external_body]
fn offset_rfc3339(y: i32, m: u32, d: u32, h: u32, mi: u32, offset: i32) -> (r: Option<String>)
    ensures
        offset == 32400 && 0 <= y <= 9999 ==> opt_string_view(r) == jst_stamp(
            y as nat,
            m as nat,
            d as nat,
            h as nat,
            mi as nat,
        ),
{
    let date = chrono::NaiveDate::from_ymd_opt(y, m, d)?.and_hms_opt(h, mi, 0)?;
    let zone = chrono::FixedOffset::east_opt(offset)?;
    match chrono::TimeZone::from_local_datetime(&zone, &date).single() {
        Some(v) => Some(v.to_rfc3339()),
        None => None,
    }
}

/// The pattern of a date in a metadata value.
pub open spec fn date_pattern() -> Seq<char> {
    "(\\d{4})[/-年](\\d{1,2})[/-月](\\d{1,2})(?:日)?"@
}

/// The pattern of an issue date, with an optional time.
pub open spec fn issue_pattern() -> Seq<char> {
    "(\\d{4})[/-年](\\d{1,2})[/-月](\\d{1,2})(?:日)?(?:\\s+(\\d{1,2}):(\\d{2}))?"@
}

/// The time of a date found by `pattern` in `text` at +09:00, with the hour
/// and minute taken from groups 4 and 5 where `with_time` holds (0 where a
/// group is missing or not a number). `Ok(None)`: no such day or time, or a
/// number that does not parse; `Err(())`: a year past 9999, of which
/// nothing is stated.
pub open spec fn found_stamp(pattern: Seq<char>, text: Seq<char>, with_time: bool) -> Result<Option<Seq<char>>, ()> {
    let y = match regex_group(pattern, text, 1) {
        Some(g) => parse_bounded(g, 0x7fff_ffff),
        None => None,
    };
    let m = match regex_group(pattern, text, 2) {
        Some(g) => parse_bounded(g, 0xffff_ffff),
        None => None,
    };
    let d = match regex_group(pattern, text, 3) {
        Some(g) => parse_bounded(g, 0xffff_ffff),
        None => None,
    };
    let h = if with_time {
        match regex_group(pattern, text, 4) {
            Some(g) => match parse_bounded(g, 0xffff_ffff) {
                Some(v) => v,
                None => 0,
            },
            None => 0,
        }
    } else {
        0
    };
    let mi = if with_time {
        match regex_group(pattern, text, 5) {
            Some(g) => match parse_bounded(g, 0xffff_ffff) {
                Some(v) => v,
                None => 0,
            },
            None => 0,
        }
    } else {
        0
    };
    if y is None || m is None || d is None {
        Ok(None)
    } else if y->0 > 9999 {
        Err(())
    } else {
        Ok(jst_stamp(y->0, m->0, d->0, h, mi))
    }
}

fn group_number(pattern: &str, text: &str, group: usize, max: u64) -> (r: Option<u64>)
    ensures
        match r {
            Some(v) => match regex_group(pattern@, text@, group as nat) {
                Some(g) => parse_bounded(g, max as nat) == Some(v as nat),
                None => false,
            },
            None => match regex_group(pattern@, text@, group as nat) {
                Some(g) => parse_bounded(g, max as nat) is None,
                None => true,
            },
        },
{
    match regex_capture(pattern, text, group) {
        Some(g) => {
            let c = chars_of(g.as_str());
            crate::text::parse_unsigned_chars(c.as_slice(), max)
        },
        None => None,
    }
}

/// The stamp of the date that `pattern` finds in `text`, as `found_stamp`
/// states it; `Err(())` only where the year is past 9999.
fn stamp_found(pattern: &str, text: &str, with_time: bool) -> (r: Result<Option<String>, ()>)
    ensures
        match r {
            Ok(o) => found_stamp(pattern@, text@, with_time) == Ok::<Option<Seq<char>>, ()>(opt_string_view(o)),
            Err(_) => found_stamp(pattern@, text@, with_time) is Err,
        },
{
    let y = group_number(pattern, text, 1, 0x7fff_ffff);
    let m = group_number(pattern, text, 2, 0xffff_ffff);
    let d = group_number(pattern, text, 3, 0xffff_ffff);
    let h: u64 = if with_time {
        match group_number(pattern, text, 4, 0xffff_ffff) {
            Some(v) => v,
            None => 0,
        }
    } else {
        0
    };
    let mi: u64 = if with_time {
        match group_number(pattern, text, 5, 0xffff_ffff) {
            Some(v) => v,
            None => 0,
        }
    } else {
        0
    };
    match (y, m, d) {
        (Some(yv), Some(mv), Some(dv)) => {
            if yv > 9999 {
                return Err(());
            }
            Ok(offset_rfc3339(yv as i32, mv as u32, dv as u32, h as u32, mi as u32, 32400))
        },
        _ => Ok(None),
    }
}

/// The date of a metadata value at midnight +09:00 in RFC 3339, when the
/// value holds one.
pub open spec fn date_value(raw: Seq<char>) -> Result<Option<Seq<char>>, ()> {
    let t = ascii_width(raw);
    if regex_group(date_pattern(), t, 0) is None {
        Ok(None)
    } else {
        found_stamp(date_pattern(), t, false)
    }
}

/// A date written in a metadata value, such as `2024年1月2日`, as midnight
/// at +09:00 in RFC 3339; none where the value holds no date or names a day
/// that does not exist.
pub fn normalize_date_string(raw: &str) -> (r: Option<String>)
    ensures
        date_value(raw@) is Ok ==> date_value(raw@) == Ok::<Option<Seq<char>>, ()>(opt_string_view(r)),
{
    let t = normalize_ascii_width(raw);
    let pattern = "(\\d{4})[/-年](\\d{1,2})[/-月](\\d{1,2})(?:日)?";
    proof {
        assert(pattern@ == date_pattern());
    }
    if regex_capture(pattern, t.as_str(), 0).is_none() {
        return None;
    }
    match stamp_found(pattern, t.as_str(), false) {
        Ok(o) => o,
        Err(_) => None,
    }
}

/// The issue date of the last line, from the end, that holds a date; its
/// time where one follows the date. `Err(())` where that year is past 9999.
pub open spec fn issue_date(lines: Seq<Seq<char>>) -> Result<Option<Seq<char>>, ()>
    decreases lines.len(),
{
    if lines.len() == 0 {
        Ok(None)
    } else {
        let t = ascii_width(lines.last());
        if regex_group(issue_pattern(), t, 0) is Some {
            found_stamp(issue_pattern(), t, true)
        } else {
            issue_date(lines.drop_last())
        }
    }
}

fn extract_issue_date_text(lines: &[String]) -> (r: Option<String>)
    ensures
        issue_date(strings_view(lines@)) is Ok ==> issue_date(strings_view(lines@)) == Ok::<
            Option<Seq<char>>,
            (),
        >(opt_string_view(r)),
{
    let ghost lv = strings_view(lines@);
    let pattern = "(\\d{4})[/-年](\\d{1,2})[/-月](\\d{1,2})(?:日)?(?:\\s+(\\d{1,2}):(\\d{2}))?";
    proof {
        assert(pattern@ == issue_pattern());
    }
    let mut k: usize = lines.len();
    assert(lv.take(k as int) =~= lv);
    while k > 0
        invariant
            k <= lines.len(),
            lv == strings_view(lines@),
            pattern@ == issue_pattern(),
            issue_date(lv) == issue_date(lv.take(k as int)),
        decreases k,
    {
        assert(lv.take(k as int).last() == lines@[k - 1]@);
        assert(lv.take(k as int).drop_last() =~= lv.take(k - 1));
        let t = normalize_ascii_width(lines[k - 1].as_str());
        if regex_capture(pattern, t.as_str(), 0).is_some() {
            return match stamp_found(pattern, t.as_str(), true) {
                Ok(o) => o,
                Err(_) => None,
            };
        }
        k = k - 1;
    }
    None
}

// ---------------------------------------------------------------------------
// Metadata of a PDF
// ---------------------------------------------------------------------------

/// What the first pages of a PDF say of the work.
#[derive(Debug, Clone)]
pub struct ParsedMeta {
    pub nid: Option<String>,
    pub title: Option<String>,
    pub author: Option<String>,
    pub caption: Option<String>,
    pub serialization: Option<String>,
    pub tags: Vec<String>,
    pub create_date: Option<String>,
    pub update_date: Option<String>,
}

pub open spec fn caption_labels() -> Seq<Seq<char>> {
    seq!["【あらすじ】"@, "あらすじ"@, "summary"@, "caption"@]
}

pub open spec fn title_labels() -> Seq<Seq<char>> {
    seq!["【小説タイトル】"@, "小説タイトル"@, "title"@]
}

pub open spec fn author_labels() -> Seq<Seq<char>> {
    seq!["【作者名】"@, "作者"@, "author"@]
}

pub open spec fn keyword_labels() -> Seq<Seq<char>> {
    seq!["キーワード"@, "keyword"@, "keywords"@]
}

pub open spec fn created_labels() -> Seq<Seq<char>> {
    seq!["初回掲載日"@, "掲載日"@, "公開日"@, "posted"@, "published"@]
}

pub open spec fn updated_labels() -> Seq<Seq<char>> {
    seq!["最終掲載日"@, "更新日"@, "updated"@, "update"@]
}

/// The state of serialization named by the first line that names one.
pub open spec fn serialization_in(texts: Seq<Seq<char>>, k: int) -> Option<Seq<char>>
    decreases texts.len() - k,
{
    if k < 0 || k >= texts.len() {
        None
    } else if contains(texts[k], "完結済"@) {
        Some("完結済"@)
    } else if contains(texts[k], "連載中"@) {
        Some("連載中"@)
    } else {
        serialization_in(texts, k + 1)
    }
}

fn find_serialization(texts: &[String]) -> (r: Option<String>)
    ensures
        opt_string_view(r) == serialization_in(strings_view(texts@), 0),
{
    let ghost tv = strings_view(texts@);
    let mut k: usize = 0;
    while k < texts.len()
        invariant
            k <= texts.len(),
            tv == strings_view(texts@),
            serialization_in(tv, 0) == serialization_in(tv, k as int),
        decreases texts.len() - k,
    {
        assert(tv[k as int] == texts@[k as int]@);
        let v = chars_of(texts[k].as_str());
        if contains_str(v.as_slice(), "完結済") {
            return Some(crate::text::owned("完結済"));
        }
        if contains_str(v.as_slice(), "連載中") {
            return Some(crate::text::owned("連載中"));
        }
        k = k + 1;
    }
    None
}

/// The value of the first of `a`, else of `b`.
pub open spec fn first_of(a: Option<Seq<char>>, b: Option<Seq<char>>) -> Option<Seq<char>> {
    match a {
        Some(v) => Some(v),
        None => b,
    }
}

/// A labelled date value as a time at +09:00; `Err(())` as `date_value`.
pub open spec fn labelled_date(texts: Seq<Seq<char>>, labels: Seq<Seq<char>>) -> Result<Option<Seq<char>>, ()> {
    match line_value(texts, labels, 0) {
        Some(v) => date_value(v),
        None => Ok(None),
    }
}

fn labelled_date_exec(texts: &[String], labels: &[&str]) -> (r: Option<String>)
    ensures
        labelled_date(strings_view(texts@), strs_view(labels@)) is Ok ==> labelled_date(
            strings_view(texts@),
            strs_view(labels@),
        ) == Ok::<Option<Seq<char>>, ()>(opt_string_view(r)),
{
    match extract_line_value(texts, labels) {
        Some(v) => normalize_date_string(v.as_str()),
        None => None,
    }
}

/// The metadata of a PDF from the text lines of its first pages, in order.
/// Where no line labels the title, it is `title_by_size`: the text of the
/// line set in the largest type, which the caller finds from the layout.
pub fn parse_metadata(lines: &[String], title_by_size: Option<String>) -> (r: ParsedMeta)
    ensures
        ({
            let texts = strings_view(lines@).map_values(|t: Seq<char>| ascii_width(t));
            &&& opt_string_view(r.caption) == first_of(
                line_value(texts, caption_labels(), 0),
                block_value(texts, caption_labels(), 0),
            )
            &&& opt_string_view(r.title) == first_of(
                line_value(texts, title_labels(), 0),
                opt_string_view(title_by_size),
            )
            &&& opt_string_view(r.nid) == nid_in_lines(texts, 0)
            &&& opt_string_view(r.author) == line_value(texts, author_labels(), 0)
            &&& strings_view(r.tags@) == match line_value(texts, keyword_labels(), 0) {
                Some(v) => tag_list(v),
                None => Seq::empty(),
            }
            &&& opt_string_view(r.serialization) == serialization_in(texts, 0)
            &&& labelled_date(texts, created_labels()) is Ok ==> labelled_date(texts, created_labels()) == Ok::<
                Option<Seq<char>>,
                (),
            >(opt_string_view(r.create_date))
            &&& labelled_date(texts, updated_labels()) is Ok && issue_date(strings_view(lines@)) is Ok
                ==> opt_string_view(r.update_date) == first_of(
                labelled_date(texts, updated_labels())->Ok_0,
                issue_date(strings_view(lines@))->Ok_0,
            )
        }),
{
    let ghost texts = strings_view(lines@).map_values(|t: Seq<char>| ascii_width(t));
    let mut normalized: Vec<String> = Vec::new();
    let mut i: usize = 0;
    while i < lines.len()
        invariant
            i <= lines.len(),
            texts == strings_view(lines@).map_values(|t: Seq<char>| ascii_width(t)),
            strings_view(normalized@) == texts.take(i as int),
        decreases lines.len() - i,
    {
        let ghost before = strings_view(normalized@);
        assert(strings_view(lines@)[i as int] == lines@[i as int]@);
        assert(texts[i as int] == ascii_width(lines@[i as int]@));
        normalized.push(normalize_ascii_width(lines[i].as_str()));
        assert(strings_view(normalized@) =~= before.push(texts[i as int]));
        i = i + 1;
        assert(strings_view(normalized@) =~= texts.take(i as int));
    }
    assert(texts.take(i as int) =~= texts);
    let caption_l: [&str; 4] = ["【あらすじ】", "あらすじ", "summary", "caption"];
    let title_l: [&str; 3] = ["【小説タイトル】", "小説タイトル", "title"];
    let author_l: [&str; 3] = ["【作者名】", "作者", "author"];
    let keyword_l: [&str; 3] = ["キーワード", "keyword", "keywords"];
    let created_l: [&str; 5] = ["初回掲載日", "掲載日", "公開日", "posted", "published"];
    let updated_l: [&str; 4] = ["最終掲載日", "更新日", "updated", "update"];
    assert(strs_view(caption_l@) =~= caption_labels());
    assert(strs_view(title_l@) =~= title_labels());
    assert(strs_view(author_l@) =~= author_labels());
    assert(strs_view(keyword_l@) =~= keyword_labels());
    assert(strs_view(created_l@) =~= created_labels());
    assert(strs_view(updated_l@) =~= updated_labels());
    let texts_s = normalized.as_slice();
    let caption = match extract_line_value(texts_s, caption_l.as_slice()) {
        Some(v) => Some(v),
        None => extract_block_value(texts_s, caption_l.as_slice()),
    };
    let title = match extract_line_value(texts_s, title_l.as_slice()) {
        Some(v) => Some(v),
        None => title_by_size,
    };
    let nid = extract_nid(texts_s);
    let author = extract_line_value(texts_s, author_l.as_slice());
    let tags = match extract_line_value(texts_s, keyword_l.as_slice()) {
        Some(v) => split_tags(v.as_str()),
        None => {
            let e: Vec<String> = Vec::new();
            assert(strings_view(e@) =~= Seq::<Seq<char>>::empty());
            e
        },
    };
    let serialization = find_serialization(texts_s);
    let create_date = labelled_date_exec(texts_s, created_l.as_slice());
    let update_date = match labelled_date_exec(texts_s, updated_l.as_slice()) {
        Some(v) => Some(v),
        None => extract_issue_date_text(lines),
    };
    ParsedMeta { nid, title, author, caption, serialization, tags, create_date, update_date }
}

// ---------------------------------------------------------------------------
// Episodes
// ---------------------------------------------------------------------------

/// An episode read from a PDF.
#[derive(Debug, Clone, PartialEq, Eq)]
pub struct ParsedEpisode {
    pub id: String,
    pub chapter: Option<String>,
    pub title: String,
    pub introduction: String,
    pub text: String,
    pub postscript: String,
    pub create_date: Option<String>,
    pub update_date: Option<String>,
    pub text_count: i64,
}

/// id, chapter, title, introduction, text and postscript.
pub type ParsedEpisodeView = (Seq<char>, Option<Seq<char>>, Seq<char>, Seq<char>, Seq<char>, Seq<char>);

impl ParsedEpisode {
    pub open spec fn view(&self) -> ParsedEpisodeView {
        (self.id@, opt_string_view(self.chapter), self.title@, self.introduction@, self.text@, self.postscript@)
    }

    /// No dates are known and the count is the text's length.
    pub open spec fn plain(&self) -> bool {
        self.create_date is None && self.update_date is None && self.text_count == self.text@.len() as i64
    }
}

pub open spec fn parsed_view(v: Seq<ParsedEpisode>) -> Seq<ParsedEpisodeView> {
    v.map_values(|e: ParsedEpisode| e.view())
}

/// What was read of a Narou PDF: its metadata, its episodes, the text of
/// each page, and whether its text runs vertically.
#[derive(Debug, Clone)]
pub struct ParsedNarouPdf {
    pub nid: Option<String>,
    pub title: Option<String>,
    pub author: Option<String>,
    pub caption: Option<String>,
    pub serialization: Option<String>,
    pub tags: Vec<String>,
    pub create_date: Option<String>,
    pub update_date: Option<String>,
    pub episodes: Vec<ParsedEpisode>,
    pub pages: Vec<String>,
    pub vertical: bool,
}

/// The separator between pages of an episode's text.
pub open spec fn newpage_sep() -> Seq<char> {
    "\n\n[newpage]\n\n"@
}

/// The trimmed pages that are not blank, from page `skip + 1` on.
pub open spec fn content_pages(pages: Seq<Seq<char>>, skip: nat) -> Seq<Seq<char>> {
    keep_nonempty(pages.skip(if skip <= pages.len() { skip as int } else { pages.len() as int }).map_values(
        |p: Seq<char>| trim(p),
    ))
}

/// The single episode of a PDF whose episodes could not be told apart: the
/// pages after the metadata pages (all pages when those hold nothing),
/// under the work's title and caption.
pub open spec fn fallback_episode_view(title: Seq<char>, caption: Seq<char>, pages: Seq<Seq<char>>, meta_pages: nat) -> ParsedEpisodeView {
    let content = content_pages(pages, meta_pages);
    let text = if content.len() == 0 {
        join(content_pages(pages, 0), newpage_sep())
    } else {
        join(content, newpage_sep())
    };
    let last: nat = if pages.len() > 1 {
        pages.len()
    } else {
        1
    };
    (page_label_text(1, last), None, title, caption, text, Seq::empty())
}

fn nonblank_pages_from(pages: &[String], from: usize) -> (r: Vec<Vec<char>>)
    requires
        from <= pages.len(),
    ensures
        views(r@) == content_pages(strings_view(pages@), from as nat),
{
    let ghost trimmed = strings_view(pages@).skip(from as int).map_values(|p: Seq<char>| trim(p));
    let mut out: Vec<Vec<char>> = Vec::new();
    let mut i: usize = from;
    assert(trimmed.take(0) =~= Seq::<Seq<char>>::empty());
    assert(views(out@) =~= Seq::<Seq<char>>::empty());
    while i < pages.len()
        invariant
            from <= i <= pages.len(),
            trimmed == strings_view(pages@).skip(from as int).map_values(|p: Seq<char>| trim(p)),
            views(out@) == keep_nonempty(trimmed.take(i - from)),
        decreases pages.len() - i,
    {
        let v = chars_of(pages[i].as_str());
        let t = trim_chars(v.as_slice());
        assert(trimmed.take(i - from + 1).drop_last() =~= trimmed.take(i - from));
        assert(trimmed.take(i - from + 1).last() == t@);
        if t.len() > 0 {
            let ghost before = views(out@);
            out.push(t);
            assert(views(out@) =~= before.push(t@));
        }
        i = i + 1;
    }
    assert(trimmed.take(i - from) =~= trimmed);
    out
}

pub fn fallback_episode(title: &str, caption: &str, page_texts: &[String], meta_page_limit: u32) -> (r: ParsedEpisode)
    ensures
        r.view() == fallback_episode_view(title@, caption@, strings_view(page_texts@), meta_page_limit as nat),
        r.plain(),
{
    let from: usize = if (meta_page_limit as usize) <= page_texts.len() {
        meta_page_limit as usize
    } else {
        page_texts.len()
    };
    let content = nonblank_pages_from(page_texts, from);
    let text_chars = if content.len() == 0 {
        let all = nonblank_pages_from(page_texts, 0);
        join_str(&all, "\n\n[newpage]\n\n")
    } else {
        join_str(&content, "\n\n[newpage]\n\n")
    };
    let last: usize = if page_texts.len() > 1 {
        page_texts.len()
    } else {
        1
    };
    let count = text_chars.len() as i64;
    ParsedEpisode {
        id: page_label(1, last),
        chapter: None,
        title: crate::text::owned(title),
        introduction: crate::text::owned(caption),
        text: string_from_chars(text_chars.as_slice()),
        postscript: String::new(),
        create_date: None,
        update_date: None,
        text_count: count,
    }
}

// ---------------------------------------------------------------------------
// Assembling episodes
// ---------------------------------------------------------------------------

/// An episode being collected: its pages, title, chapter and the parts of
/// its introduction, text and postscript.
#[derive(Debug, Clone, Default)]
pub struct EpisodeBuilder {
    pub start_page: u32,
    pub end_page: u32,
    pub title: Option<String>,
    pub chapter: Option<String>,
    pub introduction: Vec<String>,
    pub text: Vec<String>,
    pub postscript: Vec<String>,
}

/// start, end, title, chapter, introduction, text and postscript.
pub type BuilderView = (nat, nat, Option<Seq<char>>, Option<Seq<char>>, Seq<Seq<char>>, Seq<Seq<char>>, Seq<Seq<char>>);

/// A new episode on `page`.
pub open spec fn fresh_builder(title: Option<Seq<char>>, page: nat) -> BuilderView {
    (page, page, title, None, Seq::empty(), Seq::empty(), Seq::empty())
}

/// An episode with a title or any part is worth keeping.
pub open spec fn builder_has_content(b: BuilderView) -> bool {
    b.2 is Some || b.4.len() > 0 || b.5.len() > 0 || b.6.len() > 0
}

/// `parts` with the trimmed value added unless it is blank.
pub open spec fn appended(parts: Seq<Seq<char>>, value: Seq<char>) -> Seq<Seq<char>> {
    if trim(value).len() > 0 {
        parts.push(trim(value))
    } else {
        parts
    }
}

/// The episode that a builder makes as the `index`-th (from 1): untitled
/// episodes take the fallback title, numbered after the first.
pub open spec fn built(b: BuilderView, index: nat, fallback_title: Seq<char>) -> ParsedEpisodeView {
    let title = match b.2 {
        Some(t) => t,
        None => if index == 1 {
            fallback_title
        } else {
            fallback_title + " "@ + decimal(index)
        },
    };
    (
        page_label_text(b.0, b.1),
        b.3,
        title,
        trim(join(b.4, "\n\n"@)),
        trim(join(b.5, newpage_sep())),
        trim(join(b.6, "\n\n"@)),
    )
}

fn push_trimmed(parts: &mut Vec<String>, value: &str)
    ensures
        strings_view(final(parts)@) == appended(strings_view(old(parts)@), value@),
{
    let v = chars_of(value);
    let t = trim_chars(v.as_slice());
    if t.len() > 0 {
        let ghost before = strings_view(parts@);
        parts.push(string_from_chars(t.as_slice()));
        assert(strings_view(parts@) =~= before.push(t@));
    }
}

pub(crate) fn join_strings(parts: &Vec<String>, sep: &str) -> (r: Vec<char>)
    ensures
        r@ == join(strings_view(parts@), sep@),
{
    let mut vs: Vec<Vec<char>> = Vec::new();
    let mut i: usize = 0;
    while i < parts.len()
        invariant
            i <= parts.len(),
            views(vs@) == strings_view(parts@).take(i as int),
        decreases parts.len() - i,
    {
        let ghost before = views(vs@);
        vs.push(chars_of(parts[i].as_str()));
        assert(views(vs@) =~= before.push(parts@[i as int]@));
        assert(strings_view(parts@).take(i + 1) =~= strings_view(parts@).take(i as int).push(parts@[i as int]@));
        i = i + 1;
    }
    assert(strings_view(parts@).take(i as int) =~= strings_view(parts@));
    join_str(&vs, sep)
}

impl EpisodeBuilder {
    pub open spec fn view(&self) -> BuilderView {
        (
            self.start_page as nat,
            self.end_page as nat,
            opt_string_view(self.title),
            opt_string_view(self.chapter),
            strings_view(self.introduction@),
            strings_view(self.text@),
            strings_view(self.postscript@),
        )
    }

    pub fn new(title: Option<String>, page: u32) -> (r: Self)
        ensures
            r.view() == fresh_builder(opt_string_view(title), page as nat),
    {
        let r = EpisodeBuilder {
            start_page: page,
            end_page: page,
            title,
            chapter: None,
            introduction: Vec::new(),
            text: Vec::new(),
            postscript: Vec::new(),
        };
        assert(r.view() =~= fresh_builder(opt_string_view(title), page as nat));
        r
    }

    pub fn has_content(&self) -> (r: bool)
        ensures
            r == builder_has_content(self.view()),
    {
        self.title.is_some() || self.introduction.len() > 0 || self.text.len() > 0 || self.postscript.len() > 0
    }

    pub fn append_intro(&mut self, value: &str)
        ensures
            final(self).view() == ({
                let b = old(self).view();
                (b.0, b.1, b.2, b.3, appended(b.4, value@), b.5, b.6)
            }),
    {
        push_trimmed(&mut self.introduction, value);
    }

    pub fn append_text(&mut self, value: &str)
        ensures
            final(self).view() == ({
                let b = old(self).view();
                (b.0, b.1, b.2, b.3, b.4, appended(b.5, value@), b.6)
            }),
    {
        push_trimmed(&mut self.text, value);
    }

    pub fn append_postscript(&mut self, value: &str)
        ensures
            final(self).view() == ({
                let b = old(self).view();
                (b.0, b.1, b.2, b.3, b.4, b.5, appended(b.6, value@))
            }),
    {
        push_trimmed(&mut self.postscript, value);
    }

    pub fn build(self, index: usize, fallback_title: &str) -> (r: ParsedEpisode)
        ensures
            r.view() == built(self.view(), index as nat, fallback_title@),
            r.plain(),
    {
        let title = match self.title {
            Some(t) => t,
            None => if index == 1 {
                crate::text::owned(fallback_title)
            } else {
                let mut t = chars_of(fallback_title);
                push_str(&mut t, " ");
                push_decimal(&mut t, index as u64);
                string_from_chars(t.as_slice())
            },
        };
        let intro = join_strings(&self.introduction, "\n\n");
        let text = join_strings(&self.text, "\n\n[newpage]\n\n");
        let post = join_strings(&self.postscript, "\n\n");
        let intro_t = trim_chars(intro.as_slice());
        let text_t = trim_chars(text.as_slice());
        let post_t = trim_chars(post.as_slice());
        let count = text_t.len() as i64;
        ParsedEpisode {
            id: page_label(self.start_page as usize, self.end_page as usize),
            chapter: self.chapter,
            title,
            introduction: string_from_chars(intro_t.as_slice()),
            text: string_from_chars(text_t.as_slice()),
            postscript: string_from_chars(post_t.as_slice()),
            create_date: None,
            update_date: None,
            text_count: count,
        }
    }
}

/// One page of a PDF as episodes are assembled from it: its number, its
/// text, and the text of the line that stands out as its heading, if any.
#[derive(Debug, Clone)]
pub struct PdfPage {
    pub page: u32,
    pub text: String,
    pub title_line: Option<String>,
}

pub type PdfPageView = (nat, Seq<char>, Option<Seq<char>>);

impl PdfPage {
    pub open spec fn view(&self) -> PdfPageView {
        (self.page as nat, self.text@, opt_string_view(self.title_line))
    }
}

pub open spec fn pages_view(v: Seq<PdfPage>) -> Seq<PdfPageView> {
    v.map_values(|p: PdfPage| p.view())
}

/// Episodes kept so far, the open episode and a chapter title waiting for
/// the next episode.
pub type AssemblyState = (Seq<BuilderView>, Option<BuilderView>, Option<Seq<char>>);

/// A page of body text added to the open episode (or to a new untitled one).
pub open spec fn body_page(st: AssemblyState, page: nat, text: Seq<char>) -> AssemblyState {
    let b0 = match st.1 {
        Some(b) => b,
        None => fresh_builder(None, page),
    };
    let chapter = if b0.3 is None {
        st.2
    } else {
        b0.3
    };
    let pending = if b0.3 is None {
        None
    } else {
        st.2
    };
    let (intro, body, post) = page_sections(text);
    let introduction = if intro.len() > 0 && b0.5.len() == 0 {
        appended(b0.4, intro)
    } else {
        b0.4
    };
    let texts = if intro.len() > 0 && b0.5.len() > 0 {
        appended(b0.5, intro)
    } else {
        b0.5
    };
    (st.0, Some((b0.0, page, b0.2, chapter, introduction, appended(texts, body), appended(b0.6, post))), pending)
}

/// One page: blank pages and tables of contents are skipped; an episode
/// heading opens a new episode, another heading that is no metadata label
/// becomes the chapter of the next episode, and anything else is body text.
pub open spec fn assembly_step(st: AssemblyState, p: PdfPageView) -> AssemblyState {
    let (page, text, title_line) = p;
    if trim(text).len() == 0 || contains(text, "目次"@) {
        st
    } else if title_line is Some && episode_title(trim(title_line->0)) {
        let kept = match st.1 {
            Some(b) => if builder_has_content(b) {
                st.0.push(b)
            } else {
                st.0
            },
            None => st.0,
        };
        let b = fresh_builder(Some(trim(title_line->0)), page);
        (kept, Some((b.0, b.1, b.2, st.2, b.4, b.5, b.6)), None)
    } else if title_line is Some && !metadata_label(ascii_width(trim(title_line->0))) {
        (st.0, st.1, Some(trim(title_line->0)))
    } else {
        body_page(st, page, text)
    }
}

pub open spec fn assembly_fold(pages: Seq<PdfPageView>, st: AssemblyState) -> AssemblyState
    decreases pages.len(),
{
    if pages.len() == 0 {
        st
    } else {
        assembly_fold(pages.drop_first(), assembly_step(st, pages[0]))
    }
}

/// The pages after the metadata pages, or all pages when there are none.
pub open spec fn later_pages(pages: Seq<PdfPageView>, limit: nat) -> Seq<PdfPageView>
    decreases pages.len(),
{
    if pages.len() == 0 {
        pages
    } else if pages.last().0 > limit {
        later_pages(pages.drop_last(), limit).push(pages.last())
    } else {
        later_pages(pages.drop_last(), limit)
    }
}

/// The episodes of a PDF from its pages in order.
pub open spec fn assembled_episodes(pages: Seq<PdfPageView>, limit: nat, fallback_title: Seq<char>) -> Seq<ParsedEpisodeView> {
    let target = if later_pages(pages, limit).len() == 0 {
        pages
    } else {
        later_pages(pages, limit)
    };
    let st = assembly_fold(target, (Seq::empty(), None, None));
    let kept = match st.1 {
        Some(b) => if builder_has_content(b) {
            st.0.push(b)
        } else {
            st.0
        },
        None => st.0,
    };
    Seq::new(kept.len(), |k: int| built(kept[k], (k + 1) as nat, fallback_title))
}

pub open spec fn builders_view(v: Seq<EpisodeBuilder>) -> Seq<BuilderView> {
    v.map_values(|b: EpisodeBuilder| b.view())
}

pub open spec fn opt_builder_view(o: Option<EpisodeBuilder>) -> Option<BuilderView> {
    match o {
        Some(b) => Some(b.view()),
        None => None,
    }
}

fn add_body_page(current: &mut Option<EpisodeBuilder>, pending: &mut Option<String>, page: u32, text: &str)
    ensures
        ({
            let st = body_page((Seq::empty(), opt_builder_view(*old(current)), opt_string_view(*old(pending))), page as nat, text@);
            opt_builder_view(*final(current)) == st.1 && opt_string_view(*final(pending)) == st.2
        }),
{
    let mut b = match current.take() {
        Some(b) => b,
        None => EpisodeBuilder::new(None, page),
    };
    if b.chapter.is_none() {
        b.chapter = pending.take();
    }
    b.end_page = page;
    let (intro, body, post) = split_page_sections(text);
    let had_text = b.text.len() > 0;
    if !intro.as_str().is_empty() {
        if !had_text {
            b.append_intro(intro.as_str());
        } else {
            b.append_text(intro.as_str());
        }
    }
    b.append_text(body.as_str());
    b.append_postscript(post.as_str());
    *current = Some(b);
}

/// Assembles the episodes of a PDF from its pages in page order; the pages
/// up to `meta_page_limit` hold metadata and are left out unless there are
/// no others.
pub fn assemble_episodes(pages: &[PdfPage], meta_page_limit: u32, fallback_title: &str) -> (r: Vec<ParsedEpisode>)
    ensures
        parsed_view(r@) == assembled_episodes(pages_view(pages@), meta_page_limit as nat, fallback_title@),
        forall|k: int| 0 <= k < r@.len() ==> (#[trigger] r@[k]).plain(),
{
    let ghost pv = pages_view(pages@);
    let mut later: Vec<usize> = Vec::new();
    let mut i: usize = 0;
    assert(pv.take(0) =~= Seq::<PdfPageView>::empty());
    while i < pages.len()
        invariant
            i <= pages.len(),
            pv == pages_view(pages@),
            later@.map_values(|j: usize| pv[j as int]) == later_pages(pv.take(i as int), meta_page_limit as nat),
            forall|k: int| 0 <= k < later@.len() ==> (#[trigger] later@[k]) < pages.len(),
        decreases pages.len() - i,
    {
        assert(pv.take(i + 1).drop_last() =~= pv.take(i as int));
        assert(pv.take(i + 1).last() == pv[i as int]);
        if pages[i].page > meta_page_limit {
            let ghost before = later@;
            later.push(i);
            assert(later@.map_values(|j: usize| pv[j as int]) =~= before.map_values(|j: usize| pv[j as int]).push(pv[i as int]));
        }
        i = i + 1;
    }
    assert(pv.take(i as int) =~= pv);
    let use_all = later.len() == 0;
    let n: usize = if use_all { pages.len() } else { later.len() };
    let ghost target = if later_pages(pv, meta_page_limit as nat).len() == 0 {
        pv
    } else {
        later_pages(pv, meta_page_limit as nat)
    };
    let mut episodes: Vec<EpisodeBuilder> = Vec::new();
    let mut current: Option<EpisodeBuilder> = None;
    let mut pending: Option<String> = None;
    let ghost goal = assembly_fold(target, (Seq::empty(), None, None));
    let mut k: usize = 0;
    assert(target.skip(0) =~= target);
    assert(builders_view(episodes@) =~= Seq::<BuilderView>::empty());
    while k < n
        invariant
            k <= n,
            pv == pages_view(pages@),
            n == target.len(),
            use_all ==> target == pv,
            !use_all ==> target == later@.map_values(|j: usize| pv[j as int]),
            forall|m: int| 0 <= m < later@.len() ==> (#[trigger] later@[m]) < pages.len(),
            use_all ==> n == pages.len(),
            !use_all ==> n == later.len(),
            assembly_fold(target.skip(k as int), (builders_view(episodes@), opt_builder_view(current), opt_string_view(pending)))
                == goal,
        decreases n - k,
    {
        let idx: usize = if use_all { k } else { later[k] };
        let p = &pages[idx];
        let ghost rest = target.skip(k as int);
        assert(rest[0] == p.view());
        assert(rest.drop_first() =~= target.skip(k + 1));
        let tv = chars_of(p.text.as_str());
        let tt = trim_chars(tv.as_slice());
        if tt.len() == 0 || contains_str(tv.as_slice(), "目次") {
            k = k + 1;
            continue;
        }
        if let Some(tl) = &p.title_line {
            let title = crate::text::trim_str(tl.as_str());
            if looks_like_episode_title(title.as_str()) {
                proof {
                    crate::text::lemma_trim_idempotent(tl@);
                }
                let prev = current.take();
                if let Some(b) = prev {
                    if b.has_content() {
                        let ghost before = builders_view(episodes@);
                        episodes.push(b);
                        assert(builders_view(episodes@) =~= before.push(b.view()));
                    }
                }
                let mut nb = EpisodeBuilder::new(Some(title), p.page);
                nb.chapter = pending.take();
                current = Some(nb);
                k = k + 1;
                continue;
            }
            let nt = normalize_ascii_width(title.as_str());
            if !looks_like_metadata_label(nt.as_str()) {
                pending = Some(title);
                k = k + 1;
                continue;
            }
        }
        let ghost eps = builders_view(episodes@);
        add_body_page(&mut current, &mut pending, p.page, p.text.as_str());
        k = k + 1;
    }
    assert(target.skip(k as int) =~= Seq::<PdfPageView>::empty());
    if let Some(b) = current {
        if b.has_content() {
            let ghost before = builders_view(episodes@);
            episodes.push(b);
            assert(builders_view(episodes@) =~= before.push(b.view()));
        }
    }
    let ghost kept = builders_view(episodes@);
    let ghost want = Seq::new(kept.len(), |j: int| built(kept[j], (j + 1) as nat, fallback_title@));
    let mut out: Vec<ParsedEpisode> = Vec::new();
    let mut j: usize = 0;
    let total = episodes.len();
    let mut rest_builders = episodes;
    while j < total
        invariant
            j <= total,
            total == kept.len(),
            rest_builders@.len() == total - j,
            want == Seq::new(kept.len(), |j: int| built(kept[j], (j + 1) as nat, fallback_title@)),
            builders_view(rest_builders@) == kept.skip(j as int),
            parsed_view(out@) == want.take(j as int),
            forall|m: int| 0 <= m < out@.len() ==> (#[trigger] out@[m]).plain(),
        decreases total - j,
    {
        let ghost old_rest = rest_builders@;
        assert(builders_view(old_rest)[0] == kept.skip(j as int)[0]);
        let b = rest_builders.remove(0);
        assert(b == old_rest[0]);
        assert(b.view() == kept[j as int]);
        assert(rest_builders@ =~= old_rest.drop_first());
        assert(builders_view(old_rest.drop_first()) =~= builders_view(old_rest).drop_first());
        assert(kept.skip(j + 1) =~= kept.skip(j as int).drop_first());
        let e = b.build(j + 1, fallback_title);
        let ghost before = parsed_view(out@);
        out.push(e);
        assert(parsed_view(out@) =~= before.push(want[j as int]));
        assert(want.take(j + 1) =~= want.take(j as int).push(want[j as int]));
        j = j + 1;
    }
    assert(want.take(j as int) =~= want);
    out
}

} // verus!
