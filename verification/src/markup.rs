//! HTML rendering of the work text markup: escaping, `[image](…)`,
//! `[ruby:<…>(…)]` and `[jump:…]`, images and URLs.
use vstd::prelude::*;
use crate::text::{
    chars_eq, chars_eq_str, chars_of, decimal, ends_with_str, find, find_chars, find_in_suffix,
    has_prefix, has_suffix, join, join_str, lemma_find, lower, push_all, push_decimal, push_str,
    replace_all, replace_str, rfind_char, slice_range, split_at_char, split_by, starts_with_at,
    string_from_chars, trim, trim_chars, trim_end, trim_end_chars, trim_end_char, trim_end_set, views,
    count_char, lemma_count_concat, lemma_split_by_count, lemma_split_by_len, strings_view,
    contains_string, trim_end_set_chars,
};
use crate::tasks::WorkListSort;

verus! {

// ---------------------------------------------------------------------------
// Escaping
// ---------------------------------------------------------------------------

/// The escape of one character in HTML text.
pub open spec fn esc_char(c: char) -> Seq<char> {
    if c == '&' {
        seq!['&', 'a', 'm', 'p', ';']
    } else if c == '<' {
        seq!['&', 'l', 't', ';']
    } else if c == '>' {
        seq!['&', 'g', 't', ';']
    } else if c == '"' {
        seq!['&', 'q', 'u', 'o', 't', ';']
    } else {
        seq![c]
    }
}

/// The escape of one character in an HTML attribute: also `'`.
pub open spec fn esc_attr_char(c: char) -> Seq<char> {
    if c == '\'' {
        seq!['&', '#', '3', '9', ';']
    } else {
        esc_char(c)
    }
}

/// `&`, `<`, `>` and `"` replaced by their entities.
pub open spec fn escape(s: Seq<char>) -> Seq<char>
    decreases s.len(),
{
    if s.len() == 0 {
        s
    } else {
        escape(s.drop_last()) + esc_char(s.last())
    }
}

/// `escape` that also replaces `'`.
pub open spec fn escape_attr(s: Seq<char>) -> Seq<char>
    decreases s.len(),
{
    if s.len() == 0 {
        s
    } else {
        escape_attr(s.drop_last()) + esc_attr_char(s.last())
    }
}

fn push_esc_char(out: &mut Vec<char>, c: char, attr: bool)
    ensures
        final(out)@ == old(out)@ + (if attr { esc_attr_char(c) } else { esc_char(c) }),
{
    let ghost before = out@;
    if c == '&' {
        out.push('&');
        out.push('a');
        out.push('m');
        out.push('p');
        out.push(';');
    } else if c == '<' {
        out.push('&');
        out.push('l');
        out.push('t');
        out.push(';');
    } else if c == '>' {
        out.push('&');
        out.push('g');
        out.push('t');
        out.push(';');
    } else if c == '"' {
        out.push('&');
        out.push('q');
        out.push('u');
        out.push('o');
        out.push('t');
        out.push(';');
    } else if attr && c == '\'' {
        out.push('&');
        out.push('#');
        out.push('3');
        out.push('9');
        out.push(';');
    } else {
        out.push(c);
    }
    assert(out@ =~= before + (if attr { esc_attr_char(c) } else { esc_char(c) }));
}

/// Appends the escape of `v`.
pub fn push_escaped(out: &mut Vec<char>, v: &[char])
    ensures
        final(out)@ == old(out)@ + escape(v@),
{
    let ghost start = out@;
    let mut i: usize = 0;
    assert(v@.take(0) =~= Seq::<char>::empty());
    while i < v.len()
        invariant
            i <= v.len(),
            out@ == start + escape(v@.take(i as int)),
        decreases v.len() - i,
    {
        assert(v@.take(i + 1).drop_last() =~= v@.take(i as int));
        push_esc_char(out, v[i], false);
        i = i + 1;
        assert(out@ =~= start + escape(v@.take(i as int)));
    }
    assert(v@.take(v.len() as int) =~= v@);
}

fn push_escaped_attr(out: &mut Vec<char>, v: &[char])
    ensures
        final(out)@ == old(out)@ + escape_attr(v@),
{
    let ghost start = out@;
    let mut i: usize = 0;
    assert(v@.take(0) =~= Seq::<char>::empty());
    while i < v.len()
        invariant
            i <= v.len(),
            out@ == start + escape_attr(v@.take(i as int)),
        decreases v.len() - i,
    {
        assert(v@.take(i + 1).drop_last() =~= v@.take(i as int));
        push_esc_char(out, v[i], true);
        i = i + 1;
        assert(out@ =~= start + escape_attr(v@.take(i as int)));
    }
    assert(v@.take(v.len() as int) =~= v@);
}

pub fn escape_html(text: &str) -> (r: String)
    ensures
        r@ == escape(text@),
{
    let v = chars_of(text);
    let mut out: Vec<char> = Vec::new();
    push_escaped(&mut out, v.as_slice());
    assert(out@ =~= escape(text@));
    string_from_chars(out.as_slice())
}

pub fn escape_html_attr(text: &str) -> (r: String)
    ensures
        r@ == escape_attr(text@),
{
    let v = chars_of(text);
    let mut out: Vec<char> = Vec::new();
    push_escaped_attr(&mut out, v.as_slice());
    assert(out@ =~= escape_attr(text@));
    string_from_chars(out.as_slice())
}

/// Law: escaped text holds no `<`, `>` or `"`, so it cannot open a tag or
/// close an attribute.
pub proof fn lemma_escape_is_inert(s: Seq<char>)
    ensures
        !escape(s).contains('<'),
        !escape(s).contains('>'),
        !escape(s).contains('"'),
    decreases s.len(),
{
    if s.len() > 0 {
        lemma_escape_is_inert(s.drop_last());
        let a = escape(s.drop_last());
        let b = esc_char(s.last());
        assert(escape(s) == a + b);
        assert forall|i: int| 0 <= i < (a + b).len() implies (a + b)[i] != '<' && (a + b)[i] != '>' && (a + b)[i] != '"' by {
            if i < a.len() {
                assert((a + b)[i] == a[i]);
            } else {
                assert((a + b)[i] == b[i - a.len()]);
            }
        }
    }
}

/// Law: escaping an attribute value leaves no quote of either kind.
pub proof fn lemma_escape_attr_is_inert(s: Seq<char>)
    ensures
        !escape_attr(s).contains('"'),
        !escape_attr(s).contains('\''),
        !escape_attr(s).contains('<'),
    decreases s.len(),
{
    if s.len() > 0 {
        lemma_escape_attr_is_inert(s.drop_last());
        let a = escape_attr(s.drop_last());
        let b = esc_attr_char(s.last());
        assert(escape_attr(s) == a + b);
        assert forall|i: int| 0 <= i < (a + b).len() implies (a + b)[i] != '"' && (a + b)[i] != '\'' && (a + b)[i] != '<' by {
            if i < a.len() {
                assert((a + b)[i] == a[i]);
            } else {
                assert((a + b)[i] == b[i - a.len()]);
            }
        }
    }
}

// ---------------------------------------------------------------------------
// Images
// ---------------------------------------------------------------------------

/// A stored image: content hash and file extension.
#[derive(Debug, Clone)]
pub struct ImageAsset {
    pub hash: String,
    pub ext: String,
}

/// Images of a work by logical name.
#[derive(Debug, Clone)]
pub struct ImageTable {
    entries: Vec<(String, ImageAsset)>,
}

/// The asset of `name` in a table view.
pub open spec fn image_lookup(t: Seq<(Seq<char>, (Seq<char>, Seq<char>))>, name: Seq<char>) -> Option<(Seq<char>, Seq<char>)>
    decreases t.len(),
{
    if t.len() == 0 {
        None
    } else if t.last().0 == name {
        Some(t.last().1)
    } else {
        image_lookup(t.drop_last(), name)
    }
}

impl ImageTable {
    /// The entries as (logical name, (hash, extension)).
    pub closed spec fn view_table(&self) -> Seq<(Seq<char>, (Seq<char>, Seq<char>))> {
        self.entries@.map_values(|e: (String, ImageAsset)| (e.0@, (e.1.hash@, e.1.ext@)))
    }

    pub fn new() -> (r: Self)
        ensures
            r.view_table() == Seq::<(Seq<char>, (Seq<char>, Seq<char>))>::empty(),
    {
        let r = ImageTable { entries: Vec::new() };
        assert(r.view_table() =~= Seq::<(Seq<char>, (Seq<char>, Seq<char>))>::empty());
        r
    }

    /// Registers an image; a later entry for the same name takes precedence.
    pub fn insert(&mut self, logical_name: String, asset: ImageAsset)
        ensures
            final(self).view_table() == old(self).view_table().push((logical_name@, (asset.hash@, asset.ext@))),
    {
        let ghost before = self.view_table();
        self.entries.push((logical_name, asset));
        assert(self.view_table() =~= before.push((logical_name@, (asset.hash@, asset.ext@))));
    }

    /// The asset of `logical_name`.
    pub fn get(&self, logical_name: &[char]) -> (r: Option<&ImageAsset>)
        ensures
            match r {
                Some(a) => image_lookup(self.view_table(), logical_name@) == Some((a.hash@, a.ext@)),
                None => image_lookup(self.view_table(), logical_name@) is None,
            },
    {
        let ghost t = self.view_table();
        let mut j: usize = self.entries.len();
        assert(t.take(j as int) =~= t);
        while j > 0
            invariant
                j <= self.entries.len(),
                t == self.view_table(),
                image_lookup(t, logical_name@) == image_lookup(t.take(j as int), logical_name@),
            decreases j,
        {
            let e = &self.entries[j - 1];
            assert(t.take(j as int).last() == (e.0@, (e.1.hash@, e.1.ext@)));
            let n = chars_of(e.0.as_str());
            if chars_eq(n.as_slice(), logical_name) {
                return Some(&e.1);
            }
            assert(t.take(j as int).drop_last() =~= t.take(j - 1));
            j = j - 1;
        }
        None
    }
}

/// A base64url SHA3 hash: 43 ASCII letters, digits, `-` or `_`.
pub open spec fn sha3_base64url(h: Seq<char>) -> bool {
    h.len() == 43 && forall|i: int| 0 <= i < h.len() ==> (crate::text::is_alnum(#[trigger] h[i]) || h[i] == '-' || h[i] == '_')
}

/// A legacy hex hash: at least ten hex digits.
pub open spec fn legacy_hex_hash(h: Seq<char>) -> bool {
    h.len() >= 10 && forall|i: int| 0 <= i < h.len() ==> crate::text::is_hex_digit(#[trigger] h[i])
}

pub open spec fn image_hash(h: Seq<char>) -> bool {
    sha3_base64url(h) || legacy_hex_hash(h)
}

pub fn looks_like_sha3_base64url(hash: &str) -> (r: bool)
    ensures
        r == sha3_base64url(hash@),
{
    let h = chars_of(hash);
    if h.len() != 43 {
        return false;
    }
    let mut i: usize = 0;
    while i < h.len()
        invariant
            i <= h.len(),
            h@ == hash@,
            forall|k: int| 0 <= k < i ==> (crate::text::is_alnum(#[trigger] h@[k]) || h@[k] == '-' || h@[k] == '_'),
        decreases h.len() - i,
    {
        if !(crate::text::is_ascii_alphanumeric(h[i]) || h[i] == '-' || h[i] == '_') {
            return false;
        }
        i = i + 1;
    }
    true
}

pub fn looks_like_legacy_hex_hash(hash: &str) -> (r: bool)
    ensures
        r == legacy_hex_hash(hash@),
{
    let h = chars_of(hash);
    if h.len() < 10 {
        return false;
    }
    let mut i: usize = 0;
    while i < h.len()
        invariant
            i <= h.len(),
            h@ == hash@,
            forall|k: int| 0 <= k < i ==> crate::text::is_hex_digit(#[trigger] h@[k]),
        decreases h.len() - i,
    {
        if !crate::text::is_ascii_hexdigit(h[i]) {
            return false;
        }
        i = i + 1;
    }
    true
}

pub fn looks_like_image_hash(hash: &str) -> (r: bool)
    ensures
        r == image_hash(hash@),
{
    looks_like_sha3_base64url(hash) || looks_like_legacy_hex_hash(hash)
}

/// Extensions accepted for images.
pub open spec fn image_extension(e: Seq<char>) -> bool {
    let l = lower(e);
    l == "jpg"@ || l == "jpeg"@ || l == "png"@ || l == "gif"@ || l == "apng"@ || l == "webp"@
        || l == "bmp"@ || l == "avif"@ || l == "svg"@
}

/// A content-addressed file name `hash.ext`, split at its last dot.
pub open spec fn hashed_name(name: Seq<char>) -> Option<(Seq<char>, Seq<char>)> {
    match rfind_char(name, '.') {
        Some(d) => {
            let stem = name.take(d);
            let ext = name.skip(d + 1);
            if stem.len() > 0 && ext.len() > 0 && image_hash(stem) && image_extension(ext) {
                Some((stem, ext))
            } else {
                None
            }
        },
        None => None,
    }
}

pub fn split_hashed_name(name: &str) -> (r: Option<(String, String)>)
    ensures
        match r {
            Some((s, e)) => hashed_name(name@) == Some((s@, e@)),
            None => hashed_name(name@) is None,
        },
{
    let v = chars_of(name);
    proof {
        crate::text::lemma_rfind_char(v@, '.');
    }
    let d = match crate::text::rfind_char_exec(v.as_slice(), '.') {
        Some(d) => d,
        None => return None,
    };
    let stem = slice_range(v.as_slice(), 0, d);
    let ext = slice_range(v.as_slice(), d + 1, v.len());
    assert(stem@ =~= v@.take(d as int));
    assert(ext@ =~= v@.skip(d + 1));
    if stem.len() == 0 || ext.len() == 0 {
        return None;
    }
    let s = string_from_chars(stem.as_slice());
    if !looks_like_image_hash(s.as_str()) {
        return None;
    }
    let l = crate::text::lower_chars(ext.as_slice());
    let ok = chars_eq_str(l.as_slice(), "jpg") || chars_eq_str(l.as_slice(), "jpeg")
        || chars_eq_str(l.as_slice(), "png") || chars_eq_str(l.as_slice(), "gif")
        || chars_eq_str(l.as_slice(), "apng") || chars_eq_str(l.as_slice(), "webp")
        || chars_eq_str(l.as_slice(), "bmp") || chars_eq_str(l.as_slice(), "avif")
        || chars_eq_str(l.as_slice(), "svg");
    if !ok {
        return None;
    }
    Some((s, string_from_chars(ext.as_slice())))
}

/// The HTML of an image reference.
pub open spec fn image_html(name: Seq<char>, t: Seq<(Seq<char>, (Seq<char>, Seq<char>))>, base: Seq<char>) -> Seq<char> {
    match image_lookup(t, name) {
        Some((h, e)) => "<img src=\""@ + escape(base) + "/"@ + escape(h) + "."@ + escape(e)
            + "\" alt=\""@ + escape(name) + "\">"@,
        None => if hashed_name(name) is Some {
            "<img src=\""@ + escape(base) + "/"@ + escape(name) + "\" alt=\"\">"@
        } else {
            "<p><code>"@ + escape(name) + "</code></p>"@
        },
    }
}

fn push_image(out: &mut Vec<char>, logical_name: &[char], images: &ImageTable, image_path_base: &str)
    ensures
        final(out)@ == old(out)@ + image_html(logical_name@, images.view_table(), image_path_base@),
{
    let base = chars_of(image_path_base);
    let ghost start = out@;
    match images.get(logical_name) {
        Some(image) => {
            push_str(out, "<img src=\"");
            push_escaped(out, base.as_slice());
            push_str(out, "/");
            let h = chars_of(image.hash.as_str());
            push_escaped(out, h.as_slice());
            push_str(out, ".");
            let e = chars_of(image.ext.as_str());
            push_escaped(out, e.as_slice());
            push_str(out, "\" alt=\"");
            push_escaped(out, logical_name);
            push_str(out, "\">");
        },
        None => {
            let s = string_from_chars(logical_name);
            if split_hashed_name(s.as_str()).is_some() {
                push_str(out, "<img src=\"");
                push_escaped(out, base.as_slice());
                push_str(out, "/");
                push_escaped(out, logical_name);
                push_str(out, "\" alt=\"\">");
            } else {
                push_str(out, "<p><code>");
                push_escaped(out, logical_name);
                push_str(out, "</code></p>");
            }
        },
    }
    assert(out@ =~= start + image_html(logical_name@, images.view_table(), image_path_base@));
}

pub fn render_image(logical_name: &str, images: &ImageTable, image_path_base: &str) -> (r: String)
    ensures
        r@ == image_html(logical_name@, images.view_table(), image_path_base@),
{
    let n = chars_of(logical_name);
    let mut out: Vec<char> = Vec::new();
    push_image(&mut out, n.as_slice(), images, image_path_base);
    assert(out@ =~= image_html(logical_name@, images.view_table(), image_path_base@));
    string_from_chars(out.as_slice())
}

// ---------------------------------------------------------------------------
// Inline markup
// ---------------------------------------------------------------------------

/// The images of a work as (logical name, (hash, extension)), later entries
/// taking precedence.
pub type ImagesView = Seq<(Seq<char>, (Seq<char>, Seq<char>))>;

/// `<ruby>` markup for a base text and its reading.
pub open spec fn ruby_html(base: Seq<char>, reading: Seq<char>) -> Seq<char> {
    "<ruby>"@ + escape(base) + "<rp>(</rp><rt>"@ + escape(reading) + "</rt><rp>)</rp></ruby>"@
}

/// A link to the paragraph `#L<target>`.
pub open spec fn jump_html(target: Seq<char>) -> Seq<char> {
    "<a href=\"#L"@ + escape(target) + "\">"@ + escape(target) + "</a>"@
}

/// Where the base text and the reading of `<base>(reading)]` end.
pub open spec fn ruby_split(rest: Seq<char>) -> Option<(int, int)> {
    match find(rest, seq!['>', '(']) {
        Some(b) => match find(rest.skip(b + 2), seq![')', ']']) {
            Some(r) => Some((b, r)),
            None => None,
        },
        None => None,
    }
}

/// Base text, reading and what follows `<base>(reading)]`.
pub open spec fn ruby_parts(rest: Seq<char>) -> (Seq<char>, Seq<char>, Seq<char>) {
    match ruby_split(rest) {
        Some((b, r)) => (rest.take(b), rest.skip(b + 2).take(r), rest.skip(b + 2).skip(r + 2)),
        None => (Seq::<char>::empty(), Seq::<char>::empty(), rest),
    }
}

pub proof fn lemma_ruby_parts(rest: Seq<char>)
    requires
        ruby_split(rest) is Some,
    ensures
        ruby_parts(rest).2.len() + 4 <= rest.len(),
{
    let b = find(rest, seq!['>', '('])->0;
    lemma_find(rest, seq!['>', '(']);
    lemma_find(rest.skip(b + 2), seq![')', ']']);
}

/// `s` opens with a complete `[image](name)`.
pub open spec fn image_token(s: Seq<char>) -> bool {
    has_prefix(s, "[image]("@) && find(s.skip("[image]("@.len() as int), seq![')']) is Some
}

/// `s` opens with a complete `[ruby:<base>(reading)]`.
pub open spec fn ruby_token(s: Seq<char>) -> bool {
    has_prefix(s, "[ruby:<"@) && ruby_split(s.skip("[ruby:<"@.len() as int)) is Some
}

/// `s` opens with a complete `[jump:target]`.
pub open spec fn jump_token(s: Seq<char>) -> bool {
    has_prefix(s, "[jump:"@) && find(s.skip("[jump:"@.len() as int), seq![']']) is Some
}

/// HTML of text with inline markup, read from the front: a complete
/// `[image](name)`, `[ruby:<base>(reading)]` or `[jump:target]` becomes its
/// element, and any other character is escaped.
pub open spec fn inline_html(s: Seq<char>, t: ImagesView, base: Seq<char>) -> Seq<char>
    decreases s.len(),
{
    if s.len() == 0 {
        Seq::<char>::empty()
    } else if image_token(s) {
        let rest = s.skip("[image]("@.len() as int);
        let e = find(rest, seq![')'])->0;
        proof {
            lemma_find(rest, seq![')']);
        }
        image_html(rest.take(e), t, base) + inline_html(rest.skip(e + 1), t, base)
    } else if ruby_token(s) {
        proof {
            lemma_ruby_parts(s.skip("[ruby:<"@.len() as int));
        }
        let (base_text, reading, remainder) = ruby_parts(s.skip("[ruby:<"@.len() as int));
        ruby_html(base_text, reading) + inline_html(remainder, t, base)
    } else if jump_token(s) {
        let rest = s.skip("[jump:"@.len() as int);
        let e = find(rest, seq![']'])->0;
        proof {
            lemma_find(rest, seq![']']);
        }
        jump_html(rest.take(e)) + inline_html(rest.skip(e + 1), t, base)
    } else {
        esc_char(s[0]) + inline_html(s.drop_first(), t, base)
    }
}

fn push_ruby(out: &mut Vec<char>, base: &[char], reading: &[char])
    ensures
        final(out)@ == old(out)@ + ruby_html(base@, reading@),
{
    let ghost start = out@;
    push_str(out, "<ruby>");
    push_escaped(out, base);
    push_str(out, "<rp>(</rp><rt>");
    push_escaped(out, reading);
    push_str(out, "</rt><rp>)</rp></ruby>");
    assert(out@ =~= start + ruby_html(base@, reading@));
}

fn push_jump(out: &mut Vec<char>, target: &[char])
    ensures
        final(out)@ == old(out)@ + jump_html(target@),
{
    let ghost start = out@;
    push_str(out, "<a href=\"#L");
    push_escaped(out, target);
    push_str(out, "\">");
    push_escaped(out, target);
    push_str(out, "</a>");
    assert(out@ =~= start + jump_html(target@));
}

/// Renders an `[image](name)` at `i`, if one opens there, and gives the
/// index after it.
fn try_image(out: &mut Vec<char>, v: &[char], i: usize, images: &ImageTable, image_path_base: &str) -> (r: Option<usize>)
    requires
        i < v.len(),
    ensures
        match r {
            Some(n) => i < n <= v.len() && image_token(v@.skip(i as int))
                && final(out)@ + inline_html(v@.skip(n as int), images.view_table(), image_path_base@)
                == old(out)@ + inline_html(v@.skip(i as int), images.view_table(), image_path_base@),
            None => !image_token(v@.skip(i as int)) && final(out)@ == old(out)@,
        },
{
    let ghost s = v@.skip(i as int);
    if !starts_with_at(v, "[image](", i) {
        return None;
    }
    let close_paren = vec![')'];
    assert(close_paren@ =~= seq![')']);
    let from = i + chars_of("[image](").len();
    let ghost rest = v@.skip(from as int);
    assert(s.skip("[image]("@.len() as int) =~= rest);
    match find_in_suffix(v, close_paren.as_slice(), from) {
        Some(end) => {
            proof {
                lemma_find(rest, seq![')']);
            }
            let logical = slice_range(v, from, end);
            assert(logical@ =~= rest.take(end - from));
            push_image(out, logical.as_slice(), images, image_path_base);
            assert(rest.skip(end - from + 1) =~= v@.skip(end + 1));
            Some(end + 1)
        },
        None => None,
    }
}

/// Renders a `[ruby:<base>(reading)]` at `i`, if one opens there.
fn try_ruby(out: &mut Vec<char>, v: &[char], i: usize) -> (r: Option<usize>)
    requires
        i < v.len(),
    ensures
        match r {
            Some(n) => i < n <= v.len() && ruby_token(v@.skip(i as int)) && final(out)@ == old(out)@
                + ruby_html(
                ruby_parts(v@.skip(i as int).skip("[ruby:<"@.len() as int)).0,
                ruby_parts(v@.skip(i as int).skip("[ruby:<"@.len() as int)).1,
            ) && v@.skip(n as int) == ruby_parts(v@.skip(i as int).skip("[ruby:<"@.len() as int)).2,
            None => !ruby_token(v@.skip(i as int)) && final(out)@ == old(out)@,
        },
{
    let ghost s = v@.skip(i as int);
    if !starts_with_at(v, "[ruby:<", i) {
        return None;
    }
    let ruby_mid = vec!['>', '('];
    let ruby_end = vec![')', ']'];
    assert(ruby_mid@ =~= seq!['>', '(']);
    assert(ruby_end@ =~= seq![')', ']']);
    let from = i + chars_of("[ruby:<").len();
    let ghost rest = v@.skip(from as int);
    assert(s.skip("[ruby:<"@.len() as int) =~= rest);
    let mid = match find_in_suffix(v, ruby_mid.as_slice(), from) {
        Some(m) => m,
        None => return None,
    };
    proof {
        lemma_find(rest, seq!['>', '(']);
    }
    let from2 = mid + 2;
    let ghost rest2 = v@.skip(from2 as int);
    assert(rest.skip(mid - from + 2) =~= rest2);
    let close = match find_in_suffix(v, ruby_end.as_slice(), from2) {
        Some(c) => c,
        None => return None,
    };
    proof {
        lemma_find(rest2, seq![')', ']']);
    }
    let base_text = slice_range(v, from, mid);
    let reading = slice_range(v, from2, close);
    assert(base_text@ =~= rest.take(mid - from));
    assert(reading@ =~= rest2.take(close - from2));
    push_ruby(out, base_text.as_slice(), reading.as_slice());
    assert(rest2.skip(close - from2 + 2) =~= v@.skip(close + 2));
    assert(ruby_split(rest) == Some(((mid - from) as int, (close - from2) as int)));
    Some(close + 2)
}

/// Renders a `[jump:target]` at `i`, if one opens there.
fn try_jump(out: &mut Vec<char>, v: &[char], i: usize) -> (r: Option<usize>)
    requires
        i < v.len(),
    ensures
        match r {
            Some(n) => i < n <= v.len() && jump_token(v@.skip(i as int)) && final(out)@ == old(out)@
                + jump_html(v@.skip(i as int).skip("[jump:"@.len() as int).take(
                find(v@.skip(i as int).skip("[jump:"@.len() as int), seq![']'])->0,
            )) && v@.skip(n as int) == v@.skip(i as int).skip("[jump:"@.len() as int).skip(
                find(v@.skip(i as int).skip("[jump:"@.len() as int), seq![']'])->0 + 1,
            ),
            None => !jump_token(v@.skip(i as int)) && final(out)@ == old(out)@,
        },
{
    let ghost s = v@.skip(i as int);
    if !starts_with_at(v, "[jump:", i) {
        return None;
    }
    let close_bracket = vec![']'];
    assert(close_bracket@ =~= seq![']']);
    let from = i + chars_of("[jump:").len();
    let ghost rest = v@.skip(from as int);
    assert(s.skip("[jump:"@.len() as int) =~= rest);
    match find_in_suffix(v, close_bracket.as_slice(), from) {
        Some(end) => {
            proof {
                lemma_find(rest, seq![']']);
            }
            let target = slice_range(v, from, end);
            assert(target@ =~= rest.take(end - from));
            push_jump(out, target.as_slice());
            assert(rest.skip(end - from + 1) =~= v@.skip(end + 1));
            Some(end + 1)
        },
        None => None,
    }
}

/// Appends the HTML of `v` with its inline markup.
fn push_inline(out: &mut Vec<char>, v: &[char], images: &ImageTable, image_path_base: &str)
    ensures
        final(out)@ == old(out)@ + inline_html(v@, images.view_table(), image_path_base@),
{
    let ghost start = out@;
    let ghost t = images.view_table();
    let ghost b = image_path_base@;
    let mut i: usize = 0;
    assert(v@.skip(0) =~= v@);
    while i < v.len()
        invariant
            i <= v.len(),
            t == images.view_table(),
            b == image_path_base@,
            out@ + inline_html(v@.skip(i as int), t, b) == start + inline_html(v@, t, b),
        decreases v.len() - i,
    {
        let ghost s = v@.skip(i as int);
        let ghost before = out@;
        if let Some(n) = try_image(out, v, i, images, image_path_base) {
            i = n;
            continue;
        }
        if let Some(n) = try_ruby(out, v, i) {
            assert(before + inline_html(s, t, b) == out@ + inline_html(v@.skip(n as int), t, b));
            i = n;
            continue;
        }
        if let Some(n) = try_jump(out, v, i) {
            assert(before + inline_html(s, t, b) == out@ + inline_html(v@.skip(n as int), t, b));
            i = n;
            continue;
        }
        push_esc_char(out, v[i], false);
        assert(s.drop_first() =~= v@.skip(i + 1));
        assert(s[0] == v@[i as int]);
        assert(inline_html(s, t, b) == esc_char(s[0]) + inline_html(s.drop_first(), t, b));
        i = i + 1;
    }
    assert(v@.skip(i as int) =~= Seq::<char>::empty());
    assert(out@ + Seq::<char>::empty() =~= out@);
}

/// HTML of a line of text with its inline markup.  The site and work are
/// not consulted.
pub fn render_inline_markup(text: &str, site: &str, work_key: &str, images: &ImageTable, image_path_base: &str) -> (r: String)
    ensures
        r@ == inline_html(text@, images.view_table(), image_path_base@),
{
    let v = chars_of(text);
    let mut out: Vec<char> = Vec::new();
    push_inline(&mut out, v.as_slice(), images, image_path_base);
    assert(out@ =~= inline_html(text@, images.view_table(), image_path_base@));
    string_from_chars(out.as_slice())
}

// ---------------------------------------------------------------------------
// Paragraphs
// ---------------------------------------------------------------------------

/// A numbered paragraph `<p id="{prefix}{id}">body</p>`.
pub open spec fn paragraph_html(prefix: Seq<char>, id: nat, body: Seq<char>) -> Seq<char> {
    "<p id=\""@ + prefix + decimal(id) + "\">"@ + body + "</p>"@
}

/// The body of a paragraph that holds one line on its own: a whole-line
/// image, ruby or jump, else the line's inline markup.
pub open spec fn markup_line_body(line: Seq<char>, t: ImagesView, base: Seq<char>) -> Seq<char> {
    let image_rest = line.skip("[image]("@.len() as int);
    let ruby_rest = line.skip("[ruby:<"@.len() as int);
    let jump_rest = line.skip("[jump:"@.len() as int);
    if has_prefix(line, "[image]("@) && has_suffix(image_rest, seq![')']) {
        image_html(image_rest.drop_last(), t, base)
    } else if has_prefix(line, "[ruby:<"@) && has_suffix(ruby_rest, seq![']']) && find(
        ruby_rest.drop_last(),
        seq!['>', '('],
    ) is Some {
        let inner = ruby_rest.drop_last();
        let b = find(inner, seq!['>', '('])->0;
        ruby_html(inner.take(b), trim_end_set(inner.skip(b + 2), seq![')']))
    } else if has_prefix(line, "[jump:"@) && has_suffix(jump_rest, seq![']']) {
        jump_html(jump_rest.drop_last())
    } else {
        inline_html(line, t, base)
    }
}

fn push_paragraph(out: &mut Vec<char>, id_prefix: &str, id: usize, body: &[char])
    ensures
        final(out)@ == old(out)@ + paragraph_html(id_prefix@, id as nat, body@),
{
    let ghost start = out@;
    push_str(out, "<p id=\"");
    push_str(out, id_prefix);
    push_decimal(out, id as u64);
    push_str(out, "\">");
    push_all(out, body);
    push_str(out, "</p>");
    assert(out@ =~= start + paragraph_html(id_prefix@, id as nat, body@));
}

fn markup_body(v: &[char], images: &ImageTable, image_path_base: &str) -> (r: Vec<char>)
    ensures
        r@ == markup_line_body(v@, images.view_table(), image_path_base@),
{
    let ghost line = v@;
    let mut out: Vec<char> = Vec::new();
    let image_len = chars_of("[image](").len();
    if starts_with_at(v, "[image](", 0) {
        assert(v@.skip(0) =~= v@);
        let rest = slice_range(v, image_len, v.len());
        assert(rest@ =~= line.skip("[image]("@.len() as int));
        if ends_with_str(rest.as_slice(), ")") {
            proof {
                reveal_strlit(")");
            }
            assert(")"@ =~= seq![')']);
            let inner = slice_range(rest.as_slice(), 0, rest.len() - 1);
            assert(inner@ =~= rest@.drop_last());
            push_image(&mut out, inner.as_slice(), images, image_path_base);
            assert(out@ =~= markup_line_body(line, images.view_table(), image_path_base@));
            return out;
        }
        proof {
            reveal_strlit(")");
        }
        assert(")"@ =~= seq![')']);
    }
    assert(v@.skip(0) =~= v@);
    let ruby_len = chars_of("[ruby:<").len();
    if starts_with_at(v, "[ruby:<", 0) {
        let rest = slice_range(v, ruby_len, v.len());
        assert(rest@ =~= line.skip("[ruby:<"@.len() as int));
        proof {
            reveal_strlit("]");
        }
        assert("]"@ =~= seq![']']);
        if ends_with_str(rest.as_slice(), "]") {
            let inner = slice_range(rest.as_slice(), 0, rest.len() - 1);
            assert(inner@ =~= rest@.drop_last());
            let mid = vec!['>', '('];
            assert(mid@ =~= seq!['>', '(']);
            if let Some(b) = find_chars(inner.as_slice(), mid.as_slice()) {
                proof {
                    lemma_find(inner@, seq!['>', '(']);
                }
                let base_text = slice_range(inner.as_slice(), 0, b);
                let reading_raw = slice_range(inner.as_slice(), b + 2, inner.len());
                let reading = trim_end_char(reading_raw.as_slice(), ')');
                assert(base_text@ =~= inner@.take(b as int));
                assert(reading_raw@ =~= inner@.skip(b + 2));
                push_ruby(&mut out, base_text.as_slice(), reading.as_slice());
                assert(out@ =~= markup_line_body(line, images.view_table(), image_path_base@));
                return out;
            }
        }
    }
    let jump_len = chars_of("[jump:").len();
    if starts_with_at(v, "[jump:", 0) {
        let rest = slice_range(v, jump_len, v.len());
        assert(rest@ =~= line.skip("[jump:"@.len() as int));
        proof {
            reveal_strlit("]");
        }
        assert("]"@ =~= seq![']']);
        if ends_with_str(rest.as_slice(), "]") {
            let target = slice_range(rest.as_slice(), 0, rest.len() - 1);
            assert(target@ =~= rest@.drop_last());
            push_jump(&mut out, target.as_slice());
            assert(out@ =~= markup_line_body(line, images.view_table(), image_path_base@));
            return out;
        }
    }
    push_inline(&mut out, v, images, image_path_base);
    assert(out@ =~= markup_line_body(line, images.view_table(), image_path_base@));
    out
}

/// One line that stands on its own, as a numbered paragraph; the paragraph
/// counter moves on by one.
pub fn render_markup_line(
    line: &str,
    site: &str,
    work_key: &str,
    images: &ImageTable,
    image_path_base: &str,
    id_prefix: &str,
    paragraph_id: &mut usize,
) -> (r: String)
    requires
        *old(paragraph_id) < usize::MAX,
    ensures
        *final(paragraph_id) == *old(paragraph_id) + 1,
        r@ == paragraph_html(
            id_prefix@,
            *old(paragraph_id) as nat,
            markup_line_body(line@, images.view_table(), image_path_base@),
        ),
{
    let v = chars_of(line);
    let body = markup_body(v.as_slice(), images, image_path_base);
    let mut out: Vec<char> = Vec::new();
    push_paragraph(&mut out, id_prefix, *paragraph_id, body.as_slice());
    *paragraph_id = *paragraph_id + 1;
    assert(out@ =~= paragraph_html(id_prefix@, *old(paragraph_id) as nat, body@));
    string_from_chars(out.as_slice())
}

/// The lines of a block of text: `\r\n` read as `\n`, split at `\n`.
pub open spec fn block_lines(text: Seq<char>) -> Seq<Seq<char>> {
    split_by(replace_all(text, "\r\n"@, "\n"@), seq!['\n'])
}

/// The body of one line of a text block: an empty line holds a break.
pub open spec fn text_line_body(line: Seq<char>, t: ImagesView, base: Seq<char>) -> Seq<char> {
    if trim_end(line).len() == 0 {
        "<br/>"@
    } else {
        inline_html(trim_end(line), t, base)
    }
}

/// The paragraphs of a text block, numbered from `id`.
pub open spec fn text_block_paragraphs(
    text: Seq<char>,
    t: ImagesView,
    base: Seq<char>,
    prefix: Seq<char>,
    id: nat,
) -> Seq<Seq<char>> {
    let lines = block_lines(text);
    Seq::new(
        lines.len(),
        |k: int| paragraph_html(prefix, (id + k) as nat, text_line_body(lines[k], t, base)),
    )
}

/// A block of text as numbered paragraphs, one per line, joined by `\n`.
pub open spec fn text_block_html(
    text: Seq<char>,
    t: ImagesView,
    base: Seq<char>,
    prefix: Seq<char>,
    id: nat,
) -> Seq<char> {
    join(text_block_paragraphs(text, t, base, prefix, id), "\n"@)
}

/// Renders a block of text, one numbered paragraph per line; the counter
/// moves on by the number of lines.
pub fn render_text_block(
    text: &str,
    site: &str,
    work_key: &str,
    images: &ImageTable,
    image_path_base: &str,
    id_prefix: &str,
    paragraph_id: &mut usize,
) -> (r: String)
    requires
        *old(paragraph_id) + block_lines(text@).len() <= usize::MAX,
    ensures
        *final(paragraph_id) == *old(paragraph_id) + block_lines(text@).len(),
        r@ == text_block_html(text@, images.view_table(), image_path_base@, id_prefix@, *old(paragraph_id) as nat),
{
    let ghost t = images.view_table();
    let ghost id0 = *paragraph_id;
    let ghost want = text_block_paragraphs(text@, t, image_path_base@, id_prefix@, id0 as nat);
    let v = chars_of(text);
    proof {
        reveal_strlit("\r\n");
    }
    let norm = replace_str(v.as_slice(), "\r\n", "\n");
    let lines = split_at_char(norm.as_slice(), '\n');
    assert(views(lines@) == block_lines(text@));
    let mut paras: Vec<Vec<char>> = Vec::new();
    let mut k: usize = 0;
    while k < lines.len()
        invariant
            k <= lines.len(),
            views(lines@) == block_lines(text@),
            t == images.view_table(),
            want == text_block_paragraphs(text@, t, image_path_base@, id_prefix@, id0 as nat),
            *paragraph_id == id0 + k,
            id0 + lines@.len() <= usize::MAX,
            views(paras@) == want.take(k as int),
        decreases lines.len() - k,
    {
        let line = trim_end_chars(lines[k].as_slice());
        assert(lines@[k as int]@ == block_lines(text@)[k as int]);
        let mut body: Vec<char> = Vec::new();
        if line.len() == 0 {
            push_str(&mut body, "<br/>");
            assert(body@ =~= "<br/>"@);
        } else {
            push_inline(&mut body, line.as_slice(), images, image_path_base);
            assert(body@ =~= inline_html(line@, t, image_path_base@));
        }
        let mut p: Vec<char> = Vec::new();
        push_paragraph(&mut p, id_prefix, *paragraph_id, body.as_slice());
        assert(p@ =~= want[k as int]);
        let ghost prev = paras@;
        paras.push(p);
        assert(views(paras@) =~= views(prev).push(want[k as int]));
        assert(want.take(k + 1) =~= want.take(k as int).push(want[k as int]));
        *paragraph_id = *paragraph_id + 1;
        k = k + 1;
    }
    assert(want.take(k as int) =~= want);
    let out = join_str(&paras, "\n");
    string_from_chars(out.as_slice())
}

// ---------------------------------------------------------------------------
// Rich text
// ---------------------------------------------------------------------------

/// A line that may stand on its own as markup.
pub open spec fn standalone_markup(line: Seq<char>) -> bool {
    has_prefix(line, "[image]("@) || has_prefix(line, "[ruby:<"@) || has_prefix(line, "[jump:"@)
}

pub fn is_standalone_markup(line: &str) -> (r: bool)
    ensures
        r == standalone_markup(line@),
{
    let v = chars_of(line);
    assert(v@.skip(0) =~= v@);
    starts_with_at(v.as_slice(), "[image](", 0) || starts_with_at(v.as_slice(), "[ruby:<", 0)
        || starts_with_at(v.as_slice(), "[jump:", 0)
}

/// `\r\n` read as `\n`.
pub open spec fn normalized_newlines(text: Seq<char>) -> Seq<char> {
    replace_all(text, "\r\n"@, "\n"@)
}

pub fn normalize_newlines(text: &str) -> (r: String)
    ensures
        r@ == normalized_newlines(text@),
{
    let v = chars_of(text);
    proof {
        reveal_strlit("\r\n");
    }
    let n = replace_str(v.as_slice(), "\r\n", "\n");
    string_from_chars(n.as_slice())
}

/// `\r\n` becomes `\n`: the number of `\n` stays.
proof fn lemma_crlf_count(s: Seq<char>)
    ensures
        count_char(normalized_newlines(s), '\n') == count_char(s, '\n'),
    decreases s.len(),
{
    reveal_strlit("\r\n");
    reveal_strlit("\n");
    reveal_with_fuel(count_char, 3);
    if s.len() == 0 {
    } else if has_prefix(s, "\r\n"@) {
        lemma_crlf_count(s.skip(2));
        lemma_count_concat("\n"@, normalized_newlines(s.skip(2)), '\n');
        assert(s =~= s.take(2) + s.skip(2));
        lemma_count_concat(s.take(2), s.skip(2), '\n');
        assert(s.take(2) =~= seq!['\r', '\n']);
        assert(seq!['\r', '\n'].drop_last() =~= seq!['\r']);
        assert(seq!['\r'].drop_last() =~= Seq::<char>::empty());
        assert("\n"@ =~= seq!['\n']);
        assert(seq!['\n'].drop_last() =~= Seq::<char>::empty());
    } else {
        lemma_crlf_count(s.drop_first());
        lemma_count_concat(seq![s[0]], normalized_newlines(s.drop_first()), '\n');
        assert(s =~= seq![s[0]] + s.drop_first());
        lemma_count_concat(seq![s[0]], s.drop_first(), '\n');
    }
}

/// A block grows by at least as many lines as it had when a line is added.
proof fn lemma_block_lines_grow(c: Seq<Seq<char>>, l: Seq<char>)
    requires
        c.len() > 0,
    ensures
        block_lines(join(c, "\n"@)).len() <= block_lines(join(c.push(l), "\n"@)).len(),
{
    reveal_strlit("\n");
    reveal_with_fuel(count_char, 2);
    let a = join(c, "\n"@);
    assert(c.push(l).drop_last() =~= c);
    assert(join(c.push(l), "\n"@) == a + "\n"@ + l);
    lemma_crlf_count(a);
    lemma_crlf_count(a + "\n"@ + l);
    lemma_split_by_count(normalized_newlines(a), '\n');
    lemma_split_by_count(normalized_newlines(a + "\n"@ + l), '\n');
    lemma_count_concat(a + "\n"@, l, '\n');
    lemma_count_concat(a, "\n"@, '\n');
}

/// One trailing `\r` removed.
pub open spec fn strip_cr(l: Seq<char>) -> Seq<char> {
    if l.len() > 0 && l.last() == '\r' {
        l.drop_last()
    } else {
        l
    }
}

/// `str::lines`: the pieces between `\n`, where a piece followed by `\n`
/// loses one trailing `\r` and an empty last piece is dropped.
pub open spec fn text_lines(s: Seq<char>) -> Seq<Seq<char>> {
    let parts = split_by(s, seq!['\n']);
    let ended = Seq::new((parts.len() - 1) as nat, |k: int| strip_cr(parts[k]));
    if parts.last().len() == 0 {
        ended
    } else {
        ended.push(parts.last())
    }
}

fn strip_cr_chars(v: &[char]) -> (r: Vec<char>)
    ensures
        r@ == strip_cr(v@),
{
    if v.len() > 0 && v[v.len() - 1] == '\r' {
        slice_range(v, 0, v.len() - 1)
    } else {
        slice_range(v, 0, v.len())
    }
}

fn lines_of(v: &[char]) -> (r: Vec<Vec<char>>)
    ensures
        views(r@) == text_lines(v@),
{
    let parts = split_at_char(v, '\n');
    let ghost p = views(parts@);
    let ghost ended = Seq::new((p.len() - 1) as nat, |k: int| strip_cr(p[k]));
    let mut r: Vec<Vec<char>> = Vec::new();
    let mut k: usize = 0;
    while k + 1 < parts.len()
        invariant
            k + 1 <= parts.len(),
            p == views(parts@),
            ended == Seq::new((p.len() - 1) as nat, |k: int| strip_cr(p[k])),
            views(r@) == ended.take(k as int),
        decreases parts.len() - k,
    {
        let line = strip_cr_chars(parts[k].as_slice());
        let ghost prev = r@;
        r.push(line);
        assert(views(r@) =~= views(prev).push(ended[k as int]));
        assert(ended.take(k + 1) =~= ended.take(k as int).push(ended[k as int]));
        k = k + 1;
    }
    assert(ended.take(k as int) =~= ended);
    let last = &parts[parts.len() - 1];
    assert(last@ == p.last());
    if last.len() > 0 {
        let copy = slice_range(last.as_slice(), 0, last.len());
        assert(copy@ =~= last@);
        let ghost prev = r@;
        r.push(copy);
        assert(views(r@) =~= views(prev).push(p.last()));
    }
    r
}

/// Rendering state: finished blocks, the lines of the open text block, and
/// the next paragraph number.
pub type RichState = (Seq<Seq<char>>, Seq<Seq<char>>, nat);

/// Closes the open text block, if any.
pub open spec fn rich_flush(st: RichState, t: ImagesView, base: Seq<char>, prefix: Seq<char>) -> RichState {
    if st.1.len() == 0 {
        st
    } else {
        let text = join(st.1, "\n"@);
        (
            st.0.push(text_block_html(text, t, base, prefix, st.2)),
            Seq::<Seq<char>>::empty(),
            st.2 + block_lines(text).len(),
        )
    }
}

/// One line of rich text: `[newpage]` closes the block and breaks the page;
/// markup on a line of its own outside a block becomes its own paragraph;
/// any other line joins the open block.
pub open spec fn rich_step(
    st: RichState,
    line: Seq<char>,
    t: ImagesView,
    base: Seq<char>,
    prefix: Seq<char>,
) -> RichState {
    let trimmed = trim(line);
    if trimmed == "[newpage]"@ {
        let f = rich_flush(st, t, base, prefix);
        (f.0.push("<hr class=\"page-break\">"@), f.1, f.2)
    } else if trimmed.len() > 0 && st.1.len() == 0 && standalone_markup(trimmed) {
        (st.0.push(paragraph_html(prefix, st.2, markup_line_body(trimmed, t, base))), st.1, st.2 + 1)
    } else {
        (st.0, st.1.push(line), st.2)
    }
}

pub open spec fn rich_fold(
    lines: Seq<Seq<char>>,
    st: RichState,
    t: ImagesView,
    base: Seq<char>,
    prefix: Seq<char>,
) -> RichState
    decreases lines.len(),
{
    if lines.len() == 0 {
        st
    } else {
        rich_fold(lines.drop_first(), rich_step(st, lines[0], t, base, prefix), t, base, prefix)
    }
}

/// The blocks of a rich text and the next paragraph number after it.
pub open spec fn rich_result(
    text: Seq<char>,
    t: ImagesView,
    base: Seq<char>,
    prefix: Seq<char>,
    id: nat,
) -> RichState {
    rich_flush(
        rich_fold(
            text_lines(normalized_newlines(text)),
            (Seq::<Seq<char>>::empty(), Seq::<Seq<char>>::empty(), id),
            t,
            base,
            prefix,
        ),
        t,
        base,
        prefix,
    )
}

proof fn lemma_rich_step_mono(st: RichState, line: Seq<char>, t: ImagesView, base: Seq<char>, prefix: Seq<char>)
    ensures
        rich_flush(st, t, base, prefix).2 <= rich_flush(rich_step(st, line, t, base, prefix), t, base, prefix).2,
{
    let trimmed = trim(line);
    if trimmed == "[newpage]"@ {
    } else if trimmed.len() > 0 && st.1.len() == 0 && standalone_markup(trimmed) {
    } else if st.1.len() > 0 {
        lemma_block_lines_grow(st.1, line);
    }
}

proof fn lemma_rich_fold_mono(lines: Seq<Seq<char>>, st: RichState, t: ImagesView, base: Seq<char>, prefix: Seq<char>)
    ensures
        rich_flush(st, t, base, prefix).2 <= rich_flush(rich_fold(lines, st, t, base, prefix), t, base, prefix).2,
    decreases lines.len(),
{
    if lines.len() > 0 {
        lemma_rich_step_mono(st, lines[0], t, base, prefix);
        lemma_rich_fold_mono(lines.drop_first(), rich_step(st, lines[0], t, base, prefix), t, base, prefix);
    }
}

fn flush_block(
    blocks: &mut Vec<Vec<char>>,
    current: &mut Vec<Vec<char>>,
    images: &ImageTable,
    image_path_base: &str,
    id_prefix: &str,
    paragraph_id: &mut usize,
)
    requires
        rich_flush(
            (views(old(blocks)@), views(old(current)@), *old(paragraph_id) as nat),
            images.view_table(),
            image_path_base@,
            id_prefix@,
        ).2 <= usize::MAX,
    ensures
        (views(final(blocks)@), views(final(current)@), *final(paragraph_id) as nat) == rich_flush(
            (views(old(blocks)@), views(old(current)@), *old(paragraph_id) as nat),
            images.view_table(),
            image_path_base@,
            id_prefix@,
        ),
{
    if current.len() == 0 {
        return;
    }
    let joined = join_str(current, "\n");
    let text = string_from_chars(joined.as_slice());
    let html = render_text_block(text.as_str(), "", "", images, image_path_base, id_prefix, paragraph_id);
    let hv = chars_of(html.as_str());
    let ghost prev = blocks@;
    blocks.push(hv);
    assert(views(blocks@) =~= views(prev).push(hv@));
    *current = Vec::new();
    assert(views(current@) =~= Seq::<Seq<char>>::empty());
}

/// Renders rich text: blocks of numbered paragraphs, whole-line markup and
/// page breaks, joined by `\n`.  The counter ends at the next free number.
pub fn render_rich_text(
    text: &str,
    site: &str,
    work_key: &str,
    images: &ImageTable,
    image_path_base: &str,
    id_prefix: &str,
    paragraph_id: &mut usize,
) -> (r: String)
    requires
        rich_result(text@, images.view_table(), image_path_base@, id_prefix@, *old(paragraph_id) as nat).2
            <= usize::MAX,
    ensures
        *final(paragraph_id) == rich_result(
            text@,
            images.view_table(),
            image_path_base@,
            id_prefix@,
            *old(paragraph_id) as nat,
        ).2,
        r@ == join(
            rich_result(text@, images.view_table(), image_path_base@, id_prefix@, *old(paragraph_id) as nat).0,
            "\n"@,
        ),
{
    let ghost t = images.view_table();
    let ghost b = image_path_base@;
    let ghost pre = id_prefix@;
    let ghost goal = rich_fold(
        text_lines(normalized_newlines(text@)),
        (Seq::<Seq<char>>::empty(), Seq::<Seq<char>>::empty(), *paragraph_id as nat),
        t,
        b,
        pre,
    );
    let v = chars_of(text);
    proof {
        reveal_strlit("\r\n");
    }
    let norm = replace_str(v.as_slice(), "\r\n", "\n");
    let lines = lines_of(norm.as_slice());
    let mut blocks: Vec<Vec<char>> = Vec::new();
    let mut current: Vec<Vec<char>> = Vec::new();
    let mut k: usize = 0;
    assert(views(lines@).skip(0) =~= views(lines@));
    assert(views(blocks@) =~= Seq::<Seq<char>>::empty());
    assert(views(current@) =~= Seq::<Seq<char>>::empty());
    while k < lines.len()
        invariant
            k <= lines.len(),
            t == images.view_table(),
            b == image_path_base@,
            pre == id_prefix@,
            views(lines@) == text_lines(normalized_newlines(text@)),
            rich_fold(views(lines@).skip(k as int), (views(blocks@), views(current@), *paragraph_id as nat), t, b, pre)
                == goal,
            rich_flush(goal, t, b, pre).2 <= usize::MAX,
        decreases lines.len() - k,
    {
        let ghost st = (views(blocks@), views(current@), *paragraph_id as nat);
        let ghost line = views(lines@)[k as int];
        let ghost rest = views(lines@).skip(k as int);
        assert(rest[0] == line);
        assert(rest.drop_first() =~= views(lines@).skip(k + 1));
        proof {
            lemma_rich_fold_mono(rest.drop_first(), rich_step(st, line, t, b, pre), t, b, pre);
        }
        assert(lines@[k as int]@ == line);
        let trimmed = trim_chars(lines[k].as_slice());
        if chars_eq_str(trimmed.as_slice(), "[newpage]") {
            proof {
                lemma_rich_step_mono(st, line, t, b, pre);
            }
            flush_block(&mut blocks, &mut current, images, image_path_base, id_prefix, paragraph_id);
            let hr = chars_of("<hr class=\"page-break\">");
            let ghost prev = blocks@;
            blocks.push(hr);
            assert(views(blocks@) =~= views(prev).push("<hr class=\"page-break\">"@));
            k = k + 1;
            continue;
        }
        let tstr = string_from_chars(trimmed.as_slice());
        if trimmed.len() > 0 && current.len() == 0 && is_standalone_markup(tstr.as_str()) {
            let body = markup_body(trimmed.as_slice(), images, image_path_base);
            let mut p: Vec<char> = Vec::new();
            push_paragraph(&mut p, id_prefix, *paragraph_id, body.as_slice());
            let ghost prev = blocks@;
            blocks.push(p);
            assert(views(blocks@) =~= views(prev).push(p@));
            *paragraph_id = *paragraph_id + 1;
            k = k + 1;
            continue;
        }
        let copy = slice_range(lines[k].as_slice(), 0, lines[k].len());
        assert(copy@ =~= line);
        let ghost prev = current@;
        current.push(copy);
        assert(views(current@) =~= views(prev).push(line));
        k = k + 1;
    }
    assert(views(lines@).skip(k as int) =~= Seq::<Seq<char>>::empty());
    flush_block(&mut blocks, &mut current, images, image_path_base, id_prefix, paragraph_id);
    let out = join_str(&blocks, "\n");
    string_from_chars(out.as_slice())
}

// ---------------------------------------------------------------------------
// URLs and head tags
// ---------------------------------------------------------------------------

/// `s` without trailing `/`.
pub open spec fn no_trailing_slash(s: Seq<char>) -> Seq<char> {
    trim_end_set(s, seq!['/'])
}

fn strip_trailing_slashes(v: &[char]) -> (r: Vec<char>)
    ensures
        r@ == no_trailing_slash(v@),
{
    let set = vec!['/'];
    assert(set@ =~= seq!['/']);
    trim_end_set_chars(v, set.as_slice())
}

/// The simple reader's URL for a work.
pub open spec fn reader_link(host_name: Seq<char>, site: Seq<char>, work_key: Seq<char>) -> Seq<char> {
    no_trailing_slash(host_name) + "/reader/?site="@ + site + "&nid="@ + work_key
}

pub fn reader_url(host_name: &str, site: &str, work_key: &str) -> (r: String)
    ensures
        r@ == reader_link(host_name@, site@, work_key@),
{
    let h = chars_of(host_name);
    let mut out = strip_trailing_slashes(h.as_slice());
    let ghost base = out@;
    push_str(&mut out, "/reader/?site=");
    push_str(&mut out, site);
    push_str(&mut out, "&nid=");
    push_str(&mut out, work_key);
    assert(out@ =~= reader_link(host_name@, site@, work_key@));
    string_from_chars(out.as_slice())
}

/// `path` under the public host (the bare path without one).
pub open spec fn canonical_url(host_name: Seq<char>, path: Seq<char>) -> Seq<char> {
    no_trailing_slash(host_name) + path
}

pub fn format_canonical_url(host_name: &str, path: &str) -> (r: String)
    ensures
        r@ == canonical_url(host_name@, path@),
{
    let h = chars_of(host_name);
    let mut out = strip_trailing_slashes(h.as_slice());
    push_str(&mut out, path);
    string_from_chars(out.as_slice())
}

/// Like `canonical_url`, but an empty path stays empty.
pub open spec fn optional_url(host_name: Seq<char>, path: Seq<char>) -> Seq<char> {
    if path.len() == 0 {
        Seq::<char>::empty()
    } else {
        canonical_url(host_name, path)
    }
}

pub fn format_optional_url(host_name: &str, path: &str) -> (r: String)
    ensures
        r@ == optional_url(host_name@, path@),
{
    if path.is_empty() {
        return String::new();
    }
    format_canonical_url(host_name, path)
}

/// Where the pages of a work find their images: the configured image URL,
/// else the local image directory relative to the page.
pub open spec fn image_base(img_url: Seq<char>, is_short_story: bool) -> Seq<char> {
    if trim(img_url).len() == 0 {
        if is_short_story {
            "../../images"@
        } else {
            "../../../images"@
        }
    } else {
        no_trailing_slash(trim(img_url))
    }
}

pub fn inline_image_base(img_url: &str, is_short_story: bool) -> (r: String)
    ensures
        r@ == image_base(img_url@, is_short_story),
{
    let v = chars_of(img_url);
    let t = trim_chars(v.as_slice());
    if t.len() == 0 {
        if is_short_story {
            crate::text::owned("../../images")
        } else {
            crate::text::owned("../../../images")
        }
    } else {
        let b = strip_trailing_slashes(t.as_slice());
        string_from_chars(b.as_slice())
    }
}

/// The image extensions tried for a cover, in order.
pub open spec fn cover_extensions() -> Seq<Seq<char>> {
    seq!["jpg"@, "jpeg"@, "png"@, "gif"@, "apng"@, "webp"@, "bmp"@, "avif"@, "svg"@]
}

/// The logical name of a work's cover with extension `ext`.
pub open spec fn cover_name(site: Seq<char>, work_key: Seq<char>, ext: Seq<char>) -> Seq<char> {
    site + "_"@ + work_key + "_cover."@ + ext
}

/// The stored file `hash.ext` of the first cover that the work has.
pub open spec fn cover_file(site: Seq<char>, work_key: Seq<char>, t: ImagesView, exts: Seq<Seq<char>>) -> Option<Seq<char>>
    decreases exts.len(),
{
    if exts.len() == 0 {
        None
    } else {
        match image_lookup(t, cover_name(site, work_key, exts[0])) {
            Some((h, e)) => Some(h + "."@ + e),
            None => cover_file(site, work_key, t, exts.drop_first()),
        }
    }
}

fn cover_extension_list() -> (r: Vec<String>)
    ensures
        strings_view(r@) == cover_extensions(),
{
    let mut r: Vec<String> = Vec::new();
    r.push(crate::text::owned("jpg"));
    r.push(crate::text::owned("jpeg"));
    r.push(crate::text::owned("png"));
    r.push(crate::text::owned("gif"));
    r.push(crate::text::owned("apng"));
    r.push(crate::text::owned("webp"));
    r.push(crate::text::owned("bmp"));
    r.push(crate::text::owned("avif"));
    r.push(crate::text::owned("svg"));
    assert(strings_view(r@) =~= cover_extensions());
    r
}

/// The stored file name of the work's own cover, if it has one.
pub fn get_cover_image_file_name(site: &str, work_key: &str, images: &ImageTable) -> (r: Option<String>)
    ensures
        match r {
            Some(f) => cover_file(site@, work_key@, images.view_table(), cover_extensions()) == Some(f@),
            None => cover_file(site@, work_key@, images.view_table(), cover_extensions()) is None,
        },
{
    let exts = cover_extension_list();
    let ghost all = strings_view(exts@);
    let mut i: usize = 0;
    assert(all.skip(0) =~= all);
    while i < exts.len()
        invariant
            i <= exts.len(),
            all == strings_view(exts@),
            all == cover_extensions(),
            cover_file(site@, work_key@, images.view_table(), all) == cover_file(
                site@,
                work_key@,
                images.view_table(),
                all.skip(i as int),
            ),
        decreases exts.len() - i,
    {
        let ghost rest = all.skip(i as int);
        assert(rest[0] == exts@[i as int]@);
        let mut name: Vec<char> = chars_of(site);
        push_str(&mut name, "_");
        push_str(&mut name, work_key);
        push_str(&mut name, "_cover.");
        push_str(&mut name, exts[i].as_str());
        assert(name@ =~= cover_name(site@, work_key@, rest[0]));
        match images.get(name.as_slice()) {
            Some(image) => {
                let mut f = chars_of(image.hash.as_str());
                push_str(&mut f, ".");
                push_str(&mut f, image.ext.as_str());
                return Some(string_from_chars(f.as_slice()));
            },
            None => {},
        }
        assert(rest.drop_first() =~= all.skip(i + 1));
        i = i + 1;
    }
    None
}

/// The URL of the work's cover for head tags; empty without a cover.
pub open spec fn cover_url(
    host_name: Seq<char>,
    img_url: Seq<char>,
    site: Seq<char>,
    work_key: Seq<char>,
    t: ImagesView,
) -> Seq<char> {
    match cover_file(site, work_key, t, cover_extensions()) {
        None => Seq::<char>::empty(),
        Some(f) => if trim(img_url).len() == 0 {
            optional_url(host_name, "/images/"@ + f)
        } else {
            no_trailing_slash(trim(img_url)) + "/"@ + f
        },
    }
}

pub fn cover_image_url(host_name: &str, img_url: &str, site: &str, work_key: &str, images: &ImageTable) -> (r: String)
    ensures
        r@ == cover_url(host_name@, img_url@, site@, work_key@, images.view_table()),
{
    let file_name = match get_cover_image_file_name(site, work_key, images) {
        Some(f) => f,
        None => return String::new(),
    };
    let v = chars_of(img_url);
    let t = trim_chars(v.as_slice());
    if t.len() == 0 {
        let mut p = chars_of("/images/");
        push_str(&mut p, file_name.as_str());
        let ps = string_from_chars(p.as_slice());
        format_optional_url(host_name, ps.as_str())
    } else {
        let mut out = strip_trailing_slashes(t.as_slice());
        push_str(&mut out, "/");
        push_str(&mut out, file_name.as_str());
        string_from_chars(out.as_slice())
    }
}

/// One head line `  <meta property="{prop}" content="{value}">` and a newline.
pub open spec fn meta_property(prop: Seq<char>, value: Seq<char>) -> Seq<char> {
    "  <meta property=\""@ + prop + "\" content=\""@ + escape_attr(value) + "\">\n"@
}

/// The description tags.
pub open spec fn description_tags(description: Seq<char>) -> Seq<char> {
    meta_property("og:description"@, description) + "  <meta name=\"description\" content=\""@
        + escape_attr(description) + "\">\n"@
}

/// The canonical link and the `og:url` tag.
pub open spec fn url_tags(url: Seq<char>) -> Seq<char> {
    "  <link rel=\"canonical\" href=\""@ + escape_attr(url) + "\">\n"@ + meta_property("og:url"@, url)
}

/// `part` for a non-empty value, else nothing.
pub open spec fn when_present(value: Seq<char>, part: Seq<char>) -> Seq<char> {
    if value.len() > 0 {
        part
    } else {
        Seq::<char>::empty()
    }
}

/// The Open Graph and canonical head tags, each present only for a
/// non-empty value.
pub open spec fn og_lines(title: Seq<char>, description: Seq<char>, og_type: Seq<char>, url: Seq<char>, image: Seq<char>) -> Seq<char> {
    when_present(title, meta_property("og:title"@, title))
        + when_present(description, description_tags(description))
        + when_present(og_type, meta_property("og:type"@, og_type))
        + when_present(url, url_tags(url))
        + when_present(image, meta_property("og:image"@, image))
}

fn push_meta_property(out: &mut Vec<char>, prop: &str, value: &[char])
    ensures
        final(out)@ == old(out)@ + when_present(value@, meta_property(prop@, value@)),
{
    if value.len() == 0 {
        assert(out@ =~= out@ + Seq::<char>::empty());
        return;
    }
    let ghost start = out@;
    push_str(out, "  <meta property=\"");
    push_str(out, prop);
    push_str(out, "\" content=\"");
    push_escaped_attr(out, value);
    push_str(out, "\">\n");
    assert(out@ =~= start + meta_property(prop@, value@));
}

fn push_description_tags(out: &mut Vec<char>, d: &[char])
    ensures
        final(out)@ == old(out)@ + when_present(d@, description_tags(d@)),
{
    if d.len() == 0 {
        assert(out@ =~= out@ + Seq::<char>::empty());
        return;
    }
    let ghost start = out@;
    push_meta_property(out, "og:description", d);
    push_str(out, "  <meta name=\"description\" content=\"");
    push_escaped_attr(out, d);
    push_str(out, "\">\n");
    assert(out@ =~= start + description_tags(d@));
}

fn push_url_tags(out: &mut Vec<char>, u: &[char])
    ensures
        final(out)@ == old(out)@ + when_present(u@, url_tags(u@)),
{
    if u.len() == 0 {
        assert(out@ =~= out@ + Seq::<char>::empty());
        return;
    }
    let ghost start = out@;
    push_str(out, "  <link rel=\"canonical\" href=\"");
    push_escaped_attr(out, u);
    push_str(out, "\">\n");
    push_meta_property(out, "og:url", u);
    assert(out@ =~= start + url_tags(u@));
}

/// The head tags of a page, without the last newline.
pub fn build_og_tags(title: &str, description: &str, og_type: &str, url: &str, image: &str) -> (r: String)
    ensures
        r@ == trim_end(og_lines(title@, description@, og_type@, url@, image@)),
{
    let t = chars_of(title);
    let d = chars_of(description);
    let o = chars_of(og_type);
    let u = chars_of(url);
    let im = chars_of(image);
    let mut out: Vec<char> = Vec::new();
    push_meta_property(&mut out, "og:title", t.as_slice());
    push_description_tags(&mut out, d.as_slice());
    push_meta_property(&mut out, "og:type", o.as_slice());
    push_url_tags(&mut out, u.as_slice());
    push_meta_property(&mut out, "og:image", im.as_slice());
    assert(out@ =~= og_lines(title@, description@, og_type@, url@, image@));
    let trimmed = trim_end_chars(out.as_slice());
    string_from_chars(trimmed.as_slice())
}

/// ` selected` when the two choices agree, else nothing.
pub open spec fn selected_attr(same: bool) -> Seq<char> {
    if same {
        " selected"@
    } else {
        ""@
    }
}

pub fn selected(actual: Option<&str>, expected: Option<&str>) -> (r: &'static str)
    ensures
        r@ == selected_attr(
            match (actual, expected) {
                (Some(a), Some(e)) => a@ == e@,
                (None, None) => true,
                _ => false,
            },
        ),
{
    let same = match (actual, expected) {
        (Some(a), Some(e)) => crate::text::str_eq(a, e),
        (None, None) => true,
        _ => false,
    };
    if same {
        " selected"
    } else {
        ""
    }
}

pub fn selected_sort(actual: WorkListSort, expected: WorkListSort) -> (r: &'static str)
    ensures
        r@ == selected_attr(actual == expected),
{
    if actual == expected {
        " selected"
    } else {
        ""
    }
}

pub fn selected_usize(actual: usize, expected: usize) -> (r: &'static str)
    ensures
        r@ == selected_attr(actual == expected),
{
    if actual == expected {
        " selected"
    } else {
        ""
    }
}

// ---------------------------------------------------------------------------
// Cover candidates
// ---------------------------------------------------------------------------

/// Keys of a work document whose string values name a cover image.
pub open spec fn cover_field(key: Seq<char>) -> bool {
    key == "cover"@ || key == "cover_image"@ || key == "coverImage"@ || key == "thumbnail"@
        || key == "thumbnail_image"@ || key == "thumbnailImage"@
}

pub fn is_cover_field(key: &str) -> (r: bool)
    ensures
        r == cover_field(key@),
{
    let k = chars_of(key);
    chars_eq_str(k.as_slice(), "cover") || chars_eq_str(k.as_slice(), "cover_image")
        || chars_eq_str(k.as_slice(), "coverImage") || chars_eq_str(k.as_slice(), "thumbnail")
        || chars_eq_str(k.as_slice(), "thumbnail_image") || chars_eq_str(k.as_slice(), "thumbnailImage")
}

/// `cands` with `c` added at the end unless it is empty or already there.
pub open spec fn with_candidate(cands: Seq<Seq<char>>, c: Seq<char>) -> Seq<Seq<char>> {
    if c.len() == 0 || cands.contains(c) {
        cands
    } else {
        cands.push(c)
    }
}

pub fn push_unique_candidate(candidates: &mut Vec<String>, candidate: &str)
    ensures
        strings_view(final(candidates)@) == with_candidate(strings_view(old(candidates)@), candidate@),
{
    if candidate.is_empty() {
        return;
    }
    let c = chars_of(candidate);
    if contains_string(candidates, c.as_slice()) {
        return;
    }
    let ghost before = strings_view(candidates@);
    candidates.push(crate::text::owned(candidate));
    assert(strings_view(candidates@) =~= before.push(candidate@));
}

/// The trimmed names of the `[image](…)` references in `s`, in order.
pub open spec fn image_refs(s: Seq<char>) -> Seq<Seq<char>>
    decreases s.len(),
{
    match find(s, "[image]("@) {
        None => Seq::<Seq<char>>::empty(),
        Some(st) => {
            let after = s.skip(st + "[image]("@.len());
            match find(after, seq![')']) {
                None => Seq::<Seq<char>>::empty(),
                Some(e) => {
                    proof {
                        lemma_find(s, "[image]("@);
                        lemma_find(after, seq![')']);
                    }
                    seq![trim(after.take(e))] + image_refs(after.skip(e + 1))
                },
            }
        },
    }
}

/// `cands` extended by each of `refs` in turn, as `with_candidate` does.
pub open spec fn with_candidates(cands: Seq<Seq<char>>, refs: Seq<Seq<char>>) -> Seq<Seq<char>>
    decreases refs.len(),
{
    if refs.len() == 0 {
        cands
    } else {
        with_candidates(with_candidate(cands, refs[0]), refs.drop_first())
    }
}

pub fn collect_image_markup_candidates(text: &str, candidates: &mut Vec<String>)
    ensures
        strings_view(final(candidates)@) == with_candidates(strings_view(old(candidates)@), image_refs(text@)),
{
    let v = chars_of(text);
    let ghost goal = with_candidates(strings_view(candidates@), image_refs(text@));
    let open = chars_of("[image](");
    let close = vec![')'];
    assert(close@ =~= seq![')']);
    let mut i: usize = 0;
    assert(v@.skip(0) =~= v@);
    loop
        invariant
            i <= v.len(),
            open@ == "[image]("@,
            close@ == seq![')'],
            v@ == text@,
            goal == with_candidates(strings_view(old(candidates)@), image_refs(text@)),
            with_candidates(strings_view(candidates@), image_refs(v@.skip(i as int))) == goal,
        decreases v.len() - i,
    {
        let ghost s = v@.skip(i as int);
        let start = match find_in_suffix(v.as_slice(), open.as_slice(), i) {
            Some(st) => st,
            None => {
                assert(image_refs(s) =~= Seq::<Seq<char>>::empty());
                return;
            },
        };
        proof {
            lemma_find(s, "[image]("@);
        }
        let from = start + open.len();
        let ghost after = v@.skip(from as int);
        assert(s.skip(start - i + open@.len()) =~= after);
        let end = match find_in_suffix(v.as_slice(), close.as_slice(), from) {
            Some(e) => e,
            None => {
                assert(image_refs(s) =~= Seq::<Seq<char>>::empty());
                return;
            },
        };
        proof {
            lemma_find(after, seq![')']);
        }
        let inner = slice_range(v.as_slice(), from, end);
        assert(inner@ =~= after.take(end - from));
        let name = trim_chars(inner.as_slice());
        let ns = string_from_chars(name.as_slice());
        let ghost before = strings_view(candidates@);
        push_unique_candidate(candidates, ns.as_str());
        assert(after.skip(end - from + 1) =~= v@.skip(end + 1));
        let ghost tail = image_refs(v@.skip(end + 1));
        assert(image_refs(s) == seq![trim(after.take(end - from))] + tail);
        assert((seq![trim(after.take(end - from))] + tail).drop_first() =~= tail);
        i = end + 1;
    }
}

} // verus!
