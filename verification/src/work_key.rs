//! Keys of imported Narou works: the stable key of a work imported from PDF
//! and the keys by which an existing work is looked up.
use vstd::prelude::*;
use sha2::Digest;
use vstd::utf8::encode_utf8;
use crate::model::RequestData;
use crate::text::{
    chars_of, contains, is_ws, is_whitespace, join, join_str, keep_nonempty, push_all, push_str,
    slice_range, string_from_chars, strings_view, trim, trim_chars, trim_end_set, trim_start_set,
    trim_end_set_chars, trim_start_set_chars, views, rfind_char,
};
use crate::narou::{opt_str_view, opt_string_view, text_less, text_le};

verus! {

// ---------------------------------------------------------------------------
// Outside calls
// ---------------------------------------------------------------------------

/// The SHA-256 digest of `data`.
pub uninterp spec fn sha256(data: Seq<u8>) -> Seq<u8>;

/// `sha2::Sha256::digest`: the 32-byte SHA-256 digest of the bytes, a
/// function of them alone.
#[verifier::external_body]
pub(crate) fn sha256_bytes(data: &[u8]) -> (r: Vec<u8>)
    ensures
        r@ == sha256(data@),
        r@.len() == 32,
{
    sha2::Sha256::digest(data).to_vec()
}

/// Unicode lower case of a text, as `str::to_lowercase` maps it.
pub uninterp spec fn unicode_lower(s: Seq<char>) -> Seq<char>;

/// `str::to_lowercase`: the lower-case mapping of the whole text, which
/// depends on the text alone.
#[verifier::external_body]
pub(crate) fn to_lowercase(s: &str) -> (r: String)
    ensures
        r@ == unicode_lower(s@),
{
    s.to_lowercase()
}

/// The text of capture group `group` of the leftmost match of `pattern`.
pub uninterp spec fn regex_group(pattern: Seq<char>, text: Seq<char>, group: nat) -> Option<Seq<char>>;

/// `regex::Regex::new` and `Regex::captures`: the text of one capture group
/// of the leftmost match, none for a pattern that does not compile, no
/// match, or a group that did not take part.  A group's text is a piece of
/// the searched text.
#[verifier::external_body]
pub(crate) fn regex_capture(pattern: &str, text: &str, group: usize) -> (r: Option<String>)
    ensures
        opt_string_view(r) == regex_group(pattern@, text@, group as nat),
        r matches Some(m) ==> contains(text@, m@),
{
    let re = match regex::Regex::new(pattern) {
        Ok(re) => re,
        Err(_) => return None,
    };
    match re.captures(text) {
        Some(c) => match c.get(group) {
            Some(m) => Some(m.as_str().to_string()),
            None => None,
        },
        None => None,
    }
}

/// One match of a pattern as a search walks a text: the text since the
/// previous match, the matched text, and the text of each capture group
/// after the whole match (none where the group took no part).
#[derive(Debug)]
pub struct RegexPiece {
    pub before: String,
    pub matched: String,
    pub groups: Vec<Option<String>>,
}

pub type RegexPieceView = (Seq<char>, Seq<char>, Seq<Option<Seq<char>>>);

impl RegexPiece {
    pub open spec fn view(&self) -> RegexPieceView {
        (self.before@, self.matched@, self.groups@.map_values(|g: Option<String>| opt_string_view(g)))
    }
}

pub open spec fn pieces_view(v: Seq<RegexPiece>) -> Seq<RegexPieceView> {
    v.map_values(|p: RegexPiece| p.view())
}

/// The texts of the pieces, gaps and matches in turn.
pub open spec fn pieces_text(pieces: Seq<RegexPieceView>) -> Seq<char>
    decreases pieces.len(),
{
    if pieces.len() == 0 {
        Seq::empty()
    } else {
        pieces[0].0 + pieces[0].1 + pieces_text(pieces.drop_first())
    }
}

/// The texts between the successive matches of `pattern` in `text`, the
/// last one what follows the final match; none for a pattern that does not
/// compile.
pub uninterp spec fn regex_gaps(pattern: Seq<char>, text: Seq<char>) -> Option<Seq<Seq<char>>>;

/// The successive matches of `pattern` in `text`, each with the text of each
/// capture group after the whole match; none for a pattern that does not
/// compile.
pub uninterp spec fn regex_captures(pattern: Seq<char>, text: Seq<char>) -> Option<
    Seq<(Seq<char>, Seq<Option<Seq<char>>>)>,
>;

/// The gaps and the matches in turn, ending with the last gap.
pub open spec fn interleaved(gaps: Seq<Seq<char>>, matches: Seq<(Seq<char>, Seq<Option<Seq<char>>>)>) -> Seq<char>
    decreases matches.len(),
{
    if matches.len() == 0 || gaps.len() == 0 {
        if gaps.len() > 0 {
            gaps[0]
        } else {
            Seq::empty()
        }
    } else {
        gaps[0] + matches[0].0 + interleaved(gaps.drop_first(), matches.drop_first())
    }
}

/// Each match with the gap before it.
pub open spec fn zip_pieces(gaps: Seq<Seq<char>>, matches: Seq<(Seq<char>, Seq<Option<Seq<char>>>)>) -> Seq<
    RegexPieceView,
> {
    Seq::new(matches.len(), |i: int| (gaps[i], matches[i].0, matches[i].1))
}

/// The successive matches of `pattern` in `text`, each with the text before
/// it, and the text after the last one; none for a pattern that does not
/// compile.
pub open spec fn regex_pieces(pattern: Seq<char>, text: Seq<char>) -> Option<(Seq<RegexPieceView>, Seq<char>)> {
    match (regex_gaps(pattern, text), regex_captures(pattern, text)) {
        (Some(gs), Some(ms)) => if gs.len() == ms.len() + 1 {
            Some((zip_pieces(gs, ms), gs.last()))
        } else {
            None
        },
        _ => None,
    }
}

pub open spec fn captures_view(v: Seq<(String, Vec<Option<String>>)>) -> Seq<(Seq<char>, Seq<Option<Seq<char>>>)> {
    v.map_values(|c: (String, Vec<Option<String>>)| (c.0@, c.1@.map_values(|g: Option<String>| opt_string_view(g))))
}

/// `regex::Regex::new`, then `Regex::split` and `Regex::captures_iter` on
/// the text: the texts between matches and the matches with their groups
/// (none where a group took no part); none for a pattern that does not
/// compile. Both walk the same successive non-overlapping matches, and the
/// split yields one text more than there are matches, so gaps and matches in
/// turn make up the text.
#[verifier::external_body]
fn regex_gaps_and_captures(pattern: &str, text: &str) -> (r: Option<(Vec<String>, Vec<(String, Vec<Option<String>>)>)>)
    ensures
        match r {
            Some((gs, ms)) => {
                &&& regex_gaps(pattern@, text@) == Some(strings_view(gs@))
                &&& regex_captures(pattern@, text@) == Some(captures_view(ms@))
                &&& gs@.len() == ms@.len() + 1
                &&& interleaved(strings_view(gs@), captures_view(ms@)) == text@
            },
            None => regex_gaps(pattern@, text@) is None && regex_captures(pattern@, text@) is None,
        },
{
    let re = regex::Regex::new(pattern).ok()?;
    let gaps = re.split(text).map(|g| g.to_string()).collect();
    let caps = re
        .captures_iter(text)
        .map(|c| (c[0].to_string(), c.iter().skip(1).map(|g| g.map(|g| g.as_str().to_string())).collect()))
        .collect();
    Some((gaps, caps))
}

proof fn lemma_zip_pieces_text(gs: Seq<Seq<char>>, ms: Seq<(Seq<char>, Seq<Option<Seq<char>>>)>)
    requires
        gs.len() == ms.len() + 1,
    ensures
        pieces_text(zip_pieces(gs, ms)) + gs.last() == interleaved(gs, ms),
    decreases ms.len(),
{
    if ms.len() == 0 {
        assert(zip_pieces(gs, ms) =~= Seq::<RegexPieceView>::empty());
        assert(Seq::<char>::empty() + gs.last() =~= gs.last());
    } else {
        lemma_zip_pieces_text(gs.drop_first(), ms.drop_first());
        assert(zip_pieces(gs, ms).drop_first() =~= zip_pieces(gs.drop_first(), ms.drop_first()));
        assert(gs.drop_first().last() == gs.last());
        let z = zip_pieces(gs, ms);
        assert(pieces_text(z) == z[0].0 + z[0].1 + pieces_text(z.drop_first()));
        assert(pieces_text(z) + gs.last() =~= gs[0] + ms[0].0 + (pieces_text(zip_pieces(gs.drop_first(), ms.drop_first()))
            + gs.drop_first().last()));
    }
}

/// The successive matches of a pattern in a text, each with the text before
/// it, and the text after the last match; none for a pattern that does not
/// compile. The gaps, matches and tail make up the text.
pub(crate) fn regex_split(pattern: &str, text: &str) -> (r: Option<(Vec<RegexPiece>, String)>)
    ensures
        match r {
            Some((ps, tail)) => {
                &&& regex_pieces(pattern@, text@) == Some((pieces_view(ps@), tail@))
                &&& pieces_text(pieces_view(ps@)) + tail@ == text@
            },
            None => regex_pieces(pattern@, text@) is None,
        },
{
    let (gaps, caps) = match regex_gaps_and_captures(pattern, text) {
        Some(x) => x,
        None => return None,
    };
    let ghost gv = strings_view(gaps@);
    let ghost cv = captures_view(caps@);
    let mut pieces: Vec<RegexPiece> = Vec::new();
    let mut i: usize = 0;
    while i < caps.len()
        invariant
            i <= caps.len(),
            gaps@.len() == caps@.len() + 1,
            gv == strings_view(gaps@),
            cv == captures_view(caps@),
            pieces@.len() == i,
            forall|k: int| 0 <= k < i ==> #[trigger] pieces_view(pieces@)[k] == zip_pieces(gv, cv)[k],
        decreases caps.len() - i,
    {
        let mut groups: Vec<Option<String>> = Vec::new();
        let mut j: usize = 0;
        while j < caps[i].1.len()
            invariant
                i < caps.len(),
                j <= caps@[i as int].1.len(),
                groups@.len() == j,
                forall|k: int| 0 <= k < j ==> opt_string_view(#[trigger] groups@[k]) == opt_string_view(caps@[i as int].1@[k]),
            decreases caps@[i as int].1.len() - j,
        {
            let g = match &caps[i].1[j] {
                Some(t) => Some(crate::text::owned(t.as_str())),
                None => None,
            };
            groups.push(g);
            j = j + 1;
        }
        let piece = RegexPiece {
            before: crate::text::owned(gaps[i].as_str()),
            matched: crate::text::owned(caps[i].0.as_str()),
            groups,
        };
        assert(piece.view().2 =~= cv[i as int].1);
        assert(piece.view() == zip_pieces(gv, cv)[i as int]);
        let ghost before = pieces_view(pieces@);
        let ghost pv = piece.view();
        pieces.push(piece);
        proof {
            assert(pieces_view(pieces@) =~= before.push(pv));
            assert forall|k: int| 0 <= k < i + 1 implies #[trigger] pieces_view(pieces@)[k] == zip_pieces(gv, cv)[k] by {
                if k < i {
                    assert(pieces_view(pieces@)[k] == before[k]);
                }
            }
        }
        i = i + 1;
    }
    let tail = crate::text::owned(gaps[gaps.len() - 1].as_str());
    proof {
        assert(pieces_view(pieces@) =~= zip_pieces(gv, cv));
        lemma_zip_pieces_text(gv, cv);
    }
    Some((pieces, tail))
}

/// Whether `pattern` matches somewhere in `text`.
pub uninterp spec fn regex_matches(pattern: Seq<char>, text: Seq<char>) -> bool;

/// `regex::Regex::new` and `Regex::is_match`: whether the pattern matches
/// the text; false for a pattern that does not compile.
#[verifier::external_body]
pub(crate) fn regex_is_match(pattern: &str, text: &str) -> (r: bool)
    ensures
        r == regex_matches(pattern@, text@),
{
    match regex::Regex::new(pattern) {
        Ok(re) => re.is_match(text),
        Err(_) => false,
    }
}

/// What follows the last `/` of a path.
pub open spec fn last_component(path: Seq<char>) -> Seq<char> {
    match rfind_char(path, '/') {
        Some(i) => path.skip(i + 1),
        None => path,
    }
}

/// A path whose file name is plainly what follows its last `/`: that part
/// is a name (neither empty, `.` nor `..`), and the path holds nothing that
/// another platform reads as a separator, a drive or a network share (no
/// `\\`, no `:` as its second character, and no leading `//`).
pub open spec fn plain_path(path: Seq<char>) -> bool {
    let name = last_component(path);
    &&& name.len() > 0
    &&& name != "."@
    &&& name != ".."@
    &&& !path.contains('\\')
    &&& !(path.len() > 1 && path[1] == ':')
    &&& !(path.len() > 1 && path[0] == '/' && path[1] == '/')
}

/// The extension of a file name as `Path::extension` documents it: what
/// follows the last `.`, none where there is no `.` or the only one leads.
pub open spec fn name_extension(name: Seq<char>) -> Option<Seq<char>> {
    match rfind_char(name, '.') {
        Some(i) => if i == 0 {
            None
        } else {
            Some(name.skip(i + 1))
        },
        None => None,
    }
}

/// The stem of a file name as `Path::file_stem` documents it: what precedes
/// the last `.`, the whole name where there is no `.` or the only one leads.
pub open spec fn name_stem(name: Seq<char>) -> Seq<char> {
    match rfind_char(name, '.') {
        Some(i) => if i == 0 {
            name
        } else {
            name.take(i)
        },
        None => name,
    }
}

/// `std::path::Path::file_stem` of the path, as text. For a plain path its
/// documentation gives the result; for other paths, how the path splits into
/// components depends on the platform, and nothing is stated.
#[verifier::external_body]
pub(crate) fn path_file_stem(path: &str) -> (r: Option<String>)
    ensures
        plain_path(path@) ==> opt_string_view(r) == Some(name_stem(last_component(path@))),
{
    std::path::Path::new(path).file_stem().and_then(|s| s.to_str()).map(|s| s.to_string())
}

/// `std::path::Path::extension` of the path, as text. For a plain path its
/// documentation gives the result; for other paths nothing is stated.
#[verifier::external_body]
pub(crate) fn path_extension(path: &str) -> (r: Option<String>)
    ensures
        plain_path(path@) ==> opt_string_view(r) == name_extension(last_component(path@)),
{
    std::path::Path::new(path).extension().and_then(|s| s.to_str()).map(|s| s.to_string())
}

// ---------------------------------------------------------------------------
// Keys
// ---------------------------------------------------------------------------

/// Characters that cannot stand in a key.
pub open spec fn key_unsafe(c: char) -> bool {
    c == '/' || c == '\\' || c == ':' || c == '?' || c == '&' || c == '=' || c == ' ' || c == '\t'
        || c == '\n' || c == '\r'
}

/// `s` with every character that cannot stand in a key replaced by `_`.
pub open spec fn sanitized(s: Seq<char>) -> Seq<char> {
    s.map_values(|c: char| if key_unsafe(c) { '_' } else { c })
}

fn sanitize_chars(v: &[char]) -> (r: Vec<char>)
    ensures
        r@ == sanitized(v@),
{
    let mut r: Vec<char> = Vec::new();
    let mut i: usize = 0;
    while i < v.len()
        invariant
            i <= v.len(),
            r@ == sanitized(v@.take(i as int)),
        decreases v.len() - i,
    {
        let c = v[i];
        if c == '/' || c == '\\' || c == ':' || c == '?' || c == '&' || c == '=' || c == ' ' || c == '\t'
            || c == '\n' || c == '\r' {
            r.push('_');
        } else {
            r.push(c);
        }
        i = i + 1;
        assert(r@ =~= sanitized(v@.take(i as int)));
    }
    assert(v@.take(i as int) =~= v@);
    r
}

pub fn sanitize_key(value: &str) -> (r: String)
    ensures
        r@ == sanitized(value@),
{
    let v = chars_of(value);
    let r = sanitize_chars(v.as_slice());
    string_from_chars(r.as_slice())
}

pub open spec fn hex_digit_char(n: nat) -> char {
    if n < 10 {
        ((n + 48) as u8) as char
    } else {
        ((n + 87) as u8) as char
    }
}

/// The first six bytes in lower-case hex, two digits each.
pub open spec fn hex_prefix_text(bytes: Seq<u8>) -> Seq<char>
    decreases bytes.len(),
{
    let n = if bytes.len() < 6 {
        bytes.len()
    } else {
        6
    };
    if n == 0 {
        Seq::empty()
    } else {
        let b = bytes[n - 1];
        hex_prefix_text(bytes.take(n - 1)) + seq![hex_digit_char((b / 16) as nat), hex_digit_char((b % 16) as nat)]
    }
}

fn hex_char(n: u8) -> (r: char)
    requires
        n < 16,
    ensures
        r == hex_digit_char(n as nat),
{
    if n < 10 {
        (n + 48) as char
    } else {
        (n + 87) as char
    }
}

pub fn hex_prefix(bytes: &[u8]) -> (r: String)
    ensures
        r@ == hex_prefix_text(bytes@),
{
    let n: usize = if bytes.len() < 6 {
        bytes.len()
    } else {
        6
    };
    let mut out: Vec<char> = Vec::new();
    let mut i: usize = 0;
    assert(hex_prefix_text(bytes@.take(0)) =~= Seq::<char>::empty());
    while i < n
        invariant
            i <= n,
            n <= bytes.len(),
            n <= 6,
            out@ == hex_prefix_text(bytes@.take(i as int)),
        decreases n - i,
    {
        let b = bytes[i];
        out.push(hex_char(b / 16));
        out.push(hex_char(b % 16));
        i = i + 1;
        assert(bytes@.take(i as int).take(i - 1) =~= bytes@.take(i - 1));
        assert(out@ =~= hex_prefix_text(bytes@.take(i as int)));
    }
    assert(hex_prefix_text(bytes@) == hex_prefix_text(bytes@.take(n as int))) by {
        if bytes@.len() > 6 {
            assert(bytes@.take(6).take(5) =~= bytes@.take(5));
            assert(bytes@.take(6)[5] == bytes@[5]);
        } else {
            assert(bytes@.take(n as int) =~= bytes@);
        }
    }
    string_from_chars(out.as_slice())
}

/// All the bytes in lower-case hex, two digits each.
pub open spec fn hex_text(bytes: Seq<u8>) -> Seq<char>
    decreases bytes.len(),
{
    if bytes.len() == 0 {
        Seq::empty()
    } else {
        let b = bytes.last();
        hex_text(bytes.drop_last()) + seq![hex_digit_char((b / 16) as nat), hex_digit_char((b % 16) as nat)]
    }
}

pub fn hex_string(bytes: &[u8]) -> (r: String)
    ensures
        r@ == hex_text(bytes@),
{
    let mut out: Vec<char> = Vec::new();
    let mut i: usize = 0;
    assert(bytes@.take(0) =~= Seq::<u8>::empty());
    while i < bytes.len()
        invariant
            i <= bytes.len(),
            out@ == hex_text(bytes@.take(i as int)),
        decreases bytes.len() - i,
    {
        let b = bytes[i];
        out.push(hex_char(b / 16));
        out.push(hex_char(b % 16));
        i = i + 1;
        assert(bytes@.take(i as int).drop_last() =~= bytes@.take(i - 1));
        assert(out@ =~= hex_text(bytes@.take(i as int)));
    }
    assert(bytes@.take(i as int) =~= bytes@);
    string_from_chars(out.as_slice())
}

/// Twelve hex digits of the SHA-256 digest of the text's UTF-8 bytes.
pub open spec fn short_hash_text(value: Seq<char>) -> Seq<char> {
    hex_prefix_text(sha256(encode_utf8(value)))
}

pub fn short_hash(value: &str) -> (r: String)
    ensures
        r@ == short_hash_text(value@),
{
    let d = sha256_bytes(value.as_bytes());
    hex_prefix(d.as_slice())
}

/// The pages' UTF-8 bytes, each followed by a zero byte.
pub open spec fn pages_bytes(pages: Seq<Seq<char>>) -> Seq<u8>
    decreases pages.len(),
{
    if pages.len() == 0 {
        Seq::empty()
    } else {
        pages_bytes(pages.drop_last()) + encode_utf8(pages.last()) + seq![0u8]
    }
}

/// Twelve hex digits of the SHA-256 digest of the pages' bytes.
pub open spec fn content_fingerprint(pages: Seq<Seq<char>>) -> Seq<char> {
    hex_prefix_text(sha256(pages_bytes(pages)))
}

pub fn pdf_content_fingerprint(pages: &[String]) -> (r: String)
    ensures
        r@ == content_fingerprint(strings_view(pages@)),
{
    let ghost pv = strings_view(pages@);
    let mut bytes: Vec<u8> = Vec::new();
    let mut i: usize = 0;
    assert(pv.take(0) =~= Seq::<Seq<char>>::empty());
    while i < pages.len()
        invariant
            i <= pages.len(),
            pv == strings_view(pages@),
            bytes@ == pages_bytes(pv.take(i as int)),
        decreases pages.len() - i,
    {
        let b = pages[i].as_str().as_bytes();
        let mut k: usize = 0;
        let ghost before = bytes@;
        while k < b.len()
            invariant
                k <= b.len(),
                bytes@ == before + b@.take(k as int),
            decreases b.len() - k,
        {
            bytes.push(b[k]);
            k = k + 1;
            assert(bytes@ =~= before + b@.take(k as int));
        }
        bytes.push(0u8);
        assert(b@.take(k as int) =~= b@);
        assert(pv.take(i + 1).drop_last() =~= pv.take(i as int));
        assert(pv.take(i + 1).last() == pages@[i as int]@);
        assert(bytes@ =~= pages_bytes(pv.take(i + 1)));
        i = i + 1;
    }
    assert(pv.take(i as int) =~= pv);
    let d = sha256_bytes(bytes.as_slice());
    hex_prefix(d.as_slice())
}

// ---------------------------------------------------------------------------
// Identity of an imported work
// ---------------------------------------------------------------------------

/// The pieces of `s` between runs of whitespace.
pub open spec fn split_ws(s: Seq<char>) -> Seq<Seq<char>>
    decreases s.len(),
{
    if s.len() == 0 {
        seq![Seq::<char>::empty()]
    } else {
        let rest = split_ws(s.drop_last());
        if is_ws(s.last()) {
            rest.push(Seq::<char>::empty())
        } else {
            rest.update(rest.len() - 1, rest.last().push(s.last()))
        }
    }
}

proof fn lemma_split_ws_len(s: Seq<char>)
    ensures
        split_ws(s).len() >= 1,
    decreases s.len(),
{
    if s.len() > 0 {
        lemma_split_ws_len(s.drop_last());
    }
}

/// The words of `s` joined by single spaces (`split_whitespace` and
/// `join(" ")`).
pub open spec fn collapse_ws(s: Seq<char>) -> Seq<char> {
    join(keep_nonempty(split_ws(s)), " "@)
}

fn collapse_whitespace(v: &[char]) -> (r: Vec<char>)
    ensures
        r@ == collapse_ws(v@),
{
    let mut words: Vec<Vec<char>> = Vec::new();
    let mut cur: Vec<char> = Vec::new();
    let mut i: usize = 0;
    assert(v@.take(0) =~= Seq::<char>::empty());
    assert(views(words@) =~= Seq::<Seq<char>>::empty());
    assert(split_ws(Seq::<char>::empty()).drop_last() =~= Seq::<Seq<char>>::empty());
    while i < v.len()
        invariant
            i <= v.len(),
            split_ws(v@.take(i as int)).len() >= 1,
            split_ws(v@.take(i as int)).last() == cur@,
            keep_nonempty(split_ws(v@.take(i as int)).drop_last()) == views(words@),
        decreases v.len() - i,
    {
        let ghost p = split_ws(v@.take(i as int));
        assert(v@.take(i + 1).drop_last() =~= v@.take(i as int));
        assert(v@.take(i + 1).last() == v@[i as int]);
        if is_whitespace(v[i]) {
            assert(split_ws(v@.take(i + 1)) == p.push(Seq::<char>::empty()));
            assert(p.push(Seq::<char>::empty()).drop_last() =~= p);
            if cur.len() > 0 {
                let ghost before = views(words@);
                words.push(cur);
                assert(views(words@) =~= before.push(p.last()));
            }
            cur = Vec::new();
        } else {
            let ghost q = p.update(p.len() - 1, p.last().push(v@[i as int]));
            assert(split_ws(v@.take(i + 1)) == q);
            assert(q.drop_last() =~= p.drop_last());
            cur.push(v[i]);
        }
        i = i + 1;
    }
    assert(v@.take(i as int) =~= v@);
    if cur.len() > 0 {
        let ghost before = views(words@);
        words.push(cur);
        assert(views(words@) =~= before.push(split_ws(v@).last()));
    }
    join_str(&words, " ")
}

/// A work's identity part: the text trimmed, in lower case, with its words
/// joined by single spaces; nothing when no word is left.
pub open spec fn identity_component(raw: Option<Seq<char>>) -> Option<Seq<char>> {
    match raw {
        None => None,
        Some(r) => {
            let v = collapse_ws(unicode_lower(trim(r)));
            if v.len() == 0 {
                None
            } else {
                Some(v)
            }
        },
    }
}

pub fn normalized_identity_component(raw: Option<&str>) -> (r: Option<String>)
    ensures
        opt_string_view(r) == identity_component(opt_str_view(raw)),
{
    match raw {
        None => None,
        Some(value) => {
            let t = trim_str_owned(value);
            let lower = to_lowercase(t.as_str());
            let lv = chars_of(lower.as_str());
            let c = collapse_whitespace(lv.as_slice());
            if c.len() == 0 {
                None
            } else {
                Some(string_from_chars(c.as_slice()))
            }
        },
    }
}

fn trim_str_owned(s: &str) -> (r: String)
    ensures
        r@ == trim(s@),
{
    crate::text::trim_str(s)
}

/// One more part of a slug: joined with `_` unless the slug is still
/// empty; once the slug has 48 characters no part is added.
pub open spec fn slug_step(acc: Seq<char>, part: Option<Seq<char>>) -> Seq<char> {
    if acc.len() >= 48 {
        acc
    } else {
        match part {
            None => acc,
            Some(p) => (if acc.len() > 0 {
                acc.push('_')
            } else {
                acc
            }) + p,
        }
    }
}

/// The readable part of a work key: author, title and chapter joined by `_`,
/// made safe for a key, without `_` at either end, at most 48 characters;
/// `import` when nothing is left.
pub open spec fn key_slug(author: Option<Seq<char>>, title: Option<Seq<char>>, chapter: Option<Seq<char>>) -> Seq<char> {
    let joined = slug_step(slug_step(slug_step(Seq::empty(), author), title), chapter);
    let cleaned = trim_end_set(trim_start_set(sanitized(joined), seq!['_']), seq!['_']);
    if cleaned.len() == 0 {
        "import"@
    } else if cleaned.len() > 48 {
        cleaned.take(48)
    } else {
        cleaned
    }
}

fn push_slug_part(slug: &mut Vec<char>, part: Option<&str>)
    ensures
        final(slug)@ == slug_step(old(slug)@, opt_str_view(part)),
{
    if slug.len() >= 48 {
        return;
    }
    if let Some(p) = part {
        if slug.len() > 0 {
            slug.push('_');
        }
        push_str(slug, p);
    }
}

pub fn build_work_key_slug(author: Option<&str>, title: Option<&str>, chapter: Option<&str>) -> (r: String)
    ensures
        r@ == key_slug(opt_str_view(author), opt_str_view(title), opt_str_view(chapter)),
{
    let mut slug: Vec<char> = Vec::new();
    push_slug_part(&mut slug, author);
    push_slug_part(&mut slug, title);
    push_slug_part(&mut slug, chapter);
    let s2 = sanitize_chars(slug.as_slice());
    let us = vec!['_'];
    assert(us@ =~= seq!['_']);
    let a = trim_start_set_chars(s2.as_slice(), us.as_slice());
    let b = trim_end_set_chars(a.as_slice(), us.as_slice());
    if b.len() == 0 {
        crate::text::owned("import")
    } else if b.len() > 48 {
        let t = slice_range(b.as_slice(), 0, 48);
        assert(t@ =~= b@.take(48));
        string_from_chars(t.as_slice())
    } else {
        string_from_chars(b.as_slice())
    }
}

/// The value as a list of at most one item.
pub open spec fn opt_list(o: Option<Seq<char>>) -> Seq<Seq<char>> {
    match o {
        Some(x) => seq![x],
        None => Seq::empty(),
    }
}

/// `label` before a value that is present.
pub open spec fn labelled(label: Seq<char>, o: Option<Seq<char>>) -> Option<Seq<char>> {
    match o {
        Some(x) => Some(label + x),
        None => None,
    }
}

/// The key of a work imported from PDF: `ncode_pdf_`, the slug, `_` and a
/// short hash of what identifies the work: author, title and (unless both
/// of those are known) chapter, with a fingerprint of the pages when fewer
/// than two of these are known.
pub open spec fn pdf_work_key(
    author: Option<Seq<char>>,
    title: Option<Seq<char>>,
    chapter_raw: Option<Seq<char>>,
    pages: Seq<Seq<char>>,
) -> Seq<char> {
    let a = identity_component(author);
    let t = identity_component(title);
    let c = if a is Some && t is Some {
        None
    } else {
        identity_component(chapter_raw)
    };
    let known = opt_list(labelled("author:"@, a)) + opt_list(labelled("title:"@, t)) + opt_list(
        labelled("chapter:"@, c),
    );
    let basis = if known.len() < 2 {
        known.push("content:"@ + content_fingerprint(pages))
    } else {
        known
    };
    "ncode_pdf_"@ + key_slug(a, t, c) + "_"@ + short_hash_text(join(basis, "\n"@))
}

fn labelled_part(label: &str, value: &Option<String>, parts: &mut Vec<Vec<char>>)
    ensures
        views(final(parts)@) == views(old(parts)@) + opt_list(labelled(label@, opt_string_view(*value))),
{
    if let Some(v) = value {
        let mut p = chars_of(label);
        push_str(&mut p, v.as_str());
        let ghost before = views(parts@);
        parts.push(p);
        assert(views(parts@) =~= before + seq![label@ + v@]);
    } else {
        assert(views(parts@) =~= views(parts@) + Seq::<Seq<char>>::empty());
    }
}

/// The key of a work imported from PDF, from the author, the title and the
/// chapter field as given.
pub fn work_key_for(author: Option<&str>, title: Option<&str>, chapter: Option<&str>, pages: &[String]) -> (r: String)
    ensures
        r@ == pdf_work_key(opt_str_view(author), opt_str_view(title), opt_str_view(chapter), strings_view(pages@)),
{
    let a = normalized_identity_component(author);
    let t = normalized_identity_component(title);
    let c = if a.is_some() && t.is_some() {
        None
    } else {
        normalized_identity_component(chapter)
    };
    let mut basis: Vec<Vec<char>> = Vec::new();
    labelled_part("author:", &a, &mut basis);
    labelled_part("title:", &t, &mut basis);
    labelled_part("chapter:", &c, &mut basis);
    assert(views(basis@) =~= opt_list(labelled("author:"@, opt_string_view(a))) + opt_list(
        labelled("title:"@, opt_string_view(t)),
    ) + opt_list(labelled("chapter:"@, opt_string_view(c))));
    if basis.len() < 2 {
        let mut p = chars_of("content:");
        let f = pdf_content_fingerprint(pages);
        push_str(&mut p, f.as_str());
        let ghost before = views(basis@);
        basis.push(p);
        assert(views(basis@) =~= before.push("content:"@ + content_fingerprint(strings_view(pages@))));
    }
    let a_ref: Option<&str> = match &a { Some(x) => Some(x.as_str()), None => None };
    let t_ref: Option<&str> = match &t { Some(x) => Some(x.as_str()), None => None };
    let c_ref: Option<&str> = match &c { Some(x) => Some(x.as_str()), None => None };
    let slug = build_work_key_slug(a_ref, t_ref, c_ref);
    let joined = join_str(&basis, "\n");
    let js = string_from_chars(joined.as_slice());
    let digest = short_hash(js.as_str());
    let mut out = chars_of("ncode_pdf_");
    push_str(&mut out, slug.as_str());
    push_str(&mut out, "_");
    push_str(&mut out, digest.as_str());
    string_from_chars(out.as_slice())
}

/// The file stem of a name given by the client, else the trimmed name; no
/// stem for a blank name.
pub fn file_stem_string(raw: &str) -> (r: Option<String>)
    ensures
        trim(raw@).len() == 0 <==> r is None,
        trim(raw@).len() > 0 && plain_path(trim(raw@)) ==> opt_string_view(r) == Some(
            name_stem(last_component(trim(raw@))),
        ),
{
    let t = trim_str_owned(raw);
    if t.as_str().is_empty() {
        return None;
    }
    match path_file_stem(t.as_str()) {
        Some(s) => Some(s),
        None => Some(t),
    }
}

/// The title that identifies an imported PDF: the stem of the name the
/// client gave where it is not blank, else the stem of the stored file.
pub open spec fn identity_title(request: RequestData, pdf_path: Seq<char>) -> Seq<char> {
    match request.pdf_name {
        Some(n) => if trim(n@).len() > 0 {
            name_stem(last_component(trim(n@)))
        } else {
            name_stem(last_component(pdf_path))
        },
        None => name_stem(last_component(pdf_path)),
    }
}

/// Whether the name that the identity title is taken from is a plain path,
/// so that its stem is what `identity_title` says on every platform.
pub open spec fn identity_plain(request: RequestData, pdf_path: Seq<char>) -> bool {
    match request.pdf_name {
        Some(n) => if trim(n@).len() > 0 {
            plain_path(trim(n@))
        } else {
            plain_path(pdf_path)
        },
        None => plain_path(pdf_path),
    }
}

pub fn pdf_identity_title(request: &RequestData, pdf_path: &str) -> (r: Option<String>)
    ensures
        identity_plain(*request, pdf_path@) ==> opt_string_view(r) == Some(identity_title(*request, pdf_path@)),
        match request.pdf_name {
            Some(n) => {
                &&& trim(n@).len() > 0 ==> r is Some
                &&& trim(n@).len() > 0 && plain_path(trim(n@)) ==> opt_string_view(r) == Some(
                    name_stem(last_component(trim(n@))),
                )
                &&& trim(n@).len() == 0 && plain_path(pdf_path@) ==> opt_string_view(r) == Some(
                    name_stem(last_component(pdf_path@)),
                )
            },
            None => plain_path(pdf_path@) ==> opt_string_view(r) == Some(name_stem(last_component(pdf_path@))),
        },
{
    let from_name = match &request.pdf_name {
        Some(n) => file_stem_string(n.as_str()),
        None => None,
    };
    match from_name {
        Some(s) => Some(s),
        None => path_file_stem(pdf_path),
    }
}

/// Who wrote the work of a request: the author id, else the author URL.
pub open spec fn request_author(request: RequestData) -> Option<Seq<char>> {
    match request.author_id {
        Some(a) => Some(a@),
        None => opt_string_view(request.author_url),
    }
}

/// The key of a work imported from PDF for a request; the title comes from
/// the file names, whose stems depend on the platform's path rules.
pub fn derive_pdf_work_key(request: &RequestData, pdf_path: &str, pages: &[String]) -> (r: String)
    ensures
        identity_plain(*request, pdf_path@) ==> r@ == pdf_work_key(
            request_author(*request),
            Some(identity_title(*request, pdf_path@)),
            opt_string_view(request.chapter),
            strings_view(pages@),
        ),
        exists|title: Option<Seq<char>>| r@ == #[trigger] pdf_work_key(
            request_author(*request),
            title,
            opt_string_view(request.chapter),
            strings_view(pages@),
        ),
{
    let author: Option<&str> = match &request.author_id {
        Some(a) => Some(a.as_str()),
        None => match &request.author_url {
            Some(u) => Some(u.as_str()),
            None => None,
        },
    };
    let title = pdf_identity_title(request, pdf_path);
    let title_ref: Option<&str> = match &title { Some(x) => Some(x.as_str()), None => None };
    let chapter: Option<&str> = match &request.chapter { Some(c) => Some(c.as_str()), None => None };
    let r = work_key_for(author, title_ref, chapter, pages);
    assert(r@ == pdf_work_key(
        request_author(*request),
        opt_str_view(title_ref),
        opt_string_view(request.chapter),
        strings_view(pages@),
    ));
    r
}

/// Law: every PDF work key starts with `ncode_pdf_`; the key depends only
/// on the author, title, chapter field and pages it is made of; and where
/// both an author and a title are known, the pages do not change it.
pub proof fn lemma_pdf_work_key(
    author: Option<Seq<char>>,
    title: Option<Seq<char>>,
    chapter_raw: Option<Seq<char>>,
    pages: Seq<Seq<char>>,
    other_pages: Seq<Seq<char>>,
)
    ensures
        pdf_work_key(author, title, chapter_raw, pages).len() >= 10,
        pdf_work_key(author, title, chapter_raw, pages).take(10) == "ncode_pdf_"@,
        identity_component(author) is Some && identity_component(title) is Some ==> pdf_work_key(
            author,
            title,
            chapter_raw,
            pages,
        ) == pdf_work_key(author, title, chapter_raw, other_pages),
{
    reveal_strlit("ncode_pdf_");
    let k = pdf_work_key(author, title, chapter_raw, pages);
    assert(k.take(10) =~= "ncode_pdf_"@);
}

// ---------------------------------------------------------------------------
// Looking up an existing work
// ---------------------------------------------------------------------------

/// The pattern of a Narou novel code such as `n1234ab`.
pub open spec fn nid_pattern() -> Seq<char> {
    "(?i)(n[0-9]+[a-z0-9]+)"@
}

/// The novel code in a text, in lower case: the first match of the code
/// pattern in the trimmed text.
pub open spec fn nid_of(value: Seq<char>) -> Option<Seq<char>> {
    match regex_group(nid_pattern(), trim(value), 1) {
        Some(m) => Some(unicode_lower(m)),
        None => None,
    }
}

pub fn extract_narou_nid(value: &str) -> (r: Option<String>)
    ensures
        opt_string_view(r) == nid_of(value@),
{
    let t = trim_str_owned(value);
    match regex_capture("(?i)(n[0-9]+[a-z0-9]+)", t.as_str(), 1) {
        Some(m) => Some(to_lowercase(m.as_str())),
        None => None,
    }
}

/// The whole trimmed text is a novel code.
pub open spec fn is_narou_nid(value: Seq<char>) -> bool {
    nid_of(value) == Some(unicode_lower(trim(value)))
}

pub fn looks_like_narou_nid(value: &str) -> (r: bool)
    ensures
        r == is_narou_nid(value@),
{
    match extract_narou_nid(value) {
        Some(nid) => {
            let t = trim_str_owned(value);
            let l = to_lowercase(t.as_str());
            crate::text::str_eq(nid.as_str(), l.as_str())
        },
        None => false,
    }
}

/// `x` added to a strictly ordered list unless it is there already.
pub open spec fn insert_unique(sorted: Seq<Seq<char>>, x: Seq<char>) -> Seq<Seq<char>>
    decreases sorted.len(),
{
    if sorted.len() == 0 {
        seq![x]
    } else if sorted[0] == x {
        sorted
    } else if text_le(x, sorted[0]) {
        seq![x] + sorted
    } else {
        seq![sorted[0]] + insert_unique(sorted.drop_first(), x)
    }
}

/// The items sorted with repeats removed.
pub open spec fn sorted_unique(items: Seq<Seq<char>>) -> Seq<Seq<char>>
    decreases items.len(),
{
    if items.len() == 0 {
        items
    } else {
        insert_unique(sorted_unique(items.drop_last()), items.last())
    }
}

/// Texts in strictly increasing order.
pub open spec fn strictly_sorted(s: Seq<Seq<char>>) -> bool {
    forall|i: int, j: int| 0 <= i < j < s.len() ==> text_le(#[trigger] s[i], #[trigger] s[j]) && s[i] != s[j]
}

proof fn lemma_insert_unique(sorted: Seq<Seq<char>>, x: Seq<char>)
    requires
        strictly_sorted(sorted),
    ensures
        strictly_sorted(insert_unique(sorted, x)),
        forall|y: Seq<char>| #[trigger] insert_unique(sorted, x).contains(y) <==> (sorted.contains(y) || y == x),
    decreases sorted.len(),
{
    let r = insert_unique(sorted, x);
    if sorted.len() == 0 {
        assert(r =~= seq![x]);
        assert forall|y: Seq<char>| #[trigger] r.contains(y) <==> (sorted.contains(y) || y == x) by {
            if r.contains(y) {
                assert(r[0] == x);
            }
            if y == x {
                assert(r[0] == y);
            }
        }
    } else if sorted[0] == x {
    } else if text_le(x, sorted[0]) {
        assert(r =~= seq![x] + sorted);
        assert forall|i: int, j: int| 0 <= i < j < r.len() implies text_le(#[trigger] r[i], #[trigger] r[j]) && r[i] != r[j] by {
            if i == 0 {
                assert(r[j] == sorted[j - 1]);
                if j - 1 > 0 {
                    assert(text_le(sorted[0], sorted[j - 1]) && sorted[0] != sorted[j - 1]);
                    crate::followed::lemma_text_le_trans(x, sorted[0], sorted[j - 1]);
                    if x == sorted[j - 1] {
                        crate::followed::lemma_text_le_antisym(sorted[0], sorted[j - 1]);
                    }
                }
            } else {
                assert(r[i] == sorted[i - 1] && r[j] == sorted[j - 1]);
            }
        }
        assert forall|y: Seq<char>| #[trigger] r.contains(y) <==> (sorted.contains(y) || y == x) by {
            if r.contains(y) {
                let k = choose|k: int| 0 <= k < r.len() && r[k] == y;
                if k > 0 {
                    assert(sorted[k - 1] == y);
                }
            }
            if sorted.contains(y) {
                let k = choose|k: int| 0 <= k < sorted.len() && sorted[k] == y;
                assert(r[k + 1] == y);
            }
            if y == x {
                assert(r[0] == y);
            }
        }
    } else {
        let rest = sorted.drop_first();
        assert(strictly_sorted(rest)) by {
            assert forall|i: int, j: int| 0 <= i < j < rest.len() implies text_le(#[trigger] rest[i], #[trigger] rest[j]) && rest[i] != rest[j] by {
                assert(rest[i] == sorted[i + 1] && rest[j] == sorted[j + 1]);
            }
        }
        lemma_insert_unique(rest, x);
        let tail = insert_unique(rest, x);
        assert(r =~= seq![sorted[0]] + tail);
        crate::followed::lemma_text_le_total(x, sorted[0]);
        assert forall|i: int, j: int| 0 <= i < j < r.len() implies text_le(#[trigger] r[i], #[trigger] r[j]) && r[i] != r[j] by {
            if i == 0 {
                assert(r[j] == tail[j - 1]);
                assert(tail.contains(tail[j - 1]));
                if tail[j - 1] != x {
                    assert(rest.contains(tail[j - 1]));
                    let k = choose|k: int| 0 <= k < rest.len() && rest[k] == tail[j - 1];
                    assert(sorted[k + 1] == rest[k]);
                }
            } else {
                assert(r[i] == tail[i - 1] && r[j] == tail[j - 1]);
            }
        }
        assert forall|y: Seq<char>| #[trigger] r.contains(y) <==> (sorted.contains(y) || y == x) by {
            if r.contains(y) {
                let k = choose|k: int| 0 <= k < r.len() && r[k] == y;
                if k > 0 {
                    assert(tail[k - 1] == y);
                    assert(tail.contains(y));
                    if y != x {
                        let m = choose|m: int| 0 <= m < rest.len() && rest[m] == y;
                        assert(sorted[m + 1] == y);
                    }
                }
            }
            if sorted.contains(y) {
                let k = choose|k: int| 0 <= k < sorted.len() && sorted[k] == y;
                if k == 0 {
                    assert(r[0] == y);
                } else {
                    assert(rest[k - 1] == y);
                    assert(rest.contains(y));
                    assert(tail.contains(y));
                    let m = choose|m: int| 0 <= m < tail.len() && tail[m] == y;
                    assert(r[m + 1] == y);
                }
            }
            if y == x {
                assert(tail.contains(y));
                let m = choose|m: int| 0 <= m < tail.len() && tail[m] == y;
                assert(r[m + 1] == y);
            }
        }
    }
}

/// Law: the items sorted without repeats are exactly the items, each once,
/// in strictly increasing order.
pub proof fn lemma_sorted_unique_items(items: Seq<Seq<char>>)
    ensures
        strictly_sorted(sorted_unique(items)),
        forall|y: Seq<char>| #[trigger] sorted_unique(items).contains(y) <==> items.contains(y),
    decreases items.len(),
{
    if items.len() > 0 {
        let prev = items.drop_last();
        lemma_sorted_unique_items(prev);
        lemma_insert_unique(sorted_unique(prev), items.last());
        assert forall|y: Seq<char>| #[trigger] sorted_unique(items).contains(y) <==> items.contains(y) by {
            if prev.contains(y) {
                let k = choose|k: int| 0 <= k < prev.len() && prev[k] == y;
                assert(items[k] == y);
            }
            if items.contains(y) {
                let k = choose|k: int| 0 <= k < items.len() && items[k] == y;
                if k < items.len() - 1 {
                    assert(prev[k] == y);
                }
            }
        }
    }
}

fn insert_unique_string(sorted: &mut Vec<String>, x: String)
    ensures
        strings_view(final(sorted)@) == insert_unique(strings_view(old(sorted)@), x@),
{
    let ghost start = strings_view(sorted@);
    let xv = chars_of(x.as_str());
    let mut j: usize = 0;
    assert(start.skip(0) =~= start);
    while j < sorted.len()
        invariant
            j <= sorted.len(),
            start == strings_view(sorted@),
            start == strings_view(old(sorted)@),
            xv@ == x@,
            insert_unique(start, x@) == start.take(j as int) + insert_unique(start.skip(j as int), x@),
        decreases sorted.len() - j,
    {
        let ghost rest = start.skip(j as int);
        assert(rest[0] == sorted@[j as int]@);
        let yv = chars_of(sorted[j].as_str());
        if crate::text::chars_eq(yv.as_slice(), xv.as_slice()) {
            assert(insert_unique(rest, x@) == rest);
            assert(start.take(j as int) + rest =~= start);
            return;
        }
        if text_less(xv.as_slice(), yv.as_slice()) {
            assert(insert_unique(rest, x@) == seq![x@] + rest);
            let ghost xs = x@;
            sorted.insert(j, x);
            assert(strings_view(sorted@) =~= start.take(j as int) + (seq![xs] + rest));
            return;
        }
        assert(rest.drop_first() =~= start.skip(j + 1));
        assert(start.take(j + 1) =~= start.take(j as int).push(rest[0]));
        assert(start.take(j as int) + (seq![rest[0]] + insert_unique(rest.drop_first(), x@)) =~= start.take(j + 1)
            + insert_unique(start.skip(j + 1), x@));
        j = j + 1;
    }
    assert(start.skip(j as int) =~= Seq::<Seq<char>>::empty());
    let ghost xs = x@;
    let ghost before = strings_view(sorted@);
    sorted.push(x);
    assert(strings_view(sorted@) =~= before + seq![xs]);
}

/// The items in order with repeats removed.
pub fn sorted_unique_strings(items: Vec<String>) -> (r: Vec<String>)
    ensures
        strings_view(r@) == sorted_unique(strings_view(items@)),
{
    let ghost all = strings_view(items@);
    let mut out: Vec<String> = Vec::new();
    let mut i: usize = 0;
    assert(all.take(0) =~= Seq::<Seq<char>>::empty());
    assert(strings_view(out@) =~= Seq::<Seq<char>>::empty());
    while i < items.len()
        invariant
            i <= items.len(),
            all == strings_view(items@),
            strings_view(out@) == sorted_unique(all.take(i as int)),
        decreases items.len() - i,
    {
        assert(all.take(i + 1).drop_last() =~= all.take(i as int));
        assert(all.take(i + 1).last() == items@[i as int]@);
        insert_unique_string(&mut out, items[i].clone());
        i = i + 1;
    }
    assert(all.take(i as int) =~= all);
    out
}

/// The keys by which an existing Narou work may be found: the trimmed text
/// and its key-safe form in lower case, and the novel code in it, sorted,
/// without repeats; none for a blank text.
pub open spec fn lookup_candidates(value: Seq<char>) -> Seq<Seq<char>> {
    let t = trim(value);
    if t.len() == 0 {
        Seq::empty()
    } else {
        sorted_unique(seq![unicode_lower(t), unicode_lower(sanitized(t))] + opt_list(nid_of(t)))
    }
}

pub fn narou_lookup_candidates(value: &str) -> (r: Vec<String>)
    ensures
        strings_view(r@) == lookup_candidates(value@),
{
    let t = trim_str_owned(value);
    if t.as_str().is_empty() {
        let r: Vec<String> = Vec::new();
        assert(strings_view(r@) =~= Seq::<Seq<char>>::empty());
        return r;
    }
    let mut items: Vec<String> = Vec::new();
    items.push(to_lowercase(t.as_str()));
    let sk = sanitize_key(t.as_str());
    items.push(to_lowercase(sk.as_str()));
    let ghost two = strings_view(items@);
    match extract_narou_nid(t.as_str()) {
        Some(nid) => {
            items.push(nid);
        },
        None => {},
    }
    proof {
        crate::text::lemma_trim_idempotent(value@);
    }
    assert(strings_view(items@) =~= seq![unicode_lower(t@), unicode_lower(sanitized(t@))] + opt_list(nid_of(t@)));
    sorted_unique_strings(items)
}


// ---------------------------------------------------------------------------
// Downloading a Narou work
// ---------------------------------------------------------------------------

/// Whether a stored Narou work is the one a download asks for: one of the
/// lookup candidates is its key in lower case, or its novel code trimmed and
/// in lower case.
pub open spec fn narou_work_matches(work_key: Seq<char>, nid: Option<Seq<char>>, candidates: Seq<Seq<char>>) -> bool {
    exists|i: int|
        0 <= i < candidates.len() && (#[trigger] candidates[i] == unicode_lower(work_key) || (nid matches Some(
            n,
        ) && candidates[i] == unicode_lower(trim(n))))
}

pub fn existing_narou_work_matches(work_key: &str, nid: Option<&str>, candidates: &[String]) -> (r: bool)
    ensures
        r == narou_work_matches(work_key@, opt_str_view(nid), strings_view(candidates@)),
{
    let key = to_lowercase(work_key);
    let n = match nid {
        Some(v) => {
            let t = trim_str_owned(v);
            Some(to_lowercase(t.as_str()))
        },
        None => None,
    };
    let ghost cv = strings_view(candidates@);
    let mut i: usize = 0;
    while i < candidates.len()
        invariant
            i <= candidates.len(),
            cv == strings_view(candidates@),
            key@ == unicode_lower(work_key@),
            opt_string_view(n) == match opt_str_view(nid) {
                Some(v) => Some(unicode_lower(trim(v))),
                None => None,
            },
            forall|k: int|
                0 <= k < i ==> !(#[trigger] cv[k] == unicode_lower(work_key@) || (opt_str_view(nid) matches Some(v)
                    && cv[k] == unicode_lower(trim(v)))),
        decreases candidates.len() - i,
    {
        let c = candidates[i].as_str();
        let hit = crate::text::str_eq(c, key.as_str()) || match &n {
            Some(v) => crate::text::str_eq(c, v.as_str()),
            None => false,
        };
        if hit {
            assert(cv[i as int] == c@);
            return true;
        }
        i = i + 1;
    }
    false
}

/// What a Narou download does: a PDF that came with the request is
/// imported; else a stored work is kept as it is, since nothing can update
/// it without a PDF.
#[derive(Debug, Clone, PartialEq, Eq)]
pub enum NarouDownloadOutcome {
    Import,
    Kept(String),
}

/// The first candidate that is a novel code.
pub open spec fn first_nid_candidate(candidates: Seq<Seq<char>>) -> Option<Seq<char>>
    decreases candidates.len(),
{
    if candidates.len() == 0 {
        None
    } else if is_narou_nid(candidates[0]) {
        Some(candidates[0])
    } else {
        first_nid_candidate(candidates.drop_first())
    }
}

/// The message of a stored work kept by a download without a PDF.
pub open spec fn kept_message(nid: Seq<char>) -> Seq<char> {
    "narou "@ + nid + " は既存データを保持しました。PDF アップロードなしには更新できないため、/api/ から PDF を添付してください"@
}

/// The error of a download of a work that is neither stored nor sent.
pub open spec fn unregistered_message(candidates: Seq<Seq<char>>, value: Seq<char>) -> Seq<char> {
    let requested = match first_nid_candidate(candidates) {
        Some(c) => c,
        None => trim(value),
    };
    "narou "@ + requested + " は未登録です。PDF を /api/ から添付してください"@
}

/// Decides a Narou download from whether a PDF came with it and the novel
/// code of the stored work it names, if any (its key where it has none).
pub fn narou_download_outcome(pdf_present: bool, existing_nid: Option<&str>, candidates: &[String], value: &str) -> (r:
    Result<NarouDownloadOutcome, String>)
    ensures
        pdf_present ==> r == Ok::<NarouDownloadOutcome, String>(NarouDownloadOutcome::Import),
        !pdf_present && existing_nid is Some ==> (r matches Ok(NarouDownloadOutcome::Kept(m)) && m@ == kept_message(
            existing_nid->0@,
        )),
        !pdf_present && existing_nid is None ==> (r matches Err(e) && e@ == unregistered_message(
            strings_view(candidates@),
            value@,
        )),
{
    if pdf_present {
        return Ok(NarouDownloadOutcome::Import);
    }
    match existing_nid {
        Some(nid) => {
            let mut t = chars_of("narou ");
            push_str(&mut t, nid);
            push_str(
                &mut t,
                " は既存データを保持しました。PDF アップロードなしには更新できないため、/api/ から PDF を添付してください",
            );
            Ok(NarouDownloadOutcome::Kept(string_from_chars(t.as_slice())))
        },
        None => {
            let ghost cv = strings_view(candidates@);
            let mut requested: Option<String> = None;
            let mut i: usize = 0;
            assert(cv.skip(0) =~= cv);
            while i < candidates.len()
                invariant_except_break
                    requested is None,
                    i <= candidates.len(),
                    first_nid_candidate(cv) == first_nid_candidate(cv.skip(i as int)),
                invariant
                    cv == strings_view(candidates@),
                ensures
                    match requested {
                        Some(q) => first_nid_candidate(cv) == Some(q@),
                        None => first_nid_candidate(cv) is None,
                    },
                decreases candidates.len() - i,
            {
                assert(cv.skip(i as int)[0] == candidates@[i as int]@);
                if looks_like_narou_nid(candidates[i].as_str()) {
                    requested = Some(crate::text::owned(candidates[i].as_str()));
                    break;
                }
                assert(cv.skip(i as int).drop_first() =~= cv.skip(i + 1));
                i = i + 1;
            }
            let req = match requested {
                Some(q) => q,
                None => trim_str_owned(value),
            };
            let mut t = chars_of("narou ");
            push_str(&mut t, req.as_str());
            push_str(&mut t, " は未登録です。PDF を /api/ から添付してください");
            Err(string_from_chars(t.as_slice()))
        },
    }
}

} // verus!
