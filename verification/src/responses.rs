//! What the server's answers carry besides their body: the tag that lets a
//! client keep a copy, whether the client's copy is current, the charset of
//! HTML, and where a work's cover is found. Building the answers is left to
//! the caller.
use vstd::prelude::*;
use crate::model::ImageRecord;
use crate::text::{chars_of, contains, has_prefix, lower, split_by, string_from_chars, trim, trim_end_set};
use crate::work_key::{hex_string, hex_text, sha256, sha256_bytes};

verus! {

/// The tag of a payload: its SHA-256 digest in lower-case hex, quoted.
pub open spec fn etag_of(payload: Seq<u8>) -> Seq<char> {
    seq!['"'] + hex_text(sha256(payload)) + seq!['"']
}

pub fn payload_etag(payload: &[u8]) -> (r: String)
    ensures
        r@ == etag_of(payload@),
{
    let digest = sha256_bytes(payload);
    let hex = hex_string(digest.as_slice());
    let mut t: Vec<char> = Vec::new();
    t.push('"');
    crate::text::push_str(&mut t, hex.as_str());
    t.push('"');
    string_from_chars(t.as_slice())
}

/// Whether a client's `If-None-Match` lists the tag among its
/// comma-separated candidates.
pub open spec fn etag_listed(if_none_match: Option<Seq<char>>, etag: Seq<char>) -> bool {
    match if_none_match {
        Some(v) => split_by(v, seq![',']).map_values(|p: Seq<char>| trim(p)).contains(etag),
        None => false,
    }
}

pub fn etag_matches(if_none_match: Option<&str>, etag: &str) -> (r: bool)
    ensures
        r == etag_listed(
            match if_none_match {
                Some(v) => Some(v@),
                None => None,
            },
            etag@,
        ),
{
    match if_none_match {
        Some(v) => {
            let parts = crate::text::split_at_char(chars_of(v).as_slice(), ',');
            let ghost ps = crate::text::views(parts@);
            let mut i: usize = 0;
            while i < parts.len()
                invariant
                    i <= parts.len(),
                    ps == crate::text::views(parts@),
                    ps == split_by(v@, seq![',']),
                    if_none_match == Some(v),
                    forall|k: int| 0 <= k < i ==> trim(#[trigger] ps[k]) != etag@,
                decreases parts.len() - i,
            {
                let t = crate::text::trim_chars(parts[i].as_slice());
                if crate::text::chars_eq_str(t.as_slice(), etag) {
                    assert(ps.map_values(|p: Seq<char>| trim(p))[i as int] == etag@);
                    return true;
                }
                i = i + 1;
            }
            proof {
                let m = ps.map_values(|p: Seq<char>| trim(p));
                assert forall|k: int| 0 <= k < m.len() implies m[k] != etag@ by {
                    assert(trim(ps[k]) != etag@);
                }
            }
            false
        },
        None => false,
    }
}

/// Whether an answer's content type is HTML that names no charset.
pub open spec fn lacks_html_charset(content_type: Option<Seq<char>>) -> bool {
    match content_type {
        Some(t) => has_prefix(lower(t), "text/html"@) && !contains(lower(t), "charset="@),
        None => false,
    }
}

pub fn needs_utf8_charset(content_type: Option<&str>) -> (r: bool)
    ensures
        r == lacks_html_charset(
            match content_type {
                Some(t) => Some(t@),
                None => None,
            },
        ),
{
    match content_type {
        Some(t) => {
            let l = crate::text::lower_chars(chars_of(t).as_slice());
            crate::text::starts_with_str(l.as_slice(), "text/html") && !crate::text::contains_str(l.as_slice(), "charset=")
        },
        None => false,
    }
}

/// The logical names under which a work's cover may be stored, in the
/// order they are looked up.
pub open spec fn cover_extensions() -> Seq<Seq<char>> {
    seq!["jpg"@, "jpeg"@, "png"@, "gif"@, "apng"@, "webp"@, "bmp"@, "avif"@, "svg"@]
}

pub open spec fn cover_name(site: Seq<char>, work: Seq<char>, ext: Seq<char>) -> Seq<char> {
    site + seq!['_'] + work + "_cover."@ + ext
}

pub fn cover_logical_names(site: &str, work: &str) -> (r: Vec<String>)
    ensures
        r@.len() == cover_extensions().len(),
        forall|i: int| 0 <= i < r@.len() ==> #[trigger] r@[i]@ == cover_name(site@, work@, cover_extensions()[i]),
{
    let exts: [&str; 9] = ["jpg", "jpeg", "png", "gif", "apng", "webp", "bmp", "avif", "svg"];
    let mut out: Vec<String> = Vec::new();
    let mut i: usize = 0;
    while i < 9
        invariant
            i <= 9,
            exts@.len() == 9,
            out@.len() == i,
            forall|k: int| 0 <= k < 9 ==> #[trigger] exts@[k]@ == cover_extensions()[k],
            forall|k: int| 0 <= k < i ==> #[trigger] out@[k]@ == cover_name(site@, work@, cover_extensions()[k]),
        decreases 9 - i,
    {
        let mut t: Vec<char> = Vec::new();
        crate::text::push_str(&mut t, site);
        t.push('_');
        crate::text::push_str(&mut t, work);
        crate::text::push_str(&mut t, "_cover.");
        crate::text::push_str(&mut t, exts[i]);
        out.push(string_from_chars(t.as_slice()));
        i = i + 1;
    }
    out
}

/// Where a work's cover is fetched: its stored image, under the image
/// address where one is set, else the default cover.
pub open spec fn cover_target(img_url: Seq<char>, image: Option<(Seq<char>, Seq<char>)>) -> Seq<char> {
    match image {
        Some((hash, ext)) => {
            let file = hash + seq!['.'] + ext;
            if trim(img_url).len() == 0 {
                "/images/"@ + file
            } else {
                trim_end_set(img_url, seq!['/']) + seq!['/'] + file
            }
        },
        None => "/images/default_cover.png"@,
    }
}

pub fn cover_redirect_target(img_url: &str, image: Option<&ImageRecord>) -> (r: String)
    ensures
        r@ == cover_target(
            img_url@,
            match image {
                Some(i) => Some((i.hash@, i.ext@)),
                None => None,
            },
        ),
{
    match image {
        Some(i) => {
            let mut t: Vec<char> = Vec::new();
            let u = chars_of(img_url);
            let trimmed = crate::text::trim_chars(u.as_slice());
            if trimmed.len() == 0 {
                crate::text::push_str(&mut t, "/images/");
            } else {
                let base = crate::text::trim_end_char(u.as_slice(), '/');
                crate::text::push_all(&mut t, base.as_slice());
                t.push('/');
            }
            crate::text::push_str(&mut t, i.hash.as_str());
            t.push('.');
            crate::text::push_str(&mut t, i.ext.as_str());
            string_from_chars(t.as_slice())
        },
        None => crate::text::owned("/images/default_cover.png"),
    }
}

} // verus!
