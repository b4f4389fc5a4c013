//! Pixiv-specific text handling: URL classification, tags, tracked-user keys
//! and small decoding helpers.
use vstd::prelude::*;
use crate::sites::{PixivSite, Site, SiteId};
use crate::work_key::{pieces_view, regex_pieces, regex_split, RegexPieceView};
use crate::narou::{opt_string_view, text_le};
use crate::model::WorkRecord;
use crate::text::{
    all_digits, chars_all_digits, chars_eq, chars_eq_str, chars_of, contains, contains_str, find,
    find_str, lemma_find, lemma_split_by_len, push_all, slice_range, split_at_char, split_by,
    string_from_chars, views, strings_view, contains_string, keep_nonempty,
};

verus! {

/// The handler of the Pixiv site.
pub fn site() -> (r: PixivSite)
    ensures
        r.site_of() == SiteId::Pixiv,
{
    PixivSite
}

/// What a Pixiv URL points at.
#[derive(Debug, Clone, PartialEq, Eq)]
pub enum PixivUrlTarget {
    Novel(String),
    Series(String),
    User(String),
    Art(String),
    Comic(String),
}

/// The non-empty `/`-separated segments of a path.
pub open spec fn path_segments(path: Seq<char>) -> Seq<Seq<char>> {
    keep_nonempty(split_by(path, seq!['/']))
}

fn nonempty_pieces(v: &Vec<Vec<char>>) -> (r: Vec<Vec<char>>)
    ensures
        views(r@) == keep_nonempty(views(v@)),
{
    let mut r: Vec<Vec<char>> = Vec::new();
    let mut i: usize = 0;
    assert(views(v@).take(0) =~= Seq::<Seq<char>>::empty());
    while i < v.len()
        invariant
            i <= v.len(),
            views(r@) == keep_nonempty(views(v@).take(i as int)),
        decreases v.len() - i,
    {
        assert(views(v@).take(i + 1).drop_last() =~= views(v@).take(i as int));
        assert(views(v@).take(i + 1).last() == v@[i as int]@);
        if v[i].len() > 0 {
            let piece = slice_range(v[i].as_slice(), 0, v[i].len());
            assert(piece@ =~= v@[i as int]@);
            let ghost prev = views(r@);
            r.push(piece);
            assert(views(r@) =~= prev.push(piece@));
        }
        i = i + 1;
    }
    assert(views(v@).take(v.len() as int) =~= views(v@));
    r
}

/// The last non-empty path segment made only of digits.
pub open spec fn last_numeric(segs: Seq<Seq<char>>) -> Option<Seq<char>>
    decreases segs.len(),
{
    if segs.len() == 0 {
        None
    } else if all_digits(segs.last()) {
        Some(segs.last())
    } else {
        last_numeric(segs.drop_last())
    }
}

pub fn last_numeric_segment(path: &str) -> (r: Option<String>)
    ensures
        match r {
            Some(s) => last_numeric(path_segments(path@)) == Some(s@),
            None => last_numeric(path_segments(path@)) is None,
        },
{
    let c = chars_of(path);
    let pieces = split_at_char(c.as_slice(), '/');
    let segs = nonempty_pieces(&pieces);
    let ghost ss = views(segs@);
    let mut j: usize = segs.len();
    assert(ss.take(j as int) =~= ss);
    assert(ss == path_segments(path@));
    while j > 0
        invariant
            j <= segs.len(),
            ss == views(segs@),
            ss == path_segments(path@),
            last_numeric(ss) == last_numeric(ss.take(j as int)),
        decreases j,
    {
        assert(ss.take(j as int).last() == segs@[j - 1]@);
        if chars_all_digits(segs[j - 1].as_slice()) {
            return Some(string_from_chars(segs[j - 1].as_slice()));
        }
        assert(ss.take(j as int).drop_last() =~= ss.take(j - 1));
        j = j - 1;
    }
    None
}

/// The segment after the first `marker` segment that is followed by a
/// numeric segment.
pub open spec fn id_after_marker(segs: Seq<Seq<char>>, marker: Seq<char>, i: int) -> Option<Seq<char>>
    decreases segs.len() - i,
{
    if i < 0 || i + 1 >= segs.len() {
        None
    } else if segs[i] == marker && all_digits(segs[i + 1]) {
        Some(segs[i + 1])
    } else {
        id_after_marker(segs, marker, i + 1)
    }
}

pub fn user_id_from_path(path: &str, marker: &str) -> (r: Option<String>)
    ensures
        match r {
            Some(s) => id_after_marker(path_segments(path@), marker@, 0) == Some(s@),
            None => id_after_marker(path_segments(path@), marker@, 0) is None,
        },
{
    let c = chars_of(path);
    let pieces = split_at_char(c.as_slice(), '/');
    let segs = nonempty_pieces(&pieces);
    let m = chars_of(marker);
    let ghost ss = views(segs@);
    let mut i: usize = 0;
    assert(ss == path_segments(path@));
    while segs.len() > 0 && i < segs.len() - 1
        invariant
            ss == views(segs@),
            ss == path_segments(path@),
            m@ == marker@,
            id_after_marker(ss, m@, 0) == id_after_marker(ss, m@, i as int),
        decreases segs.len() - i,
    {
        assert(ss[i as int] == segs@[i as int]@);
        assert(ss[i + 1] == segs@[i + 1]@);
        if chars_eq(segs[i].as_slice(), m.as_slice()) && chars_all_digits(segs[i + 1].as_slice()) {
            return Some(string_from_chars(segs[i + 1].as_slice()));
        }
        i = i + 1;
    }
    None
}

/// The key of a `key=value` query pair (the whole pair without `=`).
pub open spec fn pair_key(pair: Seq<char>) -> Seq<char> {
    match find(pair, seq!['=']) {
        Some(k) => pair.take(k),
        None => pair,
    }
}

/// The value of a `key=value` query pair (empty without `=`).
pub open spec fn pair_value(pair: Seq<char>) -> Seq<char> {
    match find(pair, seq!['=']) {
        Some(k) => pair.skip(k + 1),
        None => Seq::<char>::empty(),
    }
}

/// The value of the first pair with `key` among `pairs` from index `i` on.
pub open spec fn query_lookup(pairs: Seq<Seq<char>>, key: Seq<char>, i: int) -> Option<Seq<char>>
    decreases pairs.len() - i,
{
    if i < 0 || i >= pairs.len() {
        None
    } else if pair_key(pairs[i]) == key {
        Some(pair_value(pairs[i]))
    } else {
        query_lookup(pairs, key, i + 1)
    }
}

/// The value of `key` in the query part of `url` (what follows the first
/// `?`, up to a second `?`).
pub open spec fn query_of(url: Seq<char>, key: Seq<char>) -> Option<Seq<char>> {
    let parts = split_by(url, seq!['?']);
    if parts.len() < 2 {
        None
    } else {
        query_lookup(split_by(parts[1], seq!['&']), key, 0)
    }
}

pub fn query_value(url: &str, key: &str) -> (r: Option<String>)
    ensures
        match r {
            Some(s) => query_of(url@, key@) == Some(s@),
            None => query_of(url@, key@) is None,
        },
{
    let c = chars_of(url);
    let parts = split_at_char(c.as_slice(), '?');
    if parts.len() < 2 {
        return None;
    }
    assert(views(parts@)[1] == parts@[1]@);
    let pairs = split_at_char(parts[1].as_slice(), '&');
    let k = chars_of(key);
    let eq = vec!['='];
    assert(eq@ =~= seq!['=']);
    let ghost ps = views(pairs@);
    let mut i: usize = 0;
    while i < pairs.len()
        invariant
            ps == views(pairs@),
            ps == split_by(views(parts@)[1], seq!['&']),
            views(parts@) == split_by(url@, seq!['?']),
            parts@.len() >= 2,
            k@ == key@,
            eq@ == seq!['='],
            query_lookup(ps, k@, 0) == query_lookup(ps, k@, i as int),
        decreases pairs.len() - i,
    {
        let pair = &pairs[i];
        assert(ps[i as int] == pair@);
        proof {
            lemma_find(pair@, seq!['=']);
        }
        let found = crate::text::find_chars(pair.as_slice(), eq.as_slice());
        let mut pk: Vec<char> = Vec::new();
        let mut pv: Vec<char> = Vec::new();
        match found {
            Some(p) => {
                assert(p + 1 <= pair@.len());
                assert(p < pair.len());
                pk = slice_range(pair.as_slice(), 0, p);
                pv = slice_range(pair.as_slice(), p + 1, pair.len());
            },
            None => {
                pk = slice_range(pair.as_slice(), 0, pair.len());
                assert(pk@ =~= pair@);
            },
        }
        assert(pk@ == pair_key(pair@));
        assert(pv@ == pair_value(pair@));
        if chars_eq(pk.as_slice(), k.as_slice()) {
            return Some(string_from_chars(pv.as_slice()));
        }
        i = i + 1;
    }
    None
}

/// What a Pixiv URL points at, judged from its path and query.
pub open spec fn url_target(url: Seq<char>) -> Option<(nat, Seq<char>)> {
    let path = split_by(url, seq!['?'])[0];
    if contains(path, "/novel/show.php"@) {
        match query_of(url, "id"@) {
            Some(id) => Some((0nat, id)),
            None => None,
        }
    } else if contains(path, "/novel/series/"@) {
        match last_numeric(path_segments(path)) {
            Some(id) => Some((1nat, id)),
            None => None,
        }
    } else if contains(path, "/artworks/"@) {
        match last_numeric(path_segments(path)) {
            Some(id) => Some((3nat, id)),
            None => None,
        }
    } else if contains(path, "/user/"@) && contains(path, "/series/"@) {
        match last_numeric(path_segments(path)) {
            Some(id) => Some((4nat, id)),
            None => None,
        }
    } else if id_after_marker(path_segments(path), "users"@, 0) is Some {
        Some((2nat, id_after_marker(path_segments(path), "users"@, 0)->0))
    } else if id_after_marker(path_segments(path), "user"@, 0) is Some {
        Some((2nat, id_after_marker(path_segments(path), "user"@, 0)->0))
    } else {
        None
    }
}

/// Kind number and id of a target: novel 0, series 1, user 2, art 3,
/// comic 4.
pub open spec fn target_view(t: PixivUrlTarget) -> (nat, Seq<char>) {
    match t {
        PixivUrlTarget::Novel(id) => (0nat, id@),
        PixivUrlTarget::Series(id) => (1nat, id@),
        PixivUrlTarget::User(id) => (2nat, id@),
        PixivUrlTarget::Art(id) => (3nat, id@),
        PixivUrlTarget::Comic(id) => (4nat, id@),
    }
}

/// Law: a URL is read as an artwork only when its path holds `/artworks/`
/// and names neither a novel nor a novel series; as a novel series only
/// when its path holds `/novel/series/` (and is no novel page); as a novel
/// only from `/novel/show.php`; as a comic series only when its path holds
/// both `/user/` and `/series/`. A novel-series path whose last numeric
/// segment is `N` is always the novel series `N`, never an artwork.
pub proof fn lemma_url_kinds(url: Seq<char>, t: PixivUrlTarget)
    requires
        url_target(url) == Some(target_view(t)),
    ensures
        ({
            let path = split_by(url, seq!['?'])[0];
            &&& t is Art ==> contains(path, "/artworks/"@) && !contains(path, "/novel/series/"@) && !contains(
                path,
                "/novel/show.php"@,
            )
            &&& t is Series ==> contains(path, "/novel/series/"@) && !contains(path, "/novel/show.php"@)
            &&& t is Novel ==> contains(path, "/novel/show.php"@)
            &&& t is Comic ==> contains(path, "/user/"@) && contains(path, "/series/"@)
            &&& (contains(path, "/novel/series/"@) && !contains(path, "/novel/show.php"@)) ==> (t is Series
                && target_view(t).1 == last_numeric(path_segments(path))->0)
        }),
{
}

pub fn parse_pixiv_url(url: &str) -> (r: Option<PixivUrlTarget>)
    ensures
        match r {
            Some(t) => url_target(url@) == Some(target_view(t)),
            None => url_target(url@) is None,
        },
{
    let c = chars_of(url);
    let parts = split_at_char(c.as_slice(), '?');
    let path_v = &parts[0];
    let path = string_from_chars(path_v.as_slice());
    assert(path@ == split_by(url@, seq!['?'])[0]);
    if contains_str(path_v.as_slice(), "/novel/show.php") {
        return match query_value(url, "id") {
            Some(id) => Some(PixivUrlTarget::Novel(id)),
            None => None,
        };
    }
    if contains_str(path_v.as_slice(), "/novel/series/") {
        return match last_numeric_segment(path.as_str()) {
            Some(id) => Some(PixivUrlTarget::Series(id)),
            None => None,
        };
    }
    if contains_str(path_v.as_slice(), "/artworks/") {
        return match last_numeric_segment(path.as_str()) {
            Some(id) => Some(PixivUrlTarget::Art(id)),
            None => None,
        };
    }
    if contains_str(path_v.as_slice(), "/user/") && contains_str(path_v.as_slice(), "/series/") {
        return match last_numeric_segment(path.as_str()) {
            Some(id) => Some(PixivUrlTarget::Comic(id)),
            None => None,
        };
    }
    if let Some(id) = user_id_from_path(path.as_str(), "users") {
        return Some(PixivUrlTarget::User(id));
    }
    if let Some(id) = user_id_from_path(path.as_str(), "user") {
        return Some(PixivUrlTarget::User(id));
    }
    None
}


// ---------------------------------------------------------------------------
// Tracked-user document keys
// ---------------------------------------------------------------------------

/// `tracked_users/{id}/config`.
pub open spec fn config_key(user_id: Seq<char>) -> Seq<char> {
    "tracked_users/"@ + user_id + "/config"@
}

/// `tracked_users/{id}/illust_ids`.
pub open spec fn snapshot_key(user_id: Seq<char>) -> Seq<char> {
    "tracked_users/"@ + user_id + "/illust_ids"@
}

pub fn tracked_user_config_key(user_id: &str) -> (r: String)
    ensures
        r@ == config_key(user_id@),
{
    let mut out: Vec<char> = Vec::new();
    crate::text::push_str(&mut out, "tracked_users/");
    crate::text::push_str(&mut out, user_id);
    crate::text::push_str(&mut out, "/config");
    string_from_chars(out.as_slice())
}

pub fn tracked_user_snapshot_key(user_id: &str) -> (r: String)
    ensures
        r@ == snapshot_key(user_id@),
{
    let mut out: Vec<char> = Vec::new();
    crate::text::push_str(&mut out, "tracked_users/");
    crate::text::push_str(&mut out, user_id);
    crate::text::push_str(&mut out, "/illust_ids");
    string_from_chars(out.as_slice())
}

/// The user id of a tracked-user config key.
pub open spec fn user_of_config_key(key: Seq<char>) -> Option<Seq<char>> {
    let p = "tracked_users/"@;
    let q = "/config"@;
    if key.len() >= p.len() + q.len() && key.take(p.len() as int) == p && key.skip(key.len() - q.len()) == q {
        Some(key.subrange(p.len() as int, key.len() - q.len()))
    } else {
        None
    }
}

pub fn tracked_user_id_from_config_key(key: &str) -> (r: Option<String>)
    ensures
        match r {
            Some(id) => user_of_config_key(key@) == Some(id@),
            None => user_of_config_key(key@) is None,
        },
{
    let k = chars_of(key);
    let p = chars_of("tracked_users/");
    let q = chars_of("/config");
    if k.len() < p.len() || k.len() - p.len() < q.len() {
        return None;
    }
    if !crate::text::starts_with_str(k.as_slice(), "tracked_users/") || !crate::text::ends_with_str(k.as_slice(), "/config") {
        return None;
    }
    let id = slice_range(k.as_slice(), p.len(), k.len() - q.len());
    Some(string_from_chars(id.as_slice()))
}

/// Law: the id of a config key built for a user is that user's id.
pub proof fn lemma_config_key_round_trip(user_id: Seq<char>)
    ensures
        user_of_config_key(config_key(user_id)) == Some(user_id),
{
    let p = "tracked_users/"@;
    let q = "/config"@;
    let k = config_key(user_id);
    assert(k.take(p.len() as int) =~= p);
    assert(k.skip(k.len() - q.len()) =~= q);
    assert(k.subrange(p.len() as int, k.len() - q.len()) =~= user_id);
}

/// The flag value for an enabled download kind.
pub fn enabled_flag_string() -> (r: String)
    ensures
        r@ == "enable"@,
{
    crate::text::owned("enable")
}

// ---------------------------------------------------------------------------
// Tags
// ---------------------------------------------------------------------------

/// The tags of one raw tag string: pieces between `#`, trimmed, non-empty.
pub open spec fn tag_pieces(t: Seq<char>) -> Seq<Seq<char>> {
    keep_nonempty(split_by(t, seq!['#']).map_values(|p: Seq<char>| crate::text::trim(p)))
}

/// `seen` extended by each of `items` that it does not hold yet.
pub open spec fn add_new(seen: Seq<Seq<char>>, items: Seq<Seq<char>>) -> Seq<Seq<char>>
    decreases items.len(),
{
    if items.len() == 0 {
        seen
    } else {
        let prev = add_new(seen, items.drop_last());
        if prev.contains(items.last()) {
            prev
        } else {
            prev.push(items.last())
        }
    }
}

/// Tags of a work: every raw tag split at `#`, pieces trimmed, empty ones
/// dropped, each kept at its first appearance.
pub open spec fn formatted_tags(tags: Seq<Seq<char>>) -> Seq<Seq<char>>
    decreases tags.len(),
{
    if tags.len() == 0 {
        Seq::empty()
    } else {
        add_new(formatted_tags(tags.drop_last()), tag_pieces(tags.last()))
    }
}

fn push_new_pieces(result: &mut Vec<String>, raw: &str)
    ensures
        strings_view(final(result)@) == add_new(strings_view(old(result)@), tag_pieces(raw@)),
{
    let c = chars_of(raw);
    let parts = split_at_char(c.as_slice(), '#');
    let ghost trimmed = views(parts@).map_values(|p: Seq<char>| crate::text::trim(p));
    let ghost pieces = tag_pieces(raw@);
    let ghost start = strings_view(result@);
    let mut i: usize = 0;
    assert(trimmed.take(0) =~= Seq::<Seq<char>>::empty());
    while i < parts.len()
        invariant
            i <= parts.len(),
            trimmed == views(parts@).map_values(|p: Seq<char>| crate::text::trim(p)),
            views(parts@) == split_by(raw@, seq!['#']),
            strings_view(result@) == add_new(start, keep_nonempty(trimmed.take(i as int))),
        decreases parts.len() - i,
    {
        assert(trimmed.take(i + 1).drop_last() =~= trimmed.take(i as int));
        assert(trimmed[i as int] == crate::text::trim(parts@[i as int]@));
        let tag = crate::text::trim_chars(parts[i].as_slice());
        let ghost k_prev = keep_nonempty(trimmed.take(i as int));
        assert(trimmed.take(i + 1).last() == tag@);
        if tag.len() > 0 {
            assert(keep_nonempty(trimmed.take(i + 1)) == k_prev.push(tag@));
            assert(k_prev.push(tag@).drop_last() =~= k_prev);
        } else {
            assert(keep_nonempty(trimmed.take(i + 1)) == k_prev);
        }
        if tag.len() > 0 {
            let ghost before = strings_view(result@);
            if !contains_string(result, tag.as_slice()) {
                result.push(string_from_chars(tag.as_slice()));
                assert(strings_view(result@) =~= before.push(tag@));
            }
        }
        i = i + 1;
    }
    assert(trimmed.take(parts.len() as int) =~= trimmed);
}

/// Tags split at `#`, trimmed, empty ones dropped, duplicates removed.
pub fn format_tags(tags: Vec<String>) -> (r: Vec<String>)
    ensures
        strings_view(r@) == formatted_tags(strings_view(tags@)),
{
    let mut result: Vec<String> = Vec::new();
    let ghost tv = strings_view(tags@);
    let mut i: usize = 0;
    assert(tv.take(0) =~= Seq::<Seq<char>>::empty());
    while i < tags.len()
        invariant
            i <= tags.len(),
            tv == strings_view(tags@),
            strings_view(result@) == formatted_tags(tv.take(i as int)),
        decreases tags.len() - i,
    {
        assert(tv.take(i + 1).drop_last() =~= tv.take(i as int));
        assert(tv.take(i + 1).last() == tags@[i as int]@);
        push_new_pieces(&mut result, tags[i].as_str());
        i = i + 1;
    }
    assert(tv.take(tags.len() as int) =~= tv);
    result
}

proof fn lemma_add_new(seen: Seq<Seq<char>>, items: Seq<Seq<char>>)
    requires
        crate::rotation::no_repeats(seen),
        crate::rotation::all_non_empty(seen),
        crate::rotation::all_non_empty(items),
    ensures
        crate::rotation::no_repeats(add_new(seen, items)),
        crate::rotation::all_non_empty(add_new(seen, items)),
    decreases items.len(),
{
    if items.len() > 0 {
        lemma_add_new(seen, items.drop_last());
        assert(items.last() == items[items.len() - 1]);
    }
}

proof fn lemma_keep_nonempty(s: Seq<Seq<char>>)
    ensures
        crate::rotation::all_non_empty(keep_nonempty(s)),
    decreases s.len(),
{
    if s.len() > 0 {
        lemma_keep_nonempty(s.drop_last());
    }
}

/// No text holds a `#`.
pub open spec fn hashless(s: Seq<Seq<char>>) -> bool {
    forall|i: int| 0 <= i < s.len() ==> !(#[trigger] s[i]).contains('#')
}

proof fn lemma_split_hashless(t: Seq<char>)
    ensures
        hashless(split_by(t, seq!['#'])),
    decreases t.len(),
{
    if t.len() > 0 {
        lemma_split_hashless(t.drop_last());
        crate::text::lemma_split_by_len(t.drop_last(), seq!['#']);
        let rest = split_by(t.drop_last(), seq!['#']);
        if !seq!['#'].contains(t.last()) {
            assert(t.last() != '#') by {
                if t.last() == '#' {
                    assert(seq!['#'][0] == '#');
                }
            }
            let l = rest.last().push(t.last());
            assert(!l.contains('#')) by {
                if l.contains('#') {
                    let k = choose|k: int| 0 <= k < l.len() && l[k] == '#';
                    if k < rest.last().len() {
                        assert(rest[rest.len() - 1][k] == '#');
                        assert(rest[rest.len() - 1].contains('#'));
                    }
                }
            }
            let u = rest.update(rest.len() - 1, l);
            assert forall|i: int| 0 <= i < u.len() implies !(#[trigger] u[i]).contains('#') by {
                if i < rest.len() - 1 {
                    assert(u[i] == rest[i]);
                }
            }
        } else {
            let u = rest.push(Seq::<char>::empty());
            assert forall|i: int| 0 <= i < u.len() implies !(#[trigger] u[i]).contains('#') by {
                if i < rest.len() {
                    assert(u[i] == rest[i]);
                }
            }
        }
    }
}

proof fn lemma_trim_start_keeps_out(s: Seq<char>, c: char)
    requires
        !s.contains(c),
    ensures
        !crate::text::trim_start(s).contains(c),
    decreases s.len(),
{
    if s.len() > 0 && crate::text::is_ws(s[0]) {
        assert(!s.drop_first().contains(c)) by {
            if s.drop_first().contains(c) {
                let k = choose|k: int| 0 <= k < s.drop_first().len() && s.drop_first()[k] == c;
                assert(s[k + 1] == c);
            }
        }
        lemma_trim_start_keeps_out(s.drop_first(), c);
    }
}

proof fn lemma_trim_end_keeps_out(s: Seq<char>, c: char)
    requires
        !s.contains(c),
    ensures
        !crate::text::trim_end(s).contains(c),
    decreases s.len(),
{
    if s.len() > 0 && crate::text::is_ws(s.last()) {
        assert(!s.drop_last().contains(c)) by {
            if s.drop_last().contains(c) {
                let k = choose|k: int| 0 <= k < s.drop_last().len() && s.drop_last()[k] == c;
                assert(s[k] == c);
            }
        }
        lemma_trim_end_keeps_out(s.drop_last(), c);
    }
}

proof fn lemma_keep_nonempty_hashless(s: Seq<Seq<char>>)
    requires
        hashless(s),
    ensures
        hashless(keep_nonempty(s)),
    decreases s.len(),
{
    if s.len() > 0 {
        assert(hashless(s.drop_last())) by {
            assert forall|i: int| 0 <= i < s.drop_last().len() implies !(#[trigger] s.drop_last()[i]).contains('#') by {
                assert(s.drop_last()[i] == s[i]);
            }
        }
        lemma_keep_nonempty_hashless(s.drop_last());
        let k = keep_nonempty(s.drop_last());
        if s.last().len() > 0 {
            assert forall|i: int| 0 <= i < k.push(s.last()).len() implies !(#[trigger] k.push(s.last())[i]).contains('#') by {
                if i < k.len() {
                    assert(k.push(s.last())[i] == k[i]);
                } else {
                    assert(s[s.len() - 1] == s.last());
                }
            }
        }
    }
}

proof fn lemma_tag_pieces_hashless(t: Seq<char>)
    ensures
        hashless(tag_pieces(t)),
{
    lemma_split_hashless(t);
    let parts = split_by(t, seq!['#']);
    let trimmed = parts.map_values(|p: Seq<char>| crate::text::trim(p));
    assert forall|i: int| 0 <= i < trimmed.len() implies !(#[trigger] trimmed[i]).contains('#') by {
        assert(!parts[i].contains('#'));
        lemma_trim_start_keeps_out(parts[i], '#');
        lemma_trim_end_keeps_out(crate::text::trim_start(parts[i]), '#');
    }
    lemma_keep_nonempty_hashless(trimmed);
}

/// Law: no formatted tag holds a `#`.
pub proof fn lemma_formatted_tags_hashless(tags: Seq<Seq<char>>)
    ensures
        hashless(formatted_tags(tags)),
    decreases tags.len(),
{
    if tags.len() > 0 {
        let prev = formatted_tags(tags.drop_last());
        lemma_formatted_tags_hashless(tags.drop_last());
        lemma_formatted_tags(tags.drop_last());
        lemma_tag_pieces_hashless(tags.last());
        let items = tag_pieces(tags.last());
        lemma_add_new_items(prev, items);
        let r = add_new(prev, items);
        assert forall|i: int| 0 <= i < r.len() implies !(#[trigger] r[i]).contains('#') by {
            assert(r.contains(r[i]));
            if prev.contains(r[i]) {
                let k = choose|k: int| 0 <= k < prev.len() && prev[k] == r[i];
            } else {
                let k = choose|k: int| 0 <= k < items.len() && items[k] == r[i];
            }
        }
    }
}

/// Law: formatted tags are non-empty and never repeat.
pub proof fn lemma_formatted_tags(tags: Seq<Seq<char>>)
    ensures
        crate::rotation::no_repeats(formatted_tags(tags)),
        crate::rotation::all_non_empty(formatted_tags(tags)),
    decreases tags.len(),
{
    if tags.len() > 0 {
        lemma_formatted_tags(tags.drop_last());
        lemma_keep_nonempty(split_by(tags.last(), seq!['#']).map_values(|p: Seq<char>| crate::text::trim(p)));
        lemma_add_new(formatted_tags(tags.drop_last()), tag_pieces(tags.last()));
    }
}

/// `tags` with later repeats removed (`dedup_tags`).
pub open spec fn dedup(tags: Seq<Seq<char>>) -> Seq<Seq<char>> {
    add_new(Seq::empty(), tags)
}

proof fn lemma_add_new_items(seen: Seq<Seq<char>>, items: Seq<Seq<char>>)
    requires
        crate::rotation::no_repeats(seen),
    ensures
        crate::rotation::no_repeats(add_new(seen, items)),
        forall|x: Seq<char>| #[trigger] add_new(seen, items).contains(x) <==> (seen.contains(x) || items.contains(x)),
    decreases items.len(),
{
    if items.len() > 0 {
        let prev = items.drop_last();
        lemma_add_new_items(seen, prev);
        let p = add_new(seen, prev);
        assert forall|x: Seq<char>| #[trigger] add_new(seen, items).contains(x) <==> (seen.contains(x) || items.contains(x)) by {
            if prev.contains(x) {
                let k = choose|k: int| 0 <= k < prev.len() && prev[k] == x;
                assert(items[k] == x);
            }
            if items.contains(x) {
                let k = choose|k: int| 0 <= k < items.len() && items[k] == x;
                if k < items.len() - 1 {
                    assert(prev[k] == x);
                }
            }
            if !p.contains(items.last()) {
                if p.push(items.last()).contains(x) {
                    let k = choose|k: int| 0 <= k < p.push(items.last()).len() && p.push(items.last())[k] == x;
                    if k < p.len() {
                        assert(p[k] == x);
                    }
                }
                if p.contains(x) {
                    let k = choose|k: int| 0 <= k < p.len() && p[k] == x;
                    assert(p.push(items.last())[k] == x);
                }
                assert(p.push(items.last())[p.len() as int] == items.last());
            }
        }
        if !p.contains(items.last()) {
            let q = p.push(items.last());
            assert forall|i: int, j: int| 0 <= i < j < q.len() implies q[i] != q[j] by {
                if j == p.len() {
                    assert(q[i] == p[i]);
                }
            }
        }
    }
}

proof fn lemma_add_new_distinct(s: Seq<Seq<char>>)
    requires
        crate::rotation::no_repeats(s),
    ensures
        add_new(Seq::empty(), s) == s,
    decreases s.len(),
{
    if s.len() > 0 {
        let prev = s.drop_last();
        assert(crate::rotation::no_repeats(prev)) by {
            assert forall|i: int, j: int| 0 <= i < j < prev.len() implies prev[i] != prev[j] by {
                assert(prev[i] == s[i] && prev[j] == s[j]);
            }
        }
        lemma_add_new_distinct(prev);
        assert(!prev.contains(s.last())) by {
            if prev.contains(s.last()) {
                let k = choose|k: int| 0 <= k < prev.len() && prev[k] == s.last();
                assert(s[k] == s[s.len() - 1]);
            }
        }
        assert(prev.push(s.last()) =~= s);
    }
}

/// Law: removing repeated tags leaves every tag once, keeps exactly the tags
/// there were, and removing repeats again changes nothing.
pub proof fn lemma_dedup_tags(tags: Seq<Seq<char>>)
    ensures
        crate::rotation::no_repeats(dedup(tags)),
        forall|x: Seq<char>| #[trigger] dedup(tags).contains(x) <==> tags.contains(x),
        dedup(dedup(tags)) == dedup(tags),
{
    lemma_add_new_items(Seq::empty(), tags);
    lemma_add_new_distinct(dedup(tags));
}

/// Keeps the first occurrence of every tag.
pub fn dedup_tags(tags: &mut Vec<String>)
    ensures
        strings_view(final(tags)@) == dedup(strings_view(old(tags)@)),
{
    let ghost tv = strings_view(tags@);
    let mut result: Vec<String> = Vec::new();
    let mut i: usize = 0;
    assert(tv.take(0) =~= Seq::<Seq<char>>::empty());
    assert(strings_view(result@) =~= Seq::<Seq<char>>::empty());
    while i < tags.len()
        invariant
            i <= tags.len(),
            tv == strings_view(tags@),
            strings_view(result@) == add_new(Seq::empty(), tv.take(i as int)),
        decreases tags.len() - i,
    {
        assert(tv.take(i + 1).drop_last() =~= tv.take(i as int));
        assert(tv.take(i + 1).last() == tags@[i as int]@);
        let c = chars_of(tags[i].as_str());
        if !contains_string(&result, c.as_slice()) {
            let ghost before = strings_view(result@);
            result.push(tags[i].clone());
            assert(strings_view(result@) =~= before.push(tags@[i as int]@));
        }
        i = i + 1;
    }
    assert(tv.take(tags.len() as int) =~= tv);
    *tags = result;
}

/// Adds the `AI生成` tag for AI-generated works (AI type 2) when missing.
pub fn add_ai_tag_if_needed(ai_type: Option<i64>, tags: &mut Vec<String>)
    ensures
        strings_view(final(tags)@) == if ai_type == Some(2i64) && !strings_view(old(tags)@).contains("AI生成"@) {
            strings_view(old(tags)@).push("AI生成"@)
        } else {
            strings_view(old(tags)@)
        },
{
    let label = chars_of("AI生成");
    if ai_type == Some(2i64) && !contains_string(tags, label.as_slice()) {
        let ghost before = strings_view(tags@);
        tags.push(crate::text::owned("AI生成"));
        assert(strings_view(tags@) =~= before.push("AI生成"@));
    }
}

// ---------------------------------------------------------------------------
// Text helpers
// ---------------------------------------------------------------------------

/// `<br />`, `<br/>` and `<br>` turned into newlines, in that order.
pub open spec fn breaks_to_newlines(s: Seq<char>) -> Seq<char> {
    crate::text::replace_all(
        crate::text::replace_all(crate::text::replace_all(s, "<br />"@, "\n"@), "<br/>"@, "\n"@),
        "<br>"@,
        "\n"@,
    )
}

pub fn html_breaks_to_newlines(value: &str) -> (r: String)
    ensures
        r@ == breaks_to_newlines(value@),
{
    proof {
        reveal_strlit("<br />");
        reveal_strlit("<br/>");
        reveal_strlit("<br>");
    }
    let c = chars_of(value);
    let a = crate::text::replace_str(c.as_slice(), "<br />", "\n");
    let b = crate::text::replace_str(a.as_slice(), "<br/>", "\n");
    let d = crate::text::replace_str(b.as_slice(), "<br>", "\n");
    string_from_chars(d.as_slice())
}

/// Whether an error message says that Pixiv refused the login.
pub open spec fn auth_failure_text(message: Seq<char>) -> bool {
    let m = crate::text::lower(message);
    ||| contains(m, "pixiv authentication failed"@)
    ||| contains(m, "redirected to login"@)
    ||| contains(m, "http 401"@)
    ||| contains(m, "http 403"@)
}

pub fn is_authentication_failure_text(message: &str) -> (r: bool)
    ensures
        r == auth_failure_text(message@),
{
    let c = chars_of(message);
    let m = crate::text::lower_chars(c.as_slice());
    contains_str(m.as_slice(), "pixiv authentication failed") || contains_str(m.as_slice(), "redirected to login")
        || contains_str(m.as_slice(), "http 401") || contains_str(m.as_slice(), "http 403")
}


// ---------------------------------------------------------------------------
// Percent decoding
// ---------------------------------------------------------------------------

pub open spec fn is_hex_byte(b: u8) -> bool {
    (48 <= b <= 57) || (97 <= b <= 102) || (65 <= b <= 70)
}

pub open spec fn hex_byte_value(b: u8) -> nat {
    if 48 <= b <= 57 {
        (b - 48) as nat
    } else if 97 <= b <= 102 {
        (b - 87) as nat
    } else {
        (b - 55) as nat
    }
}

/// What `u8::from_str_radix` gives for the two bytes after a `%`: two hex
/// digits, or `+` and one hex digit.
pub open spec fn escape_value(b1: u8, b2: u8) -> Option<nat> {
    if is_hex_byte(b1) && is_hex_byte(b2) {
        Some(hex_byte_value(b1) * 16 + hex_byte_value(b2))
    } else if b1 == 43 && is_hex_byte(b2) {
        Some(hex_byte_value(b2))
    } else {
        None
    }
}

/// `%XY` escapes replaced by the byte they denote; everything else kept.
pub open spec fn percent_decode(b: Seq<u8>) -> Seq<u8>
    decreases b.len(),
{
    if b.len() == 0 {
        b
    } else if b[0] == 37 && b.len() > 2 && escape_value(b[1], b[2]) is Some {
        seq![escape_value(b[1], b[2])->0 as u8] + percent_decode(b.skip(3))
    } else {
        seq![b[0]] + percent_decode(b.drop_first())
    }
}

fn hex_byte(b: u8) -> (r: Option<u8>)
    ensures
        match r {
            Some(v) => is_hex_byte(b) && v as nat == hex_byte_value(b),
            None => !is_hex_byte(b),
        },
{
    if 48 <= b && b <= 57 {
        Some(b - 48)
    } else if 97 <= b && b <= 102 {
        Some(b - 87)
    } else if 65 <= b && b <= 70 {
        Some(b - 55)
    } else {
        None
    }
}

fn escape_byte(b1: u8, b2: u8) -> (r: Option<u8>)
    ensures
        match r {
            Some(v) => escape_value(b1, b2) == Some(v as nat),
            None => escape_value(b1, b2) is None,
        },
{
    match (hex_byte(b1), hex_byte(b2)) {
        (Some(h), Some(l)) => Some(h * 16 + l),
        (None, Some(l)) => if b1 == 43 {
            Some(l)
        } else {
            None
        },
        _ => None,
    }
}

/// The text `String::from_utf8_lossy` makes of bytes: a function of the
/// bytes alone.
pub uninterp spec fn utf8_lossy(bytes: Seq<u8>) -> Seq<char>;

/// `String::from_utf8_lossy`: the text of the bytes, each invalid sequence
/// replaced by U+FFFD; bytes that are valid UTF-8 decode as they are.
#[verifier::external_body]
fn string_from_utf8_lossy(bytes: &[u8]) -> (r: String)
    ensures
        r@ == utf8_lossy(bytes@),
        vstd::utf8::valid_utf8(bytes@) ==> r@ == vstd::utf8::decode_utf8(bytes@),
{
    String::from_utf8_lossy(bytes).into_owned()
}

/// Decodes `%XY` escapes of the UTF-8 bytes of `s`.
pub fn url_decode(s: &str) -> (r: String)
    ensures
        r@ == decoded_query(s@),
        vstd::utf8::valid_utf8(percent_decode(vstd::utf8::encode_utf8(s@))) ==> r@ == vstd::utf8::decode_utf8(
            percent_decode(vstd::utf8::encode_utf8(s@)),
        ),
{
    let bytes = s.as_bytes();
    let mut decoded: Vec<u8> = Vec::new();
    let mut idx: usize = 0;
    assert(bytes@.skip(0) =~= bytes@);
    while idx < bytes.len()
        invariant
            idx <= bytes.len(),
            bytes@ == vstd::utf8::encode_utf8(s@),
            decoded@ + percent_decode(bytes@.skip(idx as int)) == percent_decode(bytes@),
        decreases bytes.len() - idx,
    {
        let ghost rest = bytes@.skip(idx as int);
        if bytes[idx] == 37 && bytes.len() - idx > 2 {
            if let Some(v) = escape_byte(bytes[idx + 1], bytes[idx + 2]) {
                assert(rest.skip(3) =~= bytes@.skip(idx + 3));
                decoded.push(v);
                idx = idx + 3;
                assert(decoded@ + percent_decode(bytes@.skip(idx as int)) =~= percent_decode(bytes@));
                continue;
            }
        }
        assert(rest.drop_first() =~= bytes@.skip(idx + 1));
        decoded.push(bytes[idx]);
        idx = idx + 1;
        assert(decoded@ + percent_decode(bytes@.skip(idx as int)) =~= percent_decode(bytes@));
    }
    assert(bytes@.skip(bytes.len() as int) =~= Seq::<u8>::empty());
    assert(decoded@ + Seq::<u8>::empty() =~= decoded@);
    string_from_utf8_lossy(decoded.as_slice())
}

proof fn lemma_percent_decode_plain(b: Seq<u8>)
    requires
        !b.contains(37u8),
    ensures
        percent_decode(b) == b,
    decreases b.len(),
{
    if b.len() > 0 {
        assert(b[0] != 37u8);
        assert(!b.drop_first().contains(37u8)) by {
            if b.drop_first().contains(37u8) {
                let k = choose|k: int| 0 <= k < b.drop_first().len() && b.drop_first()[k] == 37u8;
                assert(b[k + 1] == 37u8);
            }
        }
        lemma_percent_decode_plain(b.drop_first());
        assert(seq![b[0]] + b.drop_first() =~= b);
    }
}

/// Law: text without percent escapes is unchanged by decoding.
pub proof fn lemma_url_decode_plain(s: Seq<char>)
    requires
        !vstd::utf8::encode_utf8(s).contains(37u8),
    ensures
        percent_decode(vstd::utf8::encode_utf8(s)) == vstd::utf8::encode_utf8(s),
        vstd::utf8::valid_utf8(percent_decode(vstd::utf8::encode_utf8(s))),
        vstd::utf8::decode_utf8(percent_decode(vstd::utf8::encode_utf8(s))) == s,
{
    lemma_percent_decode_plain(vstd::utf8::encode_utf8(s));
    vstd::utf8::encode_utf8_valid_utf8(s);
    vstd::utf8::encode_utf8_decode_utf8(s);
}

// ---------------------------------------------------------------------------
// File extension of an image URL
// ---------------------------------------------------------------------------

/// The part of a URL before its first `?`.
pub open spec fn url_path_part(url: Seq<char>) -> Seq<char> {
    split_by(url, seq!['?'])[0]
}

/// The extension of a URL's file, with its dot, else `.jpg`.
pub open spec fn url_extension(url: Seq<char>) -> Seq<char> {
    let p = url_path_part(url);
    match crate::work_key::name_extension(crate::work_key::last_component(p)) {
        Some(e) => seq!['.'] + e,
        None => ".jpg"@,
    }
}

/// The file extension of an image URL, with its dot, taken from the path
/// before any query; `.jpg` where the file has none. The extension is what
/// `Path::extension` gives, which for a path whose last part is not a plain
/// name depends on the platform.
pub fn url_ext(url: &str) -> (r: String)
    ensures
        r@.len() > 0 && r@[0] == '.',
        crate::work_key::plain_path(url_path_part(url@)) ==> r@ == url_extension(url@),
{
    proof {
        reveal_strlit(".jpg");
        lemma_split_by_len(url@, seq!['?']);
    }
    let c = chars_of(url);
    let parts = split_at_char(c.as_slice(), '?');
    let path = string_from_chars(parts[0].as_slice());
    match crate::work_key::path_extension(path.as_str()) {
        Some(e) => {
            let mut out: Vec<char> = Vec::new();
            out.push('.');
            crate::text::push_str(&mut out, e.as_str());
            string_from_chars(out.as_slice())
        },
        None => crate::text::owned(".jpg"),
    }
}

// ---------------------------------------------------------------------------
// Images named in a text
// ---------------------------------------------------------------------------

/// The names of the `[image](name)` marks of a text, trimmed, in order;
/// blank names are skipped and an unclosed mark ends the search.
pub open spec fn image_names(s: Seq<char>) -> Seq<Seq<char>>
    decreases s.len(),
{
    match find(s, "[image]("@) {
        None => Seq::empty(),
        Some(st) => {
            let rest = s.skip(st + 8);
            match find(rest, ")"@) {
                None => Seq::empty(),
                Some(e) => {
                    proof {
                        crate::text::lemma_find(s, "[image]("@);
                        crate::text::lemma_find(rest, ")"@);
                        reveal_strlit("[image](");
                        reveal_strlit(")");
                    }
                    if 0 <= st && st + 8 <= s.len() && 0 <= e < rest.len() {
                        let name = crate::text::trim(rest.take(e));
                        let more = image_names(rest.skip(e + 1));
                        if name.len() > 0 {
                            seq![name] + more
                        } else {
                            more
                        }
                    } else {
                        Seq::empty()
                    }
                },
            }
        },
    }
}

pub fn extract_markup_image_names(text: &str) -> (r: Vec<String>)
    ensures
        strings_view(r@) == image_names(text@),
{
    proof {
        reveal_strlit("[image](");
        reveal_strlit(")");
    }
    let v = chars_of(text);
    let open_mark = chars_of("[image](");
    let close_mark = chars_of(")");
    let mut names: Vec<String> = Vec::new();
    let mut pos: usize = 0;
    assert(v@.skip(0) =~= v@);
    assert(strings_view(names@) + image_names(v@.skip(0)) =~= image_names(v@));
    while pos <= v.len()
        invariant
            pos <= v.len(),
            v@ == text@,
            open_mark@ == "[image]("@,
            close_mark@ == ")"@,
            open_mark@.len() == 8,
            close_mark@.len() == 1,
            strings_view(names@) + image_names(v@.skip(pos as int)) == image_names(v@),
        decreases v.len() - pos,
    {
        let ghost s = v@.skip(pos as int);
        proof {
            crate::text::lemma_find(s, "[image]("@);
        }
        let start = match crate::text::find_in_suffix(v.as_slice(), open_mark.as_slice(), pos) {
            Some(k) => k,
            None => {
                assert(image_names(s) =~= Seq::<Seq<char>>::empty());
                assert(strings_view(names@) + Seq::<Seq<char>>::empty() =~= strings_view(names@));
                return names;
            },
        };
        let after = start + 8;
        let ghost rest = s.skip(start - pos + 8);
        assert(rest =~= v@.skip(after as int));
        proof {
            crate::text::lemma_find(rest, ")"@);
        }
        let end = match crate::text::find_in_suffix(v.as_slice(), close_mark.as_slice(), after) {
            Some(k) => k,
            None => {
                assert(image_names(s) =~= Seq::<Seq<char>>::empty());
                assert(strings_view(names@) + Seq::<Seq<char>>::empty() =~= strings_view(names@));
                return names;
            },
        };
        let e = end - after;
        let raw = crate::text::slice_range(v.as_slice(), after, end);
        assert(raw@ =~= rest.take(e as int));
        let name = crate::text::trim_chars(raw.as_slice());
        let ghost more = image_names(rest.skip(e + 1));
        assert(rest.skip(e + 1) =~= v@.skip(end + 1));
        let ghost before = strings_view(names@);
        if name.len() > 0 {
            names.push(string_from_chars(name.as_slice()));
            assert(strings_view(names@) =~= before.push(name@));
            assert(before + (seq![name@] + more) =~= before.push(name@) + more);
        }
        pos = end + 1;
    }
    names
}

// ---------------------------------------------------------------------------
// Rewriting the marks of a Pixiv text
// ---------------------------------------------------------------------------

/// The marks of a Pixiv text that are rewritten.
#[derive(Debug, Clone, Copy, PartialEq, Eq, Structural)]
pub enum TextMark {
    Ruby,
    Chapter,
    JumpUri,
    JumpUrl,
    BareImage,
}

/// The pattern that finds a mark.
pub open spec fn mark_pattern(mark: TextMark) -> Seq<char> {
    match mark {
        TextMark::Ruby => "\\[\\[rb:(.*?)\\s*>\\s*(.*?)\\]\\]"@,
        TextMark::Chapter => "(?s)(.*?)(\\[chapter:(.*?)\\])"@,
        TextMark::JumpUri => "(?s)\\[\\[jumpuri:(.*?) > (.*?)\\]\\]"@,
        TextMark::JumpUrl => "\"/jump\\.php\\?([^\"]+)\""@,
        TextMark::BareImage => "\\[pixivimage:(\\d+)\\]"@,
    }
}

/// The text of group `i` (counted from 0 after the whole match), empty
/// where it took no part.
pub open spec fn group_text(gs: Seq<Option<Seq<char>>>, i: int) -> Seq<char> {
    if 0 <= i < gs.len() {
        match gs[i] {
            Some(t) => t,
            None => Seq::empty(),
        }
    } else {
        Seq::empty()
    }
}

/// The characters of `s` other than `c`.
pub open spec fn without_char(s: Seq<char>, c: char) -> Seq<char>
    decreases s.len(),
{
    if s.len() == 0 {
        s
    } else if s.last() == c {
        without_char(s.drop_last(), c)
    } else {
        without_char(s.drop_last(), c).push(s.last())
    }
}

/// A `/http…` link target without its leading slash.
pub open spec fn jump_target(url: Seq<char>) -> Seq<char> {
    if crate::text::has_prefix(url, "/http://"@) || crate::text::has_prefix(url, "/https://"@) {
        url.drop_first()
    } else {
        url
    }
}

/// The text of a `%XY`-escaped query once decoded, invalid UTF-8 replaced.
pub open spec fn decoded_query(q: Seq<char>) -> Seq<char> {
    utf8_lossy(percent_decode(vstd::utf8::encode_utf8(q)))
}

/// What a mark is replaced with, given its groups.
pub open spec fn mark_replacement(mark: TextMark, gs: Seq<Option<Seq<char>>>) -> Seq<char> {
    match mark {
        TextMark::Ruby => "[ruby:<"@ + group_text(gs, 0) + ">("@ + group_text(gs, 1) + ")]"@,
        TextMark::Chapter => {
            let before = group_text(gs, 0);
            let content = without_char(group_text(gs, 2), '\n');
            if before.len() > 0 && before.last() != '\n' {
                before + "\n"@ + content + "\n\n\n"@
            } else {
                before + content + "\n\n\n"@
            }
        },
        TextMark::JumpUri => "<a href=\""@ + jump_target(group_text(gs, 1)) + "\">"@ + group_text(gs, 0) + "</a>"@,
        TextMark::JumpUrl => "\""@ + decoded_query(group_text(gs, 0)) + "\""@,
        TextMark::BareImage => "[pixivimage:"@ + group_text(gs, 0) + "-1]"@,
    }
}

/// The text with each match replaced.
pub open spec fn replaced(mark: TextMark, pieces: Seq<RegexPieceView>, tail: Seq<char>) -> Seq<char>
    decreases pieces.len(),
{
    if pieces.len() == 0 {
        tail
    } else {
        pieces[0].0 + mark_replacement(mark, pieces[0].2) + replaced(mark, pieces.drop_first(), tail)
    }
}

/// A text with the marks rewritten; unchanged where the pattern does not
/// compile.
pub open spec fn rewritten(mark: TextMark, text: Seq<char>) -> Seq<char> {
    match regex_pieces(mark_pattern(mark), text) {
        Some((ps, tail)) => replaced(mark, ps, tail),
        None => text,
    }
}

fn group_chars(groups: &Vec<Option<String>>, i: usize) -> (r: Vec<char>)
    ensures
        r@ == group_text(groups@.map_values(|g: Option<String>| opt_string_view(g)), i as int),
{
    if i < groups.len() {
        match &groups[i] {
            Some(t) => chars_of(t.as_str()),
            None => Vec::new(),
        }
    } else {
        Vec::new()
    }
}

fn push_replacement(out: &mut Vec<char>, mark: TextMark, groups: &Vec<Option<String>>)
    ensures
        final(out)@ == old(out)@ + mark_replacement(mark, groups@.map_values(|g: Option<String>| opt_string_view(g))),
{
    let ghost gs = groups@.map_values(|g: Option<String>| opt_string_view(g));
    let ghost start = out@;
    proof {
        reveal_strlit("[ruby:<");
        reveal_strlit(">(");
        reveal_strlit(")]");
        reveal_strlit("\n");
        reveal_strlit("\n\n\n");
        reveal_strlit("<a href=\"");
        reveal_strlit("\">");
        reveal_strlit("</a>");
        reveal_strlit("\"");
        reveal_strlit("/http://");
        reveal_strlit("/https://");
        reveal_strlit("[pixivimage:");
        reveal_strlit("-1]");
    }
    match mark {
        TextMark::Ruby => {
            crate::text::push_str(out, "[ruby:<");
            push_all(out, group_chars(groups, 0).as_slice());
            crate::text::push_str(out, ">(");
            push_all(out, group_chars(groups, 1).as_slice());
            crate::text::push_str(out, ")]");
            assert(out@ =~= start + mark_replacement(mark, gs));
        },
        TextMark::Chapter => {
            let before = group_chars(groups, 0);
            let raw = group_chars(groups, 2);
            let mut content: Vec<char> = Vec::new();
            let mut k: usize = 0;
            while k < raw.len()
                invariant
                    k <= raw.len(),
                    content@ == without_char(raw@.take(k as int), '\n'),
                decreases raw.len() - k,
            {
                assert(raw@.take(k + 1).drop_last() =~= raw@.take(k as int));
                if raw[k] != '\n' {
                    content.push(raw[k]);
                }
                k = k + 1;
            }
            assert(raw@.take(k as int) =~= raw@);
            push_all(out, before.as_slice());
            if before.len() > 0 && before[before.len() - 1] != '\n' {
                crate::text::push_str(out, "\n");
            }
            push_all(out, content.as_slice());
            crate::text::push_str(out, "\n\n\n");
            assert(out@ =~= start + mark_replacement(mark, gs));
        },
        TextMark::JumpUri => {
            let txt = group_chars(groups, 0);
            let url = group_chars(groups, 1);
            crate::text::push_str(out, "<a href=\"");
            if crate::text::starts_with_str(url.as_slice(), "/http://") || crate::text::starts_with_str(
                url.as_slice(),
                "/https://",
            ) {
                let tail = slice_range(url.as_slice(), 1, url.len());
                assert(tail@ =~= url@.drop_first());
                push_all(out, tail.as_slice());
            } else {
                push_all(out, url.as_slice());
            }
            crate::text::push_str(out, "\">");
            push_all(out, txt.as_slice());
            crate::text::push_str(out, "</a>");
            assert(out@ =~= start + mark_replacement(mark, gs));
        },
        TextMark::JumpUrl => {
            let q = group_chars(groups, 0);
            let qs = string_from_chars(q.as_slice());
            let decoded = url_decode(qs.as_str());
            crate::text::push_str(out, "\"");
            crate::text::push_str(out, decoded.as_str());
            crate::text::push_str(out, "\"");
            assert(out@ =~= start + mark_replacement(mark, gs));
        },
        TextMark::BareImage => {
            crate::text::push_str(out, "[pixivimage:");
            push_all(out, group_chars(groups, 0).as_slice());
            crate::text::push_str(out, "-1]");
            assert(out@ =~= start + mark_replacement(mark, gs));
        },
    }
}

/// Each match of a mark's pattern in `text` replaced as the mark says.
fn rewrite_marks(text: &str, mark: TextMark) -> (r: String)
    ensures
        r@ == rewritten(mark, text@),
{
    let pattern = match mark {
        TextMark::Ruby => "\\[\\[rb:(.*?)\\s*>\\s*(.*?)\\]\\]",
        TextMark::Chapter => "(?s)(.*?)(\\[chapter:(.*?)\\])",
        TextMark::JumpUri => "(?s)\\[\\[jumpuri:(.*?) > (.*?)\\]\\]",
        TextMark::JumpUrl => "\"/jump\\.php\\?([^\"]+)\"",
        TextMark::BareImage => "\\[pixivimage:(\\d+)\\]",
    };
    assert(pattern@ == mark_pattern(mark));
    match regex_split(pattern, text) {
        Some((pieces, tail)) => {
            let ghost pv = pieces_view(pieces@);
            let mut out: Vec<char> = Vec::new();
            let mut i: usize = 0;
            assert(pv.skip(0) =~= pv);
            assert(out@ =~= Seq::<char>::empty());
            while i < pieces.len()
                invariant
                    i <= pieces.len(),
                    pv == pieces_view(pieces@),
                    out@ + replaced(mark, pv.skip(i as int), tail@) == replaced(mark, pv, tail@),
                decreases pieces.len() - i,
            {
                let ghost before = out@;
                assert(pv.skip(i as int)[0] == pieces@[i as int].view());
                assert(pv.skip(i as int).drop_first() =~= pv.skip(i + 1));
                crate::text::push_str(&mut out, pieces[i].before.as_str());
                push_replacement(&mut out, mark, &pieces[i].groups);
                assert(out@ =~= before + pv[i as int].0 + mark_replacement(mark, pv[i as int].2));
                i = i + 1;
            }
            assert(pv.skip(i as int) =~= Seq::<RegexPieceView>::empty());
            crate::text::push_str(&mut out, tail.as_str());
            string_from_chars(out.as_slice())
        },
        None => crate::text::owned(text),
    }
}

/// `[[rb:base > reading]]` marks as `[ruby:<base>(reading)]`.
pub fn format_ruby(text: &str) -> (r: String)
    ensures
        r@ == rewritten(TextMark::Ruby, text@),
{
    rewrite_marks(text, TextMark::Ruby)
}

/// `[chapter:title]` marks as the title on a line of its own, followed by
/// blank lines.
pub fn remove_chapter_tag(text: &str) -> (r: String)
    ensures
        r@ == rewritten(TextMark::Chapter, text@),
{
    rewrite_marks(text, TextMark::Chapter)
}

/// `[[jumpuri:text > url]]` marks as links.
pub fn format_jumpuri(text: &str) -> (r: String)
    ensures
        r@ == rewritten(TextMark::JumpUri, text@),
{
    rewrite_marks(text, TextMark::JumpUri)
}

/// `"/jump.php?url"` link targets as the decoded URL.
pub fn format_jump_url(text: &str) -> (r: String)
    ensures
        r@ == rewritten(TextMark::JumpUrl, text@),
{
    rewrite_marks(text, TextMark::JumpUrl)
}

// ---------------------------------------------------------------------------
// The stored record of a Pixiv work
// ---------------------------------------------------------------------------

/// `chrono::Utc::now().to_rfc3339()`: the current time; what it returns
/// depends on the clock, so nothing is stated of it.
#[verifier::external_body]
pub fn now_string() -> String {
    chrono::Utc::now().to_rfc3339()
}

/// The record of a Pixiv work fetched at `get_date`.
pub fn build_work_at(fields: crate::json::WorkFields, episodes: &Vec<(String, crate::json::JsonValue)>, get_date: &str) -> (r: WorkRecord)
    ensures
        r.site@ == "pixiv"@,
        r.work_key@ == fields.work_key@,
        r.title@ == fields.title@,
        r.author@ == fields.author@,
        opt_string_view(r.author_id) == opt_string_view(fields.author_id),
        opt_string_view(r.author_url) == opt_string_view(fields.author_url),
        r.work_type@ == fields.kind@,
        r.serialization@ == fields.serialization@,
        r.caption@ == fields.caption@,
        r.create_date@ == fields.create_date@,
        r.update_date@ == fields.update_date@,
        r.raw_json.view() == crate::json::work_document(fields.view(), crate::json::entries_view(episodes@), get_date@),
{
    let raw_json = crate::json::work_document_json(&fields, episodes, get_date);
    let author_id = match &fields.author_id {
        Some(a) => Some(crate::text::owned(a.as_str())),
        None => None,
    };
    let author_url = match &fields.author_url {
        Some(a) => Some(crate::text::owned(a.as_str())),
        None => None,
    };
    WorkRecord {
        site: crate::text::owned("pixiv"),
        work_key: crate::text::owned(fields.work_key.as_str()),
        title: crate::text::owned(fields.title.as_str()),
        author: crate::text::owned(fields.author.as_str()),
        author_id,
        author_url,
        work_type: crate::text::owned(fields.kind.as_str()),
        serialization: crate::text::owned(fields.serialization.as_str()),
        caption: crate::text::owned(fields.caption.as_str()),
        create_date: crate::text::owned(fields.create_date.as_str()),
        update_date: crate::text::owned(fields.update_date.as_str()),
        raw_json,
    }
}

/// The record of a Pixiv work fetched now.
pub fn build_work(
    work_key: &str,
    id: &str,
    title: &str,
    author: &str,
    author_id: Option<String>,
    author_url: Option<String>,
    caption: &str,
    kind: &str,
    serialization: &str,
    tags: &[String],
    all_tags: &[String],
    create_date: &str,
    update_date: &str,
    total_characters: i64,
    all_characters: i64,
    total_episodes: i64,
    all_episodes: i64,
    episodes: &Vec<(String, crate::json::JsonValue)>,
    url: &str,
) -> (r: WorkRecord)
    ensures
        r.site@ == "pixiv"@,
        r.work_key@ == work_key@,
        r.title@ == title@,
        r.author@ == author@,
        opt_string_view(r.author_id) == opt_string_view(author_id),
        opt_string_view(r.author_url) == opt_string_view(author_url),
        r.work_type@ == kind@,
        r.serialization@ == serialization@,
        r.caption@ == caption@,
        r.create_date@ == create_date@,
        r.update_date@ == update_date@,
        exists|d: Seq<char>| r.raw_json.view() == #[trigger] crate::json::work_document(
            (crate::json::WorkFieldsView {
                work_key: work_key@,
                id: id@,
                title: title@,
                author: author@,
                author_id: opt_string_view(author_id),
                author_url: opt_string_view(author_url),
                caption: caption@,
                kind: kind@,
                serialization: serialization@,
                tags: strings_view(tags@),
                all_tags: strings_view(all_tags@),
                create_date: create_date@,
                update_date: update_date@,
                total_characters,
                all_characters,
                total_episodes,
                all_episodes,
                url: url@,
            }),
            crate::json::entries_view(episodes@),
            d,
        ),
{
    let fields = crate::json::WorkFields {
        work_key: crate::text::owned(work_key),
        id: crate::text::owned(id),
        title: crate::text::owned(title),
        author: crate::text::owned(author),
        author_id,
        author_url,
        caption: crate::text::owned(caption),
        kind: crate::text::owned(kind),
        serialization: crate::text::owned(serialization),
        tags: copy_strings(tags),
        all_tags: copy_strings(all_tags),
        create_date: crate::text::owned(create_date),
        update_date: crate::text::owned(update_date),
        total_characters,
        all_characters,
        total_episodes,
        all_episodes,
        url: crate::text::owned(url),
    };
    let now = now_string();
    build_work_at(fields, episodes, now.as_str())
}

fn copy_strings(v: &[String]) -> (r: Vec<String>)
    ensures
        strings_view(r@) == strings_view(v@),
{
    let mut out: Vec<String> = Vec::new();
    let mut i: usize = 0;
    while i < v.len()
        invariant
            i <= v.len(),
            strings_view(out@) == strings_view(v@).take(i as int),
        decreases v.len() - i,
    {
        let ghost before = strings_view(out@);
        out.push(crate::text::owned(v[i].as_str()));
        assert(strings_view(out@) =~= before.push(v@[i as int]@));
        i = i + 1;
        assert(strings_view(out@) =~= strings_view(v@).take(i as int));
    }
    assert(strings_view(v@).take(i as int) =~= strings_view(v@));
    out
}

// ---------------------------------------------------------------------------
// Images linked from a Pixiv text
// ---------------------------------------------------------------------------

/// Bare `[pixivimage:ID]` marks as marks of the first page, `[pixivimage:ID-1]`.
pub fn fix_bare_pixiv_images(text: &str) -> (r: String)
    ensures
        r@ == rewritten(TextMark::BareImage, text@),
{
    rewrite_marks(text, TextMark::BareImage)
}

/// The pattern of a mark of one page of an artwork.
pub open spec fn paged_image_pattern() -> Seq<char> {
    "\\[pixivimage:(\\d+)-(\\d+)\\]"@
}

/// The pattern of a mark of an uploaded image.
pub open spec fn uploaded_image_pattern() -> Seq<char> {
    "\\[uploadedimage:(\\d+)\\]"@
}

/// `page` added to the pages of `art` in a list kept in order of the
/// artwork ids.
pub open spec fn add_link(
    links: Seq<(Seq<char>, Seq<Seq<char>>)>,
    art: Seq<char>,
    page: Seq<char>,
) -> Seq<(Seq<char>, Seq<Seq<char>>)>
    decreases links.len(),
{
    if links.len() == 0 {
        seq![(art, seq![page])]
    } else if links[0].0 == art {
        seq![(art, links[0].1.push(page))] + links.drop_first()
    } else if text_le(art, links[0].0) {
        seq![(art, seq![page])] + links
    } else {
        seq![links[0]] + add_link(links.drop_first(), art, page)
    }
}

/// The pages named by the matches, grouped by artwork.
pub open spec fn link_map(pieces: Seq<RegexPieceView>) -> Seq<(Seq<char>, Seq<Seq<char>>)>
    decreases pieces.len(),
{
    if pieces.len() == 0 {
        Seq::empty()
    } else {
        add_link(link_map(pieces.drop_last()), group_text(pieces.last().2, 0), group_text(pieces.last().2, 1))
    }
}

/// The artworks whose pages a text shows, in order of their ids as text,
/// each with the pages it shows in order of mention.
pub open spec fn image_requests(text: Seq<char>) -> Seq<(Seq<char>, Seq<Seq<char>>)> {
    match regex_pieces(paged_image_pattern(), text) {
        Some((ps, _)) => link_map(ps),
        None => Seq::empty(),
    }
}

pub open spec fn links_view(v: Seq<(String, Vec<String>)>) -> Seq<(Seq<char>, Seq<Seq<char>>)> {
    v.map_values(|e: (String, Vec<String>)| (e.0@, strings_view(e.1@)))
}

fn add_link_exec(links: &mut Vec<(String, Vec<String>)>, art: String, page: String)
    ensures
        links_view(final(links)@) == add_link(links_view(old(links)@), art@, page@),
{
    let ghost start = links_view(links@);
    let av = chars_of(art.as_str());
    let mut j: usize = 0;
    assert(start.skip(0) =~= start);
    while j < links.len()
        invariant
            j <= links.len(),
            start == links_view(links@),
            start == links_view(old(links)@),
            av@ == art@,
            add_link(start, art@, page@) == start.take(j as int) + add_link(start.skip(j as int), art@, page@),
        decreases links.len() - j,
    {
        let ghost rest = start.skip(j as int);
        assert(rest[0] == (links@[j as int].0@, strings_view(links@[j as int].1@)));
        let kv = chars_of(links[j].0.as_str());
        if chars_eq(kv.as_slice(), av.as_slice()) {
            let (key, mut pages) = links.remove(j);
            let ghost pv = strings_view(pages@);
            let ghost pg = page@;
            pages.push(page);
            assert(strings_view(pages@) =~= pv.push(pg));
            links.insert(j, (key, pages));
            assert(links_view(links@) =~= start.take(j as int) + (seq![(art@, pv.push(pg))] + rest.drop_first()));
            return;
        }
        if crate::narou::text_less(av.as_slice(), kv.as_slice()) {
            let ghost entry = (art@, seq![page@]);
            let mut pages: Vec<String> = Vec::new();
            pages.push(page);
            assert(strings_view(pages@) =~= entry.1);
            links.insert(j, (art, pages));
            assert(links_view(links@) =~= start.take(j as int) + (seq![entry] + rest));
            return;
        }
        assert(rest.drop_first() =~= start.skip(j + 1));
        assert(start.take(j + 1) =~= start.take(j as int).push(rest[0]));
        assert(start.take(j as int) + (seq![rest[0]] + add_link(rest.drop_first(), art@, page@)) =~= start.take(j + 1)
            + add_link(start.skip(j + 1), art@, page@));
        j = j + 1;
    }
    assert(start.skip(j as int) =~= Seq::<(Seq<char>, Seq<Seq<char>>)>::empty());
    let ghost entry = (art@, seq![page@]);
    let mut pages: Vec<String> = Vec::new();
    pages.push(page);
    assert(strings_view(pages@) =~= entry.1);
    links.push((art, pages));
    assert(links_view(links@) =~= start + seq![entry]);
}

fn group_string(groups: &Vec<Option<String>>, i: usize) -> (r: String)
    ensures
        r@ == group_text(groups@.map_values(|g: Option<String>| opt_string_view(g)), i as int),
{
    let c = group_chars(groups, i);
    string_from_chars(c.as_slice())
}

/// The artworks and pages whose images a text shows.
pub fn pixiv_image_requests(text: &str) -> (r: Vec<(String, Vec<String>)>)
    ensures
        links_view(r@) == image_requests(text@),
{
    let pattern = "\\[pixivimage:(\\d+)-(\\d+)\\]";
    assert(pattern@ == paged_image_pattern());
    let mut links: Vec<(String, Vec<String>)> = Vec::new();
    assert(links_view(links@) =~= Seq::<(Seq<char>, Seq<Seq<char>>)>::empty());
    match regex_split(pattern, text) {
        Some((pieces, _tail)) => {
            let ghost pv = pieces_view(pieces@);
            let mut i: usize = 0;
            assert(pv.take(0) =~= Seq::<RegexPieceView>::empty());
            while i < pieces.len()
                invariant
                    i <= pieces.len(),
                    pv == pieces_view(pieces@),
                    links_view(links@) == link_map(pv.take(i as int)),
                decreases pieces.len() - i,
            {
                assert(pv.take(i + 1).drop_last() =~= pv.take(i as int));
                assert(pv.take(i + 1).last() == pieces@[i as int].view());
                let art = group_string(&pieces[i].groups, 0);
                let page = group_string(&pieces[i].groups, 1);
                add_link_exec(&mut links, art, page);
                i = i + 1;
            }
            assert(pv.take(i as int) =~= pv);
            links
        },
        None => links,
    }
}

/// The ids of the uploaded images a text shows, in order of mention.
pub open spec fn uploaded_ids(text: Seq<char>) -> Seq<Seq<char>> {
    match regex_pieces(uploaded_image_pattern(), text) {
        Some((ps, _)) => ps.map_values(|p: RegexPieceView| group_text(p.2, 0)),
        None => Seq::empty(),
    }
}

pub fn uploaded_image_ids(text: &str) -> (r: Vec<String>)
    ensures
        strings_view(r@) == uploaded_ids(text@),
{
    let pattern = "\\[uploadedimage:(\\d+)\\]";
    assert(pattern@ == uploaded_image_pattern());
    let mut ids: Vec<String> = Vec::new();
    match regex_split(pattern, text) {
        Some((pieces, _tail)) => {
            let ghost pv = pieces_view(pieces@);
            let ghost want = pv.map_values(|p: RegexPieceView| group_text(p.2, 0));
            let mut i: usize = 0;
            while i < pieces.len()
                invariant
                    i <= pieces.len(),
                    pv == pieces_view(pieces@),
                    want == pv.map_values(|p: RegexPieceView| group_text(p.2, 0)),
                    strings_view(ids@) == want.take(i as int),
                decreases pieces.len() - i,
            {
                assert(pv[i as int] == pieces@[i as int].view());
                let ghost before = strings_view(ids@);
                ids.push(group_string(&pieces[i].groups, 0));
                assert(strings_view(ids@) =~= before.push(want[i as int]));
                i = i + 1;
                assert(strings_view(ids@) =~= want.take(i as int));
            }
            assert(want.take(i as int) =~= want);
            ids
        },
        None => {
            assert(strings_view(ids@) =~= Seq::<Seq<char>>::empty());
            ids
        },
    }
}

/// Whether page `index` (counted from 0) is among the pages a text shows,
/// which count from 1.
pub fn page_needed(pages: &Vec<String>, index: usize) -> (r: bool)
    requires
        index < u64::MAX,
    ensures
        r == strings_view(pages@).contains(crate::text::decimal((index + 1) as nat)),
{
    let p = crate::text::decimal_chars(index as u64 + 1);
    contains_string(pages, p.as_slice())
}

/// The file name under which page `index` of an artwork is saved.
pub fn page_image_name(art_id: &str, index: usize, url: &str) -> (r: String)
    ensures
        crate::work_key::plain_path(url_path_part(url@)) ==> r@ == "pixiv_"@ + art_id@ + "_p"@ + crate::text::decimal(
            index as nat,
        ) + url_extension(url@),
{
    proof {
        reveal_strlit("pixiv_");
        reveal_strlit("_p");
    }
    let mut out: Vec<char> = Vec::new();
    crate::text::push_str(&mut out, "pixiv_");
    crate::text::push_str(&mut out, art_id);
    crate::text::push_str(&mut out, "_p");
    crate::text::push_decimal(&mut out, index as u64);
    let ext = url_ext(url);
    crate::text::push_str(&mut out, ext.as_str());
    string_from_chars(out.as_slice())
}

/// The file name under which an uploaded image of a work is saved.
pub fn uploaded_image_name(content_id: &str, inner_id: &str, url: &str) -> (r: String)
    ensures
        crate::work_key::plain_path(url_path_part(url@)) ==> r@ == "pixiv_"@ + content_id@ + "_"@ + inner_id@
            + url_extension(url@),
{
    proof {
        reveal_strlit("pixiv_");
        reveal_strlit("_");
    }
    let mut out: Vec<char> = Vec::new();
    crate::text::push_str(&mut out, "pixiv_");
    crate::text::push_str(&mut out, content_id);
    crate::text::push_str(&mut out, "_");
    crate::text::push_str(&mut out, inner_id);
    let ext = url_ext(url);
    crate::text::push_str(&mut out, ext.as_str());
    string_from_chars(out.as_slice())
}

/// The mark of one page of an artwork.
pub open spec fn page_mark(art_id: Seq<char>, page: Seq<char>) -> Seq<char> {
    "[pixivimage:"@ + art_id + "-"@ + page + "]"@
}

/// The mark of an uploaded image.
pub open spec fn uploaded_mark(id: Seq<char>) -> Seq<char> {
    "[uploadedimage:"@ + id + "]"@
}

/// Every occurrence of `mark` replaced by the mark of a saved image.
pub open spec fn with_saved_image(text: Seq<char>, mark: Seq<char>, saved: Seq<char>) -> Seq<char> {
    crate::text::replace_all(text, mark, "[image]("@ + saved + ")"@)
}

fn replace_mark(text: &str, mark: &[char], saved: &str) -> (r: String)
    requires
        mark@.len() > 0,
    ensures
        r@ == with_saved_image(text@, mark@, saved@),
{
    proof {
        reveal_strlit("[image](");
        reveal_strlit(")");
    }
    let mut rep: Vec<char> = Vec::new();
    crate::text::push_str(&mut rep, "[image](");
    crate::text::push_str(&mut rep, saved);
    crate::text::push_str(&mut rep, ")");
    let c = chars_of(text);
    let r = crate::text::replace_chars(c.as_slice(), mark, rep.as_slice());
    string_from_chars(r.as_slice())
}

/// A text with the marks of one page of an artwork showing the saved image.
pub fn show_saved_page(text: &str, art_id: &str, page: &str, saved: &str) -> (r: String)
    ensures
        r@ == with_saved_image(text@, page_mark(art_id@, page@), saved@),
{
    proof {
        reveal_strlit("[pixivimage:");
        reveal_strlit("-");
        reveal_strlit("]");
    }
    let mut mark: Vec<char> = Vec::new();
    crate::text::push_str(&mut mark, "[pixivimage:");
    crate::text::push_str(&mut mark, art_id);
    crate::text::push_str(&mut mark, "-");
    crate::text::push_str(&mut mark, page);
    crate::text::push_str(&mut mark, "]");
    replace_mark(text, mark.as_slice(), saved)
}

/// A text with the marks of an uploaded image showing the saved image.
pub fn show_saved_upload(text: &str, id: &str, saved: &str) -> (r: String)
    ensures
        r@ == with_saved_image(text@, uploaded_mark(id@), saved@),
{
    proof {
        reveal_strlit("[uploadedimage:");
        reveal_strlit("]");
    }
    let mut mark: Vec<char> = Vec::new();
    crate::text::push_str(&mut mark, "[uploadedimage:");
    crate::text::push_str(&mut mark, id);
    crate::text::push_str(&mut mark, "]");
    replace_mark(text, mark.as_slice(), saved)
}

/// The marks of a novel's text rewritten in turn: ruby, chapters, links
/// and jump links.
pub open spec fn novel_markup(text: Seq<char>) -> Seq<char> {
    rewritten(
        TextMark::JumpUrl,
        rewritten(TextMark::JumpUri, rewritten(TextMark::Chapter, rewritten(TextMark::Ruby, text))),
    )
}

/// The text of a novel, its images already in place, with its marks
/// rewritten: ruby, chapters, links and jump links, in that order.
pub fn format_novel_markup(text: &str) -> (r: String)
    ensures
        r@ == novel_markup(text@),
{
    let a = format_ruby(text);
    let b = remove_chapter_tag(a.as_str());
    let c = format_jumpuri(b.as_str());
    format_jump_url(c.as_str())
}

/// The first capture group of the leftmost match of a pattern; none for a
/// pattern that does not compile, no match, or a group that took no part.
pub fn regex_capture(pattern: &str, text: &str) -> (r: Option<String>)
    ensures
        opt_string_view(r) == crate::work_key::regex_group(pattern@, text@, 1),
{
    crate::work_key::regex_capture(pattern, text, 1)
}

} // verus!
