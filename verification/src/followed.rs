//! Pixiv users that the library follows: their settings, the snapshot of
//! their artworks and its hash, and the summary of a download of a user.
use vstd::prelude::*;
use vstd::relations::{sorted_by, total_ordering};
use vstd::utf8::encode_utf8;
use crate::narou::text_le;
use crate::pixiv::auth_failure_text;
use crate::text::{chars_eq, chars_of, join, join_str, string_from_chars, strings_view, strs_view, views};
use crate::work_key::{hex_string, hex_text, sha256, sha256_bytes, sorted_unique, sorted_unique_strings};

verus! {

// ---------------------------------------------------------------------------
// The order of texts
// ---------------------------------------------------------------------------

/// Texts ordered character by character, as `str`'s `Ord` orders them.
pub open spec fn text_order() -> spec_fn(Seq<char>, Seq<char>) -> bool {
    |a: Seq<char>, b: Seq<char>| text_le(a, b)
}

pub(crate) proof fn lemma_text_le_refl(a: Seq<char>)
    ensures
        text_le(a, a),
    decreases a.len(),
{
    if a.len() > 0 {
        lemma_text_le_refl(a.drop_first());
    }
}

pub(crate) proof fn lemma_text_le_antisym(a: Seq<char>, b: Seq<char>)
    requires
        text_le(a, b),
        text_le(b, a),
    ensures
        a == b,
    decreases a.len(),
{
    if a.len() == 0 {
        assert(b.len() == 0);
        assert(a =~= b);
    } else {
        assert(b.len() > 0);
        assert(a[0] == b[0]);
        lemma_text_le_antisym(a.drop_first(), b.drop_first());
        assert(a =~= seq![a[0]] + a.drop_first());
        assert(b =~= seq![b[0]] + b.drop_first());
    }
}

pub(crate) proof fn lemma_text_le_trans(a: Seq<char>, b: Seq<char>, c: Seq<char>)
    requires
        text_le(a, b),
        text_le(b, c),
    ensures
        text_le(a, c),
    decreases a.len(),
{
    if a.len() > 0 {
        assert(b.len() > 0);
        assert(c.len() > 0);
        if a[0] == b[0] && b[0] == c[0] {
            lemma_text_le_trans(a.drop_first(), b.drop_first(), c.drop_first());
        }
    }
}

pub(crate) proof fn lemma_text_le_total(a: Seq<char>, b: Seq<char>)
    ensures
        text_le(a, b) || text_le(b, a),
    decreases a.len(),
{
    if a.len() > 0 && b.len() > 0 {
        if a[0] == b[0] {
            lemma_text_le_total(a.drop_first(), b.drop_first());
        } else {
            vstd::utf8::char_u32_cast(a[0], a[0] as u32);
            vstd::utf8::char_u32_cast(b[0], b[0] as u32);
        }
    }
}

/// Law: texts are totally ordered character by character.
pub proof fn lemma_text_order_total()
    ensures
        total_ordering(text_order()),
{
    let r = text_order();
    assert forall|x: Seq<char>| #[trigger] r(x, x) by {
        lemma_text_le_refl(x);
    }
    assert forall|x: Seq<char>, y: Seq<char>| #[trigger] r(x, y) && #[trigger] r(y, x) implies x == y by {
        lemma_text_le_antisym(x, y);
    }
    assert forall|x: Seq<char>, y: Seq<char>, z: Seq<char>| #[trigger] r(x, y) && #[trigger] r(y, z) implies r(
        x,
        z,
    ) by {
        lemma_text_le_trans(x, y, z);
    }
    assert forall|x: Seq<char>, y: Seq<char>| #[trigger] r(x, y) || #[trigger] r(y, x) by {
        lemma_text_le_total(x, y);
    }
}

fn text_le_exec(a: &[char], b: &[char]) -> (r: bool)
    ensures
        r == text_le(a@, b@),
{
    if chars_eq(a, b) {
        proof {
            lemma_text_le_refl(a@);
        }
        true
    } else {
        crate::narou::text_less(a, b)
    }
}

// ---------------------------------------------------------------------------
// Hash of a set of artwork ids
// ---------------------------------------------------------------------------

/// The ids in order, joined with `,`, hashed with SHA-256 and written in
/// lower-case hex.
pub open spec fn ids_hash_text(ids: Seq<Seq<char>>) -> Seq<char> {
    hex_text(sha256(encode_utf8(join(ids.sort_by(text_order()), ","@))))
}

/// `x` placed before the first element that it does not follow.
fn insert_text(sorted: &mut Vec<Vec<char>>, x: Vec<char>)
    requires
        sorted_by(views(old(sorted)@), text_order()),
    ensures
        sorted_by(views(final(sorted)@), text_order()),
        views(final(sorted)@).to_multiset() == views(old(sorted)@).to_multiset().insert(x@),
{
    let ghost s = views(sorted@);
    let ghost r = text_order();
    let mut j: usize = 0;
    while j < sorted.len() && !text_le_exec(x.as_slice(), sorted[j].as_slice())
        invariant
            j <= sorted.len(),
            s == views(sorted@),
            s == views(old(sorted)@),
            sorted_by(s, r),
            r == text_order(),
            forall|k: int| 0 <= k < j ==> text_le(#[trigger] s[k], x@),
        decreases sorted.len() - j,
    {
        proof {
            lemma_text_le_total(x@, s[j as int]);
        }
        j = j + 1;
    }
    let ghost xv = x@;
    sorted.insert(j, x);
    let ghost t = views(sorted@);
    assert(t =~= s.insert(j as int, xv));
    proof {
        assert forall|p: int, q: int| 0 <= p < q < t.len() implies #[trigger] r(t[p], t[q]) by {
            if q < j {
                assert(r(s[p], s[q]));
            } else if q == j {
                assert(text_le(s[p], xv));
            } else if p == j {
                assert(text_le(xv, s[j as int]));
                if q - 1 > j {
                    assert(r(s[j as int], s[q - 1]));
                    lemma_text_le_trans(xv, s[j as int], s[q - 1]);
                } else {
                    assert(t[q] == s[j as int]);
                }
            } else if p < j {
                assert(r(s[p], s[q - 1]));
            } else {
                assert(r(s[p - 1], s[q - 1]));
            }
        }
        vstd::seq_lib::to_multiset_insert(s, j as int, xv);
    }
}

/// The ids in order, each as its characters.
fn sorted_texts(ids: &[&str]) -> (r: Vec<Vec<char>>)
    ensures
        views(r@) == strs_view(ids@).sort_by(text_order()),
{
    let ghost all = strs_view(ids@);
    let mut out: Vec<Vec<char>> = Vec::new();
    let mut i: usize = 0;
    assert(views(out@) =~= Seq::<Seq<char>>::empty());
    assert(all.take(0) =~= Seq::<Seq<char>>::empty());
    assert(Seq::<Seq<char>>::empty().to_multiset() =~= vstd::multiset::Multiset::empty()) by {
        broadcast use vstd::seq_lib::group_to_multiset_ensures;
    }
    while i < ids.len()
        invariant
            i <= ids.len(),
            all == strs_view(ids@),
            sorted_by(views(out@), text_order()),
            views(out@).to_multiset() == all.take(i as int).to_multiset(),
        decreases ids.len() - i,
    {
        let x = chars_of(ids[i]);
        insert_text(&mut out, x);
        proof {
            assert(all.take(i + 1) =~= all.take(i as int).push(all[i as int]));
            vstd::seq_lib::to_multiset_build(all.take(i as int), all[i as int]);
        }
        i = i + 1;
    }
    proof {
        assert(all.take(i as int) =~= all);
        lemma_text_order_total();
        all.lemma_sort_by_ensures(text_order());
        vstd::seq_lib::lemma_sorted_unique(views(out@), all.sort_by(text_order()), text_order());
    }
    out
}

/// The hash of a set of artwork ids, whatever order they come in: the
/// lower-case hex SHA-256 digest of the sorted ids joined with `,`.
pub fn hash_ids(ids: &[&str]) -> (r: String)
    ensures
        r@ == ids_hash_text(strs_view(ids@)),
{
    let sorted = sorted_texts(ids);
    let joined = join_str(&sorted, ",");
    let text = string_from_chars(joined.as_slice());
    let digest = sha256_bytes(text.as_str().as_bytes());
    hex_string(digest.as_slice())
}

/// Law: the hash of a set of ids does not depend on the order in which they
/// are listed.
pub proof fn lemma_hash_ids_ignores_order(a: Seq<Seq<char>>, b: Seq<Seq<char>>)
    requires
        a.to_multiset() == b.to_multiset(),
    ensures
        ids_hash_text(a) == ids_hash_text(b),
{
    lemma_text_order_total();
    a.lemma_sort_by_ensures(text_order());
    b.lemma_sort_by_ensures(text_order());
    vstd::seq_lib::lemma_sorted_unique(a.sort_by(text_order()), b.sort_by(text_order()), text_order());
}

// ---------------------------------------------------------------------------
// Authentication errors
// ---------------------------------------------------------------------------

/// Whether an error, given as the messages of its chain of causes, says
/// that Pixiv refused the login.
pub fn is_authentication_error(causes: &[String]) -> (r: bool)
    ensures
        r == exists|i: int| 0 <= i < causes@.len() && auth_failure_text(#[trigger] causes@[i]@),
{
    let mut i: usize = 0;
    while i < causes.len()
        invariant
            i <= causes.len(),
            forall|k: int| 0 <= k < i ==> !auth_failure_text(#[trigger] causes@[k]@),
        decreases causes.len() - i,
    {
        if crate::pixiv::is_authentication_failure_text(causes[i].as_str()) {
            return true;
        }
        i = i + 1;
    }
    false
}

// ---------------------------------------------------------------------------
// Settings of a followed user
// ---------------------------------------------------------------------------

/// The settings kept for a followed Pixiv user: whether novels and comics
/// are downloaded (`enable` turns a kind on), the user's name and the hash of
/// the last snapshot of their artworks.
#[derive(Debug, Clone, PartialEq, Eq)]
pub struct PixivTrackedUserEntry {
    pub novel: String,
    pub comic: String,
    pub name: Option<String>,
    pub illust_ids_snapshot_hash: Option<String>,
}

impl Default for PixivTrackedUserEntry {
    fn default() -> (r: Self)
        ensures
            r.novel@ == "enable"@,
            r.comic@ == "enable"@,
            r.name is None,
            r.illust_ids_snapshot_hash is None,
    {
        PixivTrackedUserEntry {
            novel: crate::pixiv::enabled_flag_string(),
            comic: crate::pixiv::enabled_flag_string(),
            name: None,
            illust_ids_snapshot_hash: None,
        }
    }
}

/// Whether a kind of download (`novel` or `comic`) is on for a user; any
/// other kind is off.
pub open spec fn kind_enabled(entry: PixivTrackedUserEntry, key: Seq<char>) -> bool {
    ||| key == "novel"@ && entry.novel@ == "enable"@
    ||| key == "comic"@ && entry.comic@ == "enable"@
}

pub fn action_enabled(entry: &PixivTrackedUserEntry, key: &str) -> (r: bool)
    ensures
        r == kind_enabled(*entry, key@),
{
    proof {
        reveal_strlit("novel");
        reveal_strlit("comic");
        reveal_strlit("enable");
        assert("novel"@[0] != "comic"@[0]);
    }
    if crate::text::str_eq(key, "novel") {
        crate::text::str_eq(entry.novel.as_str(), "enable")
    } else if crate::text::str_eq(key, "comic") {
        crate::text::str_eq(entry.comic.as_str(), "enable")
    } else {
        false
    }
}

// ---------------------------------------------------------------------------
// Snapshot of a user's artworks
// ---------------------------------------------------------------------------

/// The artwork ids seen for a user at the last check, in order, each once.
#[derive(Debug, Clone)]
pub struct PixivIllustSnapshotDocument {
    pub illust_ids: Vec<String>,
}

impl Default for PixivIllustSnapshotDocument {
    fn default() -> (r: Self)
        ensures
            r.illust_ids@.len() == 0,
    {
        PixivIllustSnapshotDocument { illust_ids: Vec::new() }
    }
}

impl PixivIllustSnapshotDocument {
    /// The snapshot of a set of ids, given in any order and with repeats.
    pub fn new(ids: Vec<String>) -> (r: Self)
        ensures
            strings_view(r.illust_ids@) == sorted_unique(strings_view(ids@)),
    {
        PixivIllustSnapshotDocument { illust_ids: sorted_unique_strings(ids) }
    }
}

// ---------------------------------------------------------------------------
// Summary of a download of a user's works
// ---------------------------------------------------------------------------

/// What a download of a user's works did.
#[derive(Debug)]
pub struct UserDownloadSummary {
    pub user_id: String,
    pub user_name: Option<String>,
    pub downloaded_works: usize,
    pub tracked_artworks: usize,
    pub failures: Vec<String>,
}

impl Default for UserDownloadSummary {
    fn default() -> (r: Self)
        ensures
            r.user_id@.len() == 0,
            r.user_name is None,
            r.downloaded_works == 0,
            r.tracked_artworks == 0,
            r.failures@.len() == 0,
    {
        UserDownloadSummary {
            user_id: String::new(),
            user_name: None,
            downloaded_works: 0,
            tracked_artworks: 0,
            failures: Vec::new(),
        }
    }
}

/// The name by which a downloaded user is reported: their name, else their
/// id.
pub open spec fn reported_name(s: UserDownloadSummary) -> Seq<char> {
    match s.user_name {
        Some(n) => n@,
        None => s.user_id@,
    }
}

/// What a download of a user reports: that the user is tracked and how
/// many works were stored; and, where some downloads failed, the error that
/// lists the failures.
pub open spec fn user_download_report(s: UserDownloadSummary) -> (Seq<char>, Option<Seq<char>>) {
    let name = reported_name(s);
    let n = crate::text::decimal(s.downloaded_works as nat);
    let message = "tracked pixiv user "@ + name + " ("@ + s.user_id@ + ") and stored "@ + n + " works"@;
    let error = if s.failures@.len() == 0 {
        None
    } else {
        Some(
            "tracked pixiv user "@ + name + " ("@ + s.user_id@ + ") with "@ + n
                + " stored works, but some downloads failed: "@ + join(strings_view(s.failures@), "; "@),
        )
    };
    (message, error)
}

pub fn user_download_outcome(summary: &UserDownloadSummary) -> (r: (String, Option<String>))
    ensures
        (r.0@, crate::narou::opt_string_view(r.1)) == user_download_report(*summary),
{
    let name: &str = match &summary.user_name {
        Some(n) => n.as_str(),
        None => summary.user_id.as_str(),
    };
    let mut message: Vec<char> = Vec::new();
    crate::text::push_str(&mut message, "tracked pixiv user ");
    crate::text::push_str(&mut message, name);
    crate::text::push_str(&mut message, " (");
    crate::text::push_str(&mut message, summary.user_id.as_str());
    crate::text::push_str(&mut message, ") and stored ");
    crate::text::push_decimal(&mut message, summary.downloaded_works as u64);
    crate::text::push_str(&mut message, " works");
    let error = if summary.failures.len() == 0 {
        None
    } else {
        let mut parts: Vec<Vec<char>> = Vec::new();
        let mut i: usize = 0;
        while i < summary.failures.len()
            invariant
                i <= summary.failures.len(),
                views(parts@) == strings_view(summary.failures@).take(i as int),
            decreases summary.failures.len() - i,
        {
            let ghost before = views(parts@);
            parts.push(chars_of(summary.failures[i].as_str()));
            assert(views(parts@) =~= before.push(summary.failures@[i as int]@));
            i = i + 1;
            assert(views(parts@) =~= strings_view(summary.failures@).take(i as int));
        }
        assert(strings_view(summary.failures@).take(i as int) =~= strings_view(summary.failures@));
        let joined = join_str(&parts, "; ");
        let mut e: Vec<char> = Vec::new();
        crate::text::push_str(&mut e, "tracked pixiv user ");
        crate::text::push_str(&mut e, name);
        crate::text::push_str(&mut e, " (");
        crate::text::push_str(&mut e, summary.user_id.as_str());
        crate::text::push_str(&mut e, ") with ");
        crate::text::push_decimal(&mut e, summary.downloaded_works as u64);
        crate::text::push_str(&mut e, " stored works, but some downloads failed: ");
        crate::text::push_all(&mut e, joined.as_slice());
        Some(string_from_chars(e.as_slice()))
    };
    (string_from_chars(message.as_slice()), error)
}

} // verus!
