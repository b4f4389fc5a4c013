//! How the library speaks to Pixiv: the headers it sends for an account,
//! what it makes of an answer's status and body, and which stored accounts
//! and account files it may try, in order. Sending the requests, reading
//! the directory and the files is left to the caller.
use vstd::prelude::*;
use vstd::relations::{sorted_by, total_ordering};
use crate::account::{cookie_header, AccountFile};
use crate::followed::{lemma_text_le_antisym, lemma_text_le_refl, lemma_text_le_total, lemma_text_le_trans};
use crate::json::{as_str, get, json_as_str, json_clone, json_get, JsonValue, JsonView};
use crate::narou::{opt_string_view, text_le};
use crate::pixiv::auth_failure_text;
use crate::pixiv_works::as_bool;
use crate::text::{chars_of, contains, string_from_chars, strings_view};
use crate::work_key::{last_component, name_extension, name_stem, path_extension, path_file_stem, plain_path};

verus! {

// ---------------------------------------------------------------------------
// Headers
// ---------------------------------------------------------------------------

/// The browser the library says it is when an account names none.
pub open spec fn default_user_agent() -> Seq<char> {
    "Mozilla/5.0 (Windows NT 10.0; Win64; x64; rv:130.0) Gecko/20100101 Firefox/130.0"@
}

/// The browser to send for an account: its own where it names one.
pub open spec fn account_user_agent(account: Option<AccountFile>) -> Seq<char> {
    match account {
        Some(a) => match a.user_agent {
            Some(u) => if u@.len() > 0 {
                u@
            } else {
                default_user_agent()
            },
            None => default_user_agent(),
        },
        None => default_user_agent(),
    }
}

/// The cookie header to send for an account: its cookies, where it has any.
pub open spec fn account_cookie(account: Option<AccountFile>) -> Option<Seq<char>> {
    match account {
        Some(a) => if cookie_header(a.cookies.view()).len() > 0 {
            Some(cookie_header(a.cookies.view()))
        } else {
            None
        },
        None => None,
    }
}

/// The browser and the cookie header a client sends for an account.
pub fn client_headers(account: Option<&AccountFile>) -> (r: (String, Option<String>))
    ensures
        r.0@ == account_user_agent(
            match account {
                Some(a) => Some(*a),
                None => None,
            },
        ),
        opt_string_view(r.1) == account_cookie(
            match account {
                Some(a) => Some(*a),
                None => None,
            },
        ),
{
    let default_ua = crate::text::owned(
        "Mozilla/5.0 (Windows NT 10.0; Win64; x64; rv:130.0) Gecko/20100101 Firefox/130.0",
    );
    match account {
        Some(a) => {
            let cookie = crate::account::build_cookie_string(a);
            let cookie = if cookie.as_str().is_empty() {
                None
            } else {
                Some(cookie)
            };
            let ua = match &a.user_agent {
                Some(u) => if u.as_str().is_empty() {
                    default_ua
                } else {
                    crate::text::owned(u.as_str())
                },
                None => default_ua,
            };
            (ua, cookie)
        },
        None => (default_ua, None),
    }
}

// ---------------------------------------------------------------------------
// Answers
// ---------------------------------------------------------------------------

/// What an answer's status and the address it ended at say of a request to
/// `url`: a refused login, a redirect to the login page, an error status,
/// or nothing wrong.
pub open spec fn response_problem(url: Seq<char>, status: u16, final_path: Seq<char>) -> Option<Seq<char>> {
    if status == 401 {
        Some("pixiv authentication failed: HTTP 401 Unauthorized for "@ + url)
    } else if status == 403 {
        Some("pixiv authentication failed: HTTP 403 Forbidden for "@ + url)
    } else if contains(final_path, "login"@) {
        Some("pixiv authentication failed: redirected to login for "@ + url)
    } else if 400 <= status && status < 600 {
        Some("request returned error status: "@ + url)
    } else {
        None
    }
}

pub fn check_pixiv_response(url: &str, status: u16, final_path: &str) -> (r: Result<(), String>)
    ensures
        match r {
            Ok(_) => response_problem(url@, status, final_path@) is None,
            Err(e) => response_problem(url@, status, final_path@) == Some(e@),
        },
{
    let mut t: Vec<char> = Vec::new();
    if status == 401 {
        crate::text::push_str(&mut t, "pixiv authentication failed: HTTP 401 Unauthorized for ");
    } else if status == 403 {
        crate::text::push_str(&mut t, "pixiv authentication failed: HTTP 403 Forbidden for ");
    } else if crate::text::contains_str(chars_of(final_path).as_slice(), "login") {
        crate::text::push_str(&mut t, "pixiv authentication failed: redirected to login for ");
    } else if 400 <= status && status < 600 {
        crate::text::push_str(&mut t, "request returned error status: ");
    } else {
        return Ok(());
    }
    crate::text::push_str(&mut t, url);
    Err(string_from_chars(t.as_slice()))
}

/// What an answer's JSON gives: its `body` (null where it has none), or,
/// where it says it is an error, that error with the address.
pub open spec fn answer_body(url: Seq<char>, json: JsonView) -> Result<JsonView, Seq<char>> {
    if as_bool(get(json, "error"@)) == Some(true) {
        let m = match as_str(get(json, "message"@)) {
            Some(t) => t,
            None => "pixiv returned error"@,
        };
        if auth_failure_text(m) {
            Err("pixiv authentication failed: "@ + m + ": "@ + url)
        } else {
            Err(m + ": "@ + url)
        }
    } else {
        Ok(
            match get(json, "body"@) {
                Some(b) => b,
                None => JsonView::Null,
            },
        )
    }
}

pub fn pixiv_answer_body(url: &str, json: &JsonValue) -> (r: Result<JsonValue, String>)
    ensures
        match r {
            Ok(b) => answer_body(url@, json.view()) == Ok::<JsonView, Seq<char>>(b.view()),
            Err(e) => answer_body(url@, json.view()) == Err::<JsonView, Seq<char>>(e@),
        },
{
    if crate::pixiv_works::json_as_bool(json_get(json, "error")) == Some(true) {
        let m = match json_as_str(json_get(json, "message")) {
            Some(t) => crate::text::owned(t),
            None => crate::text::owned("pixiv returned error"),
        };
        let mut t: Vec<char> = Vec::new();
        if crate::pixiv::is_authentication_failure_text(m.as_str()) {
            crate::text::push_str(&mut t, "pixiv authentication failed: ");
        }
        crate::text::push_str(&mut t, m.as_str());
        crate::text::push_str(&mut t, ": ");
        crate::text::push_str(&mut t, url);
        Err(string_from_chars(t.as_slice()))
    } else {
        match json_get(json, "body") {
            Some(b) => Ok(json_clone(b)),
            None => Ok(JsonValue::Null),
        }
    }
}

/// A text that starts with `pixiv authentication failed` says the login was
/// refused.
proof fn lemma_auth_prefix(rest: Seq<char>)
    ensures
        auth_failure_text("pixiv authentication failed"@ + rest),
{
    reveal_strlit("pixiv authentication failed");
    let p = "pixiv authentication failed"@;
    let t = p + rest;
    let m = crate::text::lower(t);
    assert(m.subrange(0, p.len() as int) =~= p);
    assert(crate::text::occurs_at(m, p, 0));
}

/// Law: an answer refused with 401 or 403, or sent to the login page, is an
/// error that says the login was refused; so is one whose JSON reports an
/// error whose message says so. An answer with a 2xx status that is not on
/// the login page passes, and its JSON gives its `body` (null where there is
/// none) unless it reports an error.
pub proof fn lemma_pixiv_answer(url: Seq<char>, status: u16, final_path: Seq<char>, json: JsonView)
    ensures
        (status == 401 || status == 403 || contains(final_path, "login"@)) ==> (response_problem(url, status, final_path) matches Some(e)
            && auth_failure_text(e)),
        (200 <= status < 300 && !contains(final_path, "login"@)) ==> response_problem(url, status, final_path) is None,
        (as_bool(get(json, "error"@)) == Some(true) && (as_str(get(json, "message"@)) matches Some(m) && auth_failure_text(m)))
            ==> (answer_body(url, json) matches Err(e) && auth_failure_text(e)),
        as_bool(get(json, "error"@)) != Some(true) ==> answer_body(url, json) == Ok::<JsonView, Seq<char>>(
            match get(json, "body"@) {
                Some(b) => b,
                None => JsonView::Null,
            },
        ),
{
    reveal_strlit("pixiv authentication failed: HTTP 401 Unauthorized for ");
    reveal_strlit("pixiv authentication failed: HTTP 403 Forbidden for ");
    reveal_strlit("pixiv authentication failed: redirected to login for ");
    reveal_strlit("pixiv authentication failed: ");
    reveal_strlit("pixiv authentication failed");
    let p = "pixiv authentication failed"@;
    if status == 401 {
        let e = "pixiv authentication failed: HTTP 401 Unauthorized for "@ + url;
        let rest = e.skip(p.len() as int);
        assert(e =~= p + rest);
        lemma_auth_prefix(rest);
    } else if status == 403 {
        let e = "pixiv authentication failed: HTTP 403 Forbidden for "@ + url;
        let rest = e.skip(p.len() as int);
        assert(e =~= p + rest);
        lemma_auth_prefix(rest);
    } else if contains(final_path, "login"@) {
        let e = "pixiv authentication failed: redirected to login for "@ + url;
        let rest = e.skip(p.len() as int);
        assert(e =~= p + rest);
        lemma_auth_prefix(rest);
    }
    if as_bool(get(json, "error"@)) == Some(true) {
        if let Some(m) = as_str(get(json, "message"@)) {
            if auth_failure_text(m) {
                let e = "pixiv authentication failed: "@ + m + ": "@ + url;
                let rest = e.skip(p.len() as int);
                assert(e =~= p + rest);
                lemma_auth_prefix(rest);
            }
        }
    }
}

// ---------------------------------------------------------------------------
// Accounts to try
// ---------------------------------------------------------------------------

/// Account files in the order they are tried: `login.json` first, the rest
/// by name.
pub open spec fn account_file_order() -> spec_fn(Seq<char>, Seq<char>) -> bool {
    |a: Seq<char>, b: Seq<char>| a == "login.json"@ || (b != "login.json"@ && text_le(a, b))
}

/// Law: the order of account files is a total order.
pub proof fn lemma_account_file_order_total()
    ensures
        total_ordering(account_file_order()),
{
    let r = account_file_order();
    assert forall|x: Seq<char>| #[trigger] r(x, x) by {
        lemma_text_le_refl(x);
    }
    assert forall|x: Seq<char>, y: Seq<char>| #[trigger] r(x, y) && #[trigger] r(y, x) implies x == y by {
        if x != "login.json"@ && y != "login.json"@ {
            lemma_text_le_antisym(x, y);
        }
    }
    assert forall|x: Seq<char>, y: Seq<char>, z: Seq<char>| #[trigger] r(x, y) && #[trigger] r(y, z) implies r(x, z) by {
        if x != "login.json"@ {
            lemma_text_le_trans(x, y, z);
        }
    }
    assert forall|x: Seq<char>, y: Seq<char>| #[trigger] r(x, y) || #[trigger] r(y, x) by {
        lemma_text_le_total(x, y);
    }
}

/// The names that are JSON files, in order.
pub open spec fn json_files(names: Seq<Seq<char>>) -> Seq<Seq<char>>
    decreases names.len(),
{
    if names.len() == 0 {
        Seq::empty()
    } else if name_extension(last_component(names.last())) == Some("json"@) {
        json_files(names.drop_last()).push(names.last())
    } else {
        json_files(names.drop_last())
    }
}

/// The name an account file is tried under: `login` for `login.json`, else
/// its stem.
pub open spec fn account_name_of(file: Seq<char>) -> Seq<char> {
    if file == "login.json"@ {
        "login"@
    } else {
        name_stem(last_component(file))
    }
}

/// The account files to try, in order, each with the name it is tried
/// under: `login.json` is left out where the store holds accounts, and a
/// file whose name is empty or already taken is left out.
pub open spec fn picked_accounts(
    files: Seq<Seq<char>>,
    seen: Seq<Seq<char>>,
    skip_login: bool,
) -> Seq<(Seq<char>, Seq<char>)>
    decreases files.len(),
{
    if files.len() == 0 {
        Seq::empty()
    } else {
        let f = files[0];
        let rest = files.drop_first();
        if skip_login && f == "login.json"@ {
            picked_accounts(rest, seen, skip_login)
        } else {
            let name = account_name_of(f);
            if name.len() == 0 || seen.contains(name) {
                picked_accounts(rest, seen, skip_login)
            } else {
                seq![(f, name)] + picked_accounts(rest, seen.push(name), skip_login)
            }
        }
    }
}

fn is_login_file(v: &[char]) -> (r: bool)
    ensures
        r == (v@ == "login.json"@),
{
    crate::text::chars_eq_str(v, "login.json")
}

fn account_file_before(a: &String, b: &String) -> (r: bool)
    ensures
        r == (account_file_order())(a@, b@),
{
    let av = chars_of(a.as_str());
    let bv = chars_of(b.as_str());
    if is_login_file(av.as_slice()) {
        true
    } else if is_login_file(bv.as_slice()) {
        false
    } else if crate::text::chars_eq(av.as_slice(), bv.as_slice()) {
        proof {
            lemma_text_le_refl(a@);
        }
        true
    } else {
        crate::narou::text_less(av.as_slice(), bv.as_slice())
    }
}

fn insert_account_file(sorted: &mut Vec<String>, x: String)
    requires
        sorted_by(strings_view(old(sorted)@), account_file_order()),
    ensures
        sorted_by(strings_view(final(sorted)@), account_file_order()),
        strings_view(final(sorted)@).to_multiset() == strings_view(old(sorted)@).to_multiset().insert(x@),
        forall|k: int|
            0 <= k < strings_view(final(sorted)@).len() ==> #[trigger] strings_view(final(sorted)@)[k] == x@
                || strings_view(old(sorted)@).contains(strings_view(final(sorted)@)[k]),
{
    let ghost s = strings_view(sorted@);
    let ghost r = account_file_order();
    proof {
        lemma_account_file_order_total();
    }
    let mut j: usize = 0;
    while j < sorted.len() && !account_file_before(&x, &sorted[j])
        invariant
            j <= sorted.len(),
            s == strings_view(sorted@),
            s == strings_view(old(sorted)@),
            sorted_by(s, r),
            r == account_file_order(),
            total_ordering(r),
            forall|k: int| 0 <= k < j ==> r(#[trigger] s[k], x@),
        decreases sorted.len() - j,
    {
        assert(r(s[j as int], x@) || r(x@, s[j as int]));
        j = j + 1;
    }
    let ghost xv = x@;
    sorted.insert(j, x);
    let ghost t = strings_view(sorted@);
    assert(t =~= s.insert(j as int, xv));
    proof {
        assert forall|p: int, q: int| 0 <= p < q < t.len() implies #[trigger] r(t[p], t[q]) by {
            if q < j {
                assert(r(s[p], s[q]));
            } else if q == j {
                assert(r(s[p], xv));
            } else if p == j {
                assert(r(xv, s[j as int]));
                if q - 1 > j {
                    assert(r(s[j as int], s[q - 1]));
                } else {
                    assert(t[q] == s[j as int]);
                }
            } else if p < j {
                assert(r(s[p], s[q - 1]));
            } else {
                assert(r(s[p - 1], s[q - 1]));
            }
        }
        vstd::seq_lib::to_multiset_insert(s, j as int, xv);
        assert forall|k: int| 0 <= k < t.len() implies #[trigger] t[k] == xv || s.contains(t[k]) by {
            if k < j {
                assert(t[k] == s[k]);
            } else if k > j {
                assert(t[k] == s[k - 1]);
            }
        }
    }
}

/// The names that are JSON files, in the order account files are tried.
fn ordered_json_files(names: &Vec<String>) -> (r: Vec<String>)
    ensures
        all_names_plain(strings_view(names@)) ==> all_names_plain(strings_view(r@)),
        all_names_plain(strings_view(names@)) ==> strings_view(r@) == json_files(strings_view(names@)).sort_by(
            account_file_order(),
        ),
{
    let ghost all = strings_view(names@);
    let mut out: Vec<String> = Vec::new();
    let mut i: usize = 0;
    assert(all.take(0) =~= Seq::<Seq<char>>::empty());
    assert(strings_view(out@) =~= Seq::<Seq<char>>::empty());
    assert(Seq::<Seq<char>>::empty().to_multiset() =~= vstd::multiset::Multiset::empty()) by {
        broadcast use vstd::seq_lib::group_to_multiset_ensures;
    }
    while i < names.len()
        invariant
            i <= names.len(),
            all == strings_view(names@),
            sorted_by(strings_view(out@), account_file_order()),
            all_names_plain(all) ==> strings_view(out@).to_multiset() == json_files(all.take(i as int)).to_multiset(),
            all_names_plain(all) ==> all_names_plain(strings_view(out@)),
        decreases names.len() - i,
    {
        assert(all.take(i + 1).drop_last() =~= all.take(i as int));
        assert(all.take(i + 1).last() == names@[i as int]@);
        proof {
            if all_names_plain(all) {
                assert(plain_path(all[i as int]));
            }
        }
        let is_json = match path_extension(names[i].as_str()) {
            Some(e) => crate::text::str_eq(e.as_str(), "json"),
            None => false,
        };
        if is_json {
            let ghost before = strings_view(out@);
            insert_account_file(&mut out, names[i].clone());
            proof {
                if all_names_plain(all) {
                    assert forall|k: int| 0 <= k < strings_view(out@).len() implies plain_path(
                        #[trigger] strings_view(out@)[k],
                    ) by {
                        if strings_view(out@)[k] != all[i as int] {
                            assert(before.contains(strings_view(out@)[k]));
                        }
                    }
                }
                if all_names_plain(all) {
                    vstd::seq_lib::to_multiset_build(json_files(all.take(i as int)), all[i as int]);
                }
            }
        }
        i = i + 1;
    }
    proof {
        assert(all.take(i as int) =~= all);
        if all_names_plain(all) {
            lemma_account_file_order_total();
            json_files(all).lemma_sort_by_ensures(account_file_order());
            vstd::seq_lib::lemma_sorted_unique(
                strings_view(out@),
                json_files(all).sort_by(account_file_order()),
                account_file_order(),
            );
        }
    }
    out
}

/// Whether every name is one whose file name is plainly what follows its
/// last `/`.
pub open spec fn all_names_plain(names: Seq<Seq<char>>) -> bool {
    forall|i: int| 0 <= i < names.len() ==> plain_path(#[trigger] names[i])
}

pub open spec fn pairs_view(v: Seq<(String, String)>) -> Seq<(Seq<char>, Seq<char>)> {
    v.map_values(|p: (String, String)| (p.0@, p.1@))
}

fn seen_contains(seen: &Vec<String>, x: &String) -> (r: bool)
    ensures
        r == strings_view(seen@).contains(x@),
{
    let xv = chars_of(x.as_str());
    let r = crate::text::contains_string(seen, xv.as_slice());
    proof {
        if strings_view(seen@).contains(x@) {
            let k = choose|k: int| 0 <= k < strings_view(seen@).len() && strings_view(seen@)[k] == x@;
            assert(seen@[k]@ == xv@);
        }
    }
    r
}

/// The account files of a directory to try after the stored accounts,
/// each with the name it is tried under, in order.
pub fn account_file_candidates(store_names: &Vec<String>, dir_names: &Vec<String>) -> (r: Vec<(String, String)>)
    ensures
        all_names_plain(strings_view(dir_names@)) ==> pairs_view(r@) == picked_accounts(
            json_files(strings_view(dir_names@)).sort_by(account_file_order()),
            strings_view(store_names@),
            store_names@.len() > 0,
        ),
{
    let files = ordered_json_files(dir_names);
    let skip_login = store_names.len() > 0;
    let ghost fv = strings_view(files@);
    let mut seen: Vec<String> = Vec::new();
    let mut k: usize = 0;
    while k < store_names.len()
        invariant
            k <= store_names.len(),
            strings_view(seen@) == strings_view(store_names@).take(k as int),
        decreases store_names.len() - k,
    {
        let ghost before = strings_view(seen@);
        seen.push(store_names[k].clone());
        assert(strings_view(store_names@).take(k + 1) =~= before.push(store_names@[k as int]@));
        assert(strings_view(seen@) =~= before.push(store_names@[k as int]@));
        k = k + 1;
    }
    assert(strings_view(store_names@).take(k as int) =~= strings_view(store_names@));
    let ghost plain = all_names_plain(strings_view(dir_names@));
    let ghost goal = picked_accounts(fv, strings_view(seen@), skip_login);
    let mut out: Vec<(String, String)> = Vec::new();
    let mut i: usize = 0;
    assert(fv.skip(0) =~= fv);
    assert(pairs_view(out@) + goal =~= goal);
    while i < files.len()
        invariant
            i <= files.len(),
            fv == strings_view(files@),
            plain == all_names_plain(strings_view(dir_names@)),
            plain ==> all_names_plain(fv),
            plain ==> pairs_view(out@) + picked_accounts(fv.skip(i as int), strings_view(seen@), skip_login) == goal,
        decreases files.len() - i,
    {
        let ghost rest = fv.skip(i as int);
        assert(rest[0] == files@[i as int]@);
        assert(rest.drop_first() =~= fv.skip(i + 1));
        let f = &files[i];
        let fc = chars_of(f.as_str());
        if skip_login && is_login_file(fc.as_slice()) {
            i = i + 1;
            continue;
        }
        let name = if is_login_file(fc.as_slice()) {
            crate::text::owned("login")
        } else {
            match path_file_stem(f.as_str()) {
                Some(s) => s,
                None => String::new(),
            }
        };
        proof {
            reveal_strlit("login");
            if plain {
                assert(plain_path(fv[i as int]));
                assert(name@ == account_name_of(f@));
            }
        }
        if name.as_str().is_empty() || seen_contains(&seen, &name) {
            i = i + 1;
            continue;
        }
        let ghost before = pairs_view(out@);
        let ghost item = (f@, name@);
        let ghost old_seen = strings_view(seen@);
        seen.push(crate::text::owned(name.as_str()));
        assert(strings_view(seen@) =~= old_seen.push(name@));
        out.push((crate::text::owned(f.as_str()), name));
        assert(pairs_view(out@) =~= before.push(item));
        assert(before.push(item) + picked_accounts(fv.skip(i + 1), strings_view(seen@), skip_login) =~= before + (
        seq![item] + picked_accounts(fv.skip(i + 1), strings_view(seen@), skip_login)));
        i = i + 1;
    }
    assert(fv.skip(i as int) =~= Seq::<Seq<char>>::empty());
    assert(pairs_view(out@) + Seq::<(Seq<char>, Seq<char>)>::empty() =~= pairs_view(out@));
    out
}

} // verus!
