//! Character-sequence specifications and the executable string helpers that
//! the rest of the library is built on.
use vstd::prelude::*;

verus! {

// ---------------------------------------------------------------------------
// Conversions
// ---------------------------------------------------------------------------

/// The characters of `s`, in order.
pub fn chars_of(s: &str) -> (v: Vec<char>)
    ensures
        v@ == s@,
{
    let mut v: Vec<char> = Vec::new();
    for c in it: s.chars()
        invariant
            v@ == it.seq().take(it.index() as int),
    {
        v.push(c);
    }
    v
}

/// Builds a `String` that holds exactly the given characters
/// (`String::from_iter` over the slice).
#[verifier::external_body]
pub(crate) fn string_from_chars(v: &[char]) -> (s: String)
    ensures
        s@ == v@,
{
    String::from_iter(v.iter())
}

/// A copy of `s` as an owned `String`.
pub fn owned(s: &str) -> (r: String)
    ensures
        r@ == s@,
{
    s.to_owned()
}

/// Appends every character of `src` to `dst`.
pub fn push_all(dst: &mut Vec<char>, src: &[char])
    ensures
        final(dst)@ == old(dst)@ + src@,
{
    let ghost start = dst@;
    let mut i: usize = 0;
    while i < src.len()
        invariant
            i <= src.len(),
            dst@ == start + src@.take(i as int),
        decreases src.len() - i,
    {
        dst.push(src[i]);
        i = i + 1;
        assert(src@.take(i as int) == src@.take((i - 1) as int).push(src@[i - 1]));
    }
    assert(src@.take(src.len() as int) == src@);
}

/// Appends every character of the string `src` to `dst`.
pub fn push_str(dst: &mut Vec<char>, src: &str)
    ensures
        final(dst)@ == old(dst)@ + src@,
{
    let v = chars_of(src);
    push_all(dst, v.as_slice());
}

/// Character-wise equality of two sequences.
pub fn chars_eq(a: &[char], b: &[char]) -> (r: bool)
    ensures
        r == (a@ == b@),
{
    if a.len() != b.len() {
        return false;
    }
    let mut i: usize = 0;
    while i < a.len()
        invariant
            a.len() == b.len(),
            i <= a.len(),
            forall|k: int| 0 <= k < i ==> a@[k] == b@[k],
        decreases a.len() - i,
    {
        if a[i] != b[i] {
            return false;
        }
        i = i + 1;
    }
    assert(a@ =~= b@);
    true
}

/// Equality of a character sequence with a string.
pub fn chars_eq_str(a: &[char], b: &str) -> (r: bool)
    ensures
        r == (a@ == b@),
{
    let bv = chars_of(b);
    chars_eq(a, bv.as_slice())
}

/// Equality of two strings.
pub fn str_eq(a: &str, b: &str) -> (r: bool)
    ensures
        r == (a@ == b@),
{
    let av = chars_of(a);
    chars_eq_str(av.as_slice(), b)
}

// ---------------------------------------------------------------------------
// Whitespace and trimming
// ---------------------------------------------------------------------------

/// Unicode `White_Space`, the set that `str::trim` removes.
pub open spec fn is_ws(c: char) -> bool {
    let n = c as u32;
    ||| 0x09 <= n <= 0x0D
    ||| n == 0x20
    ||| n == 0x85
    ||| n == 0xA0
    ||| n == 0x1680
    ||| 0x2000 <= n <= 0x200A
    ||| n == 0x2028
    ||| n == 0x2029
    ||| n == 0x202F
    ||| n == 0x205F
    ||| n == 0x3000
}

pub fn is_whitespace(c: char) -> (r: bool)
    ensures
        r == is_ws(c),
{
    let n = c as u32;
    (0x09 <= n && n <= 0x0D) || n == 0x20 || n == 0x85 || n == 0xA0 || n == 0x1680 || (0x2000
        <= n && n <= 0x200A) || n == 0x2028 || n == 0x2029 || n == 0x202F || n == 0x205F || n
        == 0x3000
}

/// `s` without its leading whitespace.
pub open spec fn trim_start(s: Seq<char>) -> Seq<char>
    decreases s.len(),
{
    if s.len() > 0 && is_ws(s[0]) {
        trim_start(s.drop_first())
    } else {
        s
    }
}

/// `s` without its trailing whitespace.
pub open spec fn trim_end(s: Seq<char>) -> Seq<char>
    decreases s.len(),
{
    if s.len() > 0 && is_ws(s.last()) {
        trim_end(s.drop_last())
    } else {
        s
    }
}

/// `s` without leading and trailing whitespace (`str::trim`).
pub open spec fn trim(s: Seq<char>) -> Seq<char> {
    trim_end(trim_start(s))
}

/// Index of the first non-whitespace character at or after `i`, and the
/// matching characterisation of `trim_start`.
proof fn lemma_trim_start_skip(s: Seq<char>, i: int)
    requires
        0 <= i < s.len(),
        is_ws(s[i]),
    ensures
        trim_start(s.subrange(i, s.len() as int)) == trim_start(s.subrange(i + 1, s.len() as int)),
{
    assert(s.subrange(i, s.len() as int).drop_first() =~= s.subrange(i + 1, s.len() as int));
}

proof fn lemma_trim_end_skip(s: Seq<char>, i: int, j: int)
    requires
        0 <= i < j <= s.len(),
        is_ws(s[j - 1]),
    ensures
        trim_end(s.subrange(i, j)) == trim_end(s.subrange(i, j - 1)),
{
    assert(s.subrange(i, j).drop_last() =~= s.subrange(i, j - 1));
}

/// Start and end indices of the trimmed part of `v`.
pub fn trim_bounds(v: &[char]) -> (r: (usize, usize))
    ensures
        r.0 <= r.1 <= v.len(),
        v@.subrange(r.0 as int, r.1 as int) == trim(v@),
        trim_start(v@) == v@.subrange(r.0 as int, v.len() as int),
{
    let n = v.len();
    let mut i: usize = 0;
    assert(v@.subrange(0, n as int) =~= v@);
    while i < n && is_whitespace(v[i])
        invariant
            i <= n,
            n == v.len(),
            trim_start(v@) == trim_start(v@.subrange(i as int, n as int)),
        decreases n - i,
    {
        proof {
            lemma_trim_start_skip(v@, i as int);
        }
        i = i + 1;
    }
    let ghost ts = v@.subrange(i as int, n as int);
    assert(trim_start(ts) == ts);
    let mut j: usize = n;
    assert(ts =~= v@.subrange(i as int, j as int));
    while j > i && is_whitespace(v[j - 1])
        invariant
            i <= j <= n,
            n == v.len(),
            trim_end(ts) == trim_end(v@.subrange(i as int, j as int)),
        decreases j,
    {
        proof {
            lemma_trim_end_skip(v@, i as int, j as int);
        }
        j = j - 1;
    }
    (i, j)
}

/// The trimmed characters of `v`.
pub fn trim_chars(v: &[char]) -> (r: Vec<char>)
    ensures
        r@ == trim(v@),
{
    let (i, j) = trim_bounds(v);
    slice_range(v, i, j)
}

/// The characters of `v` without trailing whitespace (`str::trim_end`).
pub fn trim_end_chars(v: &[char]) -> (r: Vec<char>)
    ensures
        r@ == trim_end(v@),
{
    let mut j: usize = v.len();
    assert(v@.subrange(0, j as int) =~= v@);
    while j > 0 && is_whitespace(v[j - 1])
        invariant
            j <= v.len(),
            trim_end(v@) == trim_end(v@.subrange(0, j as int)),
        decreases j,
    {
        proof {
            lemma_trim_end_skip(v@, 0, j as int);
        }
        j = j - 1;
    }
    slice_range(v, 0, j)
}

/// `str::trim`, giving an owned string.
pub fn trim_str(s: &str) -> (r: String)
    ensures
        r@ == trim(s@),
{
    let v = chars_of(s);
    let t = trim_chars(v.as_slice());
    string_from_chars(t.as_slice())
}

/// The characters `v[from..to]`.
pub fn slice_range(v: &[char], from: usize, to: usize) -> (r: Vec<char>)
    requires
        from <= to <= v.len(),
    ensures
        r@ == v@.subrange(from as int, to as int),
{
    let mut r: Vec<char> = Vec::new();
    let mut k: usize = from;
    while k < to
        invariant
            from <= k <= to <= v.len(),
            r@ == v@.subrange(from as int, k as int),
        decreases to - k,
    {
        r.push(v[k]);
        k = k + 1;
        assert(r@ =~= v@.subrange(from as int, k as int));
    }
    r
}


// ---------------------------------------------------------------------------
// ASCII classes and case
// ---------------------------------------------------------------------------

pub open spec fn is_digit(c: char) -> bool {
    '0' <= c <= '9'
}

pub open spec fn is_hex_digit(c: char) -> bool {
    ||| '0' <= c <= '9'
    ||| 'a' <= c <= 'f'
    ||| 'A' <= c <= 'F'
}

pub open spec fn is_alnum(c: char) -> bool {
    ||| '0' <= c <= '9'
    ||| 'a' <= c <= 'z'
    ||| 'A' <= c <= 'Z'
}

pub fn is_ascii_digit(c: char) -> (r: bool)
    ensures
        r == is_digit(c),
{
    '0' <= c && c <= '9'
}

pub fn is_ascii_hexdigit(c: char) -> (r: bool)
    ensures
        r == is_hex_digit(c),
{
    ('0' <= c && c <= '9') || ('a' <= c && c <= 'f') || ('A' <= c && c <= 'F')
}

pub fn is_ascii_alphanumeric(c: char) -> (r: bool)
    ensures
        r == is_alnum(c),
{
    ('0' <= c && c <= '9') || ('a' <= c && c <= 'z') || ('A' <= c && c <= 'Z')
}

pub open spec fn all_digits(s: Seq<char>) -> bool {
    forall|i: int| 0 <= i < s.len() ==> is_digit(#[trigger] s[i])
}

pub fn chars_all_digits(v: &[char]) -> (r: bool)
    ensures
        r == all_digits(v@),
{
    let mut i: usize = 0;
    while i < v.len()
        invariant
            i <= v.len(),
            forall|k: int| 0 <= k < i ==> is_digit(#[trigger] v@[k]),
        decreases v.len() - i,
    {
        if !is_ascii_digit(v[i]) {
            return false;
        }
        i = i + 1;
    }
    true
}

/// ASCII lower-casing of one character (`char::to_ascii_lowercase`).
pub open spec fn lower_char(c: char) -> char {
    if 'A' <= c <= 'Z' {
        ((c as u8) + 32) as char
    } else {
        c
    }
}

/// ASCII lower-casing of a sequence (`str::to_ascii_lowercase`).
pub open spec fn lower(s: Seq<char>) -> Seq<char> {
    s.map_values(|c: char| lower_char(c))
}

pub fn to_ascii_lower_char(c: char) -> (r: char)
    ensures
        r == lower_char(c),
{
    if 'A' <= c && c <= 'Z' {
        ((c as u8) + 32) as char
    } else {
        c
    }
}

pub fn lower_chars(v: &[char]) -> (r: Vec<char>)
    ensures
        r@ == lower(v@),
{
    let mut r: Vec<char> = Vec::new();
    let mut i: usize = 0;
    while i < v.len()
        invariant
            i <= v.len(),
            r@ == lower(v@.take(i as int)),
        decreases v.len() - i,
    {
        r.push(to_ascii_lower_char(v[i]));
        i = i + 1;
        assert(lower(v@.take(i as int)) =~= lower(v@.take((i - 1) as int)).push(lower_char(v@[i - 1])));
    }
    assert(v@.take(v.len() as int) == v@);
    r
}

/// `str::to_ascii_lowercase`.
pub fn lower_str(s: &str) -> (r: String)
    ensures
        r@ == lower(s@),
{
    let v = chars_of(s);
    let l = lower_chars(v.as_slice());
    string_from_chars(l.as_slice())
}

// ---------------------------------------------------------------------------
// Prefixes, suffixes and occurrences
// ---------------------------------------------------------------------------

pub open spec fn has_prefix(s: Seq<char>, p: Seq<char>) -> bool {
    p.len() <= s.len() && s.take(p.len() as int) == p
}

pub open spec fn has_suffix(s: Seq<char>, p: Seq<char>) -> bool {
    p.len() <= s.len() && s.skip(s.len() - p.len()) == p
}

/// `p` occurs in `s` starting at index `i`.
pub open spec fn occurs_at(s: Seq<char>, p: Seq<char>, i: int) -> bool {
    0 <= i && i + p.len() <= s.len() && s.subrange(i, i + p.len()) == p
}

pub open spec fn contains(s: Seq<char>, p: Seq<char>) -> bool {
    exists|i: int| occurs_at(s, p, i)
}

/// The first index at or after `i` where `p` occurs in `s` (`str::find`).
pub open spec fn find_from(s: Seq<char>, p: Seq<char>, i: int) -> Option<int>
    decreases s.len() + 1 - i,
{
    if i < 0 || i + p.len() > s.len() {
        None
    } else if occurs_at(s, p, i) {
        Some(i)
    } else {
        find_from(s, p, i + 1)
    }
}

pub open spec fn find(s: Seq<char>, p: Seq<char>) -> Option<int> {
    find_from(s, p, 0)
}

pub proof fn lemma_find_from(s: Seq<char>, p: Seq<char>, i: int)
    requires
        0 <= i,
    ensures
        match find_from(s, p, i) {
            Some(k) => i <= k && occurs_at(s, p, k) && forall|j: int|
                i <= j < k ==> !occurs_at(s, p, j),
            None => forall|j: int| i <= j ==> !occurs_at(s, p, j),
        },
    decreases s.len() + 1 - i,
{
    if i + p.len() > s.len() {
    } else if occurs_at(s, p, i) {
    } else {
        lemma_find_from(s, p, i + 1);
    }
}

pub proof fn lemma_find(s: Seq<char>, p: Seq<char>)
    ensures
        match find(s, p) {
            Some(k) => 0 <= k && k + p.len() <= s.len() && occurs_at(s, p, k) && forall|j: int|
                0 <= j < k ==> !occurs_at(s, p, j),
            None => !contains(s, p),
        },
{
    lemma_find_from(s, p, 0);
}

/// Searching the suffix that starts at `m` is searching `s` from `m` on.
pub proof fn lemma_find_from_skip(s: Seq<char>, p: Seq<char>, m: int, k: int)
    requires
        0 <= m <= s.len(),
        0 <= k,
    ensures
        find_from(s.skip(m), p, k) == match find_from(s, p, m + k) {
            Some(j) => Some(j - m),
            None => None::<int>,
        },
    decreases s.len() + 1 - (m + k),
{
    if k + p.len() > s.len() - m {
    } else {
        assert(s.skip(m).subrange(k, k + p.len()) =~= s.subrange(m + k, m + k + p.len()));
        if !occurs_at(s, p, m + k) {
            lemma_find_from_skip(s, p, m, k + 1);
        }
    }
}

/// `p` occurs at `i` exactly when the suffix from `i` starts with `p`.
pub proof fn lemma_occurs_at_prefix(s: Seq<char>, p: Seq<char>, i: int)
    requires
        0 <= i <= s.len(),
    ensures
        occurs_at(s, p, i) == has_prefix(s.skip(i), p),
{
    if i + p.len() <= s.len() {
        assert(s.skip(i).take(p.len() as int) =~= s.subrange(i, i + p.len()));
    }
}

/// Whether the suffix of `v` from `i` starts with `p`.
pub fn starts_with_at(v: &[char], p: &str, i: usize) -> (r: bool)
    requires
        i <= v.len(),
    ensures
        r == has_prefix(v@.skip(i as int), p@),
{
    let pv = chars_of(p);
    proof {
        lemma_occurs_at_prefix(v@, p@, i as int);
    }
    occurs_at_exec(v, pv.as_slice(), i)
}

/// The first occurrence of `p` in the suffix of `v` from `from`, as an
/// index into `v`.
pub fn find_in_suffix(v: &[char], p: &[char], from: usize) -> (r: Option<usize>)
    requires
        from <= v.len(),
    ensures
        match r {
            Some(j) => from <= j && find(v@.skip(from as int), p@) == Some(j - from),
            None => find(v@.skip(from as int), p@) is None,
        },
{
    proof {
        lemma_find_from_skip(v@, p@, from as int, 0);
        lemma_find_from(v@, p@, from as int);
    }
    find_chars_from(v, p, from)
}

/// Whether `p` occurs in `v` at index `i`.
pub fn occurs_at_exec(v: &[char], p: &[char], i: usize) -> (r: bool)
    ensures
        r == occurs_at(v@, p@, i as int),
{
    if p.len() > v.len() || i > v.len() - p.len() {
        return false;
    }
    let mut k: usize = 0;
    while k < p.len()
        invariant
            k <= p.len(),
            i + p.len() <= v.len(),
            forall|m: int| 0 <= m < k ==> v@[i + m] == p@[m],
        decreases p.len() - k,
    {
        if v[i + k] != p[k] {
            assert(v@.subrange(i as int, i + p.len())[k as int] != p@[k as int]);
            return false;
        }
        k = k + 1;
    }
    assert(v@.subrange(i as int, i + p.len()) =~= p@);
    true
}

/// First occurrence of `p` in `v` at or after `from`.
pub fn find_chars_from(v: &[char], p: &[char], from: usize) -> (r: Option<usize>)
    ensures
        match r {
            Some(k) => find_from(v@, p@, from as int) == Some(k as int),
            None => find_from(v@, p@, from as int) is None,
        },
{
    let mut i = from;
    while i <= v.len() && p.len() <= v.len() - i
        invariant
            from <= i,
            find_from(v@, p@, from as int) == find_from(v@, p@, i as int),
        decreases v.len() + 1 - i,
    {
        if occurs_at_exec(v, p, i) {
            return Some(i);
        }
        if i == v.len() {
            assert(find_from(v@, p@, i + 1) is None);
            return None;
        }
        i = i + 1;
    }
    None
}

pub fn find_chars(v: &[char], p: &[char]) -> (r: Option<usize>)
    ensures
        match r {
            Some(k) => find(v@, p@) == Some(k as int),
            None => find(v@, p@) is None,
        },
{
    find_chars_from(v, p, 0)
}

pub fn find_str(v: &[char], p: &str) -> (r: Option<usize>)
    ensures
        match r {
            Some(k) => find(v@, p@) == Some(k as int),
            None => find(v@, p@) is None,
        },
{
    let pv = chars_of(p);
    find_chars(v, pv.as_slice())
}

pub fn contains_str(v: &[char], p: &str) -> (r: bool)
    ensures
        r == contains(v@, p@),
{
    proof {
        lemma_find(v@, p@);
    }
    let f = find_str(v, p);
    f.is_some()
}

pub fn starts_with_str(v: &[char], p: &str) -> (r: bool)
    ensures
        r == has_prefix(v@, p@),
{
    let pv = chars_of(p);
    let r = occurs_at_exec(v, pv.as_slice(), 0);
    assert(r == has_prefix(v@, p@)) by {
        if pv@.len() <= v@.len() {
            assert(v@.subrange(0, pv@.len() as int) =~= v@.take(pv@.len() as int));
        }
    }
    r
}

pub fn ends_with_str(v: &[char], p: &str) -> (r: bool)
    ensures
        r == has_suffix(v@, p@),
{
    let pv = chars_of(p);
    if pv.len() > v.len() {
        return false;
    }
    let r = occurs_at_exec(v, pv.as_slice(), v.len() - pv.len());
    assert(v@.subrange(v@.len() - pv@.len(), v@.len() as int) =~= v@.skip(v@.len() - pv@.len()));
    r
}

pub fn contains_char(v: &[char], c: char) -> (r: bool)
    ensures
        r == v@.contains(c),
{
    let mut i: usize = 0;
    while i < v.len()
        invariant
            i <= v.len(),
            forall|k: int| 0 <= k < i ==> v@[k] != c,
        decreases v.len() - i,
    {
        if v[i] == c {
            return true;
        }
        i = i + 1;
    }
    false
}


/// The views of a sequence of strings.
pub open spec fn strings_view(v: Seq<String>) -> Seq<Seq<char>> {
    v.map_values(|s: String| s@)
}

/// The texts of a list of string slices.
pub open spec fn strs_view(items: Seq<&str>) -> Seq<Seq<char>> {
    items.map_values(|s: &str| s@)
}

/// Whether `v` holds a string equal to `x`.
pub fn contains_string(v: &Vec<String>, x: &[char]) -> (r: bool)
    ensures
        r == strings_view(v@).contains(x@),
{
    let mut i: usize = 0;
    while i < v.len()
        invariant
            i <= v.len(),
            forall|k: int| 0 <= k < i ==> strings_view(v@)[k] != x@,
        decreases v.len() - i,
    {
        let c = chars_of(v[i].as_str());
        assert(strings_view(v@)[i as int] == v@[i as int]@);
        if chars_eq(c.as_slice(), x) {
            return true;
        }
        i = i + 1;
    }
    false
}


/// The pieces of `s` that are not empty, in order.
pub open spec fn keep_nonempty(s: Seq<Seq<char>>) -> Seq<Seq<char>>
    decreases s.len(),
{
    if s.len() == 0 {
        s
    } else if s.last().len() > 0 {
        keep_nonempty(s.drop_last()).push(s.last())
    } else {
        keep_nonempty(s.drop_last())
    }
}

// ---------------------------------------------------------------------------
// Splitting and joining
// ---------------------------------------------------------------------------

/// The views of a vector of character vectors.
pub open spec fn views(v: Seq<Vec<char>>) -> Seq<Seq<char>> {
    v.map_values(|x: Vec<char>| x@)
}

/// `s` split at every character that occurs in `seps` (`str::split` with a
/// set of separator characters); there is always at least one piece.
pub open spec fn split_by(s: Seq<char>, seps: Seq<char>) -> Seq<Seq<char>>
    decreases s.len(),
{
    if s.len() == 0 {
        seq![Seq::<char>::empty()]
    } else {
        let rest = split_by(s.drop_last(), seps);
        if seps.contains(s.last()) {
            rest.push(Seq::<char>::empty())
        } else {
            rest.update(rest.len() - 1, rest.last().push(s.last()))
        }
    }
}

pub proof fn lemma_split_by_len(s: Seq<char>, seps: Seq<char>)
    ensures
        split_by(s, seps).len() >= 1,
    decreases s.len(),
{
    if s.len() > 0 {
        lemma_split_by_len(s.drop_last(), seps);
    }
}

/// Splits `v` at every character of `seps`.
pub fn split_chars(v: &[char], seps: &[char]) -> (r: Vec<Vec<char>>)
    ensures
        views(r@) == split_by(v@, seps@),
        r@.len() >= 1,
{
    let mut parts: Vec<Vec<char>> = Vec::new();
    let mut cur: Vec<char> = Vec::new();
    let mut i: usize = 0;
    assert(v@.take(0) =~= Seq::<char>::empty());
    while i < v.len()
        invariant
            i <= v.len(),
            views(parts@).push(cur@) == split_by(v@.take(i as int), seps@),
        decreases v.len() - i,
    {
        let ghost prev = v@.take(i as int);
        proof {
            lemma_split_by_len(prev, seps@);
        }
        assert(v@.take(i + 1).drop_last() =~= prev);
        if contains_char(seps, v[i]) {
            parts.push(cur);
            cur = Vec::new();
            assert(views(parts@).push(cur@) =~= split_by(prev, seps@).push(Seq::<char>::empty()));
        } else {
            let ghost old_cur = cur@;
            cur.push(v[i]);
            assert(views(parts@).push(cur@) =~= split_by(prev, seps@).update(
                split_by(prev, seps@).len() - 1,
                split_by(prev, seps@).last().push(v@[i as int]),
            ));
        }
        i = i + 1;
    }
    assert(v@.take(v.len() as int) =~= v@);
    parts.push(cur);
    parts
}

/// Splits `v` at every occurrence of the character `sep`.
pub fn split_at_char(v: &[char], sep: char) -> (r: Vec<Vec<char>>)
    ensures
        views(r@) == split_by(v@, seq![sep]),
        r@.len() >= 1,
{
    let seps = vec![sep];
    assert(seps@ =~= seq![sep]);
    split_chars(v, seps.as_slice())
}

/// `parts` joined with `sep` between neighbours (`[T]::join`).
pub open spec fn join(parts: Seq<Seq<char>>, sep: Seq<char>) -> Seq<char>
    decreases parts.len(),
{
    if parts.len() == 0 {
        Seq::<char>::empty()
    } else if parts.len() == 1 {
        parts[0]
    } else {
        join(parts.drop_last(), sep) + sep + parts.last()
    }
}

pub fn join_chars(parts: &Vec<Vec<char>>, sep: &[char]) -> (r: Vec<char>)
    ensures
        r@ == join(views(parts@), sep@),
{
    let mut r: Vec<char> = Vec::new();
    let mut i: usize = 0;
    while i < parts.len()
        invariant
            i <= parts.len(),
            r@ == join(views(parts@.take(i as int)), sep@),
        decreases parts.len() - i,
    {
        let ghost prev = views(parts@.take(i as int));
        if i > 0 {
            push_all(&mut r, sep);
        }
        push_all(&mut r, parts[i].as_slice());
        i = i + 1;
        assert(views(parts@.take(i as int)).drop_last() =~= prev);
        if i == 1 {
            assert(r@ =~= views(parts@.take(i as int))[0]);
        }
    }
    assert(parts@.take(parts.len() as int) =~= parts@);
    r
}

pub fn join_str(parts: &Vec<Vec<char>>, sep: &str) -> (r: Vec<char>)
    ensures
        r@ == join(views(parts@), sep@),
{
    let sv = chars_of(sep);
    join_chars(parts, sv.as_slice())
}

/// The number of times `c` occurs in `s`.
pub open spec fn count_char(s: Seq<char>, c: char) -> nat
    decreases s.len(),
{
    if s.len() == 0 {
        0
    } else {
        count_char(s.drop_last(), c) + if s.last() == c {
            1nat
        } else {
            0nat
        }
    }
}

pub proof fn lemma_count_concat(a: Seq<char>, b: Seq<char>, c: char)
    ensures
        count_char(a + b, c) == count_char(a, c) + count_char(b, c),
    decreases b.len(),
{
    if b.len() == 0 {
        assert(a + b =~= a);
    } else {
        assert((a + b).drop_last() =~= a + b.drop_last());
        lemma_count_concat(a, b.drop_last(), c);
    }
}

/// Splitting at a character gives one piece more than it has occurrences.
pub proof fn lemma_split_by_count(s: Seq<char>, c: char)
    ensures
        split_by(s, seq![c]).len() == count_char(s, c) + 1,
    decreases s.len(),
{
    if s.len() > 0 {
        lemma_split_by_count(s.drop_last(), c);
        lemma_split_by_len(s.drop_last(), seq![c]);
        assert(seq![c].contains(s.last()) == (s.last() == c)) by {
            if s.last() == c {
                assert(seq![c][0] == c);
            }
        }
    }
}

// ---------------------------------------------------------------------------
// Replacing
// ---------------------------------------------------------------------------

/// Leftmost, non-overlapping replacement of `pat` by `rep` (`str::replace`
/// for a non-empty pattern).
pub open spec fn replace_all(s: Seq<char>, pat: Seq<char>, rep: Seq<char>) -> Seq<char>
    decreases s.len(),
{
    if s.len() == 0 || pat.len() == 0 {
        s
    } else if has_prefix(s, pat) {
        rep + replace_all(s.skip(pat.len() as int), pat, rep)
    } else {
        seq![s[0]] + replace_all(s.drop_first(), pat, rep)
    }
}

pub fn replace_chars(v: &[char], pat: &[char], rep: &[char]) -> (r: Vec<char>)
    requires
        pat.len() > 0,
    ensures
        r@ == replace_all(v@, pat@, rep@),
{
    let mut r: Vec<char> = Vec::new();
    let mut i: usize = 0;
    assert(v@.skip(0) =~= v@);
    while i < v.len()
        invariant
            i <= v.len(),
            pat.len() > 0,
            r@ + replace_all(v@.skip(i as int), pat@, rep@) == replace_all(v@, pat@, rep@),
        decreases v.len() - i,
    {
        let ghost rest = v@.skip(i as int);
        if occurs_at_exec(v, pat, i) {
            assert(rest.take(pat@.len() as int) =~= v@.subrange(i as int, i + pat@.len()));
            assert(rest.skip(pat@.len() as int) =~= v@.skip(i + pat@.len()));
            push_all(&mut r, rep);
            i = i + pat.len();
            assert(r@ + replace_all(v@.skip(i as int), pat@, rep@) =~= replace_all(v@, pat@, rep@));
        } else {
            assert(!has_prefix(rest, pat@)) by {
                if has_prefix(rest, pat@) {
                    assert(rest.take(pat@.len() as int) =~= v@.subrange(i as int, i + pat@.len()));
                }
            }
            assert(rest.drop_first() =~= v@.skip(i + 1));
            r.push(v[i]);
            i = i + 1;
            assert(r@ + replace_all(v@.skip(i as int), pat@, rep@) =~= replace_all(v@, pat@, rep@));
        }
    }
    assert(v@.skip(v.len() as int) =~= Seq::<char>::empty());
    assert(r@ + Seq::<char>::empty() =~= r@);
    r
}

pub fn replace_str(v: &[char], pat: &str, rep: &str) -> (r: Vec<char>)
    requires
        pat@.len() > 0,
    ensures
        r@ == replace_all(v@, pat@, rep@),
{
    let pv = chars_of(pat);
    let rv = chars_of(rep);
    replace_chars(v, pv.as_slice(), rv.as_slice())
}

// ---------------------------------------------------------------------------
// Unsigned decimal numbers
// ---------------------------------------------------------------------------

pub open spec fn digit_value(c: char) -> nat {
    ((c as u32) - ('0' as u32)) as nat
}

/// Value of a string of decimal digits.
pub open spec fn digits_value(s: Seq<char>) -> nat
    decreases s.len(),
{
    if s.len() == 0 {
        0
    } else {
        digits_value(s.drop_last()) * 10 + digit_value(s.last())
    }
}

/// What `str::parse` gives for an unsigned integer type without a bound:
/// an optional `+`, then one or more ASCII digits.
pub open spec fn parse_unsigned(s: Seq<char>) -> Option<nat> {
    let body = if s.len() > 0 && s[0] == '+' { s.drop_first() } else { s };
    if body.len() > 0 && all_digits(body) {
        Some(digits_value(body))
    } else {
        None
    }
}

/// `parse_unsigned` bounded by the type's maximum.
pub open spec fn parse_bounded(s: Seq<char>, max: nat) -> Option<nat> {
    match parse_unsigned(s) {
        Some(n) => if n <= max { Some(n) } else { None },
        None => None,
    }
}

proof fn lemma_digits_value_grows(s: Seq<char>, k: int)
    requires
        0 <= k <= s.len(),
        all_digits(s),
    ensures
        digits_value(s.take(k)) <= digits_value(s),
    decreases s.len() - k,
{
    if k < s.len() {
        lemma_digits_value_grows(s, k + 1);
        assert(s.take(k + 1).drop_last() =~= s.take(k));
    } else {
        assert(s.take(k) =~= s);
    }
}

/// Parses an unsigned decimal number no larger than `max`.
pub fn parse_unsigned_chars(v: &[char], max: u64) -> (r: Option<u64>)
    ensures
        match r {
            Some(n) => parse_bounded(v@, max as nat) == Some(n as nat),
            None => parse_bounded(v@, max as nat) is None,
        },
{
    let b = if v.len() > 0 && v[0] == '+' {
        slice_range(v, 1, v.len())
    } else {
        slice_range(v, 0, v.len())
    };
    let ghost body = if v@.len() > 0 && v@[0] == '+' { v@.drop_first() } else { v@ };
    assert(b@ =~= body);
    if b.len() == 0 || !chars_all_digits(b.as_slice()) {
        return None;
    }
    let mut acc: u64 = 0;
    let mut i: usize = 0;
    assert(b@.take(0) =~= Seq::<char>::empty());
    while i < b.len()
        invariant
            i <= b.len(),
            all_digits(b@),
            b@ == body,
            body == (if v@.len() > 0 && v@[0] == '+' { v@.drop_first() } else { v@ }),
            acc as nat == digits_value(b@.take(i as int)),
            acc <= max,
        decreases b.len() - i,
    {
        assert(is_digit(b@[i as int]));
        let d = (b[i] as u32 - '0' as u32) as u64;
        assert(b@.take(i + 1).drop_last() =~= b@.take(i as int));
        assert(digits_value(b@.take(i + 1)) == acc * 10 + d);
        if d > max || acc > (max - d) / 10 {
            proof {
                lemma_digits_value_grows(b@, i + 1);
                if d <= max {
                    assert(acc * 10 + d > max) by (nonlinear_arith)
                        requires
                            acc > (max - d) / 10,
                            d <= max,
                    ;
                }
                assert(digits_value(b@) > max);
                assert(parse_unsigned(v@) == Some(digits_value(body)));
            }
            return None;
        }
        assert(acc * 10 + d <= max) by (nonlinear_arith)
            requires
                acc <= (max - d) / 10,
                d <= max,
        ;
        acc = acc * 10 + d;
        i = i + 1;
    }
    assert(b@.take(b.len() as int) =~= b@);
    Some(acc)
}


// ---------------------------------------------------------------------------
// Trimming a chosen set of characters
// ---------------------------------------------------------------------------

/// `s` without leading characters from `set` (`str::trim_start_matches`).
pub open spec fn trim_start_set(s: Seq<char>, set: Seq<char>) -> Seq<char>
    decreases s.len(),
{
    if s.len() > 0 && set.contains(s[0]) {
        trim_start_set(s.drop_first(), set)
    } else {
        s
    }
}

/// `s` without trailing characters from `set` (`str::trim_end_matches`).
pub open spec fn trim_end_set(s: Seq<char>, set: Seq<char>) -> Seq<char>
    decreases s.len(),
{
    if s.len() > 0 && set.contains(s.last()) {
        trim_end_set(s.drop_last(), set)
    } else {
        s
    }
}

pub fn trim_start_set_chars(v: &[char], set: &[char]) -> (r: Vec<char>)
    ensures
        r@ == trim_start_set(v@, set@),
{
    let n = v.len();
    let mut i: usize = 0;
    assert(v@.subrange(0, n as int) =~= v@);
    while i < n && contains_char(set, v[i])
        invariant
            i <= n,
            n == v.len(),
            trim_start_set(v@, set@) == trim_start_set(v@.subrange(i as int, n as int), set@),
        decreases n - i,
    {
        assert(v@.subrange(i as int, n as int).drop_first() =~= v@.subrange(i + 1, n as int));
        i = i + 1;
    }
    slice_range(v, i, n)
}

pub fn trim_end_set_chars(v: &[char], set: &[char]) -> (r: Vec<char>)
    ensures
        r@ == trim_end_set(v@, set@),
{
    let mut j: usize = v.len();
    assert(v@.subrange(0, j as int) =~= v@);
    while j > 0 && contains_char(set, v[j - 1])
        invariant
            j <= v.len(),
            trim_end_set(v@, set@) == trim_end_set(v@.subrange(0, j as int), set@),
        decreases j,
    {
        assert(v@.subrange(0, j as int).drop_last() =~= v@.subrange(0, j - 1));
        j = j - 1;
    }
    slice_range(v, 0, j)
}

/// Removes trailing copies of the character `c`.
pub fn trim_end_char(v: &[char], c: char) -> (r: Vec<char>)
    ensures
        r@ == trim_end_set(v@, seq![c]),
{
    let set = vec![c];
    assert(set@ =~= seq![c]);
    trim_end_set_chars(v, set.as_slice())
}

// ---------------------------------------------------------------------------
// Decimal rendering of numbers
// ---------------------------------------------------------------------------

pub open spec fn digit_char(d: nat) -> char {
    ((d + 48) as u8) as char
}

/// Decimal digits of `n`, as `{}` formats an unsigned integer.
pub open spec fn decimal(n: nat) -> Seq<char>
    decreases n,
{
    if n < 10 {
        seq![digit_char(n)]
    } else {
        decimal(n / 10).push(digit_char(n % 10))
    }
}

proof fn lemma_digit_char(d: nat)
    requires
        d < 10,
    ensures
        is_digit(digit_char(d)),
        digit_value(digit_char(d)) == d,
{
    let c = digit_char(d);
    assert(((d + 48) as u8) as u32 == d + 48);
    vstd::utf8::char_u32_cast(c, (d + 48) as u32);
}

/// Law: the decimal digits of a number read back as that number.
pub proof fn lemma_decimal_parses_back(n: nat)
    ensures
        all_digits(decimal(n)),
        decimal(n).len() > 0,
        digits_value(decimal(n)) == n,
        parse_unsigned(decimal(n)) == Some(n),
    decreases n,
{
    if n < 10 {
        lemma_digit_char(n);
        assert(decimal(n).drop_last() =~= Seq::<char>::empty());
        assert(digits_value(decimal(n)) == digits_value(Seq::<char>::empty()) * 10 + digit_value(digit_char(n)));
    } else {
        lemma_decimal_parses_back(n / 10);
        lemma_digit_char(n % 10);
        let d = decimal(n);
        assert(d.drop_last() =~= decimal(n / 10));
        assert(d.last() == digit_char(n % 10));
        assert forall|i: int| 0 <= i < d.len() implies is_digit(#[trigger] d[i]) by {
            if i < d.len() - 1 {
                assert(d[i] == decimal(n / 10)[i]);
            }
        }
        assert((n / 10) * 10 + n % 10 == n) by (nonlinear_arith);
        assert(digits_value(d) == digits_value(d.drop_last()) * 10 + digit_value(d.last()));
    }
    assert(parse_unsigned(decimal(n)) == Some(digits_value(decimal(n))));
    assert(decimal(n)[0] != '+') by {
        assert(is_digit(decimal(n)[0]));
    }
}

/// Law: different numbers have different decimal digits.
pub proof fn lemma_decimal_injective(a: nat, b: nat)
    requires
        decimal(a) == decimal(b),
    ensures
        a == b,
{
    lemma_decimal_parses_back(a);
    lemma_decimal_parses_back(b);
}

/// Appends the decimal digits of `n`.
pub fn push_decimal(out: &mut Vec<char>, n: u64)
    ensures
        final(out)@ == old(out)@ + decimal(n as nat),
    decreases n,
{
    if n >= 10 {
        push_decimal(out, n / 10);
    }
    let d = (n % 10) as u8;
    out.push((d + 48) as char);
    assert(decimal(n as nat) =~= if n < 10 {
        seq![digit_char(n as nat)]
    } else {
        decimal((n / 10) as nat).push(digit_char((n % 10) as nat))
    });
}

/// The decimal digits of `n`.
pub fn decimal_chars(n: u64) -> (r: Vec<char>)
    ensures
        r@ == decimal(n as nat),
{
    let mut r: Vec<char> = Vec::new();
    push_decimal(&mut r, n);
    assert(r@ =~= decimal(n as nat));
    r
}


// ---------------------------------------------------------------------------
// Last occurrence of a character
// ---------------------------------------------------------------------------

/// Index of the last `c` in `s` (`str::rfind` with a character).
pub open spec fn rfind_char(s: Seq<char>, c: char) -> Option<int>
    decreases s.len(),
{
    if s.len() == 0 {
        None
    } else if s.last() == c {
        Some(s.len() - 1)
    } else {
        rfind_char(s.drop_last(), c)
    }
}

pub proof fn lemma_rfind_char(s: Seq<char>, c: char)
    ensures
        match rfind_char(s, c) {
            Some(k) => 0 <= k < s.len() && s[k] == c && forall|j: int| k < j < s.len() ==> s[j] != c,
            None => !s.contains(c),
        },
    decreases s.len(),
{
    if s.len() > 0 && s.last() != c {
        lemma_rfind_char(s.drop_last(), c);
        if rfind_char(s, c) is None {
            assert forall|j: int| 0 <= j < s.len() implies s[j] != c by {
                if j < s.len() - 1 {
                    assert(s.drop_last()[j] == s[j]);
                }
            }
        } else {
            let k = rfind_char(s, c)->0;
            assert forall|j: int| k < j < s.len() implies s[j] != c by {
                if j < s.len() - 1 {
                    assert(s.drop_last()[j] == s[j]);
                }
            }
            assert(s[k] == s.drop_last()[k]);
        }
    }
}

pub fn rfind_char_exec(v: &[char], c: char) -> (r: Option<usize>)
    ensures
        match r {
            Some(k) => rfind_char(v@, c) == Some(k as int),
            None => rfind_char(v@, c) is None,
        },
{
    let mut j: usize = v.len();
    assert(v@.take(j as int) =~= v@);
    while j > 0
        invariant
            j <= v.len(),
            rfind_char(v@, c) == rfind_char(v@.take(j as int), c),
        decreases j,
    {
        if v[j - 1] == c {
            return Some(j - 1);
        }
        assert(v@.take(j as int).drop_last() =~= v@.take(j - 1));
        j = j - 1;
    }
    None
}


proof fn lemma_trim_start_fixed(s: Seq<char>)
    ensures
        trim_start(trim_start(s)) == trim_start(s),
        trim_start(s).len() > 0 ==> !is_ws(trim_start(s)[0]),
    decreases s.len(),
{
    if s.len() > 0 && is_ws(s[0]) {
        lemma_trim_start_fixed(s.drop_first());
    }
}

proof fn lemma_trim_end_fixed(s: Seq<char>)
    ensures
        trim_end(trim_end(s)) == trim_end(s),
        trim_end(s).len() > 0 ==> !is_ws(trim_end(s).last()),
    decreases s.len(),
{
    if s.len() > 0 && is_ws(s.last()) {
        lemma_trim_end_fixed(s.drop_last());
    }
}

proof fn lemma_trim_end_keeps_start(s: Seq<char>)
    requires
        s.len() > 0 ==> !is_ws(s[0]),
    ensures
        trim_end(s).len() > 0 ==> !is_ws(trim_end(s)[0]),
        trim_start(trim_end(s)) == trim_end(s),
    decreases s.len(),
{
    if s.len() > 0 && is_ws(s.last()) {
        if s.len() > 1 {
            assert(s.drop_last()[0] == s[0]);
        }
        lemma_trim_end_keeps_start(s.drop_last());
    }
}

/// Law: trimming twice is trimming once.
pub proof fn lemma_trim_idempotent(s: Seq<char>)
    ensures
        trim(trim(s)) == trim(s),
{
    lemma_trim_start_fixed(s);
    lemma_trim_end_keeps_start(trim_start(s));
    lemma_trim_end_fixed(trim_start(s));
}


/// A sequence without whitespace at either end is its own trim.
pub proof fn lemma_trim_plain(s: Seq<char>)
    requires
        s.len() > 0,
        !is_ws(s[0]),
        !is_ws(s.last()),
    ensures
        trim(s) == s,
{
}


/// `s` with every trailing repeat of `p` taken off.
pub open spec fn strip_suffixes(s: Seq<char>, p: Seq<char>) -> Seq<char>
    decreases s.len(),
{
    if p.len() > 0 && occurs_at(s, p, s.len() - p.len()) {
        strip_suffixes(s.take(s.len() - p.len()), p)
    } else {
        s
    }
}

pub fn strip_suffixes_chars(v: &[char], p: &[char]) -> (r: Vec<char>)
    ensures
        r@ == strip_suffixes(v@, p@),
{
    let mut end: usize = v.len();
    assert(v@.take(end as int) =~= v@);
    while p.len() > 0 && end >= p.len() && occurs_at_exec(v, p, end - p.len())
        invariant
            end <= v.len(),
            strip_suffixes(v@, p@) == strip_suffixes(v@.take(end as int), p@),
        decreases end,
    {
        let ghost t = v@.take(end as int);
        assert(t.subrange(end - p.len(), end as int) =~= v@.subrange(end - p.len(), end as int));
        assert(t.take(end - p.len()) =~= v@.take(end - p.len()));
        end = end - p.len();
    }
    proof {
        let t = v@.take(end as int);
        if p.len() > 0 && end >= p.len() {
            assert(t.subrange(end - p.len(), end as int) =~= v@.subrange(end - p.len(), end as int));
        }
    }
    slice_range(v, 0, end)
}

} // verus!
