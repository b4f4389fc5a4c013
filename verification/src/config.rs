//! Runtime configuration from the text of `setting.ini`.
use vstd::prelude::*;
use crate::model::AppConfig;
use crate::paths::{is_absolute, is_absolute_path, join_path, path_join};
use crate::text::{
    all_digits, chars_all_digits, chars_eq_str, chars_of, digits_value, decimal, decimal_chars, find, find_str, has_prefix, lower, lower_chars,
    parse_bounded, parse_unsigned_chars, push_all, push_str, rfind_char, rfind_char_exec,
    slice_range, split_by, split_chars, split_at_char, starts_with_str, string_from_chars, trim,
    trim_chars, trim_end_char, trim_end_set, views, lemma_split_by_len, lemma_find,
    lemma_rfind_char,
};

verus! {

// ---------------------------------------------------------------------------
// Scalar settings
// ---------------------------------------------------------------------------

/// A setting read as a flag: `1`, or `true`, `yes`, `on` in any ASCII case.
pub open spec fn flag_value(v: Seq<char>) -> bool {
    let t = trim(v);
    t == "1"@ || lower(t) == "true"@ || lower(t) == "yes"@ || lower(t) == "on"@
}

/// Law: a flag is on exactly when its value, without surrounding space, is
/// `1`, or `true`, `yes` or `on` in any ASCII case (so `true`, `TRUE` and
/// ` True ` all turn a flag on); anything else, an empty value included,
/// leaves it off; and surrounding space never changes the reading.
pub proof fn lemma_flag_value(v: Seq<char>)
    ensures
        lower(trim(v)) == "true"@ ==> flag_value(v),
        lower(trim(v)) == "yes"@ ==> flag_value(v),
        lower(trim(v)) == "on"@ ==> flag_value(v),
        trim(v) == "1"@ ==> flag_value(v),
        flag_value(v) ==> (trim(v) == "1"@ || lower(trim(v)) == "true"@ || lower(trim(v)) == "yes"@ || lower(
            trim(v),
        ) == "on"@),
        trim(v).len() == 0 ==> !flag_value(v),
        flag_value(v) == flag_value(trim(v)),
{
    crate::text::lemma_trim_idempotent(v);
    reveal_strlit("1");
    reveal_strlit("true");
    reveal_strlit("yes");
    reveal_strlit("on");
    if trim(v).len() == 0 {
        assert(lower(trim(v)).len() == 0);
    }
}

pub fn parse_bool(value: Option<&str>) -> (r: bool)
    ensures
        r == match value {
            Some(v) => flag_value(v@),
            None => false,
        },
{
    match value {
        None => false,
        Some(v) => {
            let c = chars_of(v);
            let t = trim_chars(c.as_slice());
            let l = lower_chars(t.as_slice());
            chars_eq_str(t.as_slice(), "1") || chars_eq_str(l.as_slice(), "true")
                || chars_eq_str(l.as_slice(), "yes") || chars_eq_str(l.as_slice(), "on")
        },
    }
}

/// A port setting: the trimmed value as a `u16`, or `default`.
pub fn parse_port(value: Option<&str>, default: u16) -> (r: u16)
    ensures
        r == match value {
            Some(v) => match parse_bounded(trim(v@), 65535) {
                Some(n) => n as u16,
                None => default,
            },
            None => default,
        },
{
    match value {
        None => default,
        Some(v) => {
            let c = chars_of(v);
            let t = trim_chars(c.as_slice());
            match parse_unsigned_chars(t.as_slice(), 65535) {
                Some(n) => n as u16,
                None => default,
            }
        },
    }
}

/// A numeric setting: the trimmed value as a `u64`, or `default`.
pub fn parse_u64(value: Option<&str>, default: u64) -> (r: u64)
    ensures
        r == match value {
            Some(v) => match parse_bounded(trim(v@), u64::MAX as nat) {
                Some(n) => n as u64,
                None => default,
            },
            None => default,
        },
{
    match value {
        None => default,
        Some(v) => {
            let c = chars_of(v);
            let t = trim_chars(c.as_slice());
            match parse_unsigned_chars(t.as_slice(), u64::MAX) {
                Some(n) => n,
                None => default,
            }
        },
    }
}

// ---------------------------------------------------------------------------
// Directories
// ---------------------------------------------------------------------------

/// A runtime directory: the configured value when non-empty (relative values
/// are taken below `repo_root`), else `repo_root/child_name`.
pub open spec fn runtime_dir(repo_root: Seq<char>, raw: Option<Seq<char>>, child: Seq<char>) -> Seq<char> {
    match raw {
        Some(v) => if trim(v).len() > 0 {
            path_join(repo_root, trim(v))
        } else {
            path_join(repo_root, child)
        },
        None => path_join(repo_root, child),
    }
}

pub fn resolve_runtime_dir(repo_root: &str, raw_value: Option<&str>, child_name: &str) -> (r: String)
    ensures
        r@ == runtime_dir(
            repo_root@,
            match raw_value {
                Some(v) => Some(v@),
                None => None,
            },
            child_name@,
        ),
{
    if let Some(v) = raw_value {
        let c = chars_of(v);
        let t = trim_chars(c.as_slice());
        if t.len() > 0 {
            let s = string_from_chars(t.as_slice());
            return join_path(repo_root, s.as_str());
        }
    }
    join_path(repo_root, child_name)
}

// ---------------------------------------------------------------------------
// Host names and addresses
// ---------------------------------------------------------------------------

/// The host part of a configured domain: scheme, path, query, fragment and
/// port removed, and IPv6 brackets taken off.
pub open spec fn domain_host(domain: Seq<char>) -> Seq<char> {
    let trimmed = trim_end_set(trim(domain), seq!['/']);
    let without_scheme = if has_prefix(trimmed, "http://"@) {
        trimmed.skip(7)
    } else if has_prefix(trimmed, "https://"@) {
        trimmed.skip(8)
    } else {
        trimmed
    };
    let without_path = split_by(without_scheme, seq!['/', '?', '#'])[0];
    let bracketed = without_path.len() > 0 && without_path[0] == '[' && find(
        without_path.drop_first(),
        seq![']'],
    ) is Some;
    if bracketed {
        without_path.drop_first().take(find(without_path.drop_first(), seq![']'])->0)
    } else {
        match rfind_char(without_path, ':') {
            Some(k) => if !without_path.take(k).contains(':') {
                without_path.take(k)
            } else {
                without_path
            },
            None => without_path,
        }
    }
}

pub fn normalize_domain_value(domain: &str) -> (r: String)
    ensures
        r@ == domain_host(domain@),
{
    let c = chars_of(domain);
    let t = trim_chars(c.as_slice());
    let trimmed = trim_end_char(t.as_slice(), '/');
    proof {
        reveal_strlit("http://");
        reveal_strlit("https://");
    }
    let without_scheme = if starts_with_str(trimmed.as_slice(), "http://") {
        slice_range(trimmed.as_slice(), 7, trimmed.len())
    } else if starts_with_str(trimmed.as_slice(), "https://") {
        slice_range(trimmed.as_slice(), 8, trimmed.len())
    } else {
        slice_range(trimmed.as_slice(), 0, trimmed.len())
    };
    assert(trimmed@.subrange(0, trimmed@.len() as int) =~= trimmed@);
    let seps = vec!['/', '?', '#'];
    assert(seps@ =~= seq!['/', '?', '#']);
    let pieces = split_chars(without_scheme.as_slice(), seps.as_slice());
    let without_path = &pieces[0];
    assert(without_path@ == split_by(without_scheme@, seq!['/', '?', '#'])[0]);
    if without_path.len() > 0 && without_path[0] == '[' {
        let rest = slice_range(without_path.as_slice(), 1, without_path.len());
        assert(rest@ =~= without_path@.drop_first());
        if let Some(k) = find_str(rest.as_slice(), "]") {
            proof {
                reveal_strlit("]");
                assert("]"@ =~= seq![']']);
                lemma_find(rest@, seq![']']);
            }
            let host = slice_range(rest.as_slice(), 0, k);
            return string_from_chars(host.as_slice());
        }
        proof {
            reveal_strlit("]");
            assert("]"@ =~= seq![']']);
        }
    }
    proof {
        reveal_strlit("]");
        assert("]"@ =~= seq![']']);
    }
    match rfind_char_exec(without_path.as_slice(), ':') {
        Some(k) => {
            proof {
                lemma_rfind_char(without_path@, ':');
            }
            let host = slice_range(without_path.as_slice(), 0, k);
            if !crate::text::contains_char(host.as_slice(), ':') {
                return string_from_chars(host.as_slice());
            }
            string_from_chars(without_path.as_slice())
        },
        None => string_from_chars(without_path.as_slice()),
    }
}

/// One decimal octet of a dotted IPv4 address: one to three digits, no
/// leading zero, at most 255.
pub open spec fn ipv4_octet(p: Seq<char>) -> bool {
    &&& 1 <= p.len() <= 3
    &&& all_digits(p)
    &&& (p.len() == 1 || p[0] != '0')
    &&& digits_value(p) <= 255
}

/// A dotted-quad IPv4 address such as `192.168.0.1`.
pub open spec fn ipv4_address(s: Seq<char>) -> bool {
    let parts = split_by(s, seq!['.']);
    parts.len() == 4 && forall|i: int| 0 <= i < 4 ==> ipv4_octet(#[trigger] parts[i])
}

fn is_ipv4_octet(p: &[char]) -> (r: bool)
    ensures
        r == ipv4_octet(p@),
{
    if p.len() < 1 || p.len() > 3 || !chars_all_digits(p) {
        return false;
    }
    if p.len() > 1 && p[0] == '0' {
        return false;
    }
    match parse_unsigned_chars(p, 255) {
        Some(_) => true,
        None => false,
    }
}

pub fn is_ipv4_address(text: &[char]) -> (r: bool)
    ensures
        r == ipv4_address(text@),
{
    let parts = split_at_char(text, '.');
    if parts.len() != 4 {
        return false;
    }
    let mut i: usize = 0;
    while i < 4
        invariant
            i <= 4,
            parts@.len() == 4,
            views(parts@) == split_by(text@, seq!['.']),
            forall|k: int| 0 <= k < i ==> ipv4_octet(#[trigger] views(parts@)[k]),
        decreases 4 - i,
    {
        if !is_ipv4_octet(parts[i].as_slice()) {
            assert(views(parts@)[i as int] == parts@[i as int]@);
            return false;
        }
        i = i + 1;
    }
    true
}

/// The address to bind for a configured domain: the host itself when it is
/// a dotted IPv4 address, otherwise the loopback address.
pub open spec fn bind_host(domain: Seq<char>) -> Seq<char> {
    let n = domain_host(domain);
    if n.len() == 0 || lower(n) == "localhost"@ {
        "127.0.0.1"@
    } else if ipv4_address(n) {
        n
    } else {
        "127.0.0.1"@
    }
}

pub fn extract_bind_host(domain: &str) -> (r: String)
    ensures
        r@ == bind_host(domain@),
{
    let normalized = normalize_domain_value(domain);
    let c = chars_of(normalized.as_str());
    let l = lower_chars(c.as_slice());
    if c.len() == 0 || chars_eq_str(l.as_slice(), "localhost") {
        return crate::text::owned("127.0.0.1");
    }
    if is_ipv4_address(c.as_slice()) {
        normalized
    } else {
        crate::text::owned("127.0.0.1")
    }
}

/// `host:port` to listen on.
pub open spec fn bind_addr(domain: Option<Seq<char>>, port: u16) -> Seq<char> {
    let host = match domain {
        Some(d) => if bind_host(d).len() > 0 { bind_host(d) } else { "127.0.0.1"@ },
        None => "127.0.0.1"@,
    };
    host + ":"@ + decimal(port as nat)
}

pub fn derive_bind_addr(domain: Option<&str>, port: u16) -> (r: String)
    ensures
        r@ == bind_addr(
            match domain {
                Some(d) => Some(d@),
                None => None,
            },
            port,
        ),
{
    let mut out: Vec<char> = Vec::new();
    match domain {
        Some(d) => {
            let host = extract_bind_host(d);
            if host.as_str().is_empty() {
                push_str(&mut out, "127.0.0.1");
            } else {
                push_str(&mut out, host.as_str());
            }
        },
        None => push_str(&mut out, "127.0.0.1"),
    }
    push_str(&mut out, ":");
    let digits = decimal_chars(port as u64);
    push_all(&mut out, digits.as_slice());
    string_from_chars(out.as_slice())
}

/// `http` on port 80 and `https` on port 443 need no explicit port.
pub open spec fn default_port(scheme: Seq<char>, port: u16) -> bool {
    (scheme == "http"@ && port == 80) || (scheme == "https"@ && port == 443)
}

pub fn is_default_port(scheme: &str, port: u16) -> (r: bool)
    ensures
        r == default_port(scheme@, port),
{
    (crate::text::str_eq(scheme, "http") && port == 80) || (crate::text::str_eq(scheme, "https")
        && port == 443)
}

/// The public base URL of the server.
pub open spec fn host_name(
    domain: Option<Seq<char>>,
    port: u16,
    use_proxy: bool,
    proxy_port: u16,
    proxy_ssl: bool,
) -> Seq<char> {
    let raw = match domain {
        Some(d) => if trim(d).len() > 0 { Some(trim(d)) } else { None },
        None => None,
    };
    if raw matches Some(r) && (has_prefix(r, "http://"@) || has_prefix(r, "https://"@)) {
        trim_end_set(raw->0, seq!['/'])
    } else {
        let d = match raw {
            Some(r) => if domain_host(r).len() > 0 { domain_host(r) } else { "localhost"@ },
            None => "localhost"@,
        };
        let scheme = if use_proxy && proxy_ssl { "https"@ } else { "http"@ };
        let public_port = if use_proxy { proxy_port } else { port };
        if default_port(scheme, public_port) {
            scheme + "://"@ + d
        } else {
            scheme + "://"@ + d + ":"@ + decimal(public_port as nat)
        }
    }
}

pub fn derive_host_name(
    domain: Option<&str>,
    port: u16,
    use_proxy: bool,
    proxy_port: u16,
    proxy_ssl: bool,
) -> (r: String)
    ensures
        r@ == host_name(
            match domain {
                Some(d) => Some(d@),
                None => None,
            },
            port,
            use_proxy,
            proxy_port,
            proxy_ssl,
        ),
{
    let mut raw: Option<Vec<char>> = None;
    if let Some(d) = domain {
        let c = chars_of(d);
        let t = trim_chars(c.as_slice());
        if t.len() > 0 {
            raw = Some(t);
        }
    }
    if let Some(r) = &raw {
        if starts_with_str(r.as_slice(), "http://") || starts_with_str(r.as_slice(), "https://") {
            let t = trim_end_char(r.as_slice(), '/');
            return string_from_chars(t.as_slice());
        }
    }
    let mut out: Vec<char> = Vec::new();
    let scheme = if use_proxy && proxy_ssl { "https" } else { "http" };
    let public_port = if use_proxy { proxy_port } else { port };
    push_str(&mut out, scheme);
    push_str(&mut out, "://");
    let mut host_done = false;
    if let Some(r) = &raw {
        let rs = string_from_chars(r.as_slice());
        let n = normalize_domain_value(rs.as_str());
        if !n.as_str().is_empty() {
            push_str(&mut out, n.as_str());
            host_done = true;
        }
    }
    if !host_done {
        push_str(&mut out, "localhost");
    }
    if !is_default_port(scheme, public_port) {
        push_str(&mut out, ":");
        let digits = decimal_chars(public_port as u64);
        push_all(&mut out, digits.as_slice());
    }
    string_from_chars(out.as_slice())
}


// ---------------------------------------------------------------------------
// The INI document
// ---------------------------------------------------------------------------

/// How one line of `setting.ini` is read.
pub enum IniLine {
    Skip,
    Section(Seq<char>),
    Pair(Seq<char>, Seq<char>),
    Invalid,
}

/// Blank lines and `#`/`;` comments are skipped; `[name]` opens a section
/// (lower-cased); `key=value` assigns (key lower-cased, both trimmed).
pub open spec fn classify_line(raw: Seq<char>) -> IniLine {
    let line = trim(raw);
    if line.len() == 0 || line[0] == '#' || line[0] == ';' {
        IniLine::Skip
    } else if line[0] == '[' && line.last() == ']' {
        IniLine::Section(lower(trim(line.subrange(1, line.len() - 1))))
    } else {
        match find(line, seq!['=']) {
            Some(k) => IniLine::Pair(lower(trim(line.take(k))), trim(line.skip(k + 1))),
            None => IniLine::Invalid,
        }
    }
}

/// Section in force, assignments `(section, key, value)` in order, and the
/// index of the first malformed line, after reading `lines`.
pub open spec fn ini_fold(lines: Seq<Seq<char>>) -> (Seq<char>, Seq<(Seq<char>, Seq<char>, Seq<char>)>, Option<nat>)
    decreases lines.len(),
{
    if lines.len() == 0 {
        (Seq::<char>::empty(), Seq::empty(), None)
    } else {
        let prev = ini_fold(lines.drop_last());
        if prev.2 is Some {
            prev
        } else {
            match classify_line(lines.last()) {
                IniLine::Skip => prev,
                IniLine::Section(name) => (name, prev.1, None),
                IniLine::Pair(k, v) => (prev.0, prev.1.push((prev.0, k, v)), None),
                IniLine::Invalid => (prev.0, prev.1, Some((lines.len() - 1) as nat)),
            }
        }
    }
}

/// The lines of `content`, split at `\n`.
pub open spec fn ini_lines(content: Seq<char>) -> Seq<Seq<char>> {
    split_by(content, seq!['\n'])
}

/// The value last assigned to `key` in `section`.
pub open spec fn ini_lookup(entries: Seq<(Seq<char>, Seq<char>, Seq<char>)>, section: Seq<char>, key: Seq<char>) -> Option<Seq<char>>
    decreases entries.len(),
{
    if entries.len() == 0 {
        None
    } else if entries.last().0 == section && entries.last().1 == key {
        Some(entries.last().2)
    } else {
        ini_lookup(entries.drop_last(), section, key)
    }
}

proof fn lemma_ini_error_sticks(ls: Seq<Seq<char>>, k: int, j: int)
    requires
        0 <= k <= j <= ls.len(),
        ini_fold(ls.take(k)).2 is Some,
    ensures
        ini_fold(ls.take(j)).2 == ini_fold(ls.take(k)).2,
    decreases j - k,
{
    if j > k {
        lemma_ini_error_sticks(ls, k, j - 1);
        assert(ls.take(j).drop_last() =~= ls.take(j - 1));
    }
}

/// One assignment of a setting.
pub struct IniEntry {
    pub section: String,
    pub key: String,
    pub value: String,
}

/// A parsed `setting.ini`: its assignments in file order.
pub struct IniDocument {
    entries: Vec<IniEntry>,
}

/// A malformed line (1-based number and text) of `setting.ini`.
#[derive(Debug)]
pub struct IniError {
    pub line: usize,
    pub text: String,
}

impl IniDocument {
    pub closed spec fn view_entries(&self) -> Seq<(Seq<char>, Seq<char>, Seq<char>)> {
        self.entries@.map_values(|e: IniEntry| (e.section@, e.key@, e.value@))
    }

    /// Reads the text of `setting.ini`.
    pub fn parse(content: &str) -> (r: Result<IniDocument, IniError>)
        ensures
            match r {
                Ok(doc) => ini_fold(ini_lines(content@)).2 is None && doc.view_entries()
                    == ini_fold(ini_lines(content@)).1,
                Err(e) => ini_fold(ini_lines(content@)).2 == Some((e.line - 1) as nat)
                    && e.line >= 1 && e.text@ == ini_lines(content@)[e.line - 1],
            },
    {
        let c = chars_of(content);
        let lines = split_at_char(c.as_slice(), '\n');
        let ghost ls = views(lines@);
        assert(ls == ini_lines(content@));
        let mut entries: Vec<IniEntry> = Vec::new();
        let mut section: Vec<char> = Vec::new();
        let mut i: usize = 0;
        assert(ls.take(0) =~= Seq::<Seq<char>>::empty());
        assert(entries@.map_values(|e: IniEntry| (e.section@, e.key@, e.value@)) =~= Seq::<(Seq<char>, Seq<char>, Seq<char>)>::empty());
        while i < lines.len()
            invariant
                i <= lines.len(),
                ls == views(lines@),
                ls == ini_lines(content@),
                ini_fold(ls.take(i as int)).2 is None,
                ini_fold(ls.take(i as int)).0 == section@,
                ini_fold(ls.take(i as int)).1 == entries@.map_values(|e: IniEntry| (e.section@, e.key@, e.value@)),
            decreases lines.len() - i,
        {
            assert(ls.take(i + 1).drop_last() =~= ls.take(i as int));
            assert(ls.take(i + 1).last() == lines@[i as int]@);
            let raw = &lines[i];
            let line = trim_chars(raw.as_slice());
            if line.len() == 0 || line[0] == '#' || line[0] == ';' {
            } else if line[0] == '[' && line[line.len() - 1] == ']' {
                let inner = slice_range(line.as_slice(), 1, line.len() - 1);
                let t = trim_chars(inner.as_slice());
                section = lower_chars(t.as_slice());
            } else {
                let eq = vec!['='];
                assert(eq@ =~= seq!['=']);
                match crate::text::find_chars(line.as_slice(), eq.as_slice()) {
                    Some(k) => {
                        proof {
                            lemma_find(line@, seq!['=']);
                        }
                        let key_raw = slice_range(line.as_slice(), 0, k);
                        let key_t = trim_chars(key_raw.as_slice());
                        let key = lower_chars(key_t.as_slice());
                        let val_raw = slice_range(line.as_slice(), k + 1, line.len());
                        let val = trim_chars(val_raw.as_slice());
                        assert(line@.take(k as int) =~= key_raw@);
                        assert(line@.skip(k + 1) =~= val_raw@);
                        let ghost prev = entries@.map_values(|e: IniEntry| (e.section@, e.key@, e.value@));
                        entries.push(
                            IniEntry {
                                section: string_from_chars(section.as_slice()),
                                key: string_from_chars(key.as_slice()),
                                value: string_from_chars(val.as_slice()),
                            },
                        );
                        assert(entries@.map_values(|e: IniEntry| (e.section@, e.key@, e.value@)) =~= prev.push((section@, key@, val@)));
                    },
                    None => {
                        proof {
                            lemma_find(line@, seq!['=']);
                            assert(classify_line(ls.take(i + 1).last()) == IniLine::Invalid);
                            assert(ini_fold(ls.take(i + 1)).2 == Some(i as nat));
                            lemma_ini_error_sticks(ls, i + 1, ls.len() as int);
                            assert(ls.take(ls.len() as int) =~= ls);
                        }
                        let text = string_from_chars(raw.as_slice());
                        assert(text@ == ls[i as int]);
                        assert(ini_fold(ls).2 == Some(i as nat));
                        return Err(IniError { line: i + 1, text });
                    },
                }
            }
            i = i + 1;
        }
        assert(ls.take(lines.len() as int) =~= ls);
        Ok(IniDocument { entries })
    }

    /// The value of `key` in `section`, both matched in any ASCII case; the
    /// last assignment wins.
    pub fn get(&self, section: &str, key: &str) -> (r: Option<&str>)
        ensures
            match r {
                Some(v) => ini_lookup(self.view_entries(), lower(section@), lower(key@)) == Some(v@),
                None => ini_lookup(self.view_entries(), lower(section@), lower(key@)) is None,
            },
    {
        let sc = chars_of(section);
        let s = lower_chars(sc.as_slice());
        let kc = chars_of(key);
        let k = lower_chars(kc.as_slice());
        let ghost es = self.view_entries();
        let mut j: usize = self.entries.len();
        assert(es.take(j as int) =~= es);
        while j > 0
            invariant
                j <= self.entries.len(),
                es == self.view_entries(),
                s@ == lower(section@),
                k@ == lower(key@),
                ini_lookup(es, s@, k@) == ini_lookup(es.take(j as int), s@, k@),
            decreases j,
        {
            let e = &self.entries[j - 1];
            assert(es.take(j as int).last() == (e.section@, e.key@, e.value@));
            let es_c = chars_of(e.section.as_str());
            let ek_c = chars_of(e.key.as_str());
            if crate::text::chars_eq(es_c.as_slice(), s.as_slice()) && crate::text::chars_eq(ek_c.as_slice(), k.as_slice()) {
                assert(ini_lookup(es.take(j as int), s@, k@) == Some(e.value@));
                let r = e.value.as_str();
                assert(r@ == e.value@);
                assert(s@ == lower(section@));
                assert(k@ == lower(key@));
                assert(ini_lookup(self.view_entries(), lower(section@), lower(key@)) == Some(r@));
                return Some(r);
            }
            assert(es.take(j as int).drop_last() =~= es.take(j - 1));
            j = j - 1;
        }
        None
    }
}

/// Why the configuration could not be built.
#[derive(Debug)]
pub enum ConfigError {
    /// `setting.ini` does not exist at the given path.
    MissingSettingFile(String),
    /// A line of `setting.ini` is neither a section, a comment nor `key=value`.
    InvalidLine(IniError),
}

/// The configuration a document yields for a repository root.
pub open spec fn config_of(repo_root: Seq<char>, entries: Seq<(Seq<char>, Seq<char>, Seq<char>)>, c: AppConfig) -> bool {
    let get = |s: Seq<char>, k: Seq<char>| ini_lookup(entries, s, k);
    let data_dir = runtime_dir(repo_root, get("setting"@, "data"@), "data"@);
    let port = match get("server"@, "port"@) {
        Some(v) => match parse_bounded(trim(v), 65535) {
            Some(n) => n as u16,
            None => 8080u16,
        },
        None => 8080u16,
    };
    let proxy_port = match get("server"@, "proxy_port"@) {
        Some(v) => match parse_bounded(trim(v), 65535) {
            Some(n) => n as u16,
            None => 443u16,
        },
        None => 443u16,
    };
    let flag = |s: Seq<char>, k: Seq<char>| match get(s, k) {
        Some(v) => flag_value(v),
        None => false,
    };
    &&& c.data_dir@ == data_dir
    &&& c.pdf_dir@ == runtime_dir(repo_root, get("setting"@, "pdf"@), "pdf"@)
    &&& c.log_dir@ == runtime_dir(repo_root, get("setting"@, "log"@), "log"@)
    &&& c.db_path@ == path_join(data_dir, "runtime.sqlite3"@)
    &&& c.img_url@ == match get("server"@, "img_url"@) {
        Some(v) => trim(v),
        None => Seq::<char>::empty(),
    }
    &&& c.bind_addr@ == bind_addr(get("server"@, "domain"@), port)
    &&& c.host_name@ == host_name(
        get("server"@, "domain"@),
        port,
        flag("server"@, "use_proxy"@),
        proxy_port,
        flag("server"@, "proxy_ssl"@),
    )
    &&& c.auto_update == flag("setting"@, "auto_update"@)
    &&& c.auto_update_interval == match get("setting"@, "auto_update_interval"@) {
        Some(v) => match parse_bounded(trim(v), u64::MAX as nat) {
            Some(n) => n as u64,
            None => 43200u64,
        },
        None => 43200u64,
    }
    &&& c.cookie_dir@ == Seq::<char>::empty()
    &&& c.queue_dir@ == Seq::<char>::empty()
    &&& c.archive_dir@ == Seq::<char>::empty()
    &&& c.legacy_root is None
}

/// A folder setting as the README describes it: the folder of that name
/// under the repository where the value is missing or blank, the value
/// itself where it is an absolute path, else the value under the repository.
pub open spec fn folder_setting(repo_root: Seq<char>, value: Option<Seq<char>>, child: Seq<char>) -> Seq<char> {
    match value {
        Some(v) => if trim(v).len() == 0 {
            path_join(repo_root, child)
        } else if is_absolute_path(trim(v)) {
            trim(v)
        } else {
            path_join(repo_root, trim(v))
        },
        None => path_join(repo_root, child),
    }
}

/// Law: the settings give the data, PDF and log folders by the folder rule,
/// the database inside the data folder, the image server as the trimmed
/// `img_url` (none where it is not set), and an update interval of 43200
/// seconds where the value is missing or not a whole number.
pub proof fn lemma_config_folders(repo_root: Seq<char>, entries: Seq<(Seq<char>, Seq<char>, Seq<char>)>, c: AppConfig)
    requires
        config_of(repo_root, entries, c),
    ensures
        c.data_dir@ == folder_setting(repo_root, ini_lookup(entries, "setting"@, "data"@), "data"@),
        c.pdf_dir@ == folder_setting(repo_root, ini_lookup(entries, "setting"@, "pdf"@), "pdf"@),
        c.log_dir@ == folder_setting(repo_root, ini_lookup(entries, "setting"@, "log"@), "log"@),
        c.db_path@ == path_join(c.data_dir@, "runtime.sqlite3"@),
        c.img_url@ == match ini_lookup(entries, "server"@, "img_url"@) {
            Some(v) => trim(v),
            None => Seq::<char>::empty(),
        },
        (match ini_lookup(entries, "setting"@, "auto_update_interval"@) {
            Some(v) => parse_bounded(trim(v), u64::MAX as nat) is None,
            None => true,
        }) ==> c.auto_update_interval == 43200,
{
}

proof fn lemma_lower_literal(s: Seq<char>)
    requires
        forall|i: int| 0 <= i < s.len() ==> !('A' <= #[trigger] s[i] <= 'Z'),
    ensures
        lower(s) == s,
{
    assert(lower(s) =~= s);
}

pub fn build_app_config(repo_root: &str, document: &IniDocument) -> (r: AppConfig)
    ensures
        config_of(repo_root@, document.view_entries(), r),
{
    proof {
        reveal_strlit("setting");
        reveal_strlit("server");
        reveal_strlit("data");
        reveal_strlit("pdf");
        reveal_strlit("log");
        reveal_strlit("img_url");
        reveal_strlit("port");
        reveal_strlit("domain");
        reveal_strlit("use_proxy");
        reveal_strlit("proxy_port");
        reveal_strlit("proxy_ssl");
        reveal_strlit("auto_update");
        reveal_strlit("auto_update_interval");
        lemma_lower_literal("setting"@);
        lemma_lower_literal("server"@);
        lemma_lower_literal("data"@);
        lemma_lower_literal("pdf"@);
        lemma_lower_literal("log"@);
        lemma_lower_literal("img_url"@);
        lemma_lower_literal("port"@);
        lemma_lower_literal("domain"@);
        lemma_lower_literal("use_proxy"@);
        lemma_lower_literal("proxy_port"@);
        lemma_lower_literal("proxy_ssl"@);
        lemma_lower_literal("auto_update"@);
        lemma_lower_literal("auto_update_interval"@);
    }
    let data_dir = resolve_runtime_dir(repo_root, document.get("setting", "data"), "data");
    let pdf_dir = resolve_runtime_dir(repo_root, document.get("setting", "pdf"), "pdf");
    let log_dir = resolve_runtime_dir(repo_root, document.get("setting", "log"), "log");
    let img_url = match document.get("server", "img_url") {
        Some(v) => crate::text::trim_str(v),
        None => String::new(),
    };
    let port = parse_port(document.get("server", "port"), 8080);
    let bind_addr = derive_bind_addr(document.get("server", "domain"), port);
    let host_name = derive_host_name(
        document.get("server", "domain"),
        port,
        parse_bool(document.get("server", "use_proxy")),
        parse_port(document.get("server", "proxy_port"), 443),
        parse_bool(document.get("server", "proxy_ssl")),
    );
    let db_path = join_path(data_dir.as_str(), "runtime.sqlite3");
    AppConfig {
        data_dir,
        cookie_dir: String::new(),
        queue_dir: String::new(),
        pdf_dir,
        log_dir,
        db_path,
        archive_dir: String::new(),
        bind_addr,
        host_name,
        img_url,
        auto_update: parse_bool(document.get("setting", "auto_update")),
        auto_update_interval: parse_u64(document.get("setting", "auto_update_interval"), 43200),
        legacy_root: None,
    }
}

/// Builds the configuration from the text of `repo_root/setting.ini`, which
/// the caller has read (`None` when the file does not exist).
pub fn load_app_config(repo_root: &str, setting_text: Option<&str>) -> (r: Result<AppConfig, ConfigError>)
    ensures
        match setting_text {
            None => r matches Err(ConfigError::MissingSettingFile(p)) && p@ == path_join(repo_root@, "setting.ini"@),
            Some(t) => match r {
                Ok(c) => ini_fold(ini_lines(t@)).2 is None && config_of(repo_root@, ini_fold(ini_lines(t@)).1, c),
                Err(ConfigError::InvalidLine(e)) => ini_fold(ini_lines(t@)).2 == Some((e.line - 1) as nat),
                Err(ConfigError::MissingSettingFile(_)) => false,
            },
        },
{
    match setting_text {
        None => Err(ConfigError::MissingSettingFile(join_path(repo_root, "setting.ini"))),
        Some(t) => match IniDocument::parse(t) {
            Ok(doc) => Ok(build_app_config(repo_root, &doc)),
            Err(e) => Err(ConfigError::InvalidLine(e)),
        },
    }
}


/// What loading a settings text gives: the configuration of its entries, or
/// the first line that is neither a section, a comment nor `key=value`.
pub open spec fn loaded_from(repo_root: Seq<char>, text: Seq<char>, r: Result<AppConfig, ConfigError>) -> bool {
    match r {
        Ok(c) => ini_fold(ini_lines(text)).2 is None && config_of(repo_root, ini_fold(ini_lines(text)).1, c),
        Err(ConfigError::InvalidLine(e)) => ini_fold(ini_lines(text)).2 == Some((e.line - 1) as nat),
        Err(ConfigError::MissingSettingFile(_)) => false,
    }
}

/// The configuration at start-up, from the texts of `repo_root/setting.ini`
/// and `repo_root/setting/setting.ini` (`None` for a file that does not
/// exist): the root file where it exists, else the one under `setting/`,
/// which is then to be copied to the root (the `bool`); an error when
/// neither exists.
pub fn resolve_app_config(repo_root: &str, root_text: Option<&str>, fallback_text: Option<&str>) -> (r: Result<
    (AppConfig, bool),
    ConfigError,
>)
    ensures
        match (root_text, fallback_text) {
            (Some(t), _) => loaded_from(
                repo_root@,
                t@,
                match r {
                    Ok((c, _)) => Ok(c),
                    Err(e) => Err(e),
                },
            ) && (r matches Ok((_, copy)) ==> !copy),
            (None, Some(f)) => loaded_from(
                repo_root@,
                f@,
                match r {
                    Ok((c, _)) => Ok(c),
                    Err(e) => Err(e),
                },
            ) && (r matches Ok((_, copy)) ==> copy),
            (None, None) => r matches Err(ConfigError::MissingSettingFile(p)) && p@ == path_join(
                repo_root@,
                "setting.ini"@,
            ),
        },
{
    match root_text {
        Some(t) => match load_app_config(repo_root, Some(t)) {
            Ok(c) => Ok((c, false)),
            Err(e) => Err(e),
        },
        None => match fallback_text {
            Some(f) => match load_app_config(repo_root, Some(f)) {
                Ok(c) => Ok((c, true)),
                Err(e) => Err(e),
            },
            None => match load_app_config(repo_root, None) {
                Ok(c) => Ok((c, false)),
                Err(e) => Err(e),
            },
        },
    }
}

// ---------------------------------------------------------------------------
// Paths of the configuration
// ---------------------------------------------------------------------------

impl AppConfig {
    pub fn data_dir_path(&self) -> (r: String)
        ensures
            r@ == self.data_dir@,
    {
        self.data_dir.clone()
    }

    pub fn log_dir_path(&self) -> (r: String)
        ensures
            r@ == self.log_dir@,
    {
        self.log_dir.clone()
    }

    pub fn db_path_buf(&self) -> (r: String)
        ensures
            r@ == self.db_path@,
    {
        self.db_path.clone()
    }

    pub fn archive_dir_path(&self) -> (r: String)
        ensures
            r@ == self.archive_dir@,
    {
        self.archive_dir.clone()
    }

    pub fn legacy_root_path(&self) -> (r: Option<String>)
        ensures
            match r {
                Some(p) => self.legacy_root matches Some(l) && p@ == l@,
                None => self.legacy_root is None,
            },
    {
        match &self.legacy_root {
            Some(l) => Some(l.clone()),
            None => None,
        }
    }

    /// `data_dir/images`.
    pub fn data_images_dir(&self) -> (r: String)
        ensures
            r@ == path_join(self.data_dir@, "images"@),
    {
        join_path(self.data_dir.as_str(), "images")
    }

    /// `data_dir/reader`.
    pub fn data_reader_dir(&self) -> (r: String)
        ensures
            r@ == path_join(self.data_dir@, "reader"@),
    {
        join_path(self.data_dir.as_str(), "reader")
    }

    /// `cookie_dir/site`.
    pub fn cookie_dir_path(&self, site: &str) -> (r: String)
        ensures
            r@ == path_join(self.cookie_dir@, site@),
    {
        join_path(self.cookie_dir.as_str(), site)
    }

    pub fn pdf_dir_path(&self) -> (r: String)
        ensures
            r@ == self.pdf_dir@,
    {
        self.pdf_dir.clone()
    }

    /// `queue_dir/task.json`.
    pub fn queue_task_json_path(&self) -> (r: String)
        ensures
            r@ == path_join(self.queue_dir@, "task.json"@),
    {
        join_path(self.queue_dir.as_str(), "task.json")
    }
}

} // verus!
