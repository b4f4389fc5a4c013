//! The image files of a work: their names from their content's hash, the
//! database that maps logical names to hashes, and where a cover may be
//! fetched from.
use vstd::prelude::*;
use crate::json::{
    as_str, entries_view, get, json_as_str, json_clone, json_get, lemma_view_parts, map_insert,
    object_insert, JsonValue, JsonView,
};
use crate::narou::opt_string_view;
use crate::text::{chars_of, rfind_char, string_from_chars, strings_view};
use crate::model::ImageRecord;
use crate::narou::text_le;
use crate::work_key::{
    hex_string, hex_text, last_component, name_extension, name_stem, path_extension, path_file_stem, plain_path, sha256,
    sha256_bytes,
};

verus! {

/// What follows the last `.` of a name, or the whole name.
pub open spec fn last_ext(name: Seq<char>) -> Seq<char> {
    match rfind_char(name, '.') {
        Some(i) => name.skip(i + 1),
        None => name,
    }
}

fn last_ext_exec(name: &str) -> (r: Vec<char>)
    ensures
        r@ == last_ext(name@),
{
    let v = chars_of(name);
    match crate::text::rfind_char_exec(v.as_slice(), '.') {
        Some(i) => {
            proof {
                crate::text::lemma_rfind_char(v@, '.');
            }
            crate::text::slice_range(v.as_slice(), i + 1, v.len())
        },
        None => v,
    }
}

/// The first sixteen hex digits of the SHA-256 digest of an image's bytes.
pub open spec fn image_hash(data: Seq<u8>) -> Seq<char> {
    hex_text(sha256(data)).take(16)
}

proof fn lemma_hex_len(bytes: Seq<u8>)
    ensures
        hex_text(bytes).len() == 2 * bytes.len(),
    decreases bytes.len(),
{
    if bytes.len() > 0 {
        lemma_hex_len(bytes.drop_last());
    }
}

/// The hash under which an image is saved, and its file name: the hash and
/// the extension of its logical name.
pub fn hashed_image_name(data: &[u8], logical_name: &str) -> (r: (String, String))
    ensures
        r.0@ == image_hash(data@),
        r.1@ == image_hash(data@) + "."@ + last_ext(logical_name@),
{
    let digest = sha256_bytes(data);
    let hex = hex_string(digest.as_slice());
    proof {
        lemma_hex_len(digest@);
    }
    let hv = chars_of(hex.as_str());
    let short = crate::text::slice_range(hv.as_slice(), 0, 16);
    assert(short@ =~= image_hash(data@));
    let ext = last_ext_exec(logical_name);
    let mut file: Vec<char> = Vec::new();
    crate::text::push_all(&mut file, short.as_slice());
    file.push('.');
    crate::text::push_all(&mut file, ext.as_slice());
    proof {
        reveal_strlit(".");
    }
    assert(file@ =~= short@ + "."@ + ext@);
    (string_from_chars(short.as_slice()), string_from_chars(file.as_slice()))
}

/// The file of an image recorded in the database: its hash and the
/// extension of its logical name.
pub open spec fn recorded_file(db: JsonView, logical_name: Seq<char>) -> Option<Seq<char>> {
    match as_str(get(db, logical_name)) {
        Some(h) => Some(h + "."@ + last_ext(logical_name)),
        None => None,
    }
}

pub fn recorded_image_file(db: &JsonValue, logical_name: &str) -> (r: Option<String>)
    ensures
        opt_string_view(r) == recorded_file(db.view(), logical_name@),
{
    proof {
        reveal_strlit(".");
    }
    match json_as_str(json_get(db, logical_name)) {
        Some(h) => {
            let ext = last_ext_exec(logical_name);
            let mut out: Vec<char> = Vec::new();
            crate::text::push_str(&mut out, h);
            out.push('.');
            crate::text::push_all(&mut out, ext.as_slice());
            assert(out@ =~= h@ + "."@ + ext@);
            Some(string_from_chars(out.as_slice()))
        },
        None => None,
    }
}

/// The database with an image recorded under its logical name; anything
/// but an object is left as it is.
pub open spec fn with_image(db: JsonView, logical_name: Seq<char>, hash: Seq<char>) -> JsonView {
    match db {
        JsonView::Object(entries) => JsonView::Object(map_insert(entries, logical_name, JsonView::Str(hash))),
        _ => db,
    }
}

/// Law: an image recorded in the database is found again under its
/// logical name, as its hash with the name's extension.
pub proof fn lemma_recorded_image_found(db: JsonView, logical_name: Seq<char>, hash: Seq<char>)
    requires
        db is Object,
    ensures
        recorded_file(with_image(db, logical_name, hash), logical_name) == Some(hash + "."@ + last_ext(logical_name)),
{
    crate::json::lemma_map_insert_lookup(db->Object_0, logical_name, JsonView::Str(hash), logical_name);
}

pub fn record_image(db: &JsonValue, logical_name: &str, hash: &str) -> (r: JsonValue)
    ensures
        r.view() == with_image(db.view(), logical_name@, hash@),
{
    proof {
        lemma_view_parts(*db);
    }
    let copy = json_clone(db);
    proof {
        lemma_view_parts(copy);
    }
    match copy {
        JsonValue::Object(mut entries) => {
            object_insert(&mut entries, crate::text::owned(logical_name), JsonValue::Str(crate::text::owned(hash)));
            let r = JsonValue::Object(entries);
            proof {
                lemma_view_parts(r);
            }
            r
        },
        other => other,
    }
}

/// The file of the first image in the database whose logical name starts
/// with `prefix`: its hash (empty unless a string) and the extension of
/// its logical name.
pub open spec fn file_by_prefix(entries: Seq<(Seq<char>, JsonView)>, prefix: Seq<char>) -> Option<Seq<char>>
    decreases entries.len(),
{
    if entries.len() == 0 {
        None
    } else if crate::text::has_prefix(entries[0].0, prefix) {
        Some(
            match entries[0].1 {
                JsonView::Str(h) => h,
                _ => Seq::empty(),
            } + "."@ + last_ext(entries[0].0),
        )
    } else {
        file_by_prefix(entries.drop_first(), prefix)
    }
}

pub open spec fn prefixed_file(db: JsonView, prefix: Seq<char>) -> Option<Seq<char>> {
    match db {
        JsonView::Object(entries) => file_by_prefix(entries, prefix),
        _ => None,
    }
}

pub fn image_file_by_prefix(db: &JsonValue, prefix: &str) -> (r: Option<String>)
    ensures
        opt_string_view(r) == prefixed_file(db.view(), prefix@),
{
    proof {
        lemma_view_parts(*db);
        reveal_strlit(".");
    }
    match db {
        JsonValue::Object(entries) => {
            let ghost ev = entries_view(entries@);
            let p = chars_of(prefix);
            let mut i: usize = 0;
            assert(ev.skip(0) =~= ev);
            while i < entries.len()
                invariant
                    i <= entries.len(),
                    ev == entries_view(entries@),
                    p@ == prefix@,
                    prefixed_file(db.view(), prefix@) == file_by_prefix(ev.skip(i as int), prefix@),
                decreases entries.len() - i,
            {
                assert(ev.skip(i as int)[0] == ev[i as int]);
                assert(ev[i as int] == (entries@[i as int].0@, entries@[i as int].1.view()));
                assert(ev.skip(i as int).drop_first() =~= ev.skip(i + 1));
                let k = chars_of(entries[i].0.as_str());
                proof {
                    reveal_strlit(".");
                }
                if crate::text::starts_with_str(k.as_slice(), prefix) {
                    let mut out: Vec<char> = Vec::new();
                    match &entries[i].1 {
                        JsonValue::Str(h) => crate::text::push_str(&mut out, h.as_str()),
                        _ => {},
                    }
                    out.push('.');
                    let ext = last_ext_exec(entries[i].0.as_str());
                    crate::text::push_all(&mut out, ext.as_slice());
                    assert(out@ =~= (match ev[i as int].1 {
                        JsonView::Str(h) => h,
                        _ => Seq::<char>::empty(),
                    }) + "."@ + last_ext(ev[i as int].0));
                    return Some(string_from_chars(out.as_slice()));
                }
                i = i + 1;
            }
            None
        },
        _ => None,
    }
}

// ---------------------------------------------------------------------------
// Covers
// ---------------------------------------------------------------------------

/// The logical name of a Pixiv work's cover.
pub open spec fn cover_logical_name(ncode: Seq<char>, ext: Seq<char>) -> Seq<char> {
    "pixiv_"@ + ncode + "_cover"@ + ext
}

pub fn pixiv_cover_name(ncode: &str, url: &str) -> (r: String)
    ensures
        crate::work_key::plain_path(crate::pixiv::url_path_part(url@)) ==> r@ == cover_logical_name(
            ncode@,
            crate::pixiv::url_extension(url@),
        ),
{
    let ext = crate::pixiv::url_ext(url);
    let mut out: Vec<char> = Vec::new();
    crate::text::push_str(&mut out, "pixiv_");
    crate::text::push_str(&mut out, ncode);
    crate::text::push_str(&mut out, "_cover");
    crate::text::push_str(&mut out, ext.as_str());
    string_from_chars(out.as_slice())
}

/// The address of a cover at its original size.
pub open spec fn cover_base(url: Seq<char>) -> Seq<char> {
    crate::text::replace_all(
        crate::text::replace_all(url, "c/600x600/novel-cover-master"@, "novel-cover-original"@),
        "_master1200"@,
        Seq::empty(),
    )
}

/// An address with its part from the last `.` on replaced by `ext`.
pub open spec fn with_ext(url: Seq<char>, ext: Seq<char>) -> Seq<char> {
    match rfind_char(url, '.') {
        Some(i) => url.take(i) + ext,
        None => url + ext,
    }
}

/// Where a cover is tried, in order: the original size as PNG, JPEG (two
/// spellings) and GIF, then the address given.
pub open spec fn cover_candidates(url: Seq<char>) -> Seq<Seq<char>> {
    let base = cover_base(url);
    seq![with_ext(base, ".png"@), with_ext(base, ".jpg"@), with_ext(base, ".jpeg"@), with_ext(base, ".gif"@), url]
}

fn with_ext_exec(base: &[char], ext: &str) -> (r: Vec<char>)
    ensures
        r@ == with_ext(base@, ext@),
{
    let mut out = match crate::text::rfind_char_exec(base, '.') {
        Some(i) => {
            proof {
                crate::text::lemma_rfind_char(base@, '.');
            }
            crate::text::slice_range(base, 0, i)
        },
        None => crate::text::slice_range(base, 0, base.len()),
    };
    assert(base@.take(base@.len() as int) =~= base@);
    crate::text::push_str(&mut out, ext);
    out
}

pub fn cover_candidate_urls(url: &str) -> (r: Vec<String>)
    ensures
        strings_view(r@) == cover_candidates(url@),
{
    proof {
        reveal_strlit("c/600x600/novel-cover-master");
        reveal_strlit("_master1200");
        reveal_strlit("");
    }
    let v = chars_of(url);
    let a = crate::text::replace_str(v.as_slice(), "c/600x600/novel-cover-master", "novel-cover-original");
    let base = crate::text::replace_str(a.as_slice(), "_master1200", "");
    assert(""@ =~= Seq::<char>::empty());
    let mut out: Vec<String> = Vec::new();
    out.push(string_from_chars(with_ext_exec(base.as_slice(), ".png").as_slice()));
    out.push(string_from_chars(with_ext_exec(base.as_slice(), ".jpg").as_slice()));
    out.push(string_from_chars(with_ext_exec(base.as_slice(), ".jpeg").as_slice()));
    out.push(string_from_chars(with_ext_exec(base.as_slice(), ".gif").as_slice()));
    out.push(crate::text::owned(url));
    assert(strings_view(out@) =~= cover_candidates(url@));
    out
}


// ---------------------------------------------------------------------------
// Records of the images a work's document shows
// ---------------------------------------------------------------------------

/// A stored image as plain values: logical name, hash, extension, kind.
pub open spec fn record_view(r: ImageRecord) -> (Seq<char>, Seq<char>, Seq<char>, Seq<char>) {
    (r.logical_name@, r.hash@, r.ext@, r.kind@)
}

pub open spec fn records_view(v: Seq<ImageRecord>) -> Seq<(Seq<char>, Seq<char>, Seq<char>, Seq<char>)> {
    v.map_values(|r: ImageRecord| record_view(r))
}

/// The cover of a Pixiv work as stored, from the file found under its
/// logical name: the extension is what follows the file's last `.`.
pub fn cover_image_record(work_key: &str, stored: &str) -> (r: ImageRecord)
    ensures
        r.ext@ == last_ext(stored@),
        r.logical_name@ == "pixiv_"@ + work_key@ + "_cover."@ + last_ext(stored@),
        r.hash@ == crate::text::strip_suffixes(stored@, seq!['.'] + last_ext(stored@)),
        r.kind@ == "cover"@,
{
    let ext = last_ext_exec(stored);
    let mut name: Vec<char> = Vec::new();
    crate::text::push_str(&mut name, "pixiv_");
    crate::text::push_str(&mut name, work_key);
    crate::text::push_str(&mut name, "_cover.");
    crate::text::push_all(&mut name, ext.as_slice());
    let mut suffix: Vec<char> = Vec::new();
    suffix.push('.');
    crate::text::push_all(&mut suffix, ext.as_slice());
    assert(suffix@ =~= seq!['.'] + last_ext(stored@));
    let s = chars_of(stored);
    let hash = crate::text::strip_suffixes_chars(s.as_slice(), suffix.as_slice());
    ImageRecord {
        logical_name: string_from_chars(name.as_slice()),
        hash: string_from_chars(hash.as_slice()),
        ext: string_from_chars(ext.as_slice()),
        kind: crate::text::owned("cover"),
    }
}

/// The hash and extension of an image named after its content: a stem of
/// sixteen hex digits and an extension.
pub open spec fn content_name_parts(name: Seq<char>) -> Option<(Seq<char>, Seq<char>)> {
    let c = last_component(name);
    match name_extension(c) {
        Some(ext) => {
            let stem = name_stem(c);
            if stem.len() == 16 && (forall|i: int| 0 <= i < stem.len() ==> crate::text::is_hex_digit(#[trigger] stem[i])) {
                Some((stem, ext))
            } else {
                None
            }
        },
        None => None,
    }
}

fn all_hex(v: &[char]) -> (r: bool)
    ensures
        r == (forall|i: int| 0 <= i < v@.len() ==> crate::text::is_hex_digit(#[trigger] v@[i])),
{
    let mut i: usize = 0;
    while i < v.len()
        invariant
            i <= v.len(),
            forall|k: int| 0 <= k < i ==> crate::text::is_hex_digit(#[trigger] v@[k]),
        decreases v.len() - i,
    {
        if !crate::text::is_ascii_hexdigit(v[i]) {
            return false;
        }
        i = i + 1;
    }
    true
}

pub fn parse_markup_image_name(logical_name: &str) -> (r: Option<(String, String)>)
    ensures
        plain_path(logical_name@) ==> match r {
            Some((h, e)) => content_name_parts(logical_name@) == Some((h@, e@)),
            None => content_name_parts(logical_name@) is None,
        },
{
    let ext = match path_extension(logical_name) {
        Some(e) => e,
        None => return None,
    };
    let hash = match path_file_stem(logical_name) {
        Some(h) => h,
        None => return None,
    };
    let hv = chars_of(hash.as_str());
    if hv.len() != 16 || !all_hex(hv.as_slice()) {
        return None;
    }
    Some((hash, ext))
}

/// `r` added to records ordered by logical name, unless one with its name
/// is there already.
pub open spec fn insert_absent(
    recs: Seq<(Seq<char>, Seq<char>, Seq<char>, Seq<char>)>,
    r: (Seq<char>, Seq<char>, Seq<char>, Seq<char>),
) -> Seq<(Seq<char>, Seq<char>, Seq<char>, Seq<char>)>
    decreases recs.len(),
{
    if recs.len() == 0 {
        seq![r]
    } else if recs[0].0 == r.0 {
        recs
    } else if text_le(r.0, recs[0].0) {
        seq![r] + recs
    } else {
        seq![recs[0]] + insert_absent(recs.drop_first(), r)
    }
}

/// The records added for the entries of the legacy table that hold the
/// same content under another name with the same extension.
pub open spec fn with_legacy_names(
    recs: Seq<(Seq<char>, Seq<char>, Seq<char>, Seq<char>)>,
    legacy: Seq<(Seq<char>, Seq<char>)>,
    hash: Seq<char>,
    ext: Seq<char>,
) -> Seq<(Seq<char>, Seq<char>, Seq<char>, Seq<char>)>
    decreases legacy.len(),
{
    if legacy.len() == 0 {
        recs
    } else {
        let prev = with_legacy_names(recs, legacy.drop_last(), hash, ext);
        let (n, h) = legacy.last();
        if h == hash && name_extension(last_component(n)) == Some(ext) {
            insert_absent(prev, (n, hash, ext, "image"@))
        } else {
            prev
        }
    }
}

/// The records of the images a document shows, from their names in order:
/// each content-named image, then the legacy names of the same content.
pub open spec fn body_records(
    names: Seq<Seq<char>>,
    legacy: Seq<(Seq<char>, Seq<char>)>,
) -> Seq<(Seq<char>, Seq<char>, Seq<char>, Seq<char>)>
    decreases names.len(),
{
    if names.len() == 0 {
        Seq::empty()
    } else {
        let prev = body_records(names.drop_last(), legacy);
        let name = names.last();
        match content_name_parts(name) {
            Some((h, e)) => with_legacy_names(insert_absent(prev, (name, h, e, "image"@)), legacy, h, e),
            None => prev,
        }
    }
}

pub open spec fn pairs_view(v: Seq<(String, String)>) -> Seq<(Seq<char>, Seq<char>)> {
    v.map_values(|p: (String, String)| (p.0@, p.1@))
}

fn insert_absent_record(recs: &mut Vec<ImageRecord>, r: ImageRecord)
    ensures
        records_view(final(recs)@) == insert_absent(records_view(old(recs)@), record_view(r)),
{
    let ghost start = records_view(recs@);
    let ghost rv = record_view(r);
    let name = chars_of(r.logical_name.as_str());
    let mut j: usize = 0;
    assert(start.skip(0) =~= start);
    while j < recs.len()
        invariant
            j <= recs.len(),
            start == records_view(recs@),
            start == records_view(old(recs)@),
            rv == record_view(r),
            name@ == r.logical_name@,
            insert_absent(start, rv) == start.take(j as int) + insert_absent(start.skip(j as int), rv),
        decreases recs.len() - j,
    {
        let ghost rest = start.skip(j as int);
        assert(rest[0] == record_view(recs@[j as int]));
        let other = chars_of(recs[j].logical_name.as_str());
        if crate::text::chars_eq(other.as_slice(), name.as_slice()) {
            assert(start.take(j as int) + rest =~= start);
            return;
        }
        if crate::narou::text_less(name.as_slice(), other.as_slice()) {
            recs.insert(j, r);
            assert(records_view(recs@) =~= start.take(j as int) + (seq![rv] + rest));
            return;
        }
        assert(rest.drop_first() =~= start.skip(j + 1));
        assert(start.take(j + 1) =~= start.take(j as int).push(rest[0]));
        assert(start.take(j as int) + (seq![rest[0]] + insert_absent(rest.drop_first(), rv)) =~= start.take(j + 1)
            + insert_absent(start.skip(j + 1), rv));
        j = j + 1;
    }
    assert(start.skip(j as int) =~= Seq::<(Seq<char>, Seq<char>, Seq<char>, Seq<char>)>::empty());
    recs.push(r);
    assert(records_view(recs@) =~= start + seq![rv]);
}

fn image_record(name: &str, hash: &str, ext: &str) -> (r: ImageRecord)
    ensures
        record_view(r) == (name@, hash@, ext@, "image"@),
{
    ImageRecord {
        logical_name: crate::text::owned(name),
        hash: crate::text::owned(hash),
        ext: crate::text::owned(ext),
        kind: crate::text::owned("image"),
    }
}

/// Whether every name is one whose file name is plainly what follows its
/// last `/`.
pub open spec fn all_plain(names: Seq<Seq<char>>) -> bool {
    forall|i: int| 0 <= i < names.len() ==> plain_path(#[trigger] names[i])
}

/// Whether the names of a legacy table are all plain.
pub open spec fn legacy_plain(legacy: Seq<(String, String)>) -> bool {
    all_plain(pairs_view(legacy).map_values(|p: (Seq<char>, Seq<char>)| p.0))
}

fn add_legacy_names(recs: &mut Vec<ImageRecord>, legacy: &Vec<(String, String)>, hash: &str, ext: &str)
    ensures
        legacy_plain(legacy@) ==> records_view(final(recs)@) == with_legacy_names(
            records_view(old(recs)@),
            pairs_view(legacy@),
            hash@,
            ext@,
        ),
{
    let ghost start = records_view(recs@);
    let ghost lv = pairs_view(legacy@);
    let mut i: usize = 0;
    assert(lv.take(0) =~= Seq::<(Seq<char>, Seq<char>)>::empty());
    while i < legacy.len()
        invariant
            i <= legacy.len(),
            lv == pairs_view(legacy@),
            start == records_view(old(recs)@),
            legacy_plain(legacy@) ==> records_view(recs@) == with_legacy_names(start, lv.take(i as int), hash@, ext@),
        decreases legacy.len() - i,
    {
        assert(lv.take(i + 1).drop_last() =~= lv.take(i as int));
        assert(lv.take(i + 1).last() == lv[i as int]);
        proof {
            if legacy_plain(legacy@) {
                assert(plain_path(lv.map_values(|p: (Seq<char>, Seq<char>)| p.0)[i as int]));
            }
        }
        let (n, h) = &legacy[i];
        if crate::text::str_eq(h.as_str(), hash) {
            let matches = match path_extension(n.as_str()) {
                Some(e) => crate::text::str_eq(e.as_str(), ext),
                None => false,
            };
            if matches {
                insert_absent_record(recs, image_record(n.as_str(), hash, ext));
            }
        }
        i = i + 1;
    }
    assert(lv.take(i as int) =~= lv);
}

/// The records of the images that a work's document shows, for the store:
/// in order of logical name, each once.
pub fn body_image_records(raw: &JsonValue, legacy: &Vec<(String, String)>) -> (r: Vec<ImageRecord>)
    ensures
        legacy_plain(legacy@) && all_plain(crate::work_key::sorted_unique(crate::json::markup_names(raw.view())))
            ==> records_view(r@)
            == body_records(crate::work_key::sorted_unique(crate::json::markup_names(raw.view())), pairs_view(legacy@)),
{
    let names = crate::json::collect_markup_image_names(raw);
    let ghost nv = strings_view(names@);
    let mut recs: Vec<ImageRecord> = Vec::new();
    let mut i: usize = 0;
    assert(nv.take(0) =~= Seq::<Seq<char>>::empty());
    assert(records_view(recs@) =~= Seq::<(Seq<char>, Seq<char>, Seq<char>, Seq<char>)>::empty());
    while i < names.len()
        invariant
            i <= names.len(),
            nv == strings_view(names@),
            legacy_plain(legacy@) && all_plain(nv) ==> records_view(recs@) == body_records(nv.take(i as int), pairs_view(legacy@)),
        decreases names.len() - i,
    {
        assert(nv.take(i + 1).drop_last() =~= nv.take(i as int));
        assert(nv.take(i + 1).last() == names@[i as int]@);
        let name = names[i].as_str();
        proof {
            if all_plain(nv) {
                assert(plain_path(nv[i as int]));
            }
        }
        match parse_markup_image_name(name) {
            Some((hash, ext)) => {
                insert_absent_record(&mut recs, image_record(name, hash.as_str(), ext.as_str()));
                add_legacy_names(&mut recs, legacy, hash.as_str(), ext.as_str());
            },
            None => {},
        }
        i = i + 1;
    }
    assert(nv.take(i as int) =~= nv);
    recs
}

/// The legacy table of images: the entries of its object that hold a
/// string, in order.
pub open spec fn string_entries(entries: Seq<(Seq<char>, JsonView)>) -> Seq<(Seq<char>, Seq<char>)>
    decreases entries.len(),
{
    if entries.len() == 0 {
        Seq::empty()
    } else {
        let prev = string_entries(entries.drop_last());
        match entries.last().1 {
            JsonView::Str(t) => prev.push((entries.last().0, t)),
            _ => prev,
        }
    }
}

pub fn legacy_image_table(db: &JsonValue) -> (r: Vec<(String, String)>)
    ensures
        pairs_view(r@) == match db.view() {
            JsonView::Object(entries) => string_entries(entries),
            _ => Seq::empty(),
        },
{
    proof {
        lemma_view_parts(*db);
    }
    let mut out: Vec<(String, String)> = Vec::new();
    assert(pairs_view(out@) =~= Seq::<(Seq<char>, Seq<char>)>::empty());
    match db {
        JsonValue::Object(entries) => {
            let ghost ev = entries_view(entries@);
            let mut i: usize = 0;
            assert(ev.take(0) =~= Seq::<(Seq<char>, JsonView)>::empty());
            while i < entries.len()
                invariant
                    i <= entries.len(),
                    ev == entries_view(entries@),
                    pairs_view(out@) == string_entries(ev.take(i as int)),
                decreases entries.len() - i,
            {
                assert(ev.take(i + 1).drop_last() =~= ev.take(i as int));
                assert(ev.take(i + 1).last() == ev[i as int]);
                let (n, v) = &entries[i];
                match v {
                    JsonValue::Str(t) => {
                        let ghost before = pairs_view(out@);
                        let item = (crate::text::owned(n.as_str()), crate::text::owned(t.as_str()));
                        let ghost iv = (item.0@, item.1@);
                        out.push(item);
                        assert(pairs_view(out@) =~= before.push(iv));
                    },
                    _ => {},
                }
                i = i + 1;
            }
            assert(ev.take(i as int) =~= ev);
        },
        _ => {},
    }
    out
}

} // verus!
