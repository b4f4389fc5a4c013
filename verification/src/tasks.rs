//! Requests and tasks: which action a request carries, how client input is
//! normalised, upload and archive paths, and queued task records.
use vstd::prelude::*;
use crate::json::{get, json_get, JsonValue, JsonView};
use crate::model::{ImageRecord, RequestData, TaskRecord, TaskStatus, ZipImportMetadata};
use crate::work_key::{last_component, name_extension, path_extension, plain_path};
use crate::text::{
    chars_eq, chars_eq_str, chars_of, contains_char, join, join_str, lower, push_all, push_str,
    split_at_char, split_by, str_eq, string_from_chars, trim, trim_chars, views,
};

verus! {

/// Fields a client may send with a task.
#[derive(Debug, Clone, Default)]
pub struct TaskInput {
    pub request_id: Option<String>,
    pub pdf_path: Option<String>,
    pub pdf_name: Option<String>,
    pub zip_name: Option<String>,
    pub author_id: Option<String>,
    pub author_url: Option<String>,
    pub novel_type: Option<String>,
    pub chapter: Option<String>,
    pub repair: Option<String>,
    pub login: Option<String>,
    pub update: Option<String>,
    pub re_download: Option<String>,
    pub convert: Option<String>,
    pub add: Option<String>,
}

pub open spec fn opt_view(o: Option<String>) -> Option<Seq<char>> {
    match o {
        Some(s) => Some(s@),
        None => None,
    }
}

// ---------------------------------------------------------------------------
// Choosing the action of a request
// ---------------------------------------------------------------------------

/// The action a queued request runs, by priority: repair, login, update,
/// re_download, a PDF upload (converted as narou), convert, a ZIP upload
/// (converted as zip), then add (a download).
pub open spec fn queued_action(req: RequestData) -> Option<(Seq<char>, Seq<char>)> {
    if req.repair is Some {
        Some(("repair"@, req.repair->0@))
    } else if req.login is Some {
        Some(("login"@, req.login->0@))
    } else if req.update is Some {
        Some(("update"@, req.update->0@))
    } else if req.re_download is Some {
        Some(("re_download"@, req.re_download->0@))
    } else if req.pdf_path is Some {
        Some(("convert"@, "narou"@))
    } else if req.convert is Some {
        Some(("convert"@, req.convert->0@))
    } else if req.zip_name is Some {
        Some(("convert"@, "zip"@))
    } else if req.add is Some {
        Some(("download"@, req.add->0@))
    } else {
        None
    }
}

pub fn resolve_request_action(req: &RequestData) -> (r: Option<(String, String)>)
    ensures
        match r {
            Some((a, v)) => queued_action(*req) == Some((a@, v@)),
            None => queued_action(*req) is None,
        },
{
    if let Some(v) = &req.repair {
        return Some((crate::text::owned("repair"), v.clone()));
    }
    if let Some(v) = &req.login {
        return Some((crate::text::owned("login"), v.clone()));
    }
    if let Some(v) = &req.update {
        return Some((crate::text::owned("update"), v.clone()));
    }
    if let Some(v) = &req.re_download {
        return Some((crate::text::owned("re_download"), v.clone()));
    }
    if req.pdf_path.is_some() {
        return Some((crate::text::owned("convert"), crate::text::owned("narou")));
    }
    if let Some(v) = &req.convert {
        return Some((crate::text::owned("convert"), v.clone()));
    }
    if req.zip_name.is_some() {
        return Some((crate::text::owned("convert"), crate::text::owned("zip")));
    }
    if let Some(v) = &req.add {
        return Some((crate::text::owned("download"), v.clone()));
    }
    None
}

/// A request carries some action besides a ZIP upload.
pub open spec fn has_other_action(req: RequestData) -> bool {
    req.pdf_path is Some || req.repair is Some || req.login is Some || req.update is Some
        || req.re_download is Some || req.convert is Some || req.add is Some
}

/// A ZIP upload may not be combined with any other action.
pub fn validate_request_action_conflicts(request: &RequestData) -> (r: Option<String>)
    ensures
        match r {
            Some(m) => request.zip_name is Some && has_other_action(*request) && m@
                == "zip upload cannot be combined with other actions"@,
            None => !(request.zip_name is Some && has_other_action(*request)),
        },
{
    if request.zip_name.is_none() {
        return None;
    }
    let other = request.pdf_path.is_some() || request.repair.is_some() || request.login.is_some()
        || request.update.is_some() || request.re_download.is_some() || request.convert.is_some()
        || request.add.is_some();
    if other {
        Some(crate::text::owned("zip upload cannot be combined with other actions"))
    } else {
        None
    }
}

/// A request that only uploads a ZIP archive is imported directly.
pub fn should_import_zip_request(request: &RequestData) -> (r: bool)
    ensures
        r == (request.zip_name is Some && !has_other_action(*request)),
{
    request.zip_name.is_some() && request.pdf_path.is_none() && request.repair.is_none()
        && request.login.is_none() && request.update.is_none() && request.re_download.is_none()
        && request.convert.is_none() && request.add.is_none()
}

// ---------------------------------------------------------------------------
// Normalising client input
// ---------------------------------------------------------------------------

/// A value trimmed, or nothing when it is blank.
pub open spec fn normalized(v: Option<Seq<char>>) -> Option<Seq<char>> {
    match v {
        Some(s) => if trim(s).len() > 0 { Some(trim(s)) } else { None },
        None => None,
    }
}

pub fn normalize_optional_string(value: Option<String>) -> (r: Option<String>)
    ensures
        opt_view(r) == normalized(opt_view(value)),
{
    match value {
        Some(v) => {
            let t = crate::text::trim_str(v.as_str());
            if t.as_str().is_empty() {
                None
            } else {
                Some(t)
            }
        },
        None => None,
    }
}

/// Every field of the input normalised.
pub open spec fn input_normalized(a: TaskInput, b: TaskInput) -> bool {
    &&& opt_view(b.request_id) == normalized(opt_view(a.request_id))
    &&& opt_view(b.pdf_path) == normalized(opt_view(a.pdf_path))
    &&& opt_view(b.pdf_name) == normalized(opt_view(a.pdf_name))
    &&& opt_view(b.zip_name) == normalized(opt_view(a.zip_name))
    &&& opt_view(b.author_id) == normalized(opt_view(a.author_id))
    &&& opt_view(b.author_url) == normalized(opt_view(a.author_url))
    &&& opt_view(b.novel_type) == normalized(opt_view(a.novel_type))
    &&& opt_view(b.chapter) == normalized(opt_view(a.chapter))
    &&& opt_view(b.repair) == normalized(opt_view(a.repair))
    &&& opt_view(b.login) == normalized(opt_view(a.login))
    &&& opt_view(b.update) == normalized(opt_view(a.update))
    &&& opt_view(b.re_download) == normalized(opt_view(a.re_download))
    &&& opt_view(b.convert) == normalized(opt_view(a.convert))
    &&& opt_view(b.add) == normalized(opt_view(a.add))
}

pub fn normalize_task_input(input: TaskInput) -> (r: TaskInput)
    ensures
        input_normalized(input, r),
{
    TaskInput {
        request_id: normalize_optional_string(input.request_id),
        pdf_path: normalize_optional_string(input.pdf_path),
        pdf_name: normalize_optional_string(input.pdf_name),
        zip_name: normalize_optional_string(input.zip_name),
        author_id: normalize_optional_string(input.author_id),
        author_url: normalize_optional_string(input.author_url),
        novel_type: normalize_optional_string(input.novel_type),
        chapter: normalize_optional_string(input.chapter),
        repair: normalize_optional_string(input.repair),
        login: normalize_optional_string(input.login),
        update: normalize_optional_string(input.update),
        re_download: normalize_optional_string(input.re_download),
        convert: normalize_optional_string(input.convert),
        add: normalize_optional_string(input.add),
    }
}

/// Law: trimming is idempotent, so normalising twice changes nothing more.
pub proof fn lemma_normalized_idempotent(v: Option<Seq<char>>)
    ensures
        normalized(normalized(v)) == normalized(v),
{
    if let Some(s) = v {
        if trim(s).len() > 0 {
            crate::text::lemma_trim_idempotent(s);
        }
    }
}

/// The client may not choose the request id.
pub fn discard_client_request_id(input: TaskInput) -> (r: TaskInput)
    ensures
        r.request_id is None,
        r.pdf_path == input.pdf_path,
        r.add == input.add,
        r.zip_name == input.zip_name,
{
    let mut input = input;
    input.request_id = None;
    input
}

/// The client may not name a server-side upload path.
pub fn discard_client_upload_paths(input: TaskInput) -> (r: TaskInput)
    ensures
        r.pdf_path is None,
        r.request_id == input.request_id,
        r.pdf_name == input.pdf_name,
        r.zip_name == input.zip_name,
        r.add == input.add,
{
    let mut input = input;
    input.pdf_path = None;
    input
}

/// The names of the input fields, in declaration order.
pub open spec fn field_index(name: Seq<char>) -> Option<nat> {
    if name == "request_id"@ { Some(0) }
    else if name == "pdf_path"@ { Some(1) }
    else if name == "pdf_name"@ { Some(2) }
    else if name == "zip_name"@ { Some(3) }
    else if name == "author_id"@ { Some(4) }
    else if name == "author_url"@ { Some(5) }
    else if name == "novel_type"@ { Some(6) }
    else if name == "chapter"@ { Some(7) }
    else if name == "repair"@ { Some(8) }
    else if name == "login"@ { Some(9) }
    else if name == "update"@ { Some(10) }
    else if name == "re_download"@ { Some(11) }
    else if name == "convert"@ { Some(12) }
    else if name == "add"@ { Some(13) }
    else { None }
}

/// The fields of an input as a sequence, in declaration order.
pub open spec fn input_fields(i: TaskInput) -> Seq<Option<Seq<char>>> {
    seq![
        opt_view(i.request_id), opt_view(i.pdf_path), opt_view(i.pdf_name), opt_view(i.zip_name),
        opt_view(i.author_id), opt_view(i.author_url), opt_view(i.novel_type), opt_view(i.chapter),
        opt_view(i.repair), opt_view(i.login), opt_view(i.update), opt_view(i.re_download),
        opt_view(i.convert), opt_view(i.add),
    ]
}

/// The field of an input that a client names `name`, by the struct's own
/// field names; none for a name that is not a field.
pub open spec fn named_field(i: TaskInput, name: Seq<char>) -> Option<Option<Seq<char>>> {
    if name == "request_id"@ { Some(opt_view(i.request_id)) }
    else if name == "pdf_path"@ { Some(opt_view(i.pdf_path)) }
    else if name == "pdf_name"@ { Some(opt_view(i.pdf_name)) }
    else if name == "zip_name"@ { Some(opt_view(i.zip_name)) }
    else if name == "author_id"@ { Some(opt_view(i.author_id)) }
    else if name == "author_url"@ { Some(opt_view(i.author_url)) }
    else if name == "novel_type"@ { Some(opt_view(i.novel_type)) }
    else if name == "chapter"@ { Some(opt_view(i.chapter)) }
    else if name == "repair"@ { Some(opt_view(i.repair)) }
    else if name == "login"@ { Some(opt_view(i.login)) }
    else if name == "update"@ { Some(opt_view(i.update)) }
    else if name == "re_download"@ { Some(opt_view(i.re_download)) }
    else if name == "convert"@ { Some(opt_view(i.convert)) }
    else if name == "add"@ { Some(opt_view(i.add)) }
    else { None }
}

/// Law: setting the field called `name` gives exactly that field (by the
/// struct's field names) the value and leaves every other field as it was;
/// a name that is no field changes nothing.
pub proof fn lemma_apply_field_sets_named_field(before: TaskInput, after: TaskInput, name: Seq<char>, value: Seq<char>)
    requires
        input_fields(after) == match field_index(name) {
            Some(k) => input_fields(before).update(k as int, Some(value)),
            None => input_fields(before),
        },
    ensures
        forall|m: Seq<char>| #[trigger] named_field(after, m) == if m == name && named_field(before, m) is Some {
            Some(Some(value))
        } else {
            named_field(before, m)
        },
{
    let fa = input_fields(after);
    let fb = input_fields(before);
    assert(fa[0] == opt_view(after.request_id));
    assert(fa[1] == opt_view(after.pdf_path));
    assert(fa[2] == opt_view(after.pdf_name));
    assert(fa[3] == opt_view(after.zip_name));
    assert(fa[4] == opt_view(after.author_id));
    assert(fa[5] == opt_view(after.author_url));
    assert(fa[6] == opt_view(after.novel_type));
    assert(fa[7] == opt_view(after.chapter));
    assert(fa[8] == opt_view(after.repair));
    assert(fa[9] == opt_view(after.login));
    assert(fa[10] == opt_view(after.update));
    assert(fa[11] == opt_view(after.re_download));
    assert(fa[12] == opt_view(after.convert));
    assert(fa[13] == opt_view(after.add));
    assert(fb[0] == opt_view(before.request_id));
    assert(fb[1] == opt_view(before.pdf_path));
    assert(fb[2] == opt_view(before.pdf_name));
    assert(fb[3] == opt_view(before.zip_name));
    assert(fb[4] == opt_view(before.author_id));
    assert(fb[5] == opt_view(before.author_url));
    assert(fb[6] == opt_view(before.novel_type));
    assert(fb[7] == opt_view(before.chapter));
    assert(fb[8] == opt_view(before.repair));
    assert(fb[9] == opt_view(before.login));
    assert(fb[10] == opt_view(before.update));
    assert(fb[11] == opt_view(before.re_download));
    assert(fb[12] == opt_view(before.convert));
    assert(fb[13] == opt_view(before.add));
    reveal_strlit("request_id");
    reveal_strlit("pdf_path");
    reveal_strlit("pdf_name");
    reveal_strlit("zip_name");
    reveal_strlit("author_id");
    reveal_strlit("author_url");
    reveal_strlit("novel_type");
    reveal_strlit("chapter");
    reveal_strlit("repair");
    reveal_strlit("login");
    reveal_strlit("update");
    reveal_strlit("re_download");
    reveal_strlit("convert");
    reveal_strlit("add");
}

/// Sets the field called `name`; unknown names change nothing.
pub fn apply_task_input_field(input: &mut TaskInput, name: &str, value: String)
    ensures
        input_fields(*final(input)) == match field_index(name@) {
            Some(k) => input_fields(*old(input)).update(k as int, Some(value@)),
            None => input_fields(*old(input)),
        },
        forall|m: Seq<char>| #[trigger] named_field(*final(input), m) == if m == name@ && named_field(*old(input), m) is Some {
            Some(Some(value@))
        } else {
            named_field(*old(input), m)
        },
{
    let ghost start = *input;
    let ghost vv = value@;
    let n = chars_of(name);
    let ghost before = input_fields(*input);
    if chars_eq_str(n.as_slice(), "request_id") {
        input.request_id = Some(value);
    } else if chars_eq_str(n.as_slice(), "pdf_path") {
        input.pdf_path = Some(value);
    } else if chars_eq_str(n.as_slice(), "pdf_name") {
        input.pdf_name = Some(value);
    } else if chars_eq_str(n.as_slice(), "zip_name") {
        input.zip_name = Some(value);
    } else if chars_eq_str(n.as_slice(), "author_id") {
        input.author_id = Some(value);
    } else if chars_eq_str(n.as_slice(), "author_url") {
        input.author_url = Some(value);
    } else if chars_eq_str(n.as_slice(), "novel_type") {
        input.novel_type = Some(value);
    } else if chars_eq_str(n.as_slice(), "chapter") {
        input.chapter = Some(value);
    } else if chars_eq_str(n.as_slice(), "repair") {
        input.repair = Some(value);
    } else if chars_eq_str(n.as_slice(), "login") {
        input.login = Some(value);
    } else if chars_eq_str(n.as_slice(), "update") {
        input.update = Some(value);
    } else if chars_eq_str(n.as_slice(), "re_download") {
        input.re_download = Some(value);
    } else if chars_eq_str(n.as_slice(), "convert") {
        input.convert = Some(value);
    } else if chars_eq_str(n.as_slice(), "add") {
        input.add = Some(value);
    }
    assert(input_fields(*input) =~= match field_index(name@) {
        Some(k) => before.update(k as int, Some(vv)),
        None => before,
    });
    proof {
        lemma_apply_field_sets_named_field(start, *input, name@, vv);
    }
}

/// The request a task input describes, under a server-chosen id.
pub fn request_data_from_input(input: TaskInput, request_id: String) -> (r: RequestData)
    ensures
        r.request_id == request_id,
        r.pdf_path == input.pdf_path,
        r.pdf_name == input.pdf_name,
        r.zip_name == input.zip_name,
        r.author_id == input.author_id,
        r.author_url == input.author_url,
        r.novel_type == input.novel_type,
        r.chapter == input.chapter,
        r.repair == input.repair,
        r.login == input.login,
        r.update == input.update,
        r.re_download == input.re_download,
        r.convert == input.convert,
        r.add == input.add,
{
    RequestData {
        request_id,
        pdf_path: input.pdf_path,
        pdf_name: input.pdf_name,
        zip_name: input.zip_name,
        author_id: input.author_id,
        author_url: input.author_url,
        novel_type: input.novel_type,
        chapter: input.chapter,
        repair: input.repair,
        login: input.login,
        update: input.update,
        re_download: input.re_download,
        convert: input.convert,
        add: input.add,
    }
}


// ---------------------------------------------------------------------------
// Upload and archive paths
// ---------------------------------------------------------------------------

/// One plain path component: not blank, no `/`, and not `.` or `..`.
pub open spec fn simple_segment(v: Seq<char>) -> bool {
    &&& trim(v).len() > 0
    &&& !v.contains('/')
    &&& v != "."@
    &&& v != ".."@
}

pub fn is_simple_path_segment(value: &str) -> (r: bool)
    ensures
        r == simple_segment(value@),
{
    let v = chars_of(value);
    let t = trim_chars(v.as_slice());
    if t.len() == 0 || contains_char(v.as_slice(), '/') {
        return false;
    }
    !chars_eq_str(v.as_slice(), ".") && !chars_eq_str(v.as_slice(), "..")
}

/// Extensions of uploads: non-empty, ASCII letters and digits only.
pub open spec fn upload_extension(e: Seq<char>) -> bool {
    e.len() > 0 && forall|i: int| 0 <= i < e.len() ==> crate::text::is_alnum(#[trigger] e[i])
}

fn all_alnum(v: &[char]) -> (r: bool)
    ensures
        r == (forall|i: int| 0 <= i < v@.len() ==> crate::text::is_alnum(#[trigger] v@[i])),
{
    let mut i: usize = 0;
    while i < v.len()
        invariant
            i <= v.len(),
            forall|k: int| 0 <= k < i ==> crate::text::is_alnum(#[trigger] v@[k]),
        decreases v.len() - i,
    {
        if !crate::text::is_ascii_alphanumeric(v[i]) {
            return false;
        }
        i = i + 1;
    }
    true
}

/// Where an upload of a request is kept: `base_dir/{request_id}.{extension}`.
pub open spec fn upload_path(base_dir: Seq<char>, request_id: Seq<char>, extension: Seq<char>) -> Result<Seq<char>, Seq<char>> {
    if !simple_segment(request_id) {
        Err("invalid request_id for queued upload path: "@ + request_id)
    } else if !upload_extension(extension) {
        Err("invalid upload extension: "@ + extension)
    } else {
        Ok(crate::paths::path_join(base_dir, request_id + "."@ + extension))
    }
}

pub open spec fn result_view(r: Result<String, String>) -> Result<Seq<char>, Seq<char>> {
    match r {
        Ok(s) => Ok(s@),
        Err(e) => Err(e@),
    }
}

pub fn queued_upload_path(base_dir: &str, request_id: &str, extension: &str) -> (r: Result<String, String>)
    ensures
        result_view(r) == upload_path(base_dir@, request_id@, extension@),
{
    if !is_simple_path_segment(request_id) {
        let mut m: Vec<char> = Vec::new();
        push_str(&mut m, "invalid request_id for queued upload path: ");
        push_str(&mut m, request_id);
        return Err(string_from_chars(m.as_slice()));
    }
    let e = chars_of(extension);
    if e.len() == 0 || !all_alnum(e.as_slice()) {
        let mut m: Vec<char> = Vec::new();
        push_str(&mut m, "invalid upload extension: ");
        push_str(&mut m, extension);
        return Err(string_from_chars(m.as_slice()));
    }
    let mut name: Vec<char> = Vec::new();
    push_str(&mut name, request_id);
    push_str(&mut name, ".");
    push_str(&mut name, extension);
    let n = string_from_chars(name.as_slice());
    Ok(crate::paths::join_path(base_dir, n.as_str()))
}

/// Where the ZIP upload of a request would be kept, when it has one; the
/// caller checks that the file exists.
pub fn queued_zip_path(request: &RequestData, pdf_dir: &str) -> (r: Result<Option<String>, String>)
    ensures
        request.zip_name is None ==> r == Ok::<Option<String>, String>(None),
        request.zip_name is Some ==> match r {
            Ok(Some(p)) => upload_path(pdf_dir@, request.request_id@, "zip"@) == Ok::<Seq<char>, Seq<char>>(p@),
            Err(e) => upload_path(pdf_dir@, request.request_id@, "zip"@) == Err::<Seq<char>, Seq<char>>(e@),
            Ok(None) => false,
        },
{
    if request.zip_name.is_none() {
        return Ok(None);
    }
    match queued_upload_path(pdf_dir, request.request_id.as_str(), "zip") {
        Ok(p) => Ok(Some(p)),
        Err(e) => Err(e),
    }
}

/// A relative path inside an archive, rebuilt from its plain components:
/// `.` and empty components are dropped; a leading `/` or a `..` component,
/// or nothing left, is refused.
pub open spec fn archive_components(pieces: Seq<Seq<char>>) -> Option<Seq<Seq<char>>>
    decreases pieces.len(),
{
    if pieces.len() == 0 {
        Some(Seq::empty())
    } else {
        match archive_components(pieces.drop_last()) {
            None => None,
            Some(kept) => {
                let p = pieces.last();
                if p == ".."@ {
                    None
                } else if p.len() == 0 || p == "."@ {
                    Some(kept)
                } else {
                    Some(kept.push(p))
                }
            },
        }
    }
}

pub open spec fn archive_path(name: Seq<char>) -> Option<Seq<char>> {
    if name.len() > 0 && name[0] == '/' {
        None
    } else {
        match archive_components(split_by(name, seq!['/'])) {
            Some(kept) => if kept.len() > 0 { Some(join(kept, "/"@)) } else { None },
            None => None,
        }
    }
}

pub fn sanitized_archive_path(name: &str) -> (r: Result<String, String>)
    ensures
        match r {
            Ok(p) => archive_path(name@) == Some(p@),
            Err(e) => archive_path(name@) is None && e@ == "unsupported zip entry path: "@ + name@,
        },
{
    let v = chars_of(name);
    let mut ok = !(v.len() > 0 && v[0] == '/');
    let pieces = split_at_char(v.as_slice(), '/');
    let ghost ps = views(pieces@);
    let mut kept: Vec<Vec<char>> = Vec::new();
    let mut i: usize = 0;
    assert(ps.take(0) =~= Seq::<Seq<char>>::empty());
    while ok && i < pieces.len()
        invariant
            i <= pieces.len(),
            ps == views(pieces@),
            ok ==> archive_components(ps.take(i as int)) == Some(views(kept@)),
            ok ==> !(name@.len() > 0 && name@[0] == '/'),
            !ok ==> archive_path(name@) is None,
            ps == split_by(name@, seq!['/']),
            v@ == name@,
        decreases pieces.len() - i,
    {
        assert(ps.take(i + 1).drop_last() =~= ps.take(i as int));
        assert(ps.take(i + 1).last() == pieces@[i as int]@);
        let p = &pieces[i];
        if chars_eq_str(p.as_slice(), "..") {
            proof {
                lemma_archive_none_sticks(ps, i + 1, ps.len() as int);
                assert(ps.take(ps.len() as int) =~= ps);
            }
            ok = false;
        } else if p.len() == 0 || chars_eq_str(p.as_slice(), ".") {
        } else {
            let ghost before = views(kept@);
            let copy = crate::text::slice_range(p.as_slice(), 0, p.len());
            assert(copy@ =~= p@);
            kept.push(copy);
            assert(views(kept@) =~= before.push(p@));
        }
        i = i + 1;
    }
    if ok {
        assert(ps.take(pieces.len() as int) =~= ps);
        assert(views(kept@).len() == kept@.len());
        if kept.len() > 0 {
            let joined = join_str(&kept, "/");
            return Ok(string_from_chars(joined.as_slice()));
        }
    }
    let mut m: Vec<char> = Vec::new();
    push_str(&mut m, "unsupported zip entry path: ");
    push_str(&mut m, name);
    Err(string_from_chars(m.as_slice()))
}

proof fn lemma_archive_none_sticks(ps: Seq<Seq<char>>, k: int, j: int)
    requires
        0 <= k <= j <= ps.len(),
        archive_components(ps.take(k)) is None,
    ensures
        archive_components(ps.take(j)) is None,
    decreases j - k,
{
    if j > k {
        lemma_archive_none_sticks(ps, k, j - 1);
        assert(ps.take(j).drop_last() =~= ps.take(j - 1));
    }
}

/// Hashes of archived images: ASCII letters, digits, `-` and `_`.
pub open spec fn hash_char(c: char) -> bool {
    crate::text::is_alnum(c) || c == '-' || c == '_'
}

/// Why an image entry of `data.json` is refused, if it is.
pub open spec fn image_entry_error(logical_name: Seq<char>, hash: Seq<char>) -> Option<Seq<char>> {
    if logical_name.len() == 0 {
        Some("zip data.json contains an empty image logical name"@)
    } else if hash.len() == 0 {
        Some("zip data.json contains an empty image hash for "@ + logical_name)
    } else if !simple_segment(logical_name) {
        Some("zip data.json contains an invalid image logical name: "@ + logical_name)
    } else if !(forall|i: int| 0 <= i < hash.len() ==> hash_char(#[trigger] hash[i])) {
        Some("zip data.json contains an invalid image hash for "@ + logical_name)
    } else {
        None
    }
}

pub fn validate_zip_image_entry(logical_name: &str, hash: &str) -> (r: Result<(), String>)
    ensures
        match r {
            Ok(_) => image_entry_error(logical_name@, hash@) is None,
            Err(e) => image_entry_error(logical_name@, hash@) == Some(e@),
        },
{
    let mut m: Vec<char> = Vec::new();
    if logical_name.is_empty() {
        return Err(crate::text::owned("zip data.json contains an empty image logical name"));
    }
    if hash.is_empty() {
        push_str(&mut m, "zip data.json contains an empty image hash for ");
        push_str(&mut m, logical_name);
        return Err(string_from_chars(m.as_slice()));
    }
    if !is_simple_path_segment(logical_name) {
        push_str(&mut m, "zip data.json contains an invalid image logical name: ");
        push_str(&mut m, logical_name);
        return Err(string_from_chars(m.as_slice()));
    }
    let h = chars_of(hash);
    let mut i: usize = 0;
    while i < h.len()
        invariant
            i <= h.len(),
            h@ == hash@,
            m@ == Seq::<char>::empty(),
            logical_name@.len() > 0,
            hash@.len() > 0,
            simple_segment(logical_name@),
            forall|k: int| 0 <= k < i ==> hash_char(#[trigger] h@[k]),
        decreases h.len() - i,
    {
        if !(crate::text::is_ascii_alphanumeric(h[i]) || h[i] == '-' || h[i] == '_') {
            assert(!hash_char(hash@[i as int]));
            push_str(&mut m, "zip data.json contains an invalid image hash for ");
            push_str(&mut m, logical_name);
            return Err(string_from_chars(m.as_slice()));
        }
        i = i + 1;
    }
    Ok(())
}

/// `entries` with `(k, v)` set: an entry with key `k` takes the new value,
/// otherwise the pair is appended.
pub open spec fn set_entry(entries: Seq<(Seq<char>, Seq<char>)>, k: Seq<char>, v: Seq<char>) -> Seq<(Seq<char>, Seq<char>)> {
    if exists|i: int| 0 <= i < entries.len() && entries[i].0 == k {
        entries.update(choose|i: int| 0 <= i < entries.len() && entries[i].0 == k, (k, v))
    } else {
        entries.push((k, v))
    }
}

pub open spec fn pairs_view(v: Seq<(String, String)>) -> Seq<(Seq<char>, Seq<char>)> {
    v.map_values(|p: (String, String)| (p.0@, p.1@))
}

/// Image entries of `data.json` with names and hashes trimmed, checked in
/// order, and the first refusal if any.
pub open spec fn normalized_images(images: Seq<(Seq<char>, Seq<char>)>) -> Result<Seq<(Seq<char>, Seq<char>)>, Seq<char>>
    decreases images.len(),
{
    if images.len() == 0 {
        Ok(Seq::empty())
    } else {
        match normalized_images(images.drop_last()) {
            Err(e) => Err(e),
            Ok(prev) => {
                let n = trim(images.last().0);
                let h = trim(images.last().1);
                match image_entry_error(n, h) {
                    Some(e) => Err(e),
                    None => Ok(set_entry(prev, n, h)),
                }
            },
        }
    }
}

fn set_pair(entries: &mut Vec<(String, String)>, k: String, v: String)
    requires
        crate::rotation::no_repeats(pairs_view(old(entries)@).map_values(|p: (Seq<char>, Seq<char>)| p.0)),
    ensures
        pairs_view(final(entries)@) == set_entry(pairs_view(old(entries)@), k@, v@),
        crate::rotation::no_repeats(pairs_view(final(entries)@).map_values(|p: (Seq<char>, Seq<char>)| p.0)),
{
    let ghost before = pairs_view(entries@);
    let ghost keys = before.map_values(|p: (Seq<char>, Seq<char>)| p.0);
    let kc = chars_of(k.as_str());
    let mut i: usize = 0;
    while i < entries.len()
        invariant
            i <= entries.len(),
            before == pairs_view(entries@),
            before == pairs_view(old(entries)@),
            keys == before.map_values(|p: (Seq<char>, Seq<char>)| p.0),
            crate::rotation::no_repeats(keys),
            forall|m: int| 0 <= m < i ==> before[m].0 != k@,
            kc@ == k@,
        decreases entries.len() - i,
    {
        let ec = chars_of(entries[i].0.as_str());
        assert(before[i as int] == (entries@[i as int].0@, entries@[i as int].1@));
        if crate::text::chars_eq(ec.as_slice(), kc.as_slice()) {
            proof {
                assert(before[i as int].0 == k@);
                assert forall|w: int| 0 <= w < before.len() && before[w].0 == k@ implies w == i by {
                    assert(keys[w] == before[w].0);
                    assert(keys[i as int] == before[i as int].0);
                }
                let c = choose|w: int| 0 <= w < before.len() && before[w].0 == k@;
                assert(c == i);
            }
            entries.set(i, (k, v));
            assert(pairs_view(entries@) =~= set_entry(before, k@, v@));
            assert(pairs_view(entries@).map_values(|p: (Seq<char>, Seq<char>)| p.0) =~= keys);
            return;
        }
        i = i + 1;
    }
    entries.push((k, v));
    assert(pairs_view(entries@) =~= before.push((k@, v@)));
    assert(pairs_view(entries@).map_values(|p: (Seq<char>, Seq<char>)| p.0) =~= keys.push(k@));
}

/// `data.json` with its site name and image entries trimmed and checked.
pub open spec fn normalized_metadata(site_name: Seq<char>, images: Seq<(Seq<char>, Seq<char>)>) -> Result<(Seq<char>, Seq<(Seq<char>, Seq<char>)>), Seq<char>> {
    let s = trim(site_name);
    if s.len() == 0 {
        Err("zip data.json is missing site_name"@)
    } else if !simple_segment(s) {
        Err("zip data.json has an invalid site_name: "@ + s)
    } else {
        match normalized_images(images) {
            Ok(im) => Ok((s, im)),
            Err(e) => Err(e),
        }
    }
}

pub fn normalize_zip_metadata(metadata: ZipImportMetadata) -> (r: Result<ZipImportMetadata, String>)
    ensures
        match r {
            Ok(m) => normalized_metadata(metadata.site_name@, pairs_view(metadata.images@)) == Ok::<(Seq<char>, Seq<(Seq<char>, Seq<char>)>), Seq<char>>((m.site_name@, pairs_view(m.images@))),
            Err(e) => normalized_metadata(metadata.site_name@, pairs_view(metadata.images@)) == Err::<(Seq<char>, Seq<(Seq<char>, Seq<char>)>), Seq<char>>(e@),
        },
{
    let site_name = crate::text::trim_str(metadata.site_name.as_str());
    if site_name.as_str().is_empty() {
        return Err(crate::text::owned("zip data.json is missing site_name"));
    }
    if !is_simple_path_segment(site_name.as_str()) {
        let mut m: Vec<char> = Vec::new();
        push_str(&mut m, "zip data.json has an invalid site_name: ");
        push_str(&mut m, site_name.as_str());
        return Err(string_from_chars(m.as_slice()));
    }
    let ghost iv = pairs_view(metadata.images@);
    let mut images: Vec<(String, String)> = Vec::new();
    let mut i: usize = 0;
    assert(iv.take(0) =~= Seq::<(Seq<char>, Seq<char>)>::empty());
    assert(pairs_view(images@).map_values(|p: (Seq<char>, Seq<char>)| p.0) =~= Seq::<Seq<char>>::empty());
    assert(pairs_view(images@) =~= Seq::<(Seq<char>, Seq<char>)>::empty());
    while i < metadata.images.len()
        invariant
            i <= metadata.images.len(),
            iv == pairs_view(metadata.images@),
            site_name@ == trim(metadata.site_name@),
            site_name@.len() > 0,
            simple_segment(site_name@),
            normalized_images(iv.take(i as int)) == Ok::<Seq<(Seq<char>, Seq<char>)>, Seq<char>>(pairs_view(images@)),
            crate::rotation::no_repeats(pairs_view(images@).map_values(|p: (Seq<char>, Seq<char>)| p.0)),
        decreases metadata.images.len() - i,
    {
        assert(iv.take(i + 1).drop_last() =~= iv.take(i as int));
        assert(iv.take(i + 1).last() == (metadata.images@[i as int].0@, metadata.images@[i as int].1@));
        let n = crate::text::trim_str(metadata.images[i].0.as_str());
        let h = crate::text::trim_str(metadata.images[i].1.as_str());
        match validate_zip_image_entry(n.as_str(), h.as_str()) {
            Err(e) => {
                proof {
                    assert(normalized_images(iv.take(i + 1)) == Err::<Seq<(Seq<char>, Seq<char>)>, Seq<char>>(e@));
                    lemma_images_error_sticks(iv, i + 1, iv.len() as int);
                    assert(iv.take(iv.len() as int) =~= iv);
                }
                return Err(e);
            },
            Ok(_) => {
                set_pair(&mut images, n, h);
            },
        }
        i = i + 1;
    }
    assert(iv.take(metadata.images.len() as int) =~= iv);
    Ok(ZipImportMetadata { site_name, images })
}

/// The image record of an entry of a ZIP's image table: the extension from
/// its name, a cover where its name, in ASCII lower case, says `cover`.
pub open spec fn zip_image(r: ImageRecord, logical_name: Seq<char>, hash: Seq<char>) -> bool {
    &&& r.logical_name@ == logical_name
    &&& r.hash@ == hash
    &&& plain_path(logical_name) ==> r.ext@ == match name_extension(last_component(logical_name)) {
        Some(e) => e,
        None => Seq::empty(),
    }
    &&& r.kind@ == if crate::text::contains(lower(logical_name), "cover"@) {
        "cover"@
    } else {
        "image"@
    }
}

pub fn zip_image_record(logical_name: &str, hash: &str) -> (r: ImageRecord)
    ensures
        zip_image(r, logical_name@, hash@),
{
    proof {
        reveal_strlit("");
    }
    let ext = match path_extension(logical_name) {
        Some(e) => e,
        None => String::new(),
    };
    let name_chars = chars_of(logical_name);
    let lowered = crate::text::lower_chars(name_chars.as_slice());
    let kind = if crate::text::contains_str(lowered.as_slice(), "cover") {
        crate::text::owned("cover")
    } else {
        crate::text::owned("image")
    };
    ImageRecord { logical_name: crate::text::owned(logical_name), hash: crate::text::owned(hash), ext, kind }
}

/// Whether a work's document from a ZIP has episodes: an `episodes` object
/// with at least one entry.
pub open spec fn payload_has_episodes(raw: JsonView) -> bool {
    get(raw, "episodes"@) matches Some(JsonView::Object(e)) && e.len() > 0
}

pub fn work_payload_has_episodes(raw: &JsonValue) -> (r: bool)
    ensures
        r == payload_has_episodes(raw.view()),
{
    match json_get(raw, "episodes") {
        Some(v) => {
            proof {
                crate::json::lemma_view_parts(*v);
            }
            match v {
                JsonValue::Object(entries) => entries.len() > 0,
                _ => false,
            }
        },
        None => false,
    }
}

proof fn lemma_images_error_sticks(iv: Seq<(Seq<char>, Seq<char>)>, k: int, j: int)
    requires
        0 <= k <= j <= iv.len(),
        normalized_images(iv.take(k)) is Err,
    ensures
        normalized_images(iv.take(j)) == normalized_images(iv.take(k)),
    decreases j - k,
{
    if j > k {
        lemma_images_error_sticks(iv, k, j - 1);
        assert(iv.take(j).drop_last() =~= iv.take(j - 1));
    }
}


// ---------------------------------------------------------------------------
// Account names
// ---------------------------------------------------------------------------

/// The last plain component of a path (`Path::file_name`): empty and `.`
/// components are skipped, and a final `..` has no file name.
pub open spec fn file_name(p: Seq<char>) -> Option<Seq<char>> {
    let segs = plain_components(split_by(p, seq!['/']));
    if segs.len() == 0 || segs.last() == ".."@ {
        None
    } else {
        Some(segs.last())
    }
}

/// Components that are neither empty nor `.`.
pub open spec fn plain_components(s: Seq<Seq<char>>) -> Seq<Seq<char>>
    decreases s.len(),
{
    if s.len() == 0 {
        s
    } else if s.last().len() > 0 && s.last() != "."@ {
        plain_components(s.drop_last()).push(s.last())
    } else {
        plain_components(s.drop_last())
    }
}

/// A file name without its last extension (`Path::file_stem`): a name whose
/// only dot is its first character keeps it.
pub open spec fn file_stem(name: Seq<char>) -> Seq<char> {
    match crate::text::rfind_char(name, '.') {
        Some(k) => if k > 0 { name.take(k) } else { name },
        None => name,
    }
}

fn file_name_of(v: &[char]) -> (r: Option<Vec<char>>)
    ensures
        match r {
            Some(f) => file_name(v@) == Some(f@),
            None => file_name(v@) is None,
        },
{
    let pieces = split_at_char(v, '/');
    let ghost ps = views(pieces@);
    let mut last: Option<usize> = None;
    let mut count: usize = 0;
    let mut i: usize = 0;
    assert(ps.take(0) =~= Seq::<Seq<char>>::empty());
    while i < pieces.len()
        invariant
            i <= pieces.len(),
            ps == views(pieces@),
            count == plain_components(ps.take(i as int)).len(),
            count <= i,
            match last {
                Some(k) => k < i && count > 0 && plain_components(ps.take(i as int)).last() == ps[k as int],
                None => count == 0,
            },
        decreases pieces.len() - i,
    {
        assert(ps.take(i + 1).drop_last() =~= ps.take(i as int));
        assert(ps.take(i + 1).last() == pieces@[i as int]@);
        assert(ps[i as int] == pieces@[i as int]@);
        if pieces[i].len() > 0 && !chars_eq_str(pieces[i].as_slice(), ".") {
            last = Some(i);
            count = count + 1;
        }
        i = i + 1;
    }
    assert(ps.take(pieces.len() as int) =~= ps);
    match last {
        None => None,
        Some(k) => {
            assert(ps[k as int] == pieces@[k as int]@);
            if chars_eq_str(pieces[k].as_slice(), "..") {
                None
            } else {
                let f = crate::text::slice_range(pieces[k].as_slice(), 0, pieces[k].len());
                assert(f@ =~= pieces@[k as int]@);
                Some(f)
            }
        },
    }
}

fn file_stem_of(v: &[char]) -> (r: Vec<char>)
    ensures
        r@ == file_stem(v@),
{
    proof {
        crate::text::lemma_rfind_char(v@, '.');
    }
    match crate::text::rfind_char_exec(v, '.') {
        Some(k) => {
            if k > 0 {
                crate::text::slice_range(v, 0, k)
            } else {
                let r = crate::text::slice_range(v, 0, v.len());
                assert(r@ =~= v@);
                r
            }
        },
        None => {
            let r = crate::text::slice_range(v, 0, v.len());
            assert(r@ =~= v@);
            r
        },
    }
}

/// The account name given by an uploaded file name: its file name without
/// extension, trimmed; nothing when that is blank.
pub open spec fn account_name(value: Seq<char>) -> Option<Seq<char>> {
    let t = trim(value);
    let f = trim(match file_name(t) {
        Some(f) => f,
        None => t,
    });
    let stem = trim(file_stem(f));
    if t.len() == 0 || f.len() == 0 || stem.len() == 0 {
        None
    } else {
        Some(stem)
    }
}

pub fn normalize_account_name(value: &str) -> (r: Option<String>)
    ensures
        opt_view(r) == account_name(value@),
{
    let v = chars_of(value);
    let t = trim_chars(v.as_slice());
    if t.len() == 0 {
        return None;
    }
    let f0 = match file_name_of(t.as_slice()) {
        Some(f) => f,
        None => t.clone(),
    };
    let f = trim_chars(f0.as_slice());
    if f.len() == 0 {
        return None;
    }
    let s0 = file_stem_of(f.as_slice());
    let stem = trim_chars(s0.as_slice());
    if stem.len() == 0 {
        None
    } else {
        Some(string_from_chars(stem.as_slice()))
    }
}

// ---------------------------------------------------------------------------
// Task records
// ---------------------------------------------------------------------------

/// A fresh request id (`uuid::Uuid::new_v4().to_string()`): random, always
/// 36 characters of lower-case hexadecimal digits and hyphens.
#[verifier::external_body]
pub(crate) fn random_request_id() -> (r: String)
    ensures
        r@.len() == 36,
        forall|i: int| 0 <= i < 36 ==> (('0' <= #[trigger] r@[i] <= '9') || ('a' <= r@[i] <= 'f') || r@[i] == '-'),
{
    uuid::Uuid::new_v4().to_string()
}

/// The periodic `update=all` task, queued under a fresh request id.
pub fn auto_update_task() -> (r: TaskRecord)
    ensures
        r.id == 0,
        r.action@ == "update"@,
        r.param@ == "all"@,
        r.request.request_id == r.request_id,
        r.request.update matches Some(u) && u@ == "all"@,
        r.request.repair is None && r.request.login is None && r.request.re_download is None
            && r.request.convert is None && r.request.add is None && r.request.pdf_path is None
            && r.request.zip_name is None,
        r.status == TaskStatus::Queued,
        r.error is None,
        r.created_at == r.updated_at,
        r.request_id@.len() == 36,
{
    let request_id = random_request_id();
    let now = crate::pixiv::now_string();
    TaskRecord {
        id: 0,
        request_id: request_id.clone(),
        action: crate::text::owned("update"),
        param: crate::text::owned("all"),
        request: RequestData {
            request_id,
            pdf_path: None,
            pdf_name: None,
            zip_name: None,
            author_id: None,
            author_url: None,
            novel_type: None,
            chapter: None,
            repair: None,
            login: None,
            update: Some(crate::text::owned("all")),
            re_download: None,
            convert: None,
            add: None,
        },
        status: TaskStatus::Queued,
        error: None,
        created_at: now.clone(),
        updated_at: now,
    }
}

// ---------------------------------------------------------------------------
// Library listing queries
// ---------------------------------------------------------------------------

#[derive(Debug, Clone, Copy, PartialEq, Eq, Structural)]
pub enum WorkListSort {
    UpdatedDesc,
    UpdatedAsc,
    TitleAsc,
    TitleDesc,
    AuthorAsc,
    AuthorDesc,
}

/// Filters of a library listing.
#[derive(Debug, Clone, Default)]
pub struct WorkListFilters {
    pub site: Option<String>,
    pub search: Option<String>,
    pub author_id: Option<String>,
    pub author: Option<String>,
    pub work_type: Option<String>,
    pub serialization: Option<String>,
}

pub open spec fn sort_clause(sort: WorkListSort) -> Seq<char> {
    match sort {
        WorkListSort::UpdatedDesc => "update_date DESC, title COLLATE NOCASE ASC, work_key ASC"@,
        WorkListSort::UpdatedAsc => "update_date ASC, title COLLATE NOCASE ASC, work_key ASC"@,
        WorkListSort::TitleAsc => "title COLLATE NOCASE ASC, work_key ASC"@,
        WorkListSort::TitleDesc => "title COLLATE NOCASE DESC, work_key ASC"@,
        WorkListSort::AuthorAsc => "author COLLATE NOCASE ASC, title COLLATE NOCASE ASC, work_key ASC"@,
        WorkListSort::AuthorDesc => "author COLLATE NOCASE DESC, title COLLATE NOCASE ASC, work_key ASC"@,
    }
}

impl WorkListSort {
    /// The SQL ordering of a listing.
    pub fn order_by(self) -> (r: &'static str)
        ensures
            r@ == sort_clause(self),
    {
        match self {
            WorkListSort::UpdatedDesc => "update_date DESC, title COLLATE NOCASE ASC, work_key ASC",
            WorkListSort::UpdatedAsc => "update_date ASC, title COLLATE NOCASE ASC, work_key ASC",
            WorkListSort::TitleAsc => "title COLLATE NOCASE ASC, work_key ASC",
            WorkListSort::TitleDesc => "title COLLATE NOCASE DESC, work_key ASC",
            WorkListSort::AuthorAsc => "author COLLATE NOCASE ASC, title COLLATE NOCASE ASC, work_key ASC",
            WorkListSort::AuthorDesc => "author COLLATE NOCASE DESC, title COLLATE NOCASE ASC, work_key ASC",
        }
    }
}

/// Whether a sort is descending: its query value ends in `_desc`.
pub open spec fn sort_descending(sort: WorkListSort) -> bool {
    let q = sort_query_text(sort);
    q.len() >= 5 && q.skip(q.len() - 5) == "_desc"@
}

/// The column a sort orders by first, as its query value names it
/// (`updated`, `title`, `author`), titles and authors without regard to case.
pub open spec fn sort_key_column(sort: WorkListSort) -> Seq<char> {
    let q = sort_query_text(sort);
    if q.take(7) == "updated"@ {
        "update_date"@
    } else if q.take(5) == "title"@ {
        "title COLLATE NOCASE"@
    } else {
        "author COLLATE NOCASE"@
    }
}

/// The ties after the first column: by title unless titles come first,
/// then by key, always ascending.
pub open spec fn sort_ties(sort: WorkListSort) -> Seq<char> {
    if sort_query_text(sort).take(5) == "title"@ {
        ", work_key ASC"@
    } else {
        ", title COLLATE NOCASE ASC, work_key ASC"@
    }
}

/// Law: every listing sort orders first by the column its query value names,
/// descending exactly when the value ends in `_desc` and ascending otherwise,
/// and breaks ties by title and key in ascending order; so the ascending
/// and descending sorts of one column order in opposite directions.
pub proof fn lemma_sort_clause(sort: WorkListSort)
    ensures
        sort_clause(sort) == sort_key_column(sort) + (if sort_descending(sort) {
            " DESC"@
        } else {
            " ASC"@
        }) + sort_ties(sort),
{
    reveal_strlit("updated_desc");
    reveal_strlit("updated_asc");
    reveal_strlit("title_asc");
    reveal_strlit("title_desc");
    reveal_strlit("author_asc");
    reveal_strlit("author_desc");
    reveal_strlit("_desc");
    reveal_strlit("updated");
    reveal_strlit("title");
    reveal_strlit("update_date");
    reveal_strlit("title COLLATE NOCASE");
    reveal_strlit("author COLLATE NOCASE");
    reveal_strlit(" DESC");
    reveal_strlit(" ASC");
    reveal_strlit(", work_key ASC");
    reveal_strlit(", title COLLATE NOCASE ASC, work_key ASC");
    reveal_strlit("update_date DESC, title COLLATE NOCASE ASC, work_key ASC");
    reveal_strlit("update_date ASC, title COLLATE NOCASE ASC, work_key ASC");
    reveal_strlit("title COLLATE NOCASE ASC, work_key ASC");
    reveal_strlit("title COLLATE NOCASE DESC, work_key ASC");
    reveal_strlit("author COLLATE NOCASE ASC, title COLLATE NOCASE ASC, work_key ASC");
    reveal_strlit("author COLLATE NOCASE DESC, title COLLATE NOCASE ASC, work_key ASC");
    let q = sort_query_text(sort);
    match sort {
        WorkListSort::UpdatedDesc => {
            assert(q.take(7) =~= "updated"@);
            assert(q.take(5) != "title"@) by {
                assert(q.take(5)[0] != "title"@[0]);
            }
            assert(q.skip(q.len() - 5) =~= "_desc"@);
            assert(sort_clause(sort) =~= sort_key_column(sort) + (if sort_descending(sort) {
                " DESC"@
            } else {
                " ASC"@
            }) + sort_ties(sort));
        },
        WorkListSort::UpdatedAsc => {
            assert(q.take(7) =~= "updated"@);
            assert(q.take(5) != "title"@) by {
                assert(q.take(5)[0] != "title"@[0]);
            }
            assert(q.skip(q.len() - 5) != "_desc"@) by {
                assert(q.skip(q.len() - 5)[0] != "_desc"@[0]);
            }
            assert(sort_clause(sort) =~= sort_key_column(sort) + (if sort_descending(sort) {
                " DESC"@
            } else {
                " ASC"@
            }) + sort_ties(sort));
        },
        WorkListSort::TitleAsc => {
            assert(q.take(7) != "updated"@) by {
                assert(q.take(7)[0] != "updated"@[0]);
            }
            assert(q.take(5) =~= "title"@);
            assert(q.skip(q.len() - 5) != "_desc"@) by {
                assert(q.skip(q.len() - 5)[1] != "_desc"@[1]);
            }
            assert(sort_clause(sort) =~= sort_key_column(sort) + (if sort_descending(sort) {
                " DESC"@
            } else {
                " ASC"@
            }) + sort_ties(sort));
        },
        WorkListSort::TitleDesc => {
            assert(q.take(7) != "updated"@) by {
                assert(q.take(7)[0] != "updated"@[0]);
            }
            assert(q.take(5) =~= "title"@);
            assert(q.skip(q.len() - 5) =~= "_desc"@);
            assert(sort_clause(sort) =~= sort_key_column(sort) + (if sort_descending(sort) {
                " DESC"@
            } else {
                " ASC"@
            }) + sort_ties(sort));
        },
        WorkListSort::AuthorAsc => {
            assert(q.take(7) != "updated"@) by {
                assert(q.take(7)[0] != "updated"@[0]);
            }
            assert(q.take(5) != "title"@) by {
                assert(q.take(5)[0] != "title"@[0]);
            }
            assert(q.skip(q.len() - 5) != "_desc"@) by {
                assert(q.skip(q.len() - 5)[1] != "_desc"@[1]);
            }
            assert(sort_clause(sort) =~= sort_key_column(sort) + (if sort_descending(sort) {
                " DESC"@
            } else {
                " ASC"@
            }) + sort_ties(sort));
        },
        WorkListSort::AuthorDesc => {
            assert(q.take(7) != "updated"@) by {
                assert(q.take(7)[0] != "updated"@[0]);
            }
            assert(q.take(5) != "title"@) by {
                assert(q.take(5)[0] != "title"@[0]);
            }
            assert(q.skip(q.len() - 5) =~= "_desc"@);
            assert(sort_clause(sort) =~= sort_key_column(sort) + (if sort_descending(sort) {
                " DESC"@
            } else {
                " ASC"@
            }) + sort_ties(sort));
        },
    }
}

/// The query value of a listing sort; anything unknown sorts by most
/// recently updated.
pub open spec fn sort_of(sort: Option<Seq<char>>) -> WorkListSort {
    match sort {
        Some(s) => {
            let t = trim(s);
            if t == "updated_asc"@ {
                WorkListSort::UpdatedAsc
            } else if t == "title_asc"@ {
                WorkListSort::TitleAsc
            } else if t == "title_desc"@ {
                WorkListSort::TitleDesc
            } else if t == "author_asc"@ {
                WorkListSort::AuthorAsc
            } else if t == "author_desc"@ {
                WorkListSort::AuthorDesc
            } else {
                WorkListSort::UpdatedDesc
            }
        },
        None => WorkListSort::UpdatedDesc,
    }
}

pub fn parse_work_list_sort(sort: Option<&str>) -> (r: WorkListSort)
    ensures
        r == sort_of(
            match sort {
                Some(s) => Some(s@),
                None => None,
            },
        ),
{
    match sort {
        None => WorkListSort::UpdatedDesc,
        Some(s) => {
            let c = chars_of(s);
            let t = trim_chars(c.as_slice());
            if chars_eq_str(t.as_slice(), "updated_asc") {
                WorkListSort::UpdatedAsc
            } else if chars_eq_str(t.as_slice(), "title_asc") {
                WorkListSort::TitleAsc
            } else if chars_eq_str(t.as_slice(), "title_desc") {
                WorkListSort::TitleDesc
            } else if chars_eq_str(t.as_slice(), "author_asc") {
                WorkListSort::AuthorAsc
            } else if chars_eq_str(t.as_slice(), "author_desc") {
                WorkListSort::AuthorDesc
            } else {
                WorkListSort::UpdatedDesc
            }
        },
    }
}

/// The query value of a listing sort.
pub open spec fn sort_query_text(sort: WorkListSort) -> Seq<char> {
    match sort {
        WorkListSort::UpdatedDesc => "updated_desc"@,
        WorkListSort::UpdatedAsc => "updated_asc"@,
        WorkListSort::TitleAsc => "title_asc"@,
        WorkListSort::TitleDesc => "title_desc"@,
        WorkListSort::AuthorAsc => "author_asc"@,
        WorkListSort::AuthorDesc => "author_desc"@,
    }
}

/// The query sort value for a listing sort; parsing it gives the sort back.
pub fn work_list_sort_query_value(sort: WorkListSort) -> (r: &'static str)
    ensures
        r@ == sort_query_text(sort),
        sort_of(Some(r@)) == sort,
{
    proof {
        reveal_strlit("updated_desc");
        reveal_strlit("updated_asc");
        reveal_strlit("title_asc");
        reveal_strlit("title_desc");
        reveal_strlit("author_asc");
        reveal_strlit("author_desc");
    }
    let r = match sort {
        WorkListSort::UpdatedDesc => "updated_desc",
        WorkListSort::UpdatedAsc => "updated_asc",
        WorkListSort::TitleAsc => "title_asc",
        WorkListSort::TitleDesc => "title_desc",
        WorkListSort::AuthorAsc => "author_asc",
        WorkListSort::AuthorDesc => "author_desc",
    };
    proof {
        assert(trim(r@) == r@) by {
            assert(!crate::text::is_ws(r@[0]));
            assert(!crate::text::is_ws(r@.last()));
            crate::text::lemma_trim_plain(r@);
        }
        assert("updated_desc"@[8] != "updated_asc"@[8]);
        assert("title_asc"@[6] != "title_desc"@[6]);
        assert("author_asc"@[7] != "author_desc"@[7]);
    }
    r
}

/// How many works a page of the library lists: 100 unless asked, kept
/// between 1 and 5000.
pub fn library_page_limit(limit: Option<usize>) -> (r: usize)
    ensures
        r == match limit {
            Some(n) => if n < 1 {
                1
            } else if n > 5000 {
                5000
            } else {
                n
            },
            None => 100,
        },
{
    match limit {
        Some(n) => if n < 1 {
            1
        } else if n > 5000 {
            5000
        } else {
            n
        },
        None => 100,
    }
}

/// A query value trimmed, or nothing when blank.
pub fn trimmed_query_value(value: Option<&str>) -> (r: Option<String>)
    ensures
        opt_view(r) == normalized(
            match value {
                Some(v) => Some(v@),
                None => None,
            },
        ),
{
    match value {
        Some(v) => {
            let t = crate::text::trim_str(v);
            if t.as_str().is_empty() {
                None
            } else {
                Some(t)
            }
        },
        None => None,
    }
}

/// A `LIKE` pattern matching `value` literally: `%`, `_` and `\` escaped.
pub open spec fn like_escaped(s: Seq<char>) -> Seq<char>
    decreases s.len(),
{
    if s.len() == 0 {
        s
    } else {
        let c = s.last();
        let tail = if c == '%' || c == '_' || c == '\\' { seq!['\\', c] } else { seq![c] };
        like_escaped(s.drop_last()) + tail
    }
}

pub fn escape_like_pattern(value: &str) -> (r: String)
    ensures
        r@ == like_escaped(value@),
{
    let v = chars_of(value);
    let mut out: Vec<char> = Vec::new();
    let mut i: usize = 0;
    assert(v@.take(0) =~= Seq::<char>::empty());
    while i < v.len()
        invariant
            i <= v.len(),
            out@ == like_escaped(v@.take(i as int)),
        decreases v.len() - i,
    {
        assert(v@.take(i + 1).drop_last() =~= v@.take(i as int));
        let c = v[i];
        let ghost before = out@;
        if c == '%' || c == '_' || c == '\\' {
            out.push('\\');
        }
        out.push(c);
        assert(out@ =~= like_escaped(v@.take(i + 1)));
        i = i + 1;
    }
    assert(v@.take(v.len() as int) =~= v@);
    string_from_chars(out.as_slice())
}


// ---------------------------------------------------------------------------
// Request bodies and uploaded archives
// ---------------------------------------------------------------------------

/// The largest JSON or form body a request may carry.
pub const JSON_FORM_BODY_LIMIT_BYTES: usize = 1024 * 1024;

/// Refuses a JSON or form body longer than the limit.
pub fn validate_non_multipart_body_size(len: usize) -> (r: Result<(), String>)
    ensures
        len <= JSON_FORM_BODY_LIMIT_BYTES <==> r is Ok,
        r matches Err(e) ==> e@ == "request body exceeds 1048576 bytes"@,
{
    if len > JSON_FORM_BODY_LIMIT_BYTES {
        Err(crate::text::owned("request body exceeds 1048576 bytes"))
    } else {
        Ok(())
    }
}

/// A file of an uploaded archive to extract: its index in the archive and
/// where it goes, relative to the data directory.
#[derive(Debug, Clone, PartialEq, Eq)]
pub struct ZipPayloadEntry {
    pub index: usize,
    pub relative: String,
}

/// The first component of a relative path.
pub open spec fn root_of(p: Seq<char>) -> Seq<char> {
    match crate::text::find(p, "/"@) {
        Some(i) => p.take(i),
        None => p,
    }
}

/// `out` put before what the rest of a scan gives, unless it failed.
pub open spec fn after(out: Seq<(int, Seq<char>)>, r: Result<Seq<(int, Seq<char>)>, Seq<char>>) -> Result<
    Seq<(int, Seq<char>)>,
    Seq<char>,
> {
    match r {
        Ok(rest) => Ok(out + rest),
        Err(e) => Err(e),
    }
}

/// The files of an archive's entries from the `i`th on, given the paths
/// already taken and whether the site's payload was seen: each file but
/// `data.json` under the site's directory or `images`, each path once;
/// the first entry that breaks a rule is the error.
pub open spec fn zip_scan(
    entries: Seq<(Seq<char>, bool)>,
    site: Seq<char>,
    i: int,
    seen: Seq<Seq<char>>,
    found: bool,
) -> Result<Seq<(int, Seq<char>)>, Seq<char>>
    decreases entries.len() - i,
{
    if i < 0 || i >= entries.len() {
        if found {
            Ok(Seq::empty())
        } else {
            Err("zip archive is missing the "@ + site + "/ payload"@)
        }
    } else {
        let (name, is_dir) = entries[i];
        if is_dir || name == "data.json"@ {
            zip_scan(entries, site, i + 1, seen, found)
        } else {
            match archive_path(name) {
                None => Err("unsupported zip entry path: "@ + name),
                Some(rel) => {
                    let root = root_of(rel);
                    if root != site && root != "images"@ {
                        Err("zip archive contains unexpected top-level entry: "@ + name)
                    } else if seen.contains(rel) {
                        Err("zip archive contains duplicate entry path: "@ + rel)
                    } else {
                        after(seq![(i, rel)], zip_scan(entries, site, i + 1, seen.push(rel), found || root == site))
                    }
                },
            }
        }
    }
}

pub open spec fn zip_entries_view(v: Seq<(String, bool)>) -> Seq<(Seq<char>, bool)> {
    v.map_values(|e: (String, bool)| (e.0@, e.1))
}

pub open spec fn payload_view(v: Seq<ZipPayloadEntry>) -> Seq<(int, Seq<char>)> {
    v.map_values(|e: ZipPayloadEntry| (e.index as int, e.relative@))
}

fn seen_path(seen: &Vec<String>, x: &String) -> (r: bool)
    ensures
        r == crate::text::strings_view(seen@).contains(x@),
{
    let xv = chars_of(x.as_str());
    let r = crate::text::contains_string(seen, xv.as_slice());
    proof {
        if crate::text::strings_view(seen@).contains(x@) {
            let k = choose|k: int| 0 <= k < crate::text::strings_view(seen@).len() && crate::text::strings_view(seen@)[k] == x@;
            assert(seen@[k]@ == xv@);
        }
    }
    r
}

/// The files of an uploaded archive to extract, from its entries' names
/// and whether each is a directory.
pub fn collect_zip_payload_entries(entries: &Vec<(String, bool)>, site_name: &str) -> (r: Result<Vec<ZipPayloadEntry>, String>)
    ensures
        match r {
            Ok(v) => zip_scan(zip_entries_view(entries@), site_name@, 0, Seq::empty(), false) == Ok::<
                Seq<(int, Seq<char>)>,
                Seq<char>,
            >(payload_view(v@)),
            Err(e) => zip_scan(zip_entries_view(entries@), site_name@, 0, Seq::empty(), false) == Err::<
                Seq<(int, Seq<char>)>,
                Seq<char>,
            >(e@),
        },
{
    proof {
        reveal_strlit("data.json");
        reveal_strlit("images");
    }
    let ghost ev = zip_entries_view(entries@);
    let ghost goal = zip_scan(ev, site_name@, 0, Seq::empty(), false);
    let mut out: Vec<ZipPayloadEntry> = Vec::new();
    let mut seen: Vec<String> = Vec::new();
    let mut found = false;
    let mut i: usize = 0;
    assert(payload_view(out@) =~= Seq::<(int, Seq<char>)>::empty());
    assert(crate::text::strings_view(seen@) =~= Seq::<Seq<char>>::empty());
    assert(after(Seq::empty(), goal) == goal) by {
        match goal {
            Ok(rest) => {
                assert(Seq::<(int, Seq<char>)>::empty() + rest =~= rest);
            },
            Err(e) => {},
        }
    }
    while i < entries.len()
        invariant
            i <= entries.len(),
            ev == zip_entries_view(entries@),
            goal == zip_scan(ev, site_name@, 0, Seq::empty(), false),
            goal == after(payload_view(out@), zip_scan(ev, site_name@, i as int, crate::text::strings_view(seen@), found)),
        decreases entries.len() - i,
    {
        let ghost sv = crate::text::strings_view(seen@);
        let ghost before = payload_view(out@);
        let (name, is_dir) = &entries[i];
        assert(ev[i as int] == (name@, *is_dir));
        if *is_dir || str_eq(name.as_str(), "data.json") {
            i = i + 1;
            continue;
        }
        let rel = match sanitized_archive_path(name.as_str()) {
            Ok(p) => p,
            Err(e) => {
                return Err(e);
            },
        };
        let rv = chars_of(rel.as_str());
        let root = match crate::text::find_str(rv.as_slice(), "/") {
            Some(k) => {
                proof {
                    crate::text::lemma_find(rv@, "/"@);
                }
                crate::text::slice_range(rv.as_slice(), 0, k)
            },
            None => rv,
        };
        assert(root@ == root_of(rel@)) by {
            match crate::text::find(rel@, "/"@) {
                Some(k) => {
                    crate::text::lemma_find(rel@, "/"@);
                    assert(rel@.subrange(0, k) =~= rel@.take(k));
                },
                None => {},
            }
        }
        let is_site = crate::text::chars_eq_str(root.as_slice(), site_name);
        if !is_site && !crate::text::chars_eq_str(root.as_slice(), "images") {
            let mut t: Vec<char> = Vec::new();
            push_str(&mut t, "zip archive contains unexpected top-level entry: ");
            push_str(&mut t, name.as_str());
            return Err(string_from_chars(t.as_slice()));
        }
        if seen_path(&seen, &rel) {
            let mut t: Vec<char> = Vec::new();
            push_str(&mut t, "zip archive contains duplicate entry path: ");
            push_str(&mut t, rel.as_str());
            return Err(string_from_chars(t.as_slice()));
        }
        let ghost relv = rel@;
        let ghost entry = (i as int, relv);
        seen.push(crate::text::owned(rel.as_str()));
        assert(crate::text::strings_view(seen@) =~= sv.push(relv));
        out.push(ZipPayloadEntry { index: i, relative: rel });
        assert(payload_view(out@) =~= before.push(entry));
        found = found || is_site;
        proof {
            let next = zip_scan(ev, site_name@, i + 1, sv.push(relv), found);
            match next {
                Ok(rest) => {
                    assert(before + (seq![entry] + rest) =~= before.push(entry) + rest);
                },
                Err(e) => {},
            }
        }
        i = i + 1;
    }
    if !found {
        let mut t: Vec<char> = Vec::new();
        push_str(&mut t, "zip archive is missing the ");
        push_str(&mut t, site_name);
        push_str(&mut t, "/ payload");
        return Err(string_from_chars(t.as_slice()));
    }
    assert(payload_view(out@) + Seq::<(int, Seq<char>)>::empty() =~= payload_view(out@));
    Ok(out)
}


// ---------------------------------------------------------------------------
// Names of uploaded accounts
// ---------------------------------------------------------------------------

/// The `k`th name tried after `preferred` is taken.
pub open spec fn numbered_name(preferred: Seq<char>, k: nat) -> Seq<char> {
    preferred + seq!['_'] + crate::text::decimal(k)
}

/// Whether `r` is the name an account is saved under when `preferred` is
/// asked for and `taken` are in use: `preferred` if it is free, else the
/// first free of `preferred_1`, `preferred_2`, ...
pub open spec fn first_free_name(taken: Seq<Seq<char>>, preferred: Seq<char>, r: Seq<char>) -> bool {
    ||| !taken.contains(preferred) && r == preferred
    ||| taken.contains(preferred) && exists|k: nat|
        k >= 1 && r == numbered_name(preferred, k) && !taken.contains(r) && forall|j: nat|
            1 <= j < k ==> taken.contains(#[trigger] numbered_name(preferred, j))
}

proof fn lemma_numbered_injective(p: Seq<char>, a: nat, b: nat)
    requires
        numbered_name(p, a) == numbered_name(p, b),
    ensures
        a == b,
{
    let x = numbered_name(p, a);
    let y = numbered_name(p, b);
    assert(x.skip(p.len() + 1int) =~= crate::text::decimal(a));
    assert(y.skip(p.len() + 1int) =~= crate::text::decimal(b));
    crate::text::lemma_decimal_injective(a, b);
}

/// Law: no more names can be taken than there are taken names: if
/// `preferred` and the first `n` numbered names are all taken, there are
/// more than `n` taken names.
pub proof fn lemma_taken_names_bound(taken: Seq<Seq<char>>, p: Seq<char>, n: nat)
    requires
        taken.contains(p),
        forall|j: nat| 1 <= j <= n ==> taken.contains(#[trigger] numbered_name(p, j)),
    ensures
        n < taken.len(),
{
    let c = Seq::new(n + 1, |i: int| if i == 0 { p } else { numbered_name(p, i as nat) });
    assert(c.no_duplicates()) by {
        assert forall|i: int, j: int| 0 <= i < c.len() && 0 <= j < c.len() && i != j implies c[i] != c[j] by {
            if c[i] == c[j] {
                if i == 0 {
                    assert(c[j].len() > p.len());
                } else if j == 0 {
                    assert(c[i].len() > p.len());
                } else {
                    lemma_numbered_injective(p, i as nat, j as nat);
                }
            }
        }
    }
    c.unique_seq_to_set();
    assert(c.to_set().subset_of(taken.to_set())) by {
        assert forall|x: Seq<char>| c.to_set().contains(x) implies taken.to_set().contains(x) by {
            let i = choose|i: int| 0 <= i < c.len() && c[i] == x;
            if i > 0 {
                assert(taken.contains(numbered_name(p, i as nat)));
            }
        }
    }
    taken.lemma_cardinality_of_set();
    vstd::set_lib::lemma_len_subset(c.to_set(), taken.to_set());
}

/// The name an uploaded account is saved under, given the names in use.
pub fn choose_available_account_name(taken: &Vec<String>, preferred: &str) -> (r: String)
    requires
        taken@.len() < u64::MAX,
    ensures
        first_free_name(crate::text::strings_view(taken@), preferred@, r@),
{
    let ghost tv = crate::text::strings_view(taken@);
    let mut candidate = crate::text::owned(preferred);
    let mut counter: u64 = 1;
    let mut seen = contains_name(taken, &candidate);
    if !seen {
        return candidate;
    }
    while seen
        invariant
            tv == crate::text::strings_view(taken@),
            taken@.len() < u64::MAX,
            1 <= counter,
            tv.contains(preferred@),
            counter == 1 ==> candidate@ == preferred@,
            counter > 1 ==> candidate@ == numbered_name(preferred@, (counter - 1) as nat),
            seen == tv.contains(candidate@),
            forall|j: nat| 1 <= j < counter - 1 ==> tv.contains(#[trigger] numbered_name(preferred@, j)),
            !seen ==> counter > 1,
        decreases tv.len() + 2 - counter,
    {
        proof {
            if counter > 1 {
                assert forall|j: nat| 1 <= j <= (counter - 1) as nat implies tv.contains(#[trigger] numbered_name(preferred@, j)) by {
                    if j < counter - 1 {
                    }
                }
                lemma_taken_names_bound(tv, preferred@, (counter - 1) as nat);
            }
        }
        let mut t: Vec<char> = Vec::new();
        crate::text::push_str(&mut t, preferred);
        t.push('_');
        crate::text::push_decimal(&mut t, counter);
        candidate = string_from_chars(t.as_slice());
        counter = counter + 1;
        seen = contains_name(taken, &candidate);
    }
    proof {
        let k = (counter - 1) as nat;
        assert(forall|j: nat| 1 <= j < k ==> tv.contains(#[trigger] numbered_name(preferred@, j)));
    }
    candidate
}

fn contains_name(list: &Vec<String>, x: &String) -> (r: bool)
    ensures
        r == crate::text::strings_view(list@).contains(x@),
{
    let xv = chars_of(x.as_str());
    let r = crate::text::contains_string(list, xv.as_slice());
    proof {
        if crate::text::strings_view(list@).contains(x@) {
            let k = choose|k: int| 0 <= k < crate::text::strings_view(list@).len() && crate::text::strings_view(list@)[k] == x@;
            assert(list@[k]@ == xv@);
        }
    }
    r
}

// ---------------------------------------------------------------------------
// Duplicate and stale tasks
// ---------------------------------------------------------------------------

/// Whether a task with this action and parameter is still queued or running.
pub open spec fn incomplete_task(tasks: Seq<TaskRecord>, action: Seq<char>, param: Seq<char>) -> bool {
    exists|i: int|
        0 <= i < tasks.len() && (#[trigger] tasks[i]).action@ == action && tasks[i].param@ == param && (
        tasks[i].status == TaskStatus::Queued || tasks[i].status == TaskStatus::Running)
}

pub fn has_incomplete_task(tasks: &[TaskRecord], action: &str, param: &str) -> (r: bool)
    ensures
        r == incomplete_task(tasks@, action@, param@),
{
    let mut i: usize = 0;
    while i < tasks.len()
        invariant
            i <= tasks.len(),
            forall|k: int|
                0 <= k < i ==> !((#[trigger] tasks@[k]).action@ == action@ && tasks@[k].param@ == param@ && (
                tasks@[k].status == TaskStatus::Queued || tasks@[k].status == TaskStatus::Running)),
        decreases tasks.len() - i,
    {
        let t = &tasks[i];
        let open = match t.status {
            TaskStatus::Queued => true,
            TaskStatus::Running => true,
            _ => false,
        };
        if open && str_eq(t.action.as_str(), action) && str_eq(t.param.as_str(), param) {
            return true;
        }
        i = i + 1;
    }
    false
}

/// Whether a task is posted or left out because an equal one is pending.
#[derive(Debug, Clone, Copy, PartialEq, Eq, Structural)]
pub enum EnqueueDecision {
    Enqueue,
    SkipDuplicate,
}

/// The automatic update posts its task only when no equal task is still
/// queued or running.
pub fn auto_update_decision(has_incomplete: bool) -> (r: EnqueueDecision)
    ensures
        r == if has_incomplete {
            EnqueueDecision::SkipDuplicate
        } else {
            EnqueueDecision::Enqueue
        },
{
    if has_incomplete {
        EnqueueDecision::SkipDuplicate
    } else {
        EnqueueDecision::Enqueue
    }
}

/// The instant an RFC 3339 time stands for, as seconds since the Unix epoch
/// and the nanoseconds within the second (none where the text does not
/// parse).
pub uninterp spec fn rfc3339_instant(text: Seq<char>) -> Option<(int, int)>;

pub open spec fn instant_view(r: Option<(i64, u32)>) -> Option<(int, int)> {
    match r {
        Some((s, n)) => Some((s as int, n as int)),
        None => None,
    }
}

/// `chrono::DateTime::parse_from_rfc3339`, then `timestamp` and
/// `timestamp_subsec_nanos`: the instant the text stands for, which depends
/// on the text alone; none where it does not parse. Nothing more is said of
/// the instant than that it is a function of the text.
#[verifier::external_body]
fn parse_rfc3339_instant(text: &str) -> (r: Option<(i64, u32)>)
    ensures
        instant_view(r) == rfc3339_instant(text@),
{
    chrono::DateTime::parse_from_rfc3339(text).ok().map(|d| (d.timestamp(), d.timestamp_subsec_nanos()))
}

/// Whether a task that started at `started` has been running for an hour or
/// more at `now`.
pub open spec fn stale_at(started: (int, int), now: (int, int)) -> bool {
    ||| started.0 < now.0 - 3600
    ||| started.0 == now.0 - 3600 && started.1 <= now.1
}

/// What becomes of a task found running: failed when it has run for an hour
/// or more, else requeued (at start-up) or left running.
#[derive(Debug, Clone)]
pub enum RunningTaskAction {
    Fail(String),
    Requeue,
    Keep,
}

/// The error of a task found running too long.
pub open spec fn stale_error(since: Seq<char>) -> Seq<char> {
    "worker recovered stale running task: running since "@ + since
}

/// The error for a time that does not parse.
pub open spec fn timestamp_error(value: Seq<char>) -> Seq<char> {
    "failed to parse timestamp: "@ + value
}

/// A decision on a running task as plain values.
pub enum RunningTaskView {
    Fail(Seq<char>),
    Requeue,
    Keep,
}

impl RunningTaskAction {
    pub open spec fn view(&self) -> RunningTaskView {
        match self {
            RunningTaskAction::Fail(e) => RunningTaskView::Fail(e@),
            RunningTaskAction::Requeue => RunningTaskView::Requeue,
            RunningTaskAction::Keep => RunningTaskView::Keep,
        }
    }
}

/// The decision for a running task that started at `started_at` (at its
/// last update where no start is recorded), at `now`: an error where either
/// time does not parse, checking `now` first.
pub open spec fn running_task_decision(
    started_at: Option<Seq<char>>,
    updated_at: Seq<char>,
    now: Seq<char>,
    requeue: bool,
) -> Result<RunningTaskView, Seq<char>> {
    let since = match started_at {
        Some(s) => s,
        None => updated_at,
    };
    match rfc3339_instant(now) {
        None => Err(timestamp_error(now)),
        Some(n) => match rfc3339_instant(since) {
            None => Err(timestamp_error(since)),
            Some(st) => if stale_at(st, n) {
                Ok(RunningTaskView::Fail(stale_error(since)))
            } else if requeue {
                Ok(RunningTaskView::Requeue)
            } else {
                Ok(RunningTaskView::Keep)
            },
        },
    }
}

pub fn decide_running_task(started_at: Option<&str>, updated_at: &str, now: &str, requeue: bool) -> (r: Result<
    RunningTaskAction,
    String,
>)
    ensures
        match r {
            Ok(a) => running_task_decision(crate::narou::opt_str_view(started_at), updated_at@, now@, requeue)
                == Ok::<RunningTaskView, Seq<char>>(a@),
            Err(e) => running_task_decision(crate::narou::opt_str_view(started_at), updated_at@, now@, requeue)
                == Err::<RunningTaskView, Seq<char>>(e@),
        },
{
    let since: &str = match started_at {
        Some(s) => s,
        None => updated_at,
    };
    let n = match parse_rfc3339_instant(now) {
        Some(n) => n,
        None => {
            let mut t: Vec<char> = Vec::new();
            push_str(&mut t, "failed to parse timestamp: ");
            push_str(&mut t, now);
            return Err(string_from_chars(t.as_slice()));
        },
    };
    let st = match parse_rfc3339_instant(since) {
        Some(st) => st,
        None => {
            let mut t: Vec<char> = Vec::new();
            push_str(&mut t, "failed to parse timestamp: ");
            push_str(&mut t, since);
            return Err(string_from_chars(t.as_slice()));
        },
    };
    let cutoff: i128 = n.0 as i128 - 3600;
    let start: i128 = st.0 as i128;
    if start < cutoff || (start == cutoff && st.1 <= n.1) {
        let mut t: Vec<char> = Vec::new();
        push_str(&mut t, "worker recovered stale running task: running since ");
        push_str(&mut t, since);
        Ok(RunningTaskAction::Fail(string_from_chars(t.as_slice())))
    } else if requeue {
        Ok(RunningTaskAction::Requeue)
    } else {
        Ok(RunningTaskAction::Keep)
    }
}

} // verus!
