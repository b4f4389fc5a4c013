//! The sites the server handles, which of them an action goes to, and how
//! their results are summarised.
use vstd::prelude::*;
use crate::model::{RequestData, TaskStatus};
use crate::text::{
    chars_eq_str, chars_of, join, join_str, push_all, push_str, str_eq, string_from_chars, views,
};

verus! {

#[derive(Debug, Clone, Copy, PartialEq, Eq, Structural)]
pub enum SiteId {
    Pixiv,
    Narou,
}

/// What a site needs to carry out an action.
#[derive(Debug, Clone)]
pub struct SiteActionContext {
    pub host_name: String,
    pub img_url: String,
    pub data_dir: String,
    pub pdf_dir: String,
    pub request: RequestData,
}

/// The outcome of one site for one action: status is `success`, `failed`
/// or `skipped`.
#[derive(Debug, Clone)]
pub struct SiteActionResult {
    pub site_id: SiteId,
    pub action: String,
    pub status: String,
    pub message: String,
}

impl SiteActionResult {
    pub fn success(site_id: SiteId, action: &str, message: &str) -> (r: Self)
        ensures
            r.site_id == site_id,
            r.action@ == action@,
            r.status@ == "success"@,
            r.message@ == message@,
    {
        SiteActionResult {
            site_id,
            action: crate::text::owned(action),
            status: crate::text::owned("success"),
            message: crate::text::owned(message),
        }
    }

    pub fn failed(site_id: SiteId, action: &str, message: &str) -> (r: Self)
        ensures
            r.site_id == site_id,
            r.action@ == action@,
            r.status@ == "failed"@,
            r.message@ == message@,
    {
        SiteActionResult {
            site_id,
            action: crate::text::owned(action),
            status: crate::text::owned("failed"),
            message: crate::text::owned(message),
        }
    }

    pub fn skipped(site_id: SiteId, action: &str, message: &str) -> (r: Self)
        ensures
            r.site_id == site_id,
            r.action@ == action@,
            r.status@ == "skipped"@,
            r.message@ == message@,
    {
        SiteActionResult {
            site_id,
            action: crate::text::owned(action),
            status: crate::text::owned("skipped"),
            message: crate::text::owned(message),
        }
    }
}

/// The name of a site, as used in URLs and messages.
pub open spec fn site_label(site: SiteId) -> Seq<char> {
    match site {
        SiteId::Pixiv => "pixiv"@,
        SiteId::Narou => "narou"@,
    }
}

pub fn site_id_label(site_id: SiteId) -> (r: &'static str)
    ensures
        r@ == site_label(site_id),
{
    match site_id {
        SiteId::Pixiv => "pixiv",
        SiteId::Narou => "narou",
    }
}

/// The actions a site carries out.
pub open spec fn supported_actions(site: SiteId) -> Seq<Seq<char>> {
    match site {
        SiteId::Pixiv => seq!["download"@, "login"@, "update"@, "convert"@, "repair"@, "re_download"@],
        SiteId::Narou => seq!["download"@, "convert"@, "repair"@],
    }
}

/// Whether a site recognises a URL as one of its works: Pixiv takes the URLs
/// it can classify; Narou works only come from PDF imports.
pub open spec fn matches_url(site: SiteId, url: Seq<char>) -> bool {
    match site {
        SiteId::Pixiv => crate::pixiv::url_target(url) is Some,
        SiteId::Narou => false,
    }
}

/// Whether an action with a value goes to a site: downloads go to the sites
/// that recognise the URL, other actions to the sites that support them.
pub open spec fn handles(site: SiteId, action: Seq<char>, value: Seq<char>) -> bool {
    if action == "download"@ {
        matches_url(site, value)
    } else {
        supported_actions(site).contains(action)
    }
}

/// The sites of `sites` that handle an action, in order.
pub open spec fn targets(sites: Seq<SiteId>, action: Seq<char>, value: Seq<char>) -> Seq<SiteId>
    decreases sites.len(),
{
    if sites.len() == 0 {
        Seq::empty()
    } else if handles(sites.last(), action, value) {
        targets(sites.drop_last(), action, value).push(sites.last())
    } else {
        targets(sites.drop_last(), action, value)
    }
}

/// Whether an action names a site: downloads go to the sites that recognise
/// the URL; other actions go to the sites that support them when the value
/// is `all` or the site's name.
pub open spec fn addressed(site: SiteId, action: Seq<char>, value: Seq<char>) -> bool {
    if action == "download"@ {
        matches_url(site, value)
    } else {
        supported_actions(site).contains(action) && (value == "all"@ || value == site_label(site))
    }
}

/// The sites of `sites` that an action names, in order.
pub open spec fn resolved(sites: Seq<SiteId>, action: Seq<char>, value: Seq<char>) -> Seq<SiteId>
    decreases sites.len(),
{
    if sites.len() == 0 {
        Seq::empty()
    } else if addressed(sites.last(), action, value) {
        resolved(sites.drop_last(), action, value).push(sites.last())
    } else {
        resolved(sites.drop_last(), action, value)
    }
}

pub fn site_addressed(site: SiteId, action: &str, value: &str) -> (r: bool)
    ensures
        r == addressed(site, action@, value@),
{
    if str_eq(action, "download") {
        site_matches_url(site, value)
    } else {
        site_supports(site, action) && (str_eq(value, "all") || str_eq(value, site_id_label(site)))
    }
}

/// A site as the server sees it.
pub trait Site {
    /// The site this handler stands for.
    spec fn site_of(&self) -> SiteId;

    fn id(&self) -> (r: SiteId)
        ensures
            r == self.site_of(),
    ;

    fn name(&self) -> (r: &'static str)
        ensures
            r@ == site_label(self.site_of()),
    ;

    fn matches_url(&self, url: &str) -> (r: bool)
        ensures
            r == matches_url(self.site_of(), url@),
    ;
}

pub fn site_supports(site: SiteId, action: &str) -> (r: bool)
    ensures
        r == supported_actions(site).contains(action@),
{
    let a = chars_of(action);
    proof {
        reveal_strlit("download");
        reveal_strlit("login");
        reveal_strlit("update");
        reveal_strlit("convert");
        reveal_strlit("repair");
        reveal_strlit("re_download");
    }
    let r = match site {
        SiteId::Pixiv => chars_eq_str(a.as_slice(), "download") || chars_eq_str(a.as_slice(), "login")
            || chars_eq_str(a.as_slice(), "update") || chars_eq_str(a.as_slice(), "convert")
            || chars_eq_str(a.as_slice(), "repair") || chars_eq_str(a.as_slice(), "re_download"),
        SiteId::Narou => chars_eq_str(a.as_slice(), "download") || chars_eq_str(a.as_slice(), "convert")
            || chars_eq_str(a.as_slice(), "repair"),
    };
    proof {
        let s = supported_actions(site);
        if r {
            if site == SiteId::Pixiv {
                if a@ == "download"@ { assert(s[0] == a@); }
                if a@ == "login"@ { assert(s[1] == a@); }
                if a@ == "update"@ { assert(s[2] == a@); }
                if a@ == "convert"@ { assert(s[3] == a@); }
                if a@ == "repair"@ { assert(s[4] == a@); }
                if a@ == "re_download"@ { assert(s[5] == a@); }
            } else {
                if a@ == "download"@ { assert(s[0] == a@); }
                if a@ == "convert"@ { assert(s[1] == a@); }
                if a@ == "repair"@ { assert(s[2] == a@); }
            }
        }
    }
    r
}

/// Whether a site recognises a URL.
pub fn site_matches_url(site: SiteId, url: &str) -> (r: bool)
    ensures
        r == matches_url(site, url@),
{
    match site {
        SiteId::Pixiv => crate::pixiv::parse_pixiv_url(url).is_some(),
        SiteId::Narou => false,
    }
}

pub fn site_handles(site: SiteId, action: &str, value: &str) -> (r: bool)
    ensures
        r == handles(site, action@, value@),
{
    if str_eq(action, "download") {
        site_matches_url(site, value)
    } else {
        site_supports(site, action)
    }
}

/// The registered sites.
pub struct SiteRegistry {
    sites: Vec<SiteId>,
}

impl SiteRegistry {
    pub closed spec fn view_sites(&self) -> Seq<SiteId> {
        self.sites@
    }

    pub fn new(sites: Vec<SiteId>) -> (r: Self)
        ensures
            r.view_sites() == sites@,
    {
        SiteRegistry { sites }
    }

    /// The names of the registered sites.
    pub fn site_names(&self) -> (r: Vec<String>)
        ensures
            r@.len() == self.view_sites().len(),
            forall|i: int| 0 <= i < r@.len() ==> (#[trigger] r@[i])@ == site_label(self.view_sites()[i]),
    {
        let mut r: Vec<String> = Vec::new();
        let mut i: usize = 0;
        while i < self.sites.len()
            invariant
                i <= self.sites.len(),
                r@.len() == i,
                forall|k: int| 0 <= k < i ==> (#[trigger] r@[k])@ == site_label(self.sites@[k]),
            decreases self.sites.len() - i,
        {
            r.push(crate::text::owned(site_id_label(self.sites[i])));
            i = i + 1;
        }
        r
    }

    /// The sites that an action names, in registration order.
    pub fn resolve_targets(&self, action: &str, value: &str) -> (r: Vec<SiteId>)
        ensures
            r@ == resolved(self.view_sites(), action@, value@),
    {
        let mut r: Vec<SiteId> = Vec::new();
        let mut i: usize = 0;
        assert(self.sites@.take(0) =~= Seq::<SiteId>::empty());
        while i < self.sites.len()
            invariant
                i <= self.sites.len(),
                r@ == resolved(self.sites@.take(i as int), action@, value@),
            decreases self.sites.len() - i,
        {
            assert(self.sites@.take(i + 1).drop_last() =~= self.sites@.take(i as int));
            if site_addressed(self.sites[i], action, value) {
                r.push(self.sites[i]);
            }
            i = i + 1;
        }
        assert(self.sites@.take(self.sites.len() as int) =~= self.sites@);
        r
    }

    /// The sites an action goes to, in registration order.
    pub fn dispatch(&self, action: &str, value: &str) -> (r: Vec<SiteId>)
        ensures
            r@ == targets(self.view_sites(), action@, value@),
    {
        let mut r: Vec<SiteId> = Vec::new();
        let mut i: usize = 0;
        assert(self.sites@.take(0) =~= Seq::<SiteId>::empty());
        while i < self.sites.len()
            invariant
                i <= self.sites.len(),
                r@ == targets(self.sites@.take(i as int), action@, value@),
            decreases self.sites.len() - i,
        {
            assert(self.sites@.take(i + 1).drop_last() =~= self.sites@.take(i as int));
            if site_handles(self.sites[i], action, value) {
                r.push(self.sites[i]);
            }
            i = i + 1;
        }
        assert(self.sites@.take(self.sites.len() as int) =~= self.sites@);
        r
    }
}

pub struct NarouSite;

pub struct PixivSite;

impl Site for NarouSite {
    open spec fn site_of(&self) -> SiteId {
        SiteId::Narou
    }

    fn id(&self) -> SiteId {
        SiteId::Narou
    }

    fn name(&self) -> &'static str {
        "narou"
    }

    fn matches_url(&self, url: &str) -> bool {
        site_matches_url(SiteId::Narou, url)
    }
}

impl Site for PixivSite {
    open spec fn site_of(&self) -> SiteId {
        SiteId::Pixiv
    }

    fn id(&self) -> SiteId {
        SiteId::Pixiv
    }

    fn name(&self) -> &'static str {
        "pixiv"
    }

    fn matches_url(&self, url: &str) -> bool {
        site_matches_url(SiteId::Pixiv, url)
    }
}

/// The registry of all sites: Pixiv, then Narou.
pub fn build_registry() -> (r: SiteRegistry)
    ensures
        r.view_sites() == seq![SiteId::Pixiv, SiteId::Narou],
{
    let v = vec![SiteId::Pixiv, SiteId::Narou];
    assert(v@ =~= seq![SiteId::Pixiv, SiteId::Narou]);
    SiteRegistry::new(v)
}

/// The order in which request fields are considered.
pub fn default_action_order() -> (r: [&'static str; 6])
    ensures
        r[0]@ == "repair"@,
        r[1]@ == "login"@,
        r[2]@ == "update"@,
        r[3]@ == "re_download"@,
        r[4]@ == "convert"@,
        r[5]@ == "download"@,
{
    ["repair", "login", "update", "re_download", "convert", "download"]
}

/// The action of a request and its value: the first field present among
/// repair, login, update, re_download, convert, and add (a download).
pub open spec fn request_action(request: RequestData) -> Option<(Seq<char>, Seq<char>)> {
    if request.repair is Some {
        Some(("repair"@, request.repair->0@))
    } else if request.login is Some {
        Some(("login"@, request.login->0@))
    } else if request.update is Some {
        Some(("update"@, request.update->0@))
    } else if request.re_download is Some {
        Some(("re_download"@, request.re_download->0@))
    } else if request.convert is Some {
        Some(("convert"@, request.convert->0@))
    } else if request.add is Some {
        Some(("download"@, request.add->0@))
    } else {
        None
    }
}

pub fn action_from_request(request: &RequestData) -> (r: Option<(&'static str, String)>)
    ensures
        match r {
            Some((a, v)) => request_action(*request) == Some((a@, v@)),
            None => request_action(*request) is None,
        },
{
    if let Some(v) = &request.repair {
        return Some(("repair", v.clone()));
    }
    if let Some(v) = &request.login {
        return Some(("login", v.clone()));
    }
    if let Some(v) = &request.update {
        return Some(("update", v.clone()));
    }
    if let Some(v) = &request.re_download {
        return Some(("re_download", v.clone()));
    }
    if let Some(v) = &request.convert {
        return Some(("convert", v.clone()));
    }
    if let Some(v) = &request.add {
        return Some(("download", v.clone()));
    }
    None
}

/// The sites a download URL goes to.
pub fn dispatch_download(registry: &SiteRegistry, url: &str) -> (r: Vec<SiteId>)
    ensures
        r@ == targets(registry.view_sites(), "download"@, url@),
{
    registry.dispatch("download", url)
}

/// Why an action reaches no site.
pub open spec fn no_target_message(action: Seq<char>, value: Seq<char>) -> Seq<char> {
    if action == "download"@ {
        "no site matched download URL: "@ + value
    } else {
        "unknown site target for "@ + action + ": "@ + value
    }
}

/// The sites an action goes to, or an error when there are none.
pub fn resolve_dispatch_targets_or_err(registry: &SiteRegistry, action: &str, value: &str) -> (r: Result<Vec<SiteId>, String>)
    ensures
        match r {
            Ok(t) => t@ == resolved(registry.view_sites(), action@, value@) && t@.len() > 0,
            Err(m) => resolved(registry.view_sites(), action@, value@).len() == 0 && m@ == no_target_message(action@, value@),
        },
{
    let t = registry.resolve_targets(action, value);
    if t.len() == 0 {
        let mut m: Vec<char> = Vec::new();
        if str_eq(action, "download") {
            push_str(&mut m, "no site matched download URL: ");
            push_str(&mut m, value);
        } else {
            push_str(&mut m, "unknown site target for ");
            push_str(&mut m, action);
            push_str(&mut m, ": ");
            push_str(&mut m, value);
        }
        return Err(string_from_chars(m.as_slice()));
    }
    Ok(t)
}

// ---------------------------------------------------------------------------
// Summaries of site results
// ---------------------------------------------------------------------------

/// The results with the given status, in order.
pub open spec fn with_status(results: Seq<SiteActionResult>, status: Seq<char>) -> Seq<SiteActionResult>
    decreases results.len(),
{
    if results.len() == 0 {
        Seq::empty()
    } else if results.last().status@ == status {
        with_status(results.drop_last(), status).push(results.last())
    } else {
        with_status(results.drop_last(), status)
    }
}

/// `site (action) message`.
pub open spec fn result_line(r: SiteActionResult) -> Seq<char> {
    site_label(r.site_id) + " ("@ + r.action@ + ") "@ + r.message@
}

/// The lines of a group of results, joined with `; `.
pub open spec fn group_text(results: Seq<SiteActionResult>) -> Seq<char> {
    join(results.map_values(|r: SiteActionResult| result_line(r)), "; "@)
}

/// The status of a task from the results of its sites: failed when any site
/// failed, succeeded when any succeeded, skipped otherwise.
pub open spec fn summary_status(results: Seq<SiteActionResult>) -> TaskStatus {
    if with_status(results, "failed"@).len() > 0 {
        TaskStatus::Failed
    } else if with_status(results, "success"@).len() > 0 {
        TaskStatus::Succeeded
    } else {
        TaskStatus::Skipped
    }
}

/// The error text of a task: present only when a site failed, listing the
/// failed, then the succeeded, then the skipped sites.
pub open spec fn summary_error(results: Seq<SiteActionResult>) -> Option<Seq<char>> {
    let failed = with_status(results, "failed"@);
    let succeeded = with_status(results, "success"@);
    let skipped = with_status(results, "skipped"@);
    if failed.len() == 0 {
        None
    } else {
        let sections = seq!["failed sites: "@ + group_text(failed)] + (if succeeded.len() > 0 {
            seq!["succeeded sites: "@ + group_text(succeeded)]
        } else {
            Seq::empty()
        }) + (if skipped.len() > 0 {
            seq!["skipped sites: "@ + group_text(skipped)]
        } else {
            Seq::empty()
        });
        Some(join(sections, " | "@))
    }
}

fn result_line_chars(r: &SiteActionResult) -> (out: Vec<char>)
    ensures
        out@ == result_line(*r),
{
    let mut out: Vec<char> = Vec::new();
    push_str(&mut out, site_id_label(r.site_id));
    push_str(&mut out, " (");
    push_str(&mut out, r.action.as_str());
    push_str(&mut out, ") ");
    push_str(&mut out, r.message.as_str());
    out
}

/// The lines of the results with `status`, and how many there are.
fn group_lines(results: &[SiteActionResult], status: &str) -> (r: Vec<Vec<char>>)
    ensures
        views(r@) == with_status(results@, status@).map_values(|x: SiteActionResult| result_line(x)),
{
    let mut r: Vec<Vec<char>> = Vec::new();
    let mut i: usize = 0;
    assert(results@.take(0) =~= Seq::<SiteActionResult>::empty());
    while i < results.len()
        invariant
            i <= results.len(),
            views(r@) == with_status(results@.take(i as int), status@).map_values(|x: SiteActionResult| result_line(x)),
        decreases results.len() - i,
    {
        assert(results@.take(i + 1).drop_last() =~= results@.take(i as int));
        let ghost before = views(r@);
        if str_eq(results[i].status.as_str(), status) {
            let line = result_line_chars(&results[i]);
            r.push(line);
            assert(views(r@) =~= before.push(result_line(results@[i as int])));
            assert(with_status(results@.take(i + 1), status@) == with_status(results@.take(i as int), status@).push(results@[i as int]));
            assert(with_status(results@.take(i + 1), status@).map_values(|x: SiteActionResult| result_line(x)) =~= before.push(result_line(results@[i as int])));
        }
        i = i + 1;
    }
    assert(results@.take(results.len() as int) =~= results@);
    r
}

/// A task's status and error text from the results of its sites.
pub fn summarize_site_results(results: &[SiteActionResult]) -> (r: (TaskStatus, Option<String>))
    ensures
        r.0 == summary_status(results@),
        match r.1 {
            Some(e) => summary_error(results@) == Some(e@),
            None => summary_error(results@) is None,
        },
{
    let failed = group_lines(results, "failed");
    let succeeded = group_lines(results, "success");
    let skipped = group_lines(results, "skipped");
    assert(views(failed@).len() == failed@.len());
    assert(views(succeeded@).len() == succeeded@.len());
    assert(views(skipped@).len() == skipped@.len());
    let status = if failed.len() > 0 {
        TaskStatus::Failed
    } else if succeeded.len() > 0 {
        TaskStatus::Succeeded
    } else {
        TaskStatus::Skipped
    };
    if failed.len() == 0 {
        return (status, None);
    }
    let mut sections: Vec<Vec<char>> = Vec::new();
    let mut s1: Vec<char> = Vec::new();
    push_str(&mut s1, "failed sites: ");
    let g1 = join_str(&failed, "; ");
    push_all(&mut s1, g1.as_slice());
    sections.push(s1);
    if succeeded.len() > 0 {
        let mut s2: Vec<char> = Vec::new();
        push_str(&mut s2, "succeeded sites: ");
        let g2 = join_str(&succeeded, "; ");
        push_all(&mut s2, g2.as_slice());
        sections.push(s2);
    }
    if skipped.len() > 0 {
        let mut s3: Vec<char> = Vec::new();
        push_str(&mut s3, "skipped sites: ");
        let g3 = join_str(&skipped, "; ");
        push_all(&mut s3, g3.as_slice());
        sections.push(s3);
    }
    let ghost failed_r = with_status(results@, "failed"@);
    let ghost succ_r = with_status(results@, "success"@);
    let ghost skip_r = with_status(results@, "skipped"@);
    assert(views(sections@) =~= seq!["failed sites: "@ + group_text(failed_r)] + (if succ_r.len() > 0 {
        seq!["succeeded sites: "@ + group_text(succ_r)]
    } else {
        Seq::empty()
    }) + (if skip_r.len() > 0 {
        seq!["skipped sites: "@ + group_text(skip_r)]
    } else {
        Seq::empty()
    }));
    let joined = join_str(&sections, " | ");
    (status, Some(string_from_chars(joined.as_slice())))
}

/// Law: an action goes to exactly the registered sites that handle it, in
/// registration order, each once per registration; an empty registry sends
/// it nowhere.
pub proof fn lemma_dispatch_selects(sites: Seq<SiteId>, action: Seq<char>, value: Seq<char>)
    ensures
        targets(sites, action, value) == sites.filter(|s: SiteId| handles(s, action, value)),
        forall|i: int| 0 <= i < targets(sites, action, value).len() ==> handles(
            #[trigger] targets(sites, action, value)[i],
            action,
            value,
        ),
        forall|i: int| 0 <= i < sites.len() && handles(sites[i], action, value) ==> #[trigger] targets(
            sites,
            action,
            value,
        ).contains(sites[i]),
        sites.len() == 0 ==> targets(sites, action, value).len() == 0,
    decreases sites.len(),
{
    reveal(Seq::filter);
    let pred = |s: SiteId| handles(s, action, value);
    if sites.len() > 0 {
        lemma_dispatch_selects(sites.drop_last(), action, value);
    }
    assert(targets(sites, action, value) == sites.filter(pred));
    broadcast use vstd::seq_lib::group_filter_ensures;
}

/// Whether some result has the status.
pub open spec fn some_status(results: Seq<SiteActionResult>, status: Seq<char>) -> bool {
    exists|i: int| 0 <= i < results.len() && (#[trigger] results[i]).status@ == status
}

proof fn lemma_with_status_nonempty(results: Seq<SiteActionResult>, status: Seq<char>)
    ensures
        with_status(results, status).len() > 0 <==> some_status(results, status),
    decreases results.len(),
{
    if results.len() > 0 {
        let rest = results.drop_last();
        lemma_with_status_nonempty(rest, status);
        if some_status(rest, status) {
            let i = choose|i: int| 0 <= i < rest.len() && (#[trigger] rest[i]).status@ == status;
            assert(results[i] == rest[i]);
        }
        if some_status(results, status) && results.last().status@ != status {
            let i = choose|i: int| 0 <= i < results.len() && (#[trigger] results[i]).status@ == status;
            assert(rest[i] == results[i]);
        }
        if results.last().status@ == status {
            assert(results[results.len() - 1] == results.last());
        }
    }
}

/// Law: a task failed when any site failed, else succeeded when any site
/// succeeded, else it was skipped (also with no site at all); it has an
/// error text exactly when it failed, listing the failed sites first, then
/// the succeeded and the skipped ones where there are any.
pub proof fn lemma_summary(results: Seq<SiteActionResult>)
    ensures
        (summary_status(results) == TaskStatus::Failed) == some_status(results, "failed"@),
        (summary_status(results) == TaskStatus::Succeeded) == (!some_status(results, "failed"@) && some_status(
            results,
            "success"@,
        )),
        (summary_status(results) == TaskStatus::Skipped) == (!some_status(results, "failed"@) && !some_status(
            results,
            "success"@,
        )),
        summary_error(results) is Some <==> summary_status(results) == TaskStatus::Failed,
        summary_error(results) matches Some(e) ==> e == join(
            seq!["failed sites: "@ + group_text(with_status(results, "failed"@))] + (if some_status(
                results,
                "success"@,
            ) {
                seq!["succeeded sites: "@ + group_text(with_status(results, "success"@))]
            } else {
                Seq::empty()
            }) + (if some_status(results, "skipped"@) {
                seq!["skipped sites: "@ + group_text(with_status(results, "skipped"@))]
            } else {
                Seq::empty()
            }),
            " | "@,
        ),
{
    lemma_with_status_nonempty(results, "failed"@);
    lemma_with_status_nonempty(results, "success"@);
    lemma_with_status_nonempty(results, "skipped"@);
}

} // verus!
