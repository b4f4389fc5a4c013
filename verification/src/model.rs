//! Plain data shared by the library: configuration, requests, tasks, works
//! and images.
use vstd::prelude::*;
use crate::text::str_eq;

verus! {

/// Runtime configuration derived from `setting.ini`.
#[derive(Debug, Clone, Default)]
pub struct AppConfig {
    pub data_dir: String,
    pub cookie_dir: String,
    pub queue_dir: String,
    pub pdf_dir: String,
    pub log_dir: String,
    pub db_path: String,
    pub archive_dir: String,
    pub bind_addr: String,
    pub host_name: String,
    pub img_url: String,
    pub auto_update: bool,
    pub auto_update_interval: u64,
    pub legacy_root: Option<String>,
}

/// One request of a client: at most one action is carried out, chosen by
/// priority from the fields that are present.
#[derive(Debug, Clone, Default)]
pub struct RequestData {
    pub request_id: String,
    pub pdf_path: Option<String>,
    pub pdf_name: Option<String>,
    pub zip_name: Option<String>,
    pub author_id: Option<String>,
    pub author_url: Option<String>,
    pub novel_type: Option<String>,
    pub chapter: Option<String>,
    pub repair: Option<String>,
    pub login: Option<String>,
    pub update: Option<String>,
    pub re_download: Option<String>,
    pub convert: Option<String>,
    pub add: Option<String>,
}

/// The task in progress and the requests waiting behind it.
#[derive(Debug, Clone, Default)]
pub struct TaskState {
    pub current_task: Option<RequestData>,
    pub queue: Vec<RequestData>,
}

/// Logical image name to content hash.
#[derive(Debug, Clone, Default)]
pub struct ImageDatabase(pub Vec<(String, String)>);

/// Work key to cover hash.
#[derive(Debug, Clone, Default)]
pub struct CoverDatabase(pub Vec<(String, String)>);

#[derive(Debug, Clone, Default)]
pub struct EpisodeIndexEntry {
    pub title: String,
    pub id: String,
    pub caption: String,
    pub tags: Vec<String>,
}

#[derive(Debug, Clone, Default)]
pub struct SiteIndexEntry {
    pub title: String,
    pub author: String,
    pub author_id: Option<String>,
    pub author_url: Option<String>,
    pub work_type: String,
    pub serialization: String,
    pub tags: Vec<String>,
    pub all_tags: Vec<String>,
    pub caption: String,
    pub create_date: String,
    pub update_date: String,
    pub episodes_data: Vec<(String, EpisodeIndexEntry)>,
}

#[derive(Debug, Clone, Default)]
pub struct Episode {
    pub id: String,
    pub chapter: Option<String>,
    pub title: String,
    pub text_count: i32,
    pub tags: Vec<String>,
    pub introduction: String,
    pub text: String,
    pub postscript: String,
    pub create_date: String,
    pub update_date: String,
}

#[derive(Debug, Clone, Default)]
pub struct Work {
    pub version: i32,
    pub get_date: String,
    pub title: String,
    pub id: String,
    pub nid: String,
    pub url: String,
    pub author: String,
    pub author_id: String,
    pub author_url: String,
    pub caption: String,
    pub total_episodes: i32,
    pub all_episodes: i32,
    pub total_characters: i32,
    pub all_characters: i32,
    pub work_type: String,
    pub serialization: String,
    pub tags: Vec<String>,
    pub all_tags: Vec<String>,
    pub create_date: String,
    pub update_date: String,
    pub episodes: Vec<(String, Episode)>,
}

/// The `data.json` of an imported ZIP archive.
#[derive(Debug, Clone, Default)]
pub struct ZipImportMetadata {
    pub site_name: String,
    pub images: Vec<(String, String)>,
}

#[derive(Debug, Clone, Copy, PartialEq, Eq, Structural)]
pub enum TaskStatus {
    Queued,
    Running,
    Succeeded,
    Failed,
    Skipped,
}

#[derive(Debug, Clone)]
pub struct TaskRecord {
    pub id: i64,
    pub request_id: String,
    pub action: String,
    pub param: String,
    pub request: RequestData,
    pub status: TaskStatus,
    pub error: Option<String>,
    pub created_at: String,
    pub updated_at: String,
}

/// A stored work: what the listing reads, and the work's whole document.
#[derive(Debug)]
pub struct WorkRecord {
    pub site: String,
    pub work_key: String,
    pub title: String,
    pub author: String,
    pub author_id: Option<String>,
    pub author_url: Option<String>,
    pub work_type: String,
    pub serialization: String,
    pub caption: String,
    pub create_date: String,
    pub update_date: String,
    pub raw_json: crate::json::JsonValue,
}

/// A stored image: logical name, content hash, extension and kind.
#[derive(Debug, Clone, Default)]
pub struct ImageRecord {
    pub logical_name: String,
    pub hash: String,
    pub ext: String,
    pub kind: String,
}

#[derive(Debug, Clone, Default)]
pub struct MigrationSummary {
    pub accounts: usize,
    pub tasks: usize,
    pub works: usize,
    pub images: usize,
    pub archived_files: usize,
}

/// Where a legacy tree is read from and where its files are archived.
#[derive(Debug, Clone, Default)]
pub struct MigrationPlan {
    pub source_root: String,
    pub archive_root: String,
}

/// Snake-case name of a task status, as stored.
pub open spec fn status_name(s: TaskStatus) -> Seq<char> {
    match s {
        TaskStatus::Queued => "queued"@,
        TaskStatus::Running => "running"@,
        TaskStatus::Succeeded => "succeeded"@,
        TaskStatus::Failed => "failed"@,
        TaskStatus::Skipped => "skipped"@,
    }
}

/// The stored name of a task status.
pub fn status_label(status: TaskStatus) -> (r: &'static str)
    ensures
        r@ == status_name(status),
{
    match status {
        TaskStatus::Queued => "queued",
        TaskStatus::Running => "running",
        TaskStatus::Succeeded => "succeeded",
        TaskStatus::Failed => "failed",
        TaskStatus::Skipped => "skipped",
    }
}

/// Reads a stored status name; anything unknown counts as queued.
pub open spec fn status_from_name(name: Seq<char>) -> TaskStatus {
    if name == "running"@ {
        TaskStatus::Running
    } else if name == "succeeded"@ {
        TaskStatus::Succeeded
    } else if name == "failed"@ {
        TaskStatus::Failed
    } else if name == "skipped"@ {
        TaskStatus::Skipped
    } else {
        TaskStatus::Queued
    }
}

pub fn parse_status(value: &str) -> (r: TaskStatus)
    ensures
        r == status_from_name(value@),
{
    if str_eq(value, "running") {
        TaskStatus::Running
    } else if str_eq(value, "succeeded") {
        TaskStatus::Succeeded
    } else if str_eq(value, "failed") {
        TaskStatus::Failed
    } else if str_eq(value, "skipped") {
        TaskStatus::Skipped
    } else {
        TaskStatus::Queued
    }
}

/// Law: a stored status reads back as itself.
pub proof fn lemma_status_round_trip(status: TaskStatus)
    ensures
        status_from_name(status_name(status)) == status,
{
    reveal_strlit("queued");
    reveal_strlit("running");
    reveal_strlit("succeeded");
    reveal_strlit("failed");
    reveal_strlit("skipped");
    assert("queued"@[0] != "running"@[0]);
    assert("queued"@[0] != "succeeded"@[0]);
    assert("queued"@[0] != "failed"@[0]);
    assert("queued"@[0] != "skipped"@[0]);
    assert("running"@[0] != "succeeded"@[0]);
    assert("running"@[0] != "failed"@[0]);
    assert("running"@[0] != "skipped"@[0]);
    assert("succeeded"@[1] != "skipped"@[1]);
    assert("succeeded"@[0] != "failed"@[0]);
    assert("failed"@[0] != "skipped"@[0]);
}

} // verus!
