use narou_bridge::model::{RequestData, TaskRecord, TaskStatus};
use narou_bridge::tasks::{
    auto_update_decision, auto_update_task, decide_running_task, has_incomplete_task, EnqueueDecision,
    RunningTaskAction,
};

fn sample_task(request_id: &str) -> TaskRecord {
    TaskRecord {
        id: 0,
        request_id: request_id.to_string(),
        action: "download".to_string(),
        param: "https://example.com/work".to_string(),
        request: RequestData {
            request_id: request_id.to_string(),
            add: Some("https://example.com/work".to_string()),
            ..RequestData::default()
        },
        status: TaskStatus::Queued,
        error: None,
        created_at: "2025-01-01T00:00:00Z".to_string(),
        updated_at: "2025-01-01T00:00:00Z".to_string(),
    }
}

#[test]
fn has_incomplete_task_checks_only_queued_and_running_matches() {
    let mut queued = TaskRecord {
        action: "update".to_string(),
        param: "all".to_string(),
        request: RequestData {
            request_id: "req-update".to_string(),
            update: Some("all".to_string()),
            ..RequestData::default()
        },
        ..sample_task("req-update")
    };
    let other = sample_task("req-1");
    let mut tasks = vec![other.clone(), queued.clone()];
    assert!(has_incomplete_task(&tasks, "update", "all"));

    queued.status = TaskStatus::Running;
    tasks[1] = queued.clone();
    assert!(has_incomplete_task(&tasks, "update", "all"));

    queued.status = TaskStatus::Succeeded;
    tasks[1] = queued;
    assert!(!has_incomplete_task(&tasks, "update", "all"));
    assert!(has_incomplete_task(&tasks, "download", "https://example.com/work"));
    assert!(!has_incomplete_task(&tasks, "update", "pixiv"));
}

#[test]
fn automatic_update_is_skipped_while_an_equal_task_is_pending() {
    let mut pending = auto_update_task();
    pending.status = TaskStatus::Running;
    let next = auto_update_task();
    let tasks = vec![pending];
    let decision = auto_update_decision(has_incomplete_task(&tasks, &next.action, &next.param));
    assert_eq!(decision, EnqueueDecision::SkipDuplicate);
    assert_eq!(auto_update_decision(has_incomplete_task(&[], &next.action, &next.param)), EnqueueDecision::Enqueue);
}

#[test]
fn requeue_running_tasks_marks_stale_running_tasks_failed() {
    let decision = decide_running_task(Some("2025-01-01T00:00:01Z"), "2025-01-01T00:00:01Z", "2025-01-01T01:00:02Z", true)
        .expect("timestamps parse");
    match decision {
        RunningTaskAction::Fail(error) => {
            assert!(error.contains("worker recovered stale running task"));
            assert_eq!(error, "worker recovered stale running task: running since 2025-01-01T00:00:01Z");
        }
        other => panic!("expected a stale failure, got {other:?}"),
    }
}

#[test]
fn running_tasks_within_the_hour_are_requeued_or_kept() {
    let fresh = decide_running_task(None, "2025-01-01T00:30:00Z", "2025-01-01T01:00:00Z", true).expect("parse");
    assert!(matches!(fresh, RunningTaskAction::Requeue));
    let kept = decide_running_task(None, "2025-01-01T00:30:00Z", "2025-01-01T01:00:00Z", false).expect("parse");
    assert!(matches!(kept, RunningTaskAction::Keep));
    let exactly = decide_running_task(Some("2025-01-01T00:00:00+00:00"), "x", "2025-01-01T10:00:00+09:00", false)
        .expect("parse");
    assert!(matches!(exactly, RunningTaskAction::Fail(_)));
    let bad = decide_running_task(Some("yesterday"), "x", "2025-01-01T01:00:00Z", false);
    assert_eq!(bad.err(), Some("failed to parse timestamp: yesterday".to_string()));
}
