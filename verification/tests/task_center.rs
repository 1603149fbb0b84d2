use zhiforge_knowledge::task_center::{
    normalize_run_status, order_tasks, run_task_record, stale_cutoff, task_counts,
    task_listed_before, AiTaskRecord, STALE_TASK_ERROR,
};

fn task(id: &str, status: &str, created_at: i64, updated_at: i64) -> AiTaskRecord {
    AiTaskRecord {
        id: id.into(),
        task_type: "internalize".into(),
        status: status.into(),
        title: id.into(),
        knowledge_unit_id: None,
        inbox_id: None,
        error: None,
        created_at,
        updated_at,
        retryable: status == "failed",
    }
}

#[test]
fn run_status_ready_reads_completed() {
    assert_eq!(normalize_run_status("ready"), "completed");
    assert_eq!(normalize_run_status("failed"), "failed");
    assert_eq!(normalize_run_status("queued"), "queued");
}

#[test]
fn runs_become_tasks_retryable_only_when_failed() {
    let t = run_task_record("r1".into(), "librarian", "知识整理建议", "failed", Some("e".into()), 1, 2);
    assert!(t.retryable);
    assert_eq!(t.status, "failed");
    let t = run_task_record("r2".into(), "curation", "重复与冲突检查", "ready", None, 1, 2);
    assert!(!t.retryable);
    assert_eq!(t.status, "completed");
    assert_eq!(t.task_type, "curation");
}

#[test]
fn tasks_are_listed_newest_first_then_by_id_and_limited() {
    let tasks = vec![
        task("b", "completed", 5, 10),
        task("a", "failed", 5, 10),
        task("c", "running", 1, 30),
        task("d", "pending", 9, 10),
    ];
    let ordered = order_tasks(tasks.clone(), 10);
    let ids: Vec<&str> = ordered.iter().map(|t| t.id.as_str()).collect();
    assert_eq!(ids, vec!["c", "d", "a", "b"]);
    let first_two = order_tasks(tasks, 2);
    assert_eq!(first_two.len(), 2);
    assert_eq!(first_two[1].id, "d");
    assert!(task_listed_before(&ordered[0], &ordered[1]));
}

#[test]
fn active_and_failed_tasks_are_counted() {
    let tasks = vec![task("a", "pending", 0, 0), task("b", "running", 0, 0), task("c", "failed", 0, 0), task("d", "completed", 0, 0)];
    assert_eq!(task_counts(&tasks), (2, 1));
}

#[test]
fn stale_cutoff_is_ten_minutes_back_and_saturates() {
    assert_eq!(stale_cutoff(1_000_000), 400_000);
    assert_eq!(stale_cutoff(i64::MIN + 5), i64::MIN);
    assert!(STALE_TASK_ERROR.contains("timed out"));
}
