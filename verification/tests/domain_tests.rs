use lissue::domain::config::Config;
use lissue::domain::repository::{RepoError, TaskRepository};
use lissue::domain::task::{status_from_text, Status, Task, Timestamp};
use lissue::infrastructure::json::id_text;
use lissue::infrastructure::sqlite::task_from_columns;

#[test]
fn test_status_from_string() {
    assert_eq!(Status::from("open".to_string()), Status::Open);
    assert_eq!(Status::from("inprogress".to_string()), Status::InProgress);
    assert_eq!(Status::from("pending".to_string()), Status::Pending);
    assert_eq!(Status::from("close".to_string()), Status::Close);
    assert_eq!(Status::from("unknown".to_string()), Status::Open);
}

#[test]
fn test_task_creation() {
    let title = "Test Task".to_string();
    let task = Task::new(title.clone(), None, None);
    assert_eq!(task.title, title);
    assert_eq!(task.status, Status::Open);
    assert!(task.local_id.is_none());
    assert!(task.linked_files.is_empty());
}

#[test]
fn status_keywords_ignore_case() {
    assert_eq!(Status::from("OPEN".to_string()), Status::Open);
    assert_eq!(Status::from("In Progress".to_string()), Status::InProgress);
    assert_eq!(Status::from("in_progress".to_string()), Status::InProgress);
    assert_eq!(Status::from("Closed".to_string()), Status::Close);
    assert_eq!(Status::from("PENDING".to_string()), Status::Pending);
    assert_eq!(status_from_text("CLOSE"), Status::Close);
}

#[test]
fn status_label_round_trip() {
    for s in [Status::Open, Status::InProgress, Status::Pending, Status::Close] {
        assert_eq!(Status::from(s.label()), s);
    }
    assert_eq!(Status::InProgress.label(), "In Progress");
    assert_eq!(Status::Close.label(), "Close");
}

#[test]
fn new_task_has_fresh_version_4_id() {
    let a = Task::new("A".to_string(), Some("d".to_string()), Some(7));
    let b = Task::new("B".to_string(), None, None);
    assert_ne!(a.global_id, b.global_id);
    assert_eq!((a.global_id >> 76) & 0xf, 4);
    assert_eq!(a.created_at, a.updated_at);
    assert_eq!(a.parent_global_id, Some(7));
    assert_eq!(a.description, Some("d".to_string()));
    assert!(a.assignee.is_none());
}

#[test]
fn timestamps_order_by_seconds_then_nanos() {
    let a = Timestamp { secs: 10, nanos: 5 };
    let b = Timestamp { secs: 10, nanos: 6 };
    let c = Timestamp { secs: 9, nanos: 999 };
    assert!(b.is_later_than(&a));
    assert!(!a.is_later_than(&b));
    assert!(a.is_later_than(&c));
    assert!(!a.is_later_than(&a));
}

#[test]
fn default_config_values() {
    let c = Config::default();
    assert_eq!(c.output.default_format, "human");
    assert!(c.output.auto_sync);
    assert!(c.integration.git_mv_hook);
    assert_eq!(c.context.strategy, "paths_only");
}

fn task(title: &str) -> Task {
    Task::new(title.to_string(), None, None)
}

#[test]
fn repository_assigns_increasing_ids_and_upserts() {
    let mut repo = TaskRepository::new();
    let a = repo.save(&task("a")).unwrap();
    let b = repo.save(&task("b")).unwrap();
    assert_eq!(a.local_id, Some(1));
    assert_eq!(b.local_id, Some(2));
    assert_eq!(repo.next_id(), 3);

    let mut changed = a.clone();
    changed.title = "a2".to_string();
    changed.local_id = Some(99);
    changed.created_at = Timestamp { secs: 0, nanos: 0 };
    let stored = repo.save(&changed).unwrap();
    assert_eq!(stored.local_id, Some(1));
    assert_eq!(stored.created_at, a.created_at);
    assert_eq!(stored.title, "a2");
    assert_eq!(repo.len(), 2);
    let found = repo.find_by_global_id(a.global_id).unwrap();
    assert_eq!(found.title, "a2");
    assert!(repo.find_by_local_id(3).is_none());
}

#[test]
fn repository_never_reuses_deleted_ids() {
    let mut repo = TaskRepository::new();
    repo.save(&task("a")).unwrap();
    let b = repo.save(&task("b")).unwrap();
    let gone = repo.delete(2).unwrap();
    assert_eq!(gone.global_id, b.global_id);
    assert!(repo.delete(2).is_none());
    let c = repo.save(&task("c")).unwrap();
    assert_eq!(c.local_id, Some(3));
    let all = repo.find_all();
    let ids: Vec<Option<i32>> = all.iter().map(|t| t.local_id).collect();
    assert_eq!(ids, vec![Some(1), Some(3)]);
}

#[test]
fn repository_refuses_when_ids_run_out() {
    let mut repo = TaskRepository::from_rows(Vec::new(), i32::MAX as i64 + 1).unwrap();
    assert_eq!(repo.save(&task("x")).unwrap_err(), RepoError::IdsExhausted);
    assert_eq!(repo.len(), 0);
}

#[test]
fn repository_from_rows_checks_shape() {
    let mut t1 = task("one");
    t1.local_id = Some(1);
    let mut t2 = task("two");
    t2.local_id = Some(5);
    assert!(TaskRepository::from_rows(vec![t1.clone(), t2.clone()], 6).is_some());
    assert!(TaskRepository::from_rows(vec![t2.clone(), t1.clone()], 6).is_none());
    assert!(TaskRepository::from_rows(vec![t1.clone(), t2.clone()], 5).is_none());
    let mut dup = t2.clone();
    dup.global_id = t1.global_id;
    assert!(TaskRepository::from_rows(vec![t1.clone(), dup], 6).is_none());
    let mut none_id = task("none");
    none_id.local_id = None;
    assert!(TaskRepository::from_rows(vec![none_id], 6).is_none());
}

#[test]
fn saving_twice_equals_saving_once() {
    let mut repo = TaskRepository::new();
    let t = task("same");
    let first = repo.save(&t).unwrap();
    let after_one = repo.find_all();
    let second = repo.save(&t).unwrap();
    let after_two = repo.find_all();
    assert_eq!(first.local_id, second.local_id);
    assert_eq!(after_one.len(), after_two.len());
    assert_eq!(after_one[0].title, after_two[0].title);
    assert_eq!(repo.next_id(), 2);
}

#[test]
fn status_from_labels_and_keywords() {
    for s in [Status::Open, Status::InProgress, Status::Pending, Status::Close] {
        assert_eq!(Status::from(s.label()), s);
    }
    assert_eq!(Status::from("OPEN".to_string()), Status::Open);
    assert_eq!(Status::from("In_Progress".to_string()), Status::InProgress);
    assert_eq!(Status::from("Closed".to_string()), Status::Close);
    assert_eq!(Status::from("done".to_string()), Status::Open);
}

#[test]
fn task_from_table_columns() {
    let at = Timestamp { secs: 10, nanos: 5 };
    let t = task_from_columns(
        3,
        "67e55044-10b1-426f-9247-bb680e5fe0c8",
        "T".to_string(),
        Some("D".to_string()),
        "In Progress",
        Some("me".to_string()),
        Some("00000000-0000-0000-0000-000000000001".to_string()),
        Some("[\"a.rs\",\"b.rs\"]".to_string()),
        at,
        at,
    );
    assert_eq!(t.local_id, Some(3));
    assert_eq!(t.global_id, 0x67e55044_10b1_426f_9247_bb680e5fe0c8);
    assert_eq!(t.status, Status::InProgress);
    assert_eq!(t.parent_global_id, Some(1));
    assert_eq!(t.linked_files, vec!["a.rs".to_string(), "b.rs".to_string()]);
    assert_eq!(t.assignee, Some("me".to_string()));
    assert_eq!(id_text(t.global_id), "67e55044-10b1-426f-9247-bb680e5fe0c8");

    let bad = task_from_columns(1, "nope", "T".to_string(), None, "open", None, Some("x".to_string()), Some("{".to_string()), at, at);
    assert_eq!(bad.global_id, 0);
    assert_eq!(bad.parent_global_id, None);
    assert!(bad.linked_files.is_empty());
    let none = task_from_columns(1, "nope", "T".to_string(), None, "open", None, None, None, at, at);
    assert!(none.linked_files.is_empty());
}

#[test]
fn uuid_text_forms_are_read() {
    let at = Timestamp { secs: 0, nanos: 0 };
    let read = |id: &str| task_from_columns(1, id, String::new(), None, "open", None, None, None, at, at).global_id;
    let n: u128 = 0x67e55044_10b1_426f_9247_bb680e5fe0c8;
    assert_eq!(read("67e5504410b1426f9247bb680e5fe0c8"), n);
    assert_eq!(read("67E55044-10B1-426F-9247-BB680E5FE0C8"), n);
    assert_eq!(read("{67e55044-10b1-426f-9247-bb680e5fe0c8}"), n);
    assert_eq!(read("URN:uuid:67e55044-10b1-426f-9247-bb680e5fe0c8"), n);
    assert_eq!(read("67e55044-10b1-426f-9247-bb680e5fe0cg"), 0);
    assert_eq!(read("67e55044x10b1-426f-9247-bb680e5fe0c8"), 0);
}
