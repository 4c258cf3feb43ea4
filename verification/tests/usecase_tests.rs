use lissue::domain::config::Config;
use lissue::domain::repository::TaskRepository;
use lissue::domain::task::{Status, Task, Timestamp};
use lissue::infrastructure::json::JsonRepository;
use lissue::usecase::todo::{
    apply_editor_content, editor_initial_content, gitattributes_content, parse_editor_content, ProjectPaths,
    TaskFilter, TodoError,
    TodoUsecase,
};

fn usecase_at(root: &str) -> TodoUsecase {
    TodoUsecase::new(TaskRepository::new(), ProjectPaths::new(root.to_string()), Config::default())
}

fn usecase() -> TodoUsecase {
    usecase_at("/tmp/project")
}

/// The shared task files, as the program keeps them: one per global id,
/// written whenever a task is stored and removed when a task is removed.
struct Shared {
    files: Vec<Task>,
}

impl Shared {
    fn save(&mut self, t: &Task) {
        self.files.retain(|f| f.global_id != t.global_id);
        self.files.push(t.clone());
    }
    fn remove(&mut self, global_id: u128) {
        self.files.retain(|f| f.global_id != global_id);
    }
}

#[test]
fn test_add_and_list() {
    let mut usecase = usecase();
    usecase.add_task("Test 1".to_string(), None, None).unwrap();
    usecase.add_task("Test 2".to_string(), Some("Desc".to_string()), None).unwrap();

    let tasks = usecase.list_tasks(&TaskFilter::default(), &Vec::new());
    assert_eq!(tasks.len(), 2);
    assert_eq!(tasks[0].title, "Test 1");
    assert_eq!(tasks[1].description, Some("Desc".to_string()));
}

#[test]
fn test_sync_lww() {
    let mut usecase = usecase();
    let mut shared = Shared { files: Vec::new() };
    let task = usecase.add_task("Base Task".to_string(), None, None).unwrap();
    shared.save(&task);

    let mut tasks_in_json = shared.files.clone();
    let original_updated_at = tasks_in_json[0].updated_at;
    tasks_in_json[0].title = "Old JSON".to_string();
    tasks_in_json[0].updated_at =
        Timestamp { secs: original_updated_at.secs - 600, nanos: original_updated_at.nanos };
    for t in &tasks_in_json {
        shared.save(t);
    }

    usecase.sync(&shared.files).unwrap();
    let tasks = usecase.list_tasks(&TaskFilter::default(), &Vec::new());
    assert_eq!(tasks[0].title, "Base Task");

    let mut tasks_in_json = shared.files.clone();
    tasks_in_json[0].title = "New JSON".to_string();
    let t = chrono::Utc::now();
    tasks_in_json[0].updated_at =
        Timestamp { secs: t.timestamp() + 600, nanos: t.timestamp_subsec_nanos() };
    for t in &tasks_in_json {
        shared.save(t);
    }

    usecase.sync(&shared.files).unwrap();
    let tasks = usecase.list_tasks(&TaskFilter::default(), &Vec::new());
    assert_eq!(tasks[0].title, "New JSON");
}

#[test]
fn sync_adds_unknown_tasks_and_is_idempotent() {
    let mut usecase = usecase();
    usecase.add_task("Local".to_string(), None, None).unwrap();
    let mut other = Task::new("From elsewhere".to_string(), None, None);
    other.local_id = Some(42);
    let shared = vec![other.clone()];
    usecase.sync(&shared).unwrap();
    let after_once = usecase.list_tasks(&TaskFilter::default(), &Vec::new());
    assert_eq!(after_once.len(), 2);
    assert_eq!(after_once[1].title, "From elsewhere");
    assert_eq!(after_once[1].local_id, Some(2));
    usecase.sync(&shared).unwrap();
    let after_twice = usecase.list_tasks(&TaskFilter::default(), &Vec::new());
    assert_eq!(after_twice.len(), 2);
    assert_eq!(after_twice[1].updated_at, after_once[1].updated_at);
}

#[test]
fn test_assignee_preservation() {
    let mut usecase = usecase();
    let mut task = usecase.add_task("Assignee Test".to_string(), None, None).unwrap();
    task.assignee = Some("AI-Agent".to_string());
    usecase.save_task(&task).unwrap();

    let retrieved = usecase.repo.find_by_local_id(1).unwrap();
    assert_eq!(retrieved.assignee, Some("AI-Agent".to_string()));
}

#[test]
fn test_claim_task() {
    let mut usecase = usecase();
    usecase.add_task("Claim Test".to_string(), None, None).unwrap();
    usecase.claim_task(1, Some("Agent-1".to_string())).unwrap();

    let task = usecase.repo.find_by_local_id(1).unwrap();
    assert_eq!(task.status, Status::InProgress);
    assert_eq!(task.assignee, Some("Agent-1".to_string()));
}

#[test]
fn test_get_task_context() {
    let mut usecase = usecase();
    let file_path = "test_file.txt";

    let mut task = usecase.add_task("Context Test".to_string(), Some("Desc".to_string()), None).unwrap();
    task.linked_files.push(file_path.to_string());
    usecase.save_task(&task).unwrap();

    let (_, sources) = usecase.context_sources(1).unwrap();
    let contents: Vec<Option<String>> =
        sources.iter().map(|s| s.as_ref().map(|_| "File Content".to_string())).collect();
    let (_, context) = usecase.get_task_context(1, &contents).unwrap();
    assert!(context.contains("Context Test"));
    assert!(context.contains("Desc"));
    assert!(context.contains("test_file.txt"));
}

#[test]
fn context_text_is_exact() {
    let mut usecase = usecase();
    let mut task = usecase.add_task("T".to_string(), Some("D".to_string()), None).unwrap();
    task.linked_files = vec!["a.txt".to_string(), "b.txt".to_string()];
    usecase.save_task(&task).unwrap();
    usecase.claim_task(1, Some("Tester".to_string())).unwrap();
    let (_, text) = usecase.get_task_context(1, &vec![None, Some("body".to_string())]).unwrap();
    assert_eq!(
        text,
        "Title: T\nDescription: D\nStatus: In Progress\nAssignee: Tester\n\nLinked Files:\n- a.txt\n- b.txt\n```\nbody\n```\n"
    );
    assert!(matches!(usecase.get_task_context(9, &Vec::new()), Err(TodoError::TaskNotFound(9))));
}

#[test]
fn context_sources_follow_strategy_and_root() {
    let mut usecase = usecase();
    let mut task = usecase.add_task("T".to_string(), None, None).unwrap();
    task.linked_files = vec!["a.txt".to_string(), "../escape.txt".to_string()];
    usecase.save_task(&task).unwrap();
    let (_, srcs) = usecase.context_sources(1).unwrap();
    assert_eq!(srcs, vec![None, None]);
    let mut config = Config::default();
    config.context.strategy = "raw_content".to_string();
    usecase.set_config(config);
    let (_, srcs) = usecase.context_sources(1).unwrap();
    assert_eq!(srcs, vec![Some("/tmp/project/a.txt".to_string()), None]);
}

#[test]
fn test_parse_editor_content() {
    let content = "Task Title\nTask Description line 1\nline 2";
    let (title, desc) = parse_editor_content(content);
    assert_eq!(title, "Task Title");
    assert_eq!(desc, Some("Task Description line 1\nline 2".to_string()));

    let content_only_title = "Only Title";
    let (title, desc) = parse_editor_content(content_only_title);
    assert_eq!(title, "Only Title");
    assert!(desc.is_none());
}

#[test]
fn editor_content_edge_cases() {
    assert_eq!(parse_editor_content(""), (String::new(), None));
    assert_eq!(parse_editor_content("  Title  \r\n\r\n  body\r\n  \n"), ("Title".to_string(), Some("body".to_string())));
    assert_eq!(parse_editor_content("Title\n   \n"), ("Title".to_string(), None));
    assert_eq!(parse_editor_content("\nbody"), (String::new(), Some("body".to_string())));
}

#[test]
fn editor_round_trip() {
    let mut t = Task::new("Title".to_string(), Some("Line 1\nLine 2".to_string()), None);
    let text = editor_initial_content(&t);
    assert_eq!(text, "Title\nLine 1\nLine 2");
    assert_eq!(parse_editor_content(&text), ("Title".to_string(), Some("Line 1\nLine 2".to_string())));
    t.description = None;
    assert_eq!(editor_initial_content(&t), "Title\n");
    assert!(apply_editor_content(&t, "   \nbody").is_none());
    let edited = apply_editor_content(&t, "New\nText").unwrap();
    assert_eq!(edited.title, "New");
    assert_eq!(edited.description, Some("Text".to_string()));
    assert_eq!(edited.global_id, t.global_id);
}

#[test]
fn move_file_renames_links() {
    let mut usecase = usecase();
    let mut a = usecase.add_task("Move Test".to_string(), None, None).unwrap();
    a.linked_files = vec!["old_file.txt".to_string(), "keep.txt".to_string()];
    usecase.save_task(&a).unwrap();
    usecase.add_task("Other".to_string(), None, None).unwrap();

    let out = usecase.move_file("old_file.txt", "new_file.txt").unwrap();
    assert_eq!(out.updated.len(), 1);
    assert_eq!(out.old_full, "/tmp/project/old_file.txt");
    assert_eq!(out.new_full, "/tmp/project/new_file.txt");
    let tasks = usecase.list_tasks(&TaskFilter::default(), &Vec::new());
    assert_eq!(tasks[0].linked_files, vec!["new_file.txt".to_string(), "keep.txt".to_string()]);
    assert!(tasks[1].linked_files.is_empty());
    assert!(matches!(usecase.move_file("../x", "y"), Err(TodoError::PathOutsideRoot(p)) if p == "../x"));
    assert!(matches!(usecase.move_file("x", "/etc/y"), Err(TodoError::PathOutsideRoot(p)) if p == "/etc/y"));
}

#[test]
fn test_validate_path() {
    let usecase = usecase_at("/tmp/lissue-root");

    // Project root
    assert!(usecase.paths.validate_within_root("valid.txt").is_ok());
    assert!(usecase.paths.validate_within_root("subdir/valid.txt").is_ok());

    // Path traversal
    assert!(usecase.paths.validate_within_root("../outside.txt").is_err());
    assert!(usecase.paths.validate_within_root("/etc/passwd").is_err());
}

#[test]
fn validate_path_cleans_dots() {
    let paths = ProjectPaths::new("/r/p".to_string());
    assert_eq!(paths.validate_within_root("a/../b").unwrap(), "/r/p/a/../b");
    assert!(paths.validate_within_root("a/../../x").is_err());
    assert!(paths.validate_within_root("/r/p/inner").is_ok());
    assert!(paths.validate_within_root("/r/pp").is_err());
    let err = paths.validate_within_root("../x").unwrap_err();
    assert_eq!(err.message(), "Path traversal detected: ../x is outside of project root");
}

#[test]
fn project_paths_layout() {
    let paths = ProjectPaths::new("/home/me/proj".to_string());
    assert_eq!(paths.dot_lissue(), "/home/me/proj/.lissue");
    assert_eq!(paths.db(), "/home/me/proj/.lissue/data.db");
    assert_eq!(paths.tasks_dir(), "/home/me/proj/.lissue/tasks");
    assert_eq!(paths.config(), "/home/me/proj/.lissue/config.yaml");
    let root_slash = ProjectPaths::new("/".to_string());
    assert_eq!(root_slash.dot_lissue(), "/.lissue");
}

#[test]
fn test_list_tasks_filtering() {
    let mut usecase = usecase();

    usecase.add_task("Task 1".to_string(), None, None).unwrap(); // Open, Unassigned
    let mut t2 = usecase.add_task("Task 2".to_string(), None, None).unwrap();
    t2.status = Status::Close;
    usecase.save_task(&t2).unwrap(); // Close, Unassigned

    let mut t3 = usecase.add_task("Task 3".to_string(), None, None).unwrap();
    t3.assignee = Some("Agent".to_string());
    usecase.save_task(&t3).unwrap(); // Open, Assigned

    // 1. Status Filter
    let open_tasks = usecase.list_tasks(&TaskFilter { status: Some(Status::Open), ..Default::default() }, &Vec::new());
    assert_eq!(open_tasks.len(), 2);

    // 2. Unassigned Filter
    let unassigned_tasks = usecase.list_tasks(&TaskFilter { unassigned: true, ..Default::default() }, &Vec::new());
    assert_eq!(unassigned_tasks.len(), 2);
    assert!(unassigned_tasks.iter().all(|t| t.assignee.is_none()));

    // 3. Combined Filter
    let next_tasks = usecase.list_tasks(&TaskFilter { status: Some(Status::Open), unassigned: true }, &Vec::new());
    assert_eq!(next_tasks.len(), 1);
    assert_eq!(next_tasks[0].title, "Task 1");
}

#[test]
fn test_get_next_task() {
    let mut usecase = usecase();

    assert!(usecase.get_next_task(&Vec::new()).is_none());

    usecase.add_task("Next 1".to_string(), None, None).unwrap();
    usecase.add_task("Next 2".to_string(), None, None).unwrap();

    let next = usecase.get_next_task(&Vec::new()).unwrap();
    assert_eq!(next.title, "Next 1");

    usecase.claim_task(1, Some("Agent".to_string())).unwrap();
    let next = usecase.get_next_task(&Vec::new()).unwrap();
    assert_eq!(next.title, "Next 2");
}

#[test]
fn test_delete_task() {
    let mut usecase = usecase();
    let mut shared = Shared { files: Vec::new() };

    let task = usecase.add_task("To be deleted".to_string(), None, None).unwrap();
    shared.save(&task);
    let global_id = task.global_id;

    if let Some(gone) = usecase.delete_task(1) {
        shared.remove(gone.global_id);
    }

    assert!(usecase.repo.find_by_local_id(1).is_none());
    let all_json = shared.files.clone();
    assert!(!all_json.iter().any(|t| t.global_id == global_id));
}

#[test]
fn test_clear_closed_tasks() {
    let mut usecase = usecase();

    usecase.add_task("Task 1".to_string(), None, None).unwrap(); // Open
    usecase.add_task("Task 2".to_string(), None, None).unwrap(); // Open
    usecase.update_status(2, Status::Close).unwrap(); // Close Task 2

    let cleared_count = usecase.clear_closed_tasks().len();
    assert_eq!(cleared_count, 1);

    let tasks = usecase.list_tasks(&TaskFilter::default(), &Vec::new());
    assert_eq!(tasks.len(), 1);
    assert_eq!(tasks[0].title, "Task 1");
}

#[test]
fn add_task_with_parent_and_errors() {
    let mut usecase = usecase();
    let parent = usecase.add_task("Parent".to_string(), None, None).unwrap();
    let child = usecase.add_task("Child".to_string(), None, Some(1)).unwrap();
    assert_eq!(child.parent_global_id, Some(parent.global_id));
    assert_eq!(child.local_id, Some(2));
    let err = usecase.add_task("Orphan".to_string(), None, Some(9)).unwrap_err();
    assert!(matches!(err, TodoError::ParentNotFound(9)));
    assert_eq!(err.message(), "Parent task with local_id 9 not found");
    assert_eq!(usecase.list_tasks(&TaskFilter::default(), &Vec::new()).len(), 2);
}

#[test]
fn link_and_unlink() {
    let mut usecase = usecase();
    let p = usecase.add_task("P".to_string(), None, None).unwrap();
    usecase.add_task("C".to_string(), None, None).unwrap();
    let linked = usecase.link_tasks(2, 1).unwrap();
    assert_eq!(linked.parent_global_id, Some(p.global_id));
    assert!(matches!(usecase.link_tasks(2, 7), Err(TodoError::LinkParentNotFound(7))));
    assert!(matches!(usecase.link_tasks(8, 1), Err(TodoError::LinkChildNotFound(8))));
    assert_eq!(TodoError::LinkChildNotFound(8).message(), "Child task not found: 8");
    let unlinked = usecase.unlink_task(2).unwrap();
    assert!(unlinked.parent_global_id.is_none());
    assert!(matches!(usecase.unlink_task(5), Err(TodoError::TaskNotFound(5))));
    assert_eq!(TodoError::TaskNotFound(-5).message(), "Task not found: -5");
}

#[test]
fn update_status_stamps_time() {
    let mut usecase = usecase();
    let t = usecase.add_task("S".to_string(), None, None).unwrap();
    let u = usecase.update_status(1, Status::Pending).unwrap();
    assert_eq!(u.status, Status::Pending);
    assert!(!t.updated_at.is_later_than(&u.updated_at));
    assert_eq!(u.created_at, t.created_at);
    assert!(matches!(usecase.update_status(3, Status::Open), Err(TodoError::TaskNotFound(3))));
}

#[test]
fn gitignore_entry_added_once() {
    assert_eq!(TodoUsecase::gitignore_content(""), Some(".lissue/data.db\n".to_string()));
    assert_eq!(TodoUsecase::gitignore_content("target"), Some("target\n.lissue/data.db\n".to_string()));
    assert_eq!(TodoUsecase::gitignore_content("target\n"), Some("target\n.lissue/data.db\n".to_string()));
    let once = TodoUsecase::gitignore_content("x").unwrap();
    assert_eq!(TodoUsecase::gitignore_content(&once), None);
}

#[test]
fn json_task_paths() {
    let repo = JsonRepository::new("/p/.lissue/tasks");
    let id: u128 = 0x67e55044_10b1_426f_9247_bb680e5fe0c8;
    assert_eq!(repo.task_path(id), "/p/.lissue/tasks/67/67e55044-10b1-426f-9247-bb680e5fe0c8.json");
}

#[test]
fn attach_files_links_each_once() {
    let mut usecase = usecase();
    usecase.add_task("A".to_string(), None, None).unwrap();
    let t = usecase
        .attach_files(1, &vec!["x.rs".to_string(), "y.rs".to_string(), "x.rs".to_string()])
        .unwrap();
    assert_eq!(t.linked_files, vec!["x.rs".to_string(), "y.rs".to_string()]);
    let t = usecase.attach_files(1, &vec!["y.rs".to_string(), "z.rs".to_string()]).unwrap();
    assert_eq!(t.linked_files, vec!["x.rs".to_string(), "y.rs".to_string(), "z.rs".to_string()]);
    assert!(matches!(usecase.attach_files(2, &Vec::new()), Err(TodoError::TaskNotFound(2))));
}

#[test]
fn distinct_tasks_get_distinct_files() {
    let repo = JsonRepository::new("/p/tasks");
    let a = Task::new("a".to_string(), None, None);
    let b = Task::new("b".to_string(), None, None);
    assert_ne!(repo.task_path(a.global_id), repo.task_path(b.global_id));
    assert_ne!(repo.task_path(1), repo.task_path(2));
    assert_eq!(repo.task_path(0), "/p/tasks/00/00000000-0000-0000-0000-000000000000.json");
}

#[test]
fn ids_exhausted_message() {
    assert_eq!(TodoError::IdsExhausted.message(), "No local id is left for a new task");
    assert_eq!(TodoError::LinkParentNotFound(3).message(), "Parent task not found: 3");
}

#[test]
fn test_move_file_updates_db() {
    let mut usecase = usecase();
    let old_path = "old_file.txt";
    let new_path = "new_file.txt";

    let mut task = usecase.add_task("Move Test".to_string(), None, None).unwrap();
    task.linked_files.push(old_path.to_string());
    usecase.save_task(&task).unwrap();

    let out = usecase.move_file(old_path, new_path).unwrap();
    assert_eq!(out.old_full, "/tmp/project/old_file.txt");
    assert_eq!(out.new_full, "/tmp/project/new_file.txt");

    let tasks = usecase.list_tasks(&TaskFilter::default(), &Vec::new());
    assert_eq!(tasks[0].linked_files[0], new_path);
}

#[test]
fn test_claim_and_context() {
    let mut usecase = usecase();
    usecase
        .add_task("Context Task".to_string(), Some("Deep description".to_string()), None)
        .unwrap();

    let claimed = usecase.claim_task(1, Some("Tester".to_string())).unwrap();
    assert_eq!(claimed.local_id, Some(1));
    assert_eq!(claimed.assignee, Some("Tester".to_string()));

    let (_, context) = usecase.get_task_context(1, &Vec::new()).unwrap();
    assert!(context.contains("Title: Context Task"));
    assert!(context.contains("Description: Deep description"));
    assert!(context.contains("Status: In Progress"));
    assert!(context.contains("Assignee: Tester"));
}

#[test]
fn toggle_linked_file_adds_and_removes() {
    let mut usecase = usecase();
    usecase.add_task("A".to_string(), None, None).unwrap();
    let t = usecase.toggle_linked_file(1, "x.rs").unwrap();
    assert_eq!(t.linked_files, vec!["x.rs".to_string()]);
    let t = usecase.toggle_linked_file(1, "y.rs").unwrap();
    assert_eq!(t.linked_files, vec!["x.rs".to_string(), "y.rs".to_string()]);
    let t = usecase.toggle_linked_file(1, "x.rs").unwrap();
    assert_eq!(t.linked_files, vec!["y.rs".to_string()]);
    assert!(matches!(usecase.toggle_linked_file(9, "x.rs"), Err(TodoError::TaskNotFound(9))));
}

#[test]
fn listing_after_auto_sync_sees_shared_changes() {
    let mut usecase = usecase();
    usecase.add_task("Local".to_string(), None, None).unwrap();
    let mut shared = Task::new("From JSON".to_string(), None, None);
    shared.status = Status::Open;
    let json = vec![shared.clone()];

    let tasks = usecase.list_tasks(&TaskFilter::default(), &json);
    assert_eq!(tasks.len(), 2);
    assert_eq!(tasks[1].title, "From JSON");
    assert_eq!(tasks[1].local_id, Some(2));

    let mut off = usecase_at("/tmp/other");
    off.config.output.auto_sync = false;
    let tasks = off.list_tasks(&TaskFilter::default(), &json);
    assert!(tasks.is_empty());

    let mut next_uc = usecase_at("/tmp/next");
    let next = next_uc.get_next_task(&json).unwrap();
    assert_eq!(next.title, "From JSON");
}

#[test]
fn validate_path_rejects_parent_and_absolute() {
    let paths = ProjectPaths::new("/tmp/lissue-root".to_string());
    assert!(paths.validate_within_root("../outside.txt").is_err());
    assert!(paths.validate_within_root("/etc/passwd").is_err());
    assert!(paths.validate_within_root("a/../b.txt").is_ok());
    assert!(paths.validate_within_root("a/../../x").is_err());
}

#[test]
fn gitattributes_mark_task_files_generated() {
    assert_eq!(gitattributes_content(), "**/*.json linguist-generated=true\n");
}
