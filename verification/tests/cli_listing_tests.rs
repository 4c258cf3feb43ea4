use lissue::domain::task::{Status, Task};
use lissue::presentation::cli::format_tasks_human;
use lissue::domain::config::Config;
use lissue::domain::repository::TaskRepository;
use lissue::usecase::todo::{ProjectPaths, TaskFilter, TodoUsecase};

fn stored(title: &str, id: i32, parent: Option<u128>) -> Task {
    let mut t = Task::new(title.to_string(), None, parent);
    t.local_id = Some(id);
    t
}

#[test]
fn flat_listing_shows_title_id_and_status() {
    let a = stored("Test CLI Task", 1, None);
    let mut b = stored("Done one", 2, None);
    b.status = Status::Close;
    let text = format_tasks_human(&vec![a, b], false);
    assert_eq!(
        text,
        "Tasks (ID):\n[ ] Test CLI Task (ID: 1) [Open]\n[x] Done one (ID: 2) [Close]\n"
    );
}

#[test]
fn empty_listing_has_header() {
    let text = format_tasks_human(&Vec::new(), false);
    assert!(text.contains("ID"));
    assert!(!text.contains("Move Task"));
}

#[test]
fn tree_listing_indents_children() {
    let parent = stored("Parent", 1, None);
    let child = stored("Child", 2, Some(parent.global_id));
    let grandchild = stored("Grandchild", 3, Some(child.global_id));
    let other = stored("Other", 4, None);
    let text = format_tasks_human(&vec![parent, child, grandchild, other], true);
    assert!(text.contains("Parent (ID: 1)"));
    assert!(text.contains("  [ ] Child (ID: 2)"));
    assert_eq!(
        text,
        "Tasks (ID):\n[ ] Parent (ID: 1) [Open]\n  [ ] Child (ID: 2) [Open]\n    [ ] Grandchild (ID: 3) [Open]\n[ ] Other (ID: 4) [Open]\n"
    );
}

#[test]
fn tree_listing_ends_on_cycles() {
    let mut a = stored("A", 1, None);
    let b = stored("B", 2, Some(a.global_id));
    a.parent_global_id = Some(b.global_id);
    let text = format_tasks_human(&vec![a, b], true);
    assert_eq!(text, "Tasks (ID):\n");
}

#[test]
fn test_tree_display() {
    let mut usecase = TodoUsecase::new(
        TaskRepository::new(),
        ProjectPaths::new("/tmp/project".to_string()),
        Config::default(),
    );
    usecase.add_task("Parent".to_string(), None, None).unwrap();
    usecase.add_task("Child".to_string(), None, Some(1)).unwrap();

    let tasks = usecase.list_tasks(&TaskFilter::default(), &Vec::new());
    let text = format_tasks_human(&tasks, true);
    assert!(text.contains("Parent (ID: 1)"));
    assert!(text.contains("  [ ] Child (ID: 2)"));
}
