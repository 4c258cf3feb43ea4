use lissue::domain::config::Config;
use lissue::domain::repository::TaskRepository;
use lissue::domain::task::Status;
use lissue::presentation::tui::layout::{centered_rect, get_layout, Rect};
use lissue::presentation::tui::{task_line, InputMode, Key, TuiAction, TuiState};
use lissue::usecase::todo::{ProjectPaths, TodoUsecase};

/// The view together with the tracker it works on, doing what each action
/// asks the way the program does.
struct TuiApp {
    usecase: TodoUsecase,
    state: TuiState,
    project_files: Vec<String>,
}

impl TuiApp {
    fn new(usecase: TodoUsecase) -> TuiApp {
        let mut app = TuiApp {
            usecase,
            state: TuiState::new(),
            project_files: vec!["src/main.rs".to_string(), "README.md".to_string()],
        };
        app.refresh_tasks();
        app
    }

    fn refresh_tasks(&mut self) {
        self.state.refresh_from(&mut self.usecase, &Vec::new());
    }

    fn perform(&mut self, action: TuiAction) {
        match action {
            TuiAction::Nothing | TuiAction::Edit(_) => {}
            TuiAction::Refresh | TuiAction::SyncAndRefresh => self.refresh_tasks(),
            TuiAction::AddAndRefresh(title) => {
                self.usecase.add_task(title, None, None).unwrap();
                self.refresh_tasks();
            }
            TuiAction::CloseAndRefresh(id) => {
                self.usecase.update_status(id, Status::Close).unwrap();
                self.refresh_tasks();
            }
            TuiAction::ClaimAndRefresh(id) => {
                self.usecase.claim_task(id, Some("human".to_string())).unwrap();
                self.refresh_tasks();
            }
            TuiAction::ListFiles => self.state.show_files(self.project_files.clone()),
            TuiAction::ToggleFileAndRefresh(id, file) => {
                self.usecase.toggle_linked_file(id, &file).unwrap();
                self.refresh_tasks();
            }
        }
    }

    fn handle_key_event(&mut self, key: Key) {
        let action = self.state.handle_key_event(key);
        self.perform(action);
    }

    fn cycle_tab(&mut self, next: bool) {
        let action = self.state.cycle_tab(next);
        self.perform(action);
    }
}

fn empty_usecase() -> TodoUsecase {
    TodoUsecase::new(TaskRepository::new(), ProjectPaths::new("/tmp/tui".to_string()), Config::default())
}

fn setup_app() -> TuiApp {
    let mut usecase = empty_usecase();
    usecase.add_task("Apple".to_string(), None, None).unwrap();
    usecase.add_task("Banana".to_string(), None, None).unwrap();
    TuiApp::new(usecase)
}

#[test]
fn test_tab_cycling() {
    let mut app = setup_app();
    assert_eq!(app.state.active_tab, Status::Open);

    app.cycle_tab(true);
    assert_eq!(app.state.active_tab, Status::InProgress);

    app.cycle_tab(true);
    assert_eq!(app.state.active_tab, Status::Pending);

    app.cycle_tab(true);
    assert_eq!(app.state.active_tab, Status::Close);

    app.cycle_tab(true);
    assert_eq!(app.state.active_tab, Status::Open);

    app.cycle_tab(false);
    assert_eq!(app.state.active_tab, Status::Close);
}

#[test]
fn test_navigation() {
    let mut app = setup_app();
    assert_eq!(app.state.selected_index, 0);

    app.handle_key_event(Key::Char('j'));
    assert_eq!(app.state.selected_index, 1);

    app.handle_key_event(Key::Char('j'));
    assert_eq!(app.state.selected_index, 1);

    app.handle_key_event(Key::Char('k'));
    assert_eq!(app.state.selected_index, 0);

    app.handle_key_event(Key::Char('k'));
    assert_eq!(app.state.selected_index, 0);
}

#[test]
fn test_empty_list_navigation() {
    let mut app = TuiApp::new(empty_usecase());

    assert_eq!(app.state.tasks.len(), 0);
    assert_eq!(app.state.selected_index, 0);

    app.handle_key_event(Key::Char('j'));
    assert_eq!(app.state.selected_index, 0);
    app.handle_key_event(Key::Char('k'));
    assert_eq!(app.state.selected_index, 0);
}

#[test]
fn test_done_action_logic() {
    let mut app = setup_app();
    assert_eq!(app.state.tasks.len(), 2);

    app.handle_key_event(Key::Char('d'));

    assert_eq!(app.state.tasks.len(), 1);
    assert_eq!(app.state.tasks[0].title, "Banana");

    app.cycle_tab(true);
    app.cycle_tab(true);
    app.cycle_tab(true);

    assert_eq!(app.state.active_tab, Status::Close);
    assert_eq!(app.state.tasks.len(), 1);
    assert_eq!(app.state.tasks[0].title, "Apple");
}

#[test]
fn test_claim_action_logic() {
    let mut app = setup_app();
    app.handle_key_event(Key::Char('c'));

    assert_eq!(app.state.tasks.len(), 1);
    assert_eq!(app.state.tasks[0].title, "Banana");

    app.cycle_tab(true);
    assert_eq!(app.state.active_tab, Status::InProgress);
    assert_eq!(app.state.tasks.len(), 1);
    assert_eq!(app.state.tasks[0].title, "Apple");
    assert!(app.state.tasks[0].assignee.is_some());
}

#[test]
fn test_selection_index_safety_on_filter() {
    let mut app = setup_app();
    app.state.selected_index = 1;

    app.handle_key_event(Key::Char('f'));
    app.state.input_buffer = "Apple".to_string();
    app.refresh_tasks();

    assert_eq!(app.state.tasks.len(), 1);
    assert_eq!(app.state.tasks[0].title, "Apple");
    assert_eq!(app.state.selected_index, 0);

    app.handle_key_event(Key::Esc);
    app.state.input_buffer = String::new();
    app.refresh_tasks();

    assert_eq!(app.state.tasks.len(), 2);
    assert_eq!(app.state.selected_index, 0);
}

#[test]
fn test_search_backspace_edge_cases() {
    let mut app = setup_app();

    app.handle_key_event(Key::Char('f'));
    assert_eq!(app.state.input_buffer, "".to_string());

    app.handle_key_event(Key::Backspace);
    assert_eq!(app.state.input_buffer, "".to_string());

    app.handle_key_event(Key::Char('x'));
    assert_eq!(app.state.input_buffer, "x".to_string());
    app.handle_key_event(Key::Backspace);
    assert_eq!(app.state.input_buffer, "".to_string());
}

#[test]
fn add_mode_creates_task() {
    let mut app = setup_app();
    app.handle_key_event(Key::Char('a'));
    assert_eq!(app.state.input_mode, InputMode::Add);
    for c in "Cherry".chars() {
        app.handle_key_event(Key::Char(c));
    }
    app.handle_key_event(Key::Backspace);
    assert_eq!(app.state.input_buffer, "Cherr");
    app.handle_key_event(Key::Enter);
    assert_eq!(app.state.input_mode, InputMode::Normal);
    assert_eq!(app.state.input_buffer, "");
    assert_eq!(app.state.tasks.len(), 3);
    assert_eq!(app.state.tasks[2].title, "Cherr");
}

#[test]
fn quit_and_edit_keys() {
    let mut app = setup_app();
    match app.state.handle_key_event(Key::Char('m')) {
        TuiAction::Edit(t) => assert_eq!(t.title, "Apple"),
        _ => panic!("edit expected"),
    }
    app.handle_key_event(Key::Char('q'));
    assert!(app.state.should_quit);
    let mut empty = TuiApp::new(empty_usecase());
    assert!(matches!(empty.state.handle_key_event(Key::Char('d')), TuiAction::Nothing));
    assert!(matches!(empty.state.handle_key_event(Key::Char('s')), TuiAction::SyncAndRefresh));
}

#[test]
fn search_is_fuzzy_and_ignores_case() {
    let mut app = setup_app();
    app.handle_key_event(Key::Char('/'));
    app.handle_key_event(Key::Char('b'));
    app.handle_key_event(Key::Char('N'));
    assert_eq!(app.state.tasks.len(), 1);
    assert_eq!(app.state.tasks[0].title, "Banana");
}

#[test]
fn layout_areas() {
    let area = Rect { x: 0, y: 0, width: 80, height: 24 };
    let (tabs, list, detail, files, help) = get_layout(area);
    assert_eq!(tabs, Rect { x: 0, y: 0, width: 80, height: 3 });
    assert_eq!(help, Rect { x: 0, y: 21, width: 80, height: 3 });
    assert_eq!(list.x, 0);
    assert_eq!(list.y, 3);
    assert_eq!(list.height, 18);
    assert_eq!(list.width + detail.width, 80);
    assert_eq!(detail.height + files.height, 18);
    let popup = centered_rect(60, 20, area);
    assert!(popup.x > 0 && popup.width < 80 && popup.height < 24);
}

#[test]
fn question_mark_starts_search_like_slash() {
    let mut app = setup_app();
    app.handle_key_event(Key::Char('?'));
    assert_eq!(app.state.input_mode, InputMode::Search);
    assert_eq!(app.state.input_buffer, "");
    app.handle_key_event(Key::Char('b'));
    app.handle_key_event(Key::Char('a'));
    assert_eq!(app.state.tasks.len(), 1);
    assert_eq!(app.state.tasks[0].title, "Banana");
}

#[test]
fn attach_mode_toggles_files_of_selected_task() {
    let mut app = setup_app();
    app.handle_key_event(Key::Char('A'));
    assert_eq!(app.state.input_mode, InputMode::FileSelect);
    assert_eq!(app.state.files, vec!["src/main.rs".to_string(), "README.md".to_string()]);
    assert_eq!(app.state.file_index, 0);

    app.handle_key_event(Key::Char('j'));
    assert_eq!(app.state.file_index, 1);
    app.handle_key_event(Key::Char(' '));
    assert_eq!(app.state.tasks[0].linked_files, vec!["README.md".to_string()]);
    app.handle_key_event(Key::Enter);
    assert!(app.state.tasks[0].linked_files.is_empty());

    app.handle_key_event(Key::Char('?'));
    assert_eq!(app.state.input_mode, InputMode::FileSearch);
    app.handle_key_event(Key::Char('m'));
    app.handle_key_event(Key::Char('a'));
    app.handle_key_event(Key::Char('i'));
    assert_eq!(app.state.files, vec!["src/main.rs".to_string()]);
    assert_eq!(app.state.file_index, 0);
    app.handle_key_event(Key::Enter);
    assert_eq!(app.state.input_mode, InputMode::FileSelect);
    app.handle_key_event(Key::Char(' '));
    assert_eq!(app.state.tasks[0].linked_files, vec!["src/main.rs".to_string()]);

    app.handle_key_event(Key::Char('A'));
    assert_eq!(app.state.input_mode, InputMode::Normal);
    assert_eq!(app.state.file_query, "");
}

#[test]
fn attach_mode_needs_a_selected_task() {
    let mut app = TuiApp::new(empty_usecase());
    app.handle_key_event(Key::Char('A'));
    assert_eq!(app.state.input_mode, InputMode::Normal);
}

#[test]
fn refresh_from_tracker_filters_by_tab_and_search() {
    let mut usecase = empty_usecase();
    usecase.add_task("Apple".to_string(), None, None).unwrap();
    usecase.add_task("Apricot".to_string(), None, None).unwrap();
    usecase.add_task("Banana".to_string(), None, None).unwrap();
    usecase.update_status(2, Status::Close).unwrap();
    let mut state = TuiState::new();
    state.refresh_from(&mut usecase, &Vec::new());
    assert_eq!(state.tasks.len(), 2);
    state.handle_key_event(Key::Char('/'));
    state.handle_key_event(Key::Char('A'));
    state.handle_key_event(Key::Char('P'));
    state.refresh_from(&mut usecase, &Vec::new());
    assert_eq!(state.tasks.len(), 1);
    assert_eq!(state.tasks[0].title, "Apple");
}

#[test]
fn detail_pane_and_task_lines() {
    let mut app = setup_app();
    let (text, title) = app.state.detail();
    assert_eq!(text, "No description");
    assert_eq!(title, " Details: #1 Apple ");
    assert_eq!(task_line(&app.state.tasks[1]), "#2 Banana");
    app.handle_key_event(Key::Char('l'));
    let (text, title) = app.state.detail();
    assert_eq!(text, "No task selected");
    assert_eq!(title, " Details ");
}

#[test]
fn layout_pieces_stay_inside_the_screen() {
    let area = Rect { x: 2, y: 1, width: 80, height: 6 };
    let (tabs, list, detail, files, status) = get_layout(area);
    for r in [tabs, list, detail, files, status] {
        assert!(r.x >= area.x && r.x + r.width <= area.x + area.width);
        assert!(r.y >= area.y && r.y + r.height <= area.y + area.height);
    }
    assert_eq!((tabs.x, tabs.width), (area.x, area.width));
    assert_eq!((status.x, status.width), (area.x, area.width));
    assert_eq!((detail.x, detail.width), (files.x, files.width));
    let c = centered_rect(60, 20, area);
    assert!(c.x >= area.x && c.x + c.width <= area.x + area.width);
}

#[test]
fn selection_outside_the_list_is_brought_back() {
    let mut state = TuiState::new();
    state.selected_index = 5;
    state.move_selection(1);
    assert_eq!(state.selected_index, 0);
    let mut app = setup_app();
    app.state.selected_index = 7;
    app.handle_key_event(Key::Char('j'));
    assert_eq!(app.state.selected_index, 1);
    app.state.selected_index = 7;
    app.handle_key_event(Key::Char('d'));
    assert_eq!(app.state.tasks.len(), 2);
}
