//! The decisions of the interactive view: which tasks it shows, which one is
//! selected, which tab and input mode it is in, and what each key asks the
//! tracker to do. Drawing and the terminal stay with the caller, which
//! performs the action a key yields and hands the listed tasks back.
pub mod layout;

use crate::domain::repository::views;
use crate::domain::task::{ascii_lower_char, Status, Task, TaskView};
use crate::text::{int_string, int_text};
use crate::usecase::todo::{auto_synced, select, TaskFilter, TodoUsecase};
use fuzzy_matcher::FuzzyMatcher;
use vstd::prelude::*;

verus! {

/// What keys do.
#[derive(Debug, Clone, Copy, PartialEq, Eq, Structural)]
pub enum InputMode {
    /// Browsing.
    Normal,
    /// Typing the title of a new task.
    Add,
    /// Typing a search.
    Search,
    /// Choosing the project files linked to the selected task.
    FileSelect,
    /// Typing a search among the project files.
    FileSearch,
}

/// A key press.
#[derive(Debug, Clone, Copy, PartialEq, Eq, Structural)]
pub enum Key {
    Char(char),
    Enter,
    Esc,
    Backspace,
    Up,
    Down,
    Left,
    Right,
    Other,
}

/// What a key asks of the tracker. Every action but `Nothing`, `Edit` and
/// `ListFiles` is followed by listing the active tab again and handing the
/// list to `TuiState::refresh_tasks`; `ListFiles` asks for the project's
/// files to be listed and handed to `TuiState::show_files`.
#[derive(Debug)]
pub enum TuiAction {
    Nothing,
    Refresh,
    SyncAndRefresh,
    AddAndRefresh(String),
    Edit(Task),
    CloseAndRefresh(i32),
    ClaimAndRefresh(i32),
    ListFiles,
    /// Links the file to the task with this local id, or unlinks it when
    /// the task links it already.
    ToggleFileAndRefresh(i32, String),
}

/// The mathematical value of an action.
pub enum ActionView {
    Nothing,
    Refresh,
    SyncAndRefresh,
    AddAndRefresh(Seq<char>),
    Edit(TaskView),
    CloseAndRefresh(i32),
    ClaimAndRefresh(i32),
    ListFiles,
    ToggleFileAndRefresh(i32, Seq<char>),
}

impl View for TuiAction {
    type V = ActionView;

    open spec fn view(&self) -> ActionView {
        match self {
            TuiAction::Nothing => ActionView::Nothing,
            TuiAction::Refresh => ActionView::Refresh,
            TuiAction::SyncAndRefresh => ActionView::SyncAndRefresh,
            TuiAction::AddAndRefresh(s) => ActionView::AddAndRefresh(s@),
            TuiAction::Edit(t) => ActionView::Edit(t@),
            TuiAction::CloseAndRefresh(id) => ActionView::CloseAndRefresh(*id),
            TuiAction::ClaimAndRefresh(id) => ActionView::ClaimAndRefresh(*id),
            TuiAction::ListFiles => ActionView::ListFiles,
            TuiAction::ToggleFileAndRefresh(id, f) => ActionView::ToggleFileAndRefresh(*id, f@),
        }
    }
}

/// The state of the interactive view.
pub struct TuiState {
    pub tasks: Vec<Task>,
    pub selected_index: usize,
    pub should_quit: bool,
    pub active_tab: Status,
    pub input_mode: InputMode,
    pub input_buffer: String,
    /// The project files shown while choosing linked files.
    pub files: Vec<String>,
    /// The place of the chosen file among them.
    pub file_index: usize,
    /// The search typed among the project files.
    pub file_query: String,
}

/// The mathematical value of the view's state.
pub struct TuiView {
    pub tasks: Seq<TaskView>,
    pub selected_index: int,
    pub should_quit: bool,
    pub active_tab: Status,
    pub input_mode: InputMode,
    pub input_buffer: Seq<char>,
    pub files: Seq<Seq<char>>,
    pub file_index: int,
    pub file_query: Seq<char>,
}

impl View for TuiState {
    type V = TuiView;

    open spec fn view(&self) -> TuiView {
        TuiView {
            tasks: views(self.tasks@),
            selected_index: self.selected_index as int,
            should_quit: self.should_quit,
            active_tab: self.active_tab,
            input_mode: self.input_mode,
            input_buffer: self.input_buffer@,
            files: self.files.deep_view(),
            file_index: self.file_index as int,
            file_query: self.file_query@,
        }
    }
}

/// The selection points at a shown task, or is 0 when none is shown; the
/// same holds of the chosen file among the shown files.
pub open spec fn selection_ok(v: TuiView) -> bool {
    &&& if v.tasks.len() == 0 {
        v.selected_index == 0
    } else {
        0 <= v.selected_index < v.tasks.len()
    }
    &&& if v.files.len() == 0 {
        v.file_index == 0
    } else {
        0 <= v.file_index < v.files.len()
    }
}

/// `idx` brought into the shown list of `len` tasks.
pub open spec fn clamped(idx: int, len: int) -> int {
    if len == 0 {
        0
    } else if idx >= len {
        len - 1
    } else {
        idx
    }
}

/// The selection moved by `delta`, kept inside the list.
pub open spec fn moved(idx: int, len: int, delta: int) -> int {
    if len == 0 {
        0
    } else if delta > 0 {
        if idx + delta > len - 1 {
            len - 1
        } else {
            idx + delta
        }
    } else if idx + delta < 0 {
        0
    } else {
        idx + delta
    }
}

/// The place of a status among the tabs.
pub open spec fn tab_index(s: Status) -> int {
    match s {
        Status::Open => 0,
        Status::InProgress => 1,
        Status::Pending => 2,
        Status::Close => 3,
    }
}

/// The tab at place `i`.
pub open spec fn tab_at(i: int) -> Status {
    if i == 0 {
        Status::Open
    } else if i == 1 {
        Status::InProgress
    } else if i == 2 {
        Status::Pending
    } else {
        Status::Close
    }
}

/// The tab after (`next`) or before `s`, going round.
pub open spec fn cycled(s: Status, next: bool) -> Status {
    if next {
        tab_at((tab_index(s) + 1) % 4)
    } else {
        tab_at((tab_index(s) + 3) % 4)
    }
}

/// Whether the title `choice` matches the search `pattern`, with ASCII
/// case ignored: the characters of `pattern` occur in `choice` in their
/// order, not necessarily side by side. An empty pattern matches anything.
pub open spec fn fuzzy_matches(choice: Seq<char>, pattern: Seq<char>) -> bool
    decreases choice.len(),
{
    if pattern.len() == 0 {
        true
    } else if choice.len() == 0 {
        false
    } else if ascii_lower_char(choice[0]) == ascii_lower_char(pattern[0]) {
        fuzzy_matches(choice.drop_first(), pattern.drop_first())
    } else {
        fuzzy_matches(choice.drop_first(), pattern)
    }
}

/// Asks `SkimMatcherV2` of `fuzzy_matcher`, set to ignore case, whether
/// `pattern` matches `choice`. It matches when the pattern is empty, and
/// otherwise exactly when the greedy scan of `cheap_matches` (`util.rs`,
/// characters compared by `eq_ignore_ascii_case`) finds every character of
/// the pattern in order; past that scan the matcher only computes a score.
#[verifier::external_body]
fn fuzzy_match(choice: &str, pattern: &str) -> (r: bool)
    ensures
        r == fuzzy_matches(choice@, pattern@),
{
    fuzzy_matcher::skim::SkimMatcherV2::default().ignore_case().fuzzy_match(choice, pattern).is_some()
}

/// Drops the last character of `s`, if any, through `String::pop`.
#[verifier::external_body]
fn pop_char(s: &mut String)
    ensures
        final(s)@ == (if old(s)@.len() > 0 {
            old(s)@.drop_last()
        } else {
            old(s)@
        }),
{
    s.pop();
}

/// The tasks of `listed` whose entry in `matched` is true, in order.
pub open spec fn kept_by(listed: Seq<TaskView>, matched: Seq<bool>) -> Seq<TaskView>
    decreases listed.len(),
{
    if listed.len() == 0 {
        Seq::empty()
    } else {
        let rest = kept_by(listed.drop_last(), matched);
        if 0 <= listed.len() - 1 < matched.len() && matched[listed.len() - 1] {
            rest.push(listed.last())
        } else {
            rest
        }
    }
}

/// The search filters the list: the buffer holds text and the view is not
/// typing the title of a new task.
pub open spec fn searching(v: TuiView) -> bool {
    v.input_buffer.len() > 0 && v.input_mode != InputMode::Add
}

/// The tasks of the tab `tab` among `rows`, in order, keeping only those
/// whose title matches `query` when `filtering`.
pub open spec fn shown_tasks(rows: Seq<TaskView>, tab: Status, query: Seq<char>, filtering: bool) -> Seq<
    TaskView,
>
    decreases rows.len(),
{
    if rows.len() == 0 {
        Seq::empty()
    } else {
        let rest = shown_tasks(rows.drop_last(), tab, query, filtering);
        let t = rows.last();
        if t.status == tab && (!filtering || fuzzy_matches(t.title, query)) {
            rest.push(t)
        } else {
            rest
        }
    }
}

/// The filter of the tasks of the tab `tab`.
pub open spec fn tab_filter(tab: Status) -> TaskFilter {
    TaskFilter { status: Some(tab), unassigned: false }
}

/// Listing a tab and then keeping the tasks that the search matches shows
/// the tasks of the tab whose title matches, in order.
pub proof fn lemma_shown_tasks(rows: Seq<TaskView>, tab: Status, query: Seq<char>)
    ensures
        kept_by(
            select(rows, tab_filter(tab)),
            verdicts(select(rows, tab_filter(tab)), query),
        ) == shown_tasks(rows, tab, query, true),
        select(rows, tab_filter(tab)) == shown_tasks(rows, tab, query, false),
    decreases rows.len(),
{
    if rows.len() > 0 {
        let pre = rows.drop_last();
        lemma_shown_tasks(pre, tab, query);
        let sp = select(pre, tab_filter(tab));
        let t = rows.last();
        if t.status == tab {
            let sr = sp.push(t);
            assert(sr.drop_last() =~= sp);
            assert(verdicts(sr, query).take(sp.len() as int) =~= verdicts(sp, query));
            lemma_kept_by_take(sp, verdicts(sr, query), verdicts(sp, query));
        }
    }
}

/// `kept_by` reads only the verdicts of the tasks it is given.
proof fn lemma_kept_by_take(listed: Seq<TaskView>, m1: Seq<bool>, m2: Seq<bool>)
    requires
        m1.len() >= listed.len(),
        m2.len() >= listed.len(),
        forall|i: int| 0 <= i < listed.len() ==> m1[i] == m2[i],
    ensures
        kept_by(listed, m1) == kept_by(listed, m2),
    decreases listed.len(),
{
    if listed.len() > 0 {
        lemma_kept_by_take(listed.drop_last(), m1, m2);
    }
}

/// The verdicts of the search on each title of `listed`.
pub open spec fn verdicts(listed: Seq<TaskView>, pattern: Seq<char>) -> Seq<bool> {
    listed.map_values(|t: TaskView| fuzzy_matches(t.title, pattern))
}

/// The local id of a task as shown: its number, or 0 when it has none.
pub open spec fn shown_id(t: TaskView) -> int {
    match t.local_id {
        Some(id) => id as int,
        None => 0,
    }
}

/// The line of a task in the task list: `#`, its id, a space, its title.
pub open spec fn task_line_text(t: TaskView) -> Seq<char> {
    "#"@ + int_text(shown_id(t)) + " "@ + t.title
}

/// The detail pane of the view: its text (the selected task's description,
/// `No description` when it has none, `No task selected` when no task is
/// selected) and its title (` Details: #id title ` or ` Details `).
pub open spec fn detail_text(v: TuiView) -> (Seq<char>, Seq<char>) {
    if 0 <= v.selected_index < v.tasks.len() {
        let t = v.tasks[v.selected_index];
        (
            match t.description {
                Some(d) => d,
                None => "No description"@,
            },
            " Details: #"@ + int_text(shown_id(t)) + " "@ + t.title + " "@,
        )
    } else {
        ("No task selected"@, " Details "@)
    }
}

/// The line of `t` in the task list (see `task_line_text`).
pub fn task_line(t: &Task) -> (r: String)
    ensures
        r@ == task_line_text(t@),
{
    let id = match t.local_id {
        Some(id) => id,
        None => 0,
    };
    let mut s = String::from_str("#");
    s.append(int_string(id).as_str());
    s.append(" ");
    s.append(t.title.as_str());
    s
}

/// The local id of the selected task, if a task with one is selected.
pub open spec fn selected_id(v: TuiView) -> Option<i32> {
    if 0 <= v.selected_index < v.tasks.len() {
        v.tasks[v.selected_index].local_id
    } else {
        None
    }
}

/// `w` and `a` are the state and the action after `key` is pressed in
/// state `v` while browsing.
pub open spec fn normal_step(v: TuiView, w: TuiView, key: Key, a: ActionView) -> bool {
    match key {
        Key::Char('q') | Key::Esc => w == TuiView { should_quit: true, ..v } && a
            == ActionView::Nothing,
        Key::Char('f') | Key::Char('/') | Key::Char('?') => w == TuiView {
            input_mode: InputMode::Search,
            input_buffer: Seq::empty(),
            ..v
        } && a == ActionView::Refresh,
        Key::Char('a') => w == TuiView {
            input_mode: InputMode::Add,
            input_buffer: Seq::empty(),
            ..v
        } && a == ActionView::Nothing,
        Key::Char('j') | Key::Down => w == TuiView {
            selected_index: moved(v.selected_index, v.tasks.len() as int, 1),
            ..v
        } && a == ActionView::Nothing,
        Key::Char('k') | Key::Up => w == TuiView {
            selected_index: moved(v.selected_index, v.tasks.len() as int, -1),
            ..v
        } && a == ActionView::Nothing,
        Key::Char('h') | Key::Left => w == TuiView {
            active_tab: cycled(v.active_tab, false),
            selected_index: 0,
            ..v
        } && a == ActionView::Refresh,
        Key::Char('l') | Key::Right => w == TuiView {
            active_tab: cycled(v.active_tab, true),
            selected_index: 0,
            ..v
        } && a == ActionView::Refresh,
        Key::Char('s') => w == v && a == ActionView::SyncAndRefresh,
        Key::Char('m') => w == v && (if 0 <= v.selected_index < v.tasks.len() {
            a == ActionView::Edit(v.tasks[v.selected_index])
        } else {
            a == ActionView::Nothing
        }),
        Key::Char('d') => w == v && (match selected_id(v) {
            Some(id) => a == ActionView::CloseAndRefresh(id),
            None => a == ActionView::Nothing,
        }),
        Key::Char('c') => w == v && (match selected_id(v) {
            Some(id) => a == ActionView::ClaimAndRefresh(id),
            None => a == ActionView::Nothing,
        }),
        Key::Char('A') => match selected_id(v) {
            Some(id) => w == TuiView {
                input_mode: InputMode::FileSelect,
                file_index: 0,
                file_query: Seq::empty(),
                ..v
            } && a == ActionView::ListFiles,
            None => w == v && a == ActionView::Nothing,
        },
        _ => w == v && a == ActionView::Nothing,
    }
}

/// `w` and `a` are the state and the action after `key` is pressed in
/// state `v` while choosing the files linked to the selected task.
pub open spec fn file_select_step(v: TuiView, w: TuiView, key: Key, a: ActionView) -> bool {
    match key {
        Key::Char('q') | Key::Char('A') | Key::Esc => w == TuiView {
            input_mode: InputMode::Normal,
            file_query: Seq::empty(),
            ..v
        } && a == ActionView::Refresh,
        Key::Char('j') | Key::Down => w == TuiView {
            file_index: moved(v.file_index, v.files.len() as int, 1),
            ..v
        } && a == ActionView::Nothing,
        Key::Char('k') | Key::Up => w == TuiView {
            file_index: moved(v.file_index, v.files.len() as int, -1),
            ..v
        } && a == ActionView::Nothing,
        Key::Char('/') | Key::Char('?') => w == TuiView {
            input_mode: InputMode::FileSearch,
            file_query: Seq::empty(),
            ..v
        } && a == ActionView::ListFiles,
        Key::Char(' ') | Key::Enter => w == v && (match selected_id(v) {
            Some(id) => if 0 <= v.file_index < v.files.len() {
                a == ActionView::ToggleFileAndRefresh(id, v.files[v.file_index])
            } else {
                a == ActionView::Nothing
            },
            None => a == ActionView::Nothing,
        }),
        _ => w == v && a == ActionView::Nothing,
    }
}

/// `w` and `a` are the state and the action after `key` is pressed in
/// state `v` while typing a search among the project files.
pub open spec fn file_search_step(v: TuiView, w: TuiView, key: Key, a: ActionView) -> bool {
    match key {
        Key::Enter | Key::Esc => w == TuiView { input_mode: InputMode::FileSelect, ..v } && a
            == ActionView::ListFiles,
        Key::Backspace => w == TuiView {
            file_query: if v.file_query.len() > 0 {
                v.file_query.drop_last()
            } else {
                v.file_query
            },
            ..v
        } && a == ActionView::ListFiles,
        Key::Char(c) => w == TuiView { file_query: v.file_query.push(c), ..v } && a
            == ActionView::ListFiles,
        _ => w == v && a == ActionView::Nothing,
    }
}

/// The files of `all` that the search `query` matches, in order.
pub open spec fn matching_files(all: Seq<Seq<char>>, query: Seq<char>) -> Seq<Seq<char>>
    decreases all.len(),
{
    if all.len() == 0 {
        Seq::empty()
    } else {
        let rest = matching_files(all.drop_last(), query);
        if fuzzy_matches(all.last(), query) {
            rest.push(all.last())
        } else {
            rest
        }
    }
}

/// `w` and `a` are the state and the action after `key` is pressed in
/// state `v` while typing the title of a new task.
pub open spec fn add_step(v: TuiView, w: TuiView, key: Key, a: ActionView) -> bool {
    match key {
        Key::Enter => w == TuiView {
            input_mode: InputMode::Normal,
            input_buffer: Seq::empty(),
            ..v
        } && (if v.input_buffer.len() > 0 {
            a == ActionView::AddAndRefresh(v.input_buffer)
        } else {
            a == ActionView::Refresh
        }),
        Key::Esc => w == TuiView {
            input_mode: InputMode::Normal,
            input_buffer: Seq::empty(),
            ..v
        } && a == ActionView::Nothing,
        Key::Backspace => w == TuiView {
            input_buffer: if v.input_buffer.len() > 0 {
                v.input_buffer.drop_last()
            } else {
                v.input_buffer
            },
            ..v
        } && a == ActionView::Nothing,
        Key::Char(c) => w == TuiView { input_buffer: v.input_buffer.push(c), ..v }
            && a == ActionView::Nothing,
        _ => w == v && a == ActionView::Nothing,
    }
}

/// `w` and `a` are the state and the action after `key` is pressed in
/// state `v` while typing a search.
pub open spec fn search_step(v: TuiView, w: TuiView, key: Key, a: ActionView) -> bool {
    match key {
        Key::Enter | Key::Esc => w == TuiView { input_mode: InputMode::Normal, ..v }
            && a == ActionView::Refresh,
        Key::Backspace => w == TuiView {
            input_buffer: if v.input_buffer.len() > 0 {
                v.input_buffer.drop_last()
            } else {
                v.input_buffer
            },
            ..v
        } && a == ActionView::Refresh,
        Key::Char(c) => w == TuiView { input_buffer: v.input_buffer.push(c), ..v }
            && a == ActionView::Refresh,
        _ => w == v && a == ActionView::Nothing,
    }
}

/// `w` and `a` are the state and the action after `key` is pressed in
/// state `v`, in its input mode.
pub open spec fn key_step(v: TuiView, w: TuiView, key: Key, a: ActionView) -> bool {
    match v.input_mode {
        InputMode::Normal => normal_step(v, w, key, a),
        InputMode::Add => add_step(v, w, key, a),
        InputMode::Search => search_step(v, w, key, a),
        InputMode::FileSelect => file_select_step(v, w, key, a),
        InputMode::FileSearch => file_search_step(v, w, key, a),
    }
}

/// Going one tab forward and one back returns to the same tab, and four
/// steps either way go all round.
pub proof fn lemma_cycle_round_trip(s: Status)
    ensures
        cycled(cycled(s, true), false) == s,
        cycled(cycled(s, false), true) == s,
        cycled(cycled(cycled(cycled(s, true), true), true), true) == s,
{
}

/// Moving the selection down and then up returns to where it was, unless
/// it was on the last task.
pub proof fn lemma_move_round_trip(idx: int, len: int)
    requires
        0 <= idx,
        idx + 1 < len,
    ensures
        moved(moved(idx, len, 1), len, -1) == idx,
        0 <= moved(idx, len, 1) < len,
{
}

impl TuiState {
    /// The view before any task is listed: the open tab, browsing, nothing
    /// typed, nothing selected.
    pub fn new() -> (r: TuiState)
        ensures
            r@.tasks.len() == 0,
            r@.selected_index == 0,
            !r@.should_quit,
            r@.active_tab == Status::Open,
            r@.input_mode == InputMode::Normal,
            r@.input_buffer.len() == 0,
            r@.files.len() == 0,
            r@.file_index == 0,
            r@.file_query.len() == 0,
            selection_ok(r@),
    {
        let r = TuiState {
            tasks: Vec::new(),
            selected_index: 0,
            should_quit: false,
            active_tab: Status::Open,
            input_mode: InputMode::Normal,
            input_buffer: String::new(),
            files: Vec::new(),
            file_index: 0,
            file_query: String::new(),
        };
        assert(r@.tasks =~= Seq::<TaskView>::empty());
        assert(r@.files =~= Seq::<Seq<char>>::empty());
        r
    }

    /// Shows `listed` (the tasks of the active tab), keeping those whose
    /// entry in `matched` is true when a search filters the list, and brings
    /// the selection into the list.
    pub fn refresh_with_matches(&mut self, listed: Vec<Task>, matched: &Vec<bool>)
        ensures
            final(self)@.tasks == (if searching(old(self)@) {
                kept_by(views(listed@), matched@)
            } else {
                views(listed@)
            }),
            final(self)@.selected_index == clamped(
                old(self)@.selected_index,
                final(self)@.tasks.len() as int,
            ),
            final(self)@.should_quit == old(self)@.should_quit,
            final(self)@.active_tab == old(self)@.active_tab,
            final(self)@.input_mode == old(self)@.input_mode,
            final(self)@.input_buffer == old(self)@.input_buffer,
            final(self)@.files == old(self)@.files,
            final(self)@.file_index == old(self)@.file_index,
            final(self)@.file_query == old(self)@.file_query,
            selection_ok(old(self)@) ==> selection_ok(final(self)@),
    {
        let filter = self.input_buffer.as_str().unicode_len() > 0 && !(self.input_mode
            == InputMode::Add);
        if filter {
            let ghost ls = views(listed@);
            let mut kept: Vec<Task> = Vec::new();
            let mut i: usize = 0;
            while i < listed.len()
                invariant
                    ls == views(listed@),
                    i <= listed.len(),
                    views(kept@) == kept_by(ls.take(i as int), matched@),
                decreases listed.len() - i,
            {
                let ghost before = views(kept@);
                assert(ls.take(i + 1).drop_last() =~= ls.take(i as int));
                assert(ls.take(i + 1).last() == listed@[i as int]@);
                if i < matched.len() && matched[i] {
                    kept.push(listed[i].copy());
                    assert(views(kept@) =~= before.push(listed@[i as int]@));
                }
                i = i + 1;
            }
            assert(ls.take(i as int) =~= ls);
            self.tasks = kept;
        } else {
            self.tasks = listed;
        }
        if self.tasks.len() == 0 {
            self.selected_index = 0;
        } else if self.selected_index >= self.tasks.len() {
            self.selected_index = self.tasks.len() - 1;
        }
    }

    /// Shows `listed` (the tasks of the active tab), keeping when a search
    /// filters the list those whose title the search matches, and brings the
    /// selection into the list.
    pub fn refresh_tasks(&mut self, listed: Vec<Task>)
        ensures
            final(self)@.tasks == (if searching(old(self)@) {
                kept_by(views(listed@), verdicts(views(listed@), old(self)@.input_buffer))
            } else {
                views(listed@)
            }),
            final(self)@.selected_index == clamped(
                old(self)@.selected_index,
                final(self)@.tasks.len() as int,
            ),
            final(self)@.should_quit == old(self)@.should_quit,
            final(self)@.active_tab == old(self)@.active_tab,
            final(self)@.input_mode == old(self)@.input_mode,
            final(self)@.input_buffer == old(self)@.input_buffer,
            final(self)@.files == old(self)@.files,
            final(self)@.file_index == old(self)@.file_index,
            final(self)@.file_query == old(self)@.file_query,
            selection_ok(old(self)@) ==> selection_ok(final(self)@),
    {
        let mut matched: Vec<bool> = Vec::new();
        let mut i: usize = 0;
        while i < listed.len()
            invariant
                i <= listed.len(),
                matched.len() == i,
                forall|k: int|
                    0 <= k < i ==> matched@[k] == fuzzy_matches(
                        listed@[k].title@,
                        self.input_buffer@,
                    ),
            decreases listed.len() - i,
        {
            let m = fuzzy_match(listed[i].title.as_str(), self.input_buffer.as_str());
            matched.push(m);
            i = i + 1;
        }
        assert(matched@ =~= verdicts(views(listed@), self.input_buffer@));
        self.refresh_with_matches(listed, &matched);
    }

    /// Lists the active tab of `usecase` and shows it (see `refresh_tasks`):
    /// the tasks of the tab, in the order of their local ids, keeping when a
    /// search filters the list those whose title the search matches. The
    /// listing first reads in the shared tasks `json_tasks` when the settings
    /// ask for an implicit sync (see `TodoUsecase::list_tasks`).
    pub fn refresh_from(&mut self, usecase: &mut TodoUsecase, json_tasks: &Vec<Task>)
        requires
            old(usecase).wf(),
        ensures
            final(usecase).wf(),
            final(usecase).paths == old(usecase).paths,
            final(usecase).config == old(usecase).config,
            final(usecase).repo@ == auto_synced(
                old(usecase).repo@,
                old(usecase).config.output.auto_sync,
                views(json_tasks@),
            ),
            final(self)@.tasks == shown_tasks(
                final(usecase).repo@.rows,
                old(self)@.active_tab,
                old(self)@.input_buffer,
                searching(old(self)@),
            ),
            final(self)@.selected_index == clamped(
                old(self)@.selected_index,
                final(self)@.tasks.len() as int,
            ),
            final(self)@ == (TuiView {
                tasks: final(self)@.tasks,
                selected_index: final(self)@.selected_index,
                ..old(self)@
            }),
            selection_ok(old(self)@) ==> selection_ok(final(self)@),
    {
        let filter = TaskFilter { status: Some(self.active_tab), unassigned: false };
        let listed = usecase.list_tasks(&filter, json_tasks);
        proof {
            lemma_shown_tasks(usecase.repo@.rows, self.active_tab, self.input_buffer@);
        }
        self.refresh_tasks(listed);
    }

    /// Moves the selection by `delta`, kept inside the list.
    pub fn move_selection(&mut self, delta: i32)
        ensures
            final(self)@ == (TuiView {
                selected_index: moved(
                    old(self)@.selected_index,
                    old(self)@.tasks.len() as int,
                    delta as int,
                ),
                ..old(self)@
            }),
            selection_ok(old(self)@) ==> selection_ok(final(self)@),
    {
        let len = self.tasks.len();
        if len == 0 {
            self.selected_index = 0;
            return;
        }
        if delta > 0 {
            let step = delta as usize;
            if self.selected_index >= len - 1 || step > len - 1 - self.selected_index {
                self.selected_index = len - 1;
            } else {
                self.selected_index = self.selected_index + step;
            }
        } else {
            let back = (0 - (delta as i64)) as usize;
            if back > self.selected_index {
                self.selected_index = 0;
            } else {
                self.selected_index = self.selected_index - back;
            }
        }
    }

    /// Goes to the tab after (`next`) or before the active one, going round,
    /// and selects the first task; the tab is to be listed again.
    pub fn cycle_tab(&mut self, next: bool) -> (r: TuiAction)
        ensures
            final(self)@ == (TuiView {
                active_tab: cycled(old(self)@.active_tab, next),
                selected_index: 0,
                ..old(self)@
            }),
            r@ == ActionView::Refresh,
    {
        let i: usize = match self.active_tab {
            Status::Open => 0,
            Status::InProgress => 1,
            Status::Pending => 2,
            Status::Close => 3,
        };
        let j = if next {
            (i + 1) % 4
        } else {
            (i + 3) % 4
        };
        self.active_tab = if j == 0 {
            Status::Open
        } else if j == 1 {
            Status::InProgress
        } else if j == 2 {
            Status::Pending
        } else {
            Status::Close
        };
        self.selected_index = 0;
        TuiAction::Refresh
    }

    fn selected_local_id(&self) -> (r: Option<i32>)
        ensures
            r == selected_id(self@),
    {
        if self.selected_index < self.tasks.len() {
            assert(self@.tasks[self.selected_index as int] == self.tasks@[self.selected_index as int]@);
            self.tasks[self.selected_index].local_id
        } else {
            None
        }
    }

    /// The text and the title of the detail pane (see `detail_text`).
    pub fn detail(&self) -> (r: (String, String))
        ensures
            r.0@ == detail_text(self@).0,
            r.1@ == detail_text(self@).1,
    {
        if self.selected_index < self.tasks.len() {
            let t = &self.tasks[self.selected_index];
            assert(self@.tasks[self.selected_index as int] == t@);
            let text = match &t.description {
                Some(d) => d.clone(),
                None => String::from_str("No description"),
            };
            let id = match t.local_id {
                Some(id) => id,
                None => 0,
            };
            let mut title = String::from_str(" Details: #");
            title.append(int_string(id).as_str());
            title.append(" ");
            title.append(t.title.as_str());
            title.append(" ");
            (text, title)
        } else {
            (String::from_str("No task selected"), String::from_str(" Details "))
        }
    }

    /// A key pressed while browsing.
    pub fn handle_normal_key(&mut self, key: Key) -> (r: TuiAction)
        ensures
            selection_ok(old(self)@) ==> selection_ok(final(self)@),
            normal_step(old(self)@, final(self)@, key, r@),
    {
        match key {
            Key::Char('q') | Key::Esc => {
                self.should_quit = true;
                TuiAction::Nothing
            },
            Key::Char('f') | Key::Char('/') | Key::Char('?') => {
                self.input_mode = InputMode::Search;
                self.input_buffer = String::new();
                TuiAction::Refresh
            },
            Key::Char('a') => {
                self.input_mode = InputMode::Add;
                self.input_buffer = String::new();
                TuiAction::Nothing
            },
            Key::Char('j') | Key::Down => {
                self.move_selection(1);
                TuiAction::Nothing
            },
            Key::Char('k') | Key::Up => {
                self.move_selection(-1);
                TuiAction::Nothing
            },
            Key::Char('h') | Key::Left => self.cycle_tab(false),
            Key::Char('l') | Key::Right => self.cycle_tab(true),
            Key::Char('s') => TuiAction::SyncAndRefresh,
            Key::Char('m') => {
                if self.selected_index < self.tasks.len() {
                    TuiAction::Edit(self.tasks[self.selected_index].copy())
                } else {
                    TuiAction::Nothing
                }
            },
            Key::Char('d') => match self.selected_local_id() {
                Some(id) => TuiAction::CloseAndRefresh(id),
                None => TuiAction::Nothing,
            },
            Key::Char('c') => match self.selected_local_id() {
                Some(id) => TuiAction::ClaimAndRefresh(id),
                None => TuiAction::Nothing,
            },
            Key::Char('A') => match self.selected_local_id() {
                Some(_) => {
                    self.input_mode = InputMode::FileSelect;
                    self.file_index = 0;
                    self.file_query = String::new();
                    TuiAction::ListFiles
                },
                None => TuiAction::Nothing,
            },
            _ => TuiAction::Nothing,
        }
    }

    /// Shows the files of `all` (the project's files) that the file search
    /// matches, all of them when nothing is typed, and brings the chosen
    /// file into the list.
    pub fn show_files(&mut self, all: Vec<String>)
        ensures
            final(self)@.files == matching_files(all.deep_view(), old(self)@.file_query),
            final(self)@.file_index == clamped(
                old(self)@.file_index,
                final(self)@.files.len() as int,
            ),
            final(self)@ == (TuiView {
                files: final(self)@.files,
                file_index: final(self)@.file_index,
                ..old(self)@
            }),
            selection_ok(old(self)@) ==> selection_ok(final(self)@),
    {
        let ghost fs = all.deep_view();
        let mut shown: Vec<String> = Vec::new();
        let mut i: usize = 0;
        while i < all.len()
            invariant
                fs == all.deep_view(),
                i <= all.len(),
                shown.deep_view() == matching_files(fs.take(i as int), self.file_query@),
            decreases all.len() - i,
        {
            let ghost before = shown.deep_view();
            assert(fs.take(i + 1).drop_last() =~= fs.take(i as int));
            assert(fs.take(i + 1).last() == all@[i as int]@);
            if fuzzy_match(all[i].as_str(), self.file_query.as_str()) {
                shown.push(all[i].clone());
                assert(shown.deep_view() =~= before.push(all@[i as int]@));
            }
            i = i + 1;
        }
        assert(fs.take(i as int) =~= fs);
        self.files = shown;
        if self.files.len() == 0 {
            self.file_index = 0;
        } else if self.file_index >= self.files.len() {
            self.file_index = self.files.len() - 1;
        }
    }

    /// Moves the chosen file by one place down (`down`) or up, kept inside
    /// the list.
    fn move_file_selection(&mut self, down: bool)
        ensures
            final(self)@ == (TuiView {
                file_index: moved(
                    old(self)@.file_index,
                    old(self)@.files.len() as int,
                    if down { 1 } else { -1 },
                ),
                ..old(self)@
            }),
            selection_ok(old(self)@) ==> selection_ok(final(self)@),
    {
        let len = self.files.len();
        if len == 0 {
            self.file_index = 0;
        } else if down {
            if self.file_index >= len - 1 {
                self.file_index = len - 1;
            } else {
                self.file_index = self.file_index + 1;
            }
        } else if self.file_index > 0 {
            self.file_index = self.file_index - 1;
        }
    }

    /// A key pressed while choosing the files linked to the selected task.
    pub fn handle_file_select_key(&mut self, key: Key) -> (r: TuiAction)
        ensures
            selection_ok(old(self)@) ==> selection_ok(final(self)@),
            file_select_step(old(self)@, final(self)@, key, r@),
    {
        match key {
            Key::Char('q') | Key::Char('A') | Key::Esc => {
                self.input_mode = InputMode::Normal;
                self.file_query = String::new();
                TuiAction::Refresh
            },
            Key::Char('j') | Key::Down => {
                self.move_file_selection(true);
                TuiAction::Nothing
            },
            Key::Char('k') | Key::Up => {
                self.move_file_selection(false);
                TuiAction::Nothing
            },
            Key::Char('/') | Key::Char('?') => {
                self.input_mode = InputMode::FileSearch;
                self.file_query = String::new();
                TuiAction::ListFiles
            },
            Key::Char(' ') | Key::Enter => match self.selected_local_id() {
                Some(id) => {
                    if self.file_index < self.files.len() {
                        assert(self@.files[self.file_index as int] == self.files@[self.file_index as int]@);
                        TuiAction::ToggleFileAndRefresh(id, self.files[self.file_index].clone())
                    } else {
                        TuiAction::Nothing
                    }
                },
                None => TuiAction::Nothing,
            },
            _ => TuiAction::Nothing,
        }
    }

    /// A key pressed while typing a search among the project files.
    pub fn handle_file_search_key(&mut self, key: Key) -> (r: TuiAction)
        ensures
            file_search_step(old(self)@, final(self)@, key, r@),
    {
        match key {
            Key::Enter | Key::Esc => {
                self.input_mode = InputMode::FileSelect;
                TuiAction::ListFiles
            },
            Key::Backspace => {
                pop_char(&mut self.file_query);
                TuiAction::ListFiles
            },
            Key::Char(c) => {
                crate::text::push_char(&mut self.file_query, c);
                TuiAction::ListFiles
            },
            _ => TuiAction::Nothing,
        }
    }

    /// A key pressed while typing the title of a new task.
    pub fn handle_add_key(&mut self, key: Key) -> (r: TuiAction)
        ensures
            add_step(old(self)@, final(self)@, key, r@),
    {
        match key {
            Key::Enter => {
                let mut title = String::new();
                std::mem::swap(&mut title, &mut self.input_buffer);
                self.input_mode = InputMode::Normal;
                if title.as_str().unicode_len() > 0 {
                    TuiAction::AddAndRefresh(title)
                } else {
                    TuiAction::Refresh
                }
            },
            Key::Esc => {
                self.input_mode = InputMode::Normal;
                self.input_buffer = String::new();
                TuiAction::Nothing
            },
            Key::Backspace => {
                pop_char(&mut self.input_buffer);
                TuiAction::Nothing
            },
            Key::Char(c) => {
                crate::text::push_char(&mut self.input_buffer, c);
                TuiAction::Nothing
            },
            _ => TuiAction::Nothing,
        }
    }

    /// A key pressed while typing a search.
    pub fn handle_search_key(&mut self, key: Key) -> (r: TuiAction)
        ensures
            search_step(old(self)@, final(self)@, key, r@),
    {
        match key {
            Key::Enter | Key::Esc => {
                self.input_mode = InputMode::Normal;
                TuiAction::Refresh
            },
            Key::Backspace => {
                pop_char(&mut self.input_buffer);
                TuiAction::Refresh
            },
            Key::Char(c) => {
                crate::text::push_char(&mut self.input_buffer, c);
                TuiAction::Refresh
            },
            _ => TuiAction::Nothing,
        }
    }

    /// A key pressed in the current input mode.
    pub fn handle_key_event(&mut self, key: Key) -> (r: TuiAction)
        ensures
            selection_ok(old(self)@) ==> selection_ok(final(self)@),
            key_step(old(self)@, final(self)@, key, r@),
    {
        match self.input_mode {
            InputMode::Normal => self.handle_normal_key(key),
            InputMode::Add => self.handle_add_key(key),
            InputMode::Search => self.handle_search_key(key),
            InputMode::FileSelect => self.handle_file_select_key(key),
            InputMode::FileSearch => self.handle_file_search_key(key),
        }
    }
}

} // verus!
