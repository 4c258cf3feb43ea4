//! What the tracker does with its tasks: adding, listing, changing status,
//! linking, claiming, syncing with the shared files, removing, moving linked
//! files, and building the context of a task.
use crate::domain::config::Config;
use crate::domain::repository::{
    deleted,
    find_global,
    find_local,
    has_global,
    has_local,
    id_of,
    lemma_row_lookup,
    lemma_save_keeps_others,
    lemma_save_then_find,
    lemma_saved_wf,
    local_index,
    merged,
    rows_wf,
    saved,
    views,
    RepoError,
    RepoView,
    TaskRepository,
};
use crate::domain::task::{copy_strings, later, now, status_label, Status, Task, TaskView, Timestamp};
use crate::path::{join, join_path, lexiclean_path, lexiclean_spec, path_within, within};
use crate::text::{
    chars_of, int_string, int_text, join_lines, join_lines_of, lines, lines_of, str_eq, string_of, trim,
    trim_chars,
};
use vstd::prelude::*;

verus! {

/// Which tasks a listing shows.
#[derive(Debug, Clone, Copy, PartialEq, Eq, Structural)]
pub struct TaskFilter {
    /// Only tasks with this status.
    pub status: Option<Status>,
    /// Only tasks without an assignee.
    pub unassigned: bool,
}

impl Default for TaskFilter {
    /// Shows every task.
    fn default() -> (r: TaskFilter)
        ensures
            r.status is None,
            !r.unassigned,
    {
        TaskFilter { status: None, unassigned: false }
    }
}

/// `t` passes the filter `f`.
pub open spec fn passes(f: TaskFilter, t: TaskView) -> bool {
    &&& (f.status matches Some(s) ==> t.status == s)
    &&& (f.unassigned ==> t.assignee is None)
}

/// The rows that pass `f`, in their order.
pub open spec fn select(rows: Seq<TaskView>, f: TaskFilter) -> Seq<TaskView>
    decreases rows.len(),
{
    if rows.len() == 0 {
        Seq::empty()
    } else {
        let rest = select(rows.drop_last(), f);
        if passes(f, rows.last()) {
            rest.push(rows.last())
        } else {
            rest
        }
    }
}

/// The filter of the next task to work on: open and unassigned.
pub open spec fn next_filter() -> TaskFilter {
    TaskFilter { status: Some(Status::Open), unassigned: true }
}

/// Why an operation was refused.
#[derive(Debug, Clone)]
pub enum TodoError {
    /// The parent named for a new task does not exist.
    ParentNotFound(i32),
    /// The parent named for a link does not exist.
    LinkParentNotFound(i32),
    /// The child named for a link does not exist.
    LinkChildNotFound(i32),
    /// The task does not exist.
    TaskNotFound(i32),
    /// Every local id has been handed out.
    IdsExhausted,
    /// The path leads out of the project root.
    PathOutsideRoot(String),
}

/// The text of an error.
pub open spec fn error_text(e: TodoError) -> Seq<char> {
    match e {
        TodoError::ParentNotFound(id) => "Parent task with local_id "@ + int_text(id as int)
            + " not found"@,
        TodoError::LinkParentNotFound(id) => "Parent task not found: "@ + int_text(id as int),
        TodoError::LinkChildNotFound(id) => "Child task not found: "@ + int_text(id as int),
        TodoError::TaskNotFound(id) => "Task not found: "@ + int_text(id as int),
        TodoError::IdsExhausted => "No local id is left for a new task"@,
        TodoError::PathOutsideRoot(p) => "Path traversal detected: "@ + p@
            + " is outside of project root"@,
    }
}

impl TodoError {
    /// The text of this error.
    pub fn message(&self) -> (r: String)
        ensures
            r@ == error_text(*self),
    {
        match self {
            TodoError::ParentNotFound(id) => {
                let mut s = String::from_str("Parent task with local_id ");
                s.append(int_string(*id).as_str());
                s.append(" not found");
                s
            },
            TodoError::LinkParentNotFound(id) => {
                let mut s = String::from_str("Parent task not found: ");
                s.append(int_string(*id).as_str());
                s
            },
            TodoError::LinkChildNotFound(id) => {
                let mut s = String::from_str("Child task not found: ");
                s.append(int_string(*id).as_str());
                s
            },
            TodoError::TaskNotFound(id) => {
                let mut s = String::from_str("Task not found: ");
                s.append(int_string(*id).as_str());
                s
            },
            TodoError::IdsExhausted => String::from_str("No local id is left for a new task"),
            TodoError::PathOutsideRoot(p) => {
                let mut s = String::from_str("Path traversal detected: ");
                s.append(p.as_str());
                s.append(" is outside of project root");
                s
            },
        }
    }
}

/// The place of a project on disk.
pub struct ProjectPaths {
    pub root: String,
}

impl ProjectPaths {
    /// The paths of the project rooted at `root`.
    pub fn new(root: String) -> (r: ProjectPaths)
        ensures
            r.root@ == root@,
    {
        ProjectPaths { root }
    }

    /// The tracker's own directory, `.lissue` under the root.
    pub fn dot_lissue(&self) -> (r: String)
        ensures
            r@ == join(self.root@, ".lissue"@),
    {
        join_path(self.root.as_str(), ".lissue")
    }

    /// The task table's database file.
    pub fn db(&self) -> (r: String)
        ensures
            r@ == join(join(self.root@, ".lissue"@), "data.db"@),
    {
        join_path(self.dot_lissue().as_str(), "data.db")
    }

    /// The directory of the shared task files.
    pub fn tasks_dir(&self) -> (r: String)
        ensures
            r@ == join(join(self.root@, ".lissue"@), "tasks"@),
    {
        join_path(self.dot_lissue().as_str(), "tasks")
    }

    /// The settings file.
    pub fn config(&self) -> (r: String)
        ensures
            r@ == join(join(self.root@, ".lissue"@), "config.yaml"@),
    {
        join_path(self.dot_lissue().as_str(), "config.yaml")
    }

    /// `path` taken under the root, if it stays there once `.` and `..` are
    /// cleaned away; the error names `path` otherwise.
    pub fn validate_within_root(&self, path: &str) -> (r: Result<String, TodoError>)
        ensures
            match r {
                Ok(full) => {
                    &&& full@ == join(self.root@, path@)
                    &&& within(lexiclean_spec(join(self.root@, path@)), self.root@)
                },
                Err(e) => {
                    &&& !within(lexiclean_spec(join(self.root@, path@)), self.root@)
                    &&& e matches TodoError::PathOutsideRoot(p) && p@ == path@
                },
            },
    {
        let full = join_path(self.root.as_str(), path);
        let normalized = lexiclean_path(full.as_str());
        if path_within(normalized.as_str(), self.root.as_str()) {
            Ok(full)
        } else {
            Err(TodoError::PathOutsideRoot(String::from_str(path)))
        }
    }
}

/// A new task as `Task::new` makes it: open, unassigned, no linked files,
/// created when last updated, with the given title, description and parent.
pub open spec fn fresh_task(
    t: TaskView,
    title: Seq<char>,
    description: Option<Seq<char>>,
    parent: Option<u128>,
) -> bool {
    &&& t.local_id is None
    &&& t.title == title
    &&& t.description == description
    &&& t.status == Status::Open
    &&& t.assignee is None
    &&& t.parent_global_id == parent
    &&& t.linked_files.len() == 0
    &&& t.created_at == t.updated_at
}

/// The row at `i` with a new status and update time.
pub open spec fn with_status(t: TaskView, status: Status, at: Timestamp) -> TaskView {
    TaskView { status, updated_at: at, ..t }
}

/// The row at `i` with a new parent and update time.
pub open spec fn with_parent(t: TaskView, parent: Option<u128>, at: Timestamp) -> TaskView {
    TaskView { parent_global_id: parent, updated_at: at, ..t }
}

/// The row claimed by `assignee`: in progress, assigned, updated at `at`.
pub open spec fn claimed(t: TaskView, assignee: Option<Seq<char>>, at: Timestamp) -> TaskView {
    TaskView { status: Status::InProgress, assignee, updated_at: at, ..t }
}

/// One shared task read into the table: it is written when the table has no
/// row with its global id, or when it was updated later than that row; the
/// later write wins. `None` stays `None` (a write found no local id).
pub open spec fn sync_one(s: Option<RepoView>, j: TaskView) -> Option<RepoView> {
    match s {
        None => None,
        Some(v) => if has_global(v.rows, j.global_id) && !later(
            j.updated_at,
            find_global(v.rows, j.global_id)->0.updated_at,
        ) {
            Some(v)
        } else {
            saved(v, j)
        },
    }
}

/// The shared tasks `js` read into the table one after another.
pub open spec fn synced(s: RepoView, js: Seq<TaskView>) -> Option<RepoView>
    decreases js.len(),
{
    if js.len() == 0 {
        Some(s)
    } else {
        sync_one(synced(s, js.drop_last()), js.last())
    }
}

proof fn lemma_synced_stays_none(s: RepoView, js: Seq<TaskView>, i: int)
    requires
        0 <= i <= js.len(),
        synced(s, js.take(i)) is None,
    ensures
        synced(s, js) is None,
    decreases js.len() - i,
{
    if i < js.len() {
        assert(js.take(i + 1).drop_last() =~= js.take(i));
        lemma_synced_stays_none(s, js, i + 1);
    } else {
        assert(js.take(i) =~= js);
    }
}

/// The table that a listing reads when the settings ask for an implicit
/// sync: the table after the shared tasks `js` are read in, or the table as
/// it was when that sync is off or refused.
pub open spec fn auto_synced(s: RepoView, auto_sync: bool, js: Seq<TaskView>) -> RepoView {
    if auto_sync && synced(s, js) is Some {
        synced(s, js)->0
    } else {
        s
    }
}

/// The rows that are not closed, in their order.
pub open spec fn without_closed(rows: Seq<TaskView>) -> Seq<TaskView>
    decreases rows.len(),
{
    if rows.len() == 0 {
        Seq::empty()
    } else {
        let rest = without_closed(rows.drop_last());
        if rows.last().status == Status::Close {
            rest
        } else {
            rest.push(rows.last())
        }
    }
}

/// The filter of closed tasks.
pub open spec fn closed_filter() -> TaskFilter {
    TaskFilter { status: Some(Status::Close), unassigned: false }
}

/// `files` with each entry equal to `from` replaced by `to`.
pub open spec fn renamed(files: Seq<Seq<char>>, from: Seq<char>, to: Seq<char>) -> Seq<Seq<char>> {
    files.map_values(|f: Seq<char>| if f == from { to } else { f })
}

/// `new` is `old` after a move of `from` to `to`: a row that links `from`
/// has its links renamed and a new update time; any other row stays.
pub open spec fn moved_row(old: TaskView, new: TaskView, from: Seq<char>, to: Seq<char>) -> bool {
    if old.linked_files.contains(from) {
        new == TaskView {
            linked_files: renamed(old.linked_files, from, to),
            updated_at: new.updated_at,
            ..old
        }
    } else {
        new == old
    }
}

/// The rows of `news` whose counterparts in `olds` link `from`, in order.
pub open spec fn changed_rows(olds: Seq<TaskView>, news: Seq<TaskView>, from: Seq<char>) -> Seq<
    TaskView,
>
    decreases olds.len(),
{
    if olds.len() == 0 || news.len() == 0 {
        Seq::empty()
    } else {
        let rest = changed_rows(olds.drop_last(), news.drop_last(), from);
        if olds.last().linked_files.contains(from) {
            rest.push(news.last())
        } else {
            rest
        }
    }
}

/// The head of the context of a task: title, description, status, assignee
/// and the heading of the linked files.
pub open spec fn context_header(t: TaskView) -> Seq<char> {
    "Title: "@ + t.title + "\n"@ + match t.description {
        Some(d) => "Description: "@ + d + "\n"@,
        None => Seq::empty(),
    } + "Status: "@ + status_label(t.status) + "\n"@ + match t.assignee {
        Some(a) => "Assignee: "@ + a + "\n"@,
        None => Seq::empty(),
    } + "\nLinked Files:\n"@
}

/// The entry of one linked file: its path, then its content in a fence if
/// it was read.
pub open spec fn file_entry(f: Seq<char>, c: Option<Seq<char>>) -> Seq<char> {
    "- "@ + f + "\n"@ + match c {
        Some(x) => "```\n"@ + x + "\n```\n"@,
        None => Seq::empty(),
    }
}

/// The content read for the `i`-th linked file, if any.
pub open spec fn content_at(contents: Seq<Option<Seq<char>>>, i: int) -> Option<Seq<char>> {
    if 0 <= i < contents.len() {
        contents[i]
    } else {
        None
    }
}

/// The entries of the first `n` linked files.
pub open spec fn file_entries(files: Seq<Seq<char>>, contents: Seq<Option<Seq<char>>>, n: nat) -> Seq<
    char,
>
    decreases n,
{
    if n == 0 {
        Seq::empty()
    } else {
        file_entries(files, contents, (n - 1) as nat) + file_entry(
            files[n - 1],
            content_at(contents, n - 1),
        )
    }
}

/// The context of a task given the contents read of its linked files.
pub open spec fn context_text(t: TaskView, contents: Seq<Option<Seq<char>>>) -> Seq<char> {
    context_header(t) + file_entries(t.linked_files, contents, t.linked_files.len())
}

/// Where the content of a linked file is read from, if it is read at all:
/// only with the `raw_content` strategy, and only under the root.
pub open spec fn source_of(strategy: Seq<char>, root: Seq<char>, f: Seq<char>) -> Option<
    Seq<char>,
> {
    if strategy == "raw_content"@ && within(lexiclean_spec(join(root, f)), root) {
        Some(join(root, f))
    } else {
        None
    }
}

/// Title and description of a task as written in an editor: the first line,
/// trimmed, is the title; the other lines, joined and trimmed, are the
/// description, none when empty.
pub open spec fn editor_fields(content: Seq<char>) -> (Seq<char>, Option<Seq<char>>) {
    let ls = lines(content);
    if ls.len() == 0 {
        (Seq::empty(), None)
    } else {
        let title = trim(ls[0]);
        if ls.len() > 1 {
            let d = trim(join_lines(ls.skip(1)));
            (title, if d.len() == 0 {
                None
            } else {
                Some(d)
            })
        } else {
            (title, None)
        }
    }
}

/// `pat` occurs in `s`.
pub open spec fn occurs(s: Seq<char>, pat: Seq<char>) -> bool {
    exists|i: int| 0 <= i && i + pat.len() <= s.len() && #[trigger] s.subrange(i, i + pat.len()) == pat
}

/// The ignore file after making sure it names the database: unchanged
/// (`None`) when it already does, else the entry on a line of its own at the
/// end.
pub open spec fn gitignore_text(content: Seq<char>) -> Option<Seq<char>> {
    if occurs(content, ".lissue/data.db"@) {
        None
    } else {
        let sep: Seq<char> = if content.len() > 0 && content.last() != '\n' {
            seq!['\n']
        } else {
            Seq::empty()
        };
        Some(content + sep + ".lissue/data.db\n"@)
    }
}

/// The attributes file put beside the shared task files, marking them as
/// generated.
pub fn gitattributes_content() -> (r: String)
    ensures
        r@ == "**/*.json linguist-generated=true\n"@,
{
    String::from_str("**/*.json linguist-generated=true\n")
}

/// What a move of a linked file did: the tasks rewritten, and the full
/// paths of the file before and after.
pub struct MoveOutcome {
    pub updated: Vec<Task>,
    pub old_full: String,
    pub new_full: String,
}

/// `files` with each entry equal to `from` replaced by `to`, and whether any
/// was.
pub fn rename_links(files: &Vec<String>, from: &str, to: &str) -> (r: (Vec<String>, bool))
    ensures
        r.0.deep_view() == renamed(files.deep_view(), from@, to@),
        r.1 == files.deep_view().contains(from@),
{
    let mut out: Vec<String> = Vec::new();
    let mut any = false;
    let mut i: usize = 0;
    while i < files.len()
        invariant
            i <= files.len(),
            out.len() == i,
            forall|k: int|
                0 <= k < i ==> out@[k]@ == (if files@[k]@ == from@ {
                    to@
                } else {
                    files@[k]@
                }),
            any == (exists|k: int| 0 <= k < i && files@[k]@ == from@),
        decreases files.len() - i,
    {
        if str_eq(files[i].as_str(), from) {
            out.push(String::from_str(to));
            any = true;
        } else {
            out.push(files[i].clone());
        }
        i = i + 1;
    }
    assert(out.deep_view() =~= renamed(files.deep_view(), from@, to@));
    proof {
        if any {
            let k = choose|k: int| 0 <= k < i && files@[k]@ == from@;
            assert(files.deep_view()[k] == from@);
        } else {
            assert forall|k: int| 0 <= k < files.deep_view().len() implies files.deep_view()[k]
                != from@ by {
                assert(files.deep_view()[k] == files@[k]@);
            }
        }
    }
    (out, any)
}

/// The context of `task` given the contents read of its linked files.
pub fn context_of(task: &Task, contents: &Vec<Option<String>>) -> (r: String)
    ensures
        r@ == context_text(task@, contents.deep_view()),
        occurs(r@, "Title: "@ + task@.title + "\n"@),
        occurs(r@, "Status: "@ + status_label(task@.status) + "\n"@),
        task@.description matches Some(d) ==> occurs(r@, "Description: "@ + d + "\n"@),
        task@.assignee matches Some(a) ==> occurs(r@, "Assignee: "@ + a + "\n"@),
{
    proof {
        lemma_context_mentions(task@, contents.deep_view());
    }
    let mut s = String::from_str("Title: ");
    s.append(task.title.as_str());
    s.append("\n");
    match &task.description {
        Some(d) => {
            s.append("Description: ");
            s.append(d.as_str());
            s.append("\n");
        },
        None => {},
    }
    s.append("Status: ");
    s.append(task.status.label().as_str());
    s.append("\n");
    match &task.assignee {
        Some(a) => {
            s.append("Assignee: ");
            s.append(a.as_str());
            s.append("\n");
        },
        None => {},
    }
    s.append("\nLinked Files:\n");
    assert(s@ =~= context_header(task@));
    let ghost files = task@.linked_files;
    let ghost cs = contents.deep_view();
    let mut i: usize = 0;
    assert(s@ =~= context_header(task@) + file_entries(files, cs, 0));
    while i < task.linked_files.len()
        invariant
            files == task@.linked_files,
            cs == contents.deep_view(),
            i <= task.linked_files.len(),
            s@ == context_header(task@) + file_entries(files, cs, i as nat),
        decreases task.linked_files.len() - i,
    {
        let ghost before = s@;
        assert(files[i as int] == task.linked_files@[i as int]@);
        s.append("- ");
        s.append(task.linked_files[i].as_str());
        s.append("\n");
        if i < contents.len() {
            assert(cs[i as int] == contents@[i as int].deep_view());
            match &contents[i] {
                Some(c) => {
                    s.append("```\n");
                    s.append(c.as_str());
                    s.append("\n```\n");
                },
                None => {},
            }
        }
        assert(s@ =~= before + file_entry(files[i as int], content_at(cs, i as int)));
        i = i + 1;
    }
    s
}

/// Title and description of a task as written in an editor (see
/// `editor_fields`).
pub fn parse_editor_content(content: &str) -> (r: (String, Option<String>))
    ensures
        r.0@ == editor_fields(content@).0,
        r.1.deep_view() == editor_fields(content@).1,
{
    let cs = chars_of(content);
    let ls = lines_of(&cs);
    if ls.len() == 0 {
        return (String::new(), None);
    }
    assert(crate::text::seqs_of(ls@)[0] == ls@[0]@);
    let title = string_of(&trim_chars(&ls[0]));
    if ls.len() > 1 {
        let joined = join_lines_of(&ls, 1);
        let d = trim_chars(&joined);
        if d.len() == 0 {
            (title, None)
        } else {
            (title, Some(string_of(&d)))
        }
    } else {
        (title, None)
    }
}

/// The text a task is edited from: its title, a line break, and its
/// description (empty when it has none).
pub open spec fn editor_text(t: TaskView) -> Seq<char> {
    t.title + seq!['\n'] + match t.description {
        Some(d) => d,
        None => Seq::empty(),
    }
}

/// The text a task is edited from (see `editor_text`).
pub fn editor_initial_content(task: &Task) -> (r: String)
    ensures
        r@ == editor_text(task@),
{
    let mut s = task.title.clone();
    crate::text::push_char(&mut s, '\n');
    match &task.description {
        Some(d) => s.append(d.as_str()),
        None => {},
    }
    s
}

/// `task` after its editor text was changed to `content`, stamped updated
/// at `at`; `None` when the edited title is empty, which leaves the task as
/// it was.
pub open spec fn edited(t: TaskView, content: Seq<char>, at: Timestamp) -> Option<TaskView> {
    let (title, description) = editor_fields(content);
    if title.len() == 0 {
        None
    } else {
        Some(TaskView { title, description, updated_at: at, ..t })
    }
}

/// `task` after its editor text was changed to `content`, stamped updated
/// now (see `edited`).
pub fn apply_editor_content(task: &Task, content: &str) -> (r: Option<Task>)
    ensures
        match r {
            Some(t) => edited(task@, content@, t@.updated_at) == Some(t@),
            None => editor_fields(content@).0.len() == 0,
        },
{
    let (title, description) = parse_editor_content(content);
    if title.as_str().unicode_len() == 0 {
        return None;
    }
    let mut t = task.copy();
    t.title = title;
    t.description = description;
    t.updated_at = now();
    Some(t)
}

/// Tests whether `pat` occurs in `s`.
pub fn occurs_in(s: &str, pat: &str) -> (r: bool)
    ensures
        r == occurs(s@, pat@),
{
    let a = chars_of(s);
    let b = chars_of(pat);
    if b.len() > a.len() {
        assert(!occurs(s@, pat@));
        return false;
    }
    let mut i: usize = 0;
    while i <= a.len() - b.len()
        invariant
            a@ == s@,
            b@ == pat@,
            b.len() <= a.len(),
            i <= a.len() - b.len() + 1,
            forall|k: int| 0 <= k < i ==> #[trigger] s@.subrange(k, k + pat@.len()) != pat@,
        decreases a.len() - i,
    {
        let mut j: usize = 0;
        let mut same = true;
        while j < b.len()
            invariant
                a@ == s@,
                b@ == pat@,
                i + b.len() <= a.len(),
                j <= b.len(),
                same == (forall|k: int| 0 <= k < j ==> a@[i + k] == b@[k]),
            decreases b.len() - j,
        {
            if a[i + j] != b[j] {
                same = false;
            }
            j = j + 1;
        }
        if same {
            assert(s@.subrange(i as int, i + pat@.len()) =~= pat@);
            return true;
        }
        assert(s@.subrange(i as int, i + pat@.len()) != pat@) by {
            let k = choose|k: int| 0 <= k < j && a@[i + k] != b@[k];
            assert(s@.subrange(i as int, i + pat@.len())[k] == a@[i + k]);
        }
        i = i + 1;
    }
    proof {
        assert forall|k: int| 0 <= k && k + pat@.len() <= s@.len() implies #[trigger] s@.subrange(
            k,
            k + pat@.len(),
        ) != pat@ by {
            assert(k < i);
        }
    }
    false
}

/// `existing` with each of `files` that it does not hold yet added at the
/// end, in order.
pub open spec fn attached(existing: Seq<Seq<char>>, files: Seq<Seq<char>>) -> Seq<Seq<char>>
    decreases files.len(),
{
    if files.len() == 0 {
        existing
    } else {
        let before = attached(existing, files.drop_last());
        if before.contains(files.last()) {
            before
        } else {
            before.push(files.last())
        }
    }
}

/// `files` without any entry equal to `f`, in order.
pub open spec fn without_file(files: Seq<Seq<char>>, f: Seq<char>) -> Seq<Seq<char>>
    decreases files.len(),
{
    if files.len() == 0 {
        Seq::empty()
    } else {
        let rest = without_file(files.drop_last(), f);
        if files.last() == f {
            rest
        } else {
            rest.push(files.last())
        }
    }
}

/// `files` with `f` toggled: every entry equal to `f` taken out when it
/// holds one, `f` added at the end otherwise.
pub open spec fn toggled(files: Seq<Seq<char>>, f: Seq<char>) -> Seq<Seq<char>> {
    if files.contains(f) {
        without_file(files, f)
    } else {
        files.push(f)
    }
}

/// Tests whether `files` holds `f`.
fn holds(files: &Vec<String>, f: &str) -> (r: bool)
    ensures
        r == files.deep_view().contains(f@),
{
    let mut i: usize = 0;
    while i < files.len()
        invariant
            i <= files.len(),
            forall|k: int| 0 <= k < i ==> #[trigger] files.deep_view()[k] != f@,
        decreases files.len() - i,
    {
        assert(files.deep_view()[i as int] == files@[i as int]@);
        if str_eq(files[i].as_str(), f) {
            return true;
        }
        i = i + 1;
    }
    false
}

/// The use cases of the tracker over its task table and settings.
pub struct TodoUsecase {
    pub repo: TaskRepository,
    pub paths: ProjectPaths,
    pub config: Config,
}

impl TodoUsecase {
    /// The table keeps its shape.
    pub open spec fn wf(&self) -> bool {
        self.repo.wf()
    }

    /// The tracker over `repo`, for the project at `paths`, with `config`.
    pub fn new(repo: TaskRepository, paths: ProjectPaths, config: Config) -> (r: TodoUsecase)
        requires
            repo.wf(),
        ensures
            r.wf(),
            r.repo@ == repo@,
            r.paths.root@ == paths.root@,
            r.config == config,
    {
        TodoUsecase { repo, paths, config }
    }

    /// The settings in use.
    pub fn get_config(&self) -> (r: &Config)
        ensures
            *r == self.config,
    {
        &self.config
    }

    /// Replaces the settings.
    pub fn set_config(&mut self, config: Config)
        ensures
            final(self).config == config,
            final(self).repo@ == old(self).repo@,
            final(self).paths == old(self).paths,
    {
        self.config = config;
    }

    /// Stores `edited`, a changed version of the row at `i` with the same
    /// global id, and returns the row as stored.
    fn store_edited(&mut self, i: Ghost<int>, edited: &Task) -> (r: Task)
        requires
            old(self).wf(),
            0 <= i@ < old(self).repo@.rows.len(),
            edited@.global_id == old(self).repo@.rows[i@].global_id,
        ensures
            final(self).wf(),
            final(self).repo@ == (RepoView {
                rows: old(self).repo@.rows.update(i@, merged(old(self).repo@.rows[i@], edited@)),
                next_id: old(self).repo@.next_id,
            }),
            r@ == merged(old(self).repo@.rows[i@], edited@),
            final(self).paths == old(self).paths,
            final(self).config == old(self).config,
    {
        proof {
            lemma_row_lookup(self.repo@.rows, self.repo@.next_id, i@);
        }
        let ghost before = self.repo@;
        match self.repo.save(edited) {
            Ok(row) => {
                proof {
                    lemma_row_lookup(self.repo@.rows, self.repo@.next_id, i@);
                }
                assert(self.repo@.rows[i@] == merged(before.rows[i@], edited@));
                row
            },
            Err(_) => {
                assert(false);
                edited.copy()
            },
        }
    }

    /// Writes a task made elsewhere (see `save`) and reads it back.
    pub fn add_prepared(&mut self, task: &Task) -> (r: Result<Task, TodoError>)
        requires
            old(self).wf(),
        ensures
            final(self).wf(),
            final(self).paths == old(self).paths,
            final(self).config == old(self).config,
            match r {
                Ok(row) => {
                    &&& saved(old(self).repo@, task@) == Some(final(self).repo@)
                    &&& find_global(final(self).repo@.rows, task@.global_id) == Some(row@)
                },
                Err(e) => {
                    &&& saved(old(self).repo@, task@) is None
                    &&& final(self).repo@ == old(self).repo@
                    &&& e is IdsExhausted
                },
            },
    {
        match self.repo.save(task) {
            Ok(_) => {},
            Err(_) => {
                return Err(TodoError::IdsExhausted);
            },
        }
        match self.repo.find_by_global_id(task.global_id) {
            Some(row) => Ok(row),
            None => {
                assert(false);
                Err(TodoError::IdsExhausted)
            },
        }
    }

    /// Adds an open task with a fresh global id under the task with local id
    /// `parent_local_id`, if one is named and exists. Returns the task as
    /// stored.
    pub fn add_task(
        &mut self,
        title: String,
        description: Option<String>,
        parent_local_id: Option<i32>,
    ) -> (r: Result<Task, TodoError>)
        requires
            old(self).wf(),
        ensures
            final(self).wf(),
            final(self).paths == old(self).paths,
            final(self).config == old(self).config,
            match parent_local_id {
                Some(pid) => find_local(old(self).repo@.rows, pid as int) is None ==> {
                    &&& r matches Err(TodoError::ParentNotFound(p)) && p == pid
                    &&& final(self).repo@ == old(self).repo@
                },
                None => true,
            },
            old(self).repo@.next_id <= i32::MAX && (parent_local_id matches Some(pid)
                ==> has_local(old(self).repo@.rows, pid as int)) ==> r is Ok,
            r matches Ok(row) ==> exists|fresh: TaskView|
                {
                    &&& fresh_task(
                        fresh,
                        title@,
                        description.deep_view(),
                        match parent_local_id {
                            Some(pid) => Some(
                                find_local(old(self).repo@.rows, pid as int)->0.global_id,
                            ),
                            None => None,
                        },
                    )
                    &&& #[trigger] saved(old(self).repo@, fresh) == Some(final(self).repo@)
                    &&& find_global(final(self).repo@.rows, fresh.global_id) == Some(row@)
                },
            r matches Err(e) ==> final(self).repo@ == old(self).repo@,
    {
        let parent_global_id = match parent_local_id {
            Some(pid) => match self.repo.find_by_local_id(pid) {
                Some(parent) => Some(parent.global_id),
                None => {
                    return Err(TodoError::ParentNotFound(pid));
                },
            },
            None => None,
        };
        let ghost desc = description.deep_view();
        let task = Task::new(title, description, parent_global_id);
        let r = self.add_prepared(&task);
        proof {
            if r is Ok {
                assert(fresh_task(task@, title@, desc, parent_global_id));
            }
        }
        r
    }

    /// The tasks that pass `filter`, in the order of their local ids.
    fn matching_tasks(&self, filter: &TaskFilter) -> (r: Vec<Task>)
        requires
            self.wf(),
        ensures
            views(r@) == select(self.repo@.rows, *filter),
            forall|i: int|
                0 <= i < r.len() ==> {
                    &&& (filter.status matches Some(s) ==> (#[trigger] r@[i])@.status == s)
                    &&& (filter.unassigned ==> r@[i]@.assignee is None)
                },
    {
        let all = self.repo.find_all();
        let ghost rows = self.repo@.rows;
        let mut out: Vec<Task> = Vec::new();
        let mut i: usize = 0;
        while i < all.len()
            invariant
                views(all@) == rows,
                i <= all.len(),
                views(out@) == select(rows.take(i as int), *filter),
            decreases all.len() - i,
        {
            let ghost before = views(out@);
            assert(rows.take(i + 1).drop_last() =~= rows.take(i as int));
            assert(rows.take(i + 1).last() == all@[i as int]@);
            let keep = match filter.status {
                Some(s) => all[i].status == s,
                None => true,
            } && (!filter.unassigned || all[i].assignee.is_none());
            if keep {
                out.push(all[i].copy());
                assert(views(out@) =~= before.push(all@[i as int]@));
            }
            i = i + 1;
        }
        assert(rows.take(i as int) =~= rows);
        proof {
            lemma_listing_filters(rows, *filter);
            assert forall|k: int| 0 <= k < out.len() implies views(out@)[k] == (#[trigger] out@[k])@ by {}
        }
        out
    }

    /// The next task to work on: the first open, unassigned task by local
    /// id, if there is one.
    #[verifier::rlimit(40)]
    fn first_next_task(&self) -> (r: Option<Task>)
        requires
            self.wf(),
        ensures
            match r {
                Some(t) => select(self.repo@.rows, next_filter()).len() > 0 && t@ == select(
                    self.repo@.rows,
                    next_filter(),
                )[0],
                None => select(self.repo@.rows, next_filter()).len() == 0,
            },
            r matches Some(t) ==> {
                &&& t@.status == Status::Open
                &&& t@.assignee is None
                &&& first_open_unassigned(self.repo@.rows, t@)
            },
            r is None ==> no_open_unassigned(self.repo@.rows),
    {
        let ghost rows = self.repo@.rows;
        let filter = TaskFilter { status: Some(Status::Open), unassigned: true };
        let mut tasks = self.matching_tasks(&filter);
        if tasks.len() == 0 {
            proof {
                assert(no_open_unassigned(rows)) by {
                    reveal(no_open_unassigned);
                    lemma_next_is_first_open_unassigned(rows);
                }
            }
            None
        } else {
            let t = tasks.remove(0);
            proof {
                let first = select(rows, next_filter())[0];
                assert(t@ == first);
                assert(first.status == Status::Open && first.assignee is None
                    && first_open_unassigned(rows, first)) by {
                    reveal(first_open_unassigned);
                    lemma_next_is_first_open_unassigned(rows);
                }
            }
            Some(t)
        }
    }

    /// Reads the shared tasks `json_tasks` in when the settings ask for an
    /// implicit sync; a refused sync leaves the table as it was.
    fn sync_if_asked(&mut self, json_tasks: &Vec<Task>)
        requires
            old(self).wf(),
        ensures
            final(self).wf(),
            final(self).paths == old(self).paths,
            final(self).config == old(self).config,
            final(self).repo@ == auto_synced(
                old(self).repo@,
                old(self).config.output.auto_sync,
                views(json_tasks@),
            ),
    {
        if self.config.output.auto_sync {
            let _ = self.sync(json_tasks);
        }
    }

    /// Lists the tasks that pass `filter`, in the order of their local ids.
    /// When the settings ask for an implicit sync, the shared tasks
    /// `json_tasks` are read in first (see `sync`); a refused sync leaves the
    /// table as it was.
    pub fn list_tasks(&mut self, filter: &TaskFilter, json_tasks: &Vec<Task>) -> (r: Vec<
        Task,
    >)
        requires
            old(self).wf(),
        ensures
            final(self).wf(),
            final(self).paths == old(self).paths,
            final(self).config == old(self).config,
            final(self).repo@ == auto_synced(
                old(self).repo@,
                old(self).config.output.auto_sync,
                views(json_tasks@),
            ),
            views(r@) == select(final(self).repo@.rows, *filter),
            forall|i: int|
                0 <= i < r.len() ==> {
                    &&& (filter.status matches Some(s) ==> (#[trigger] r@[i])@.status == s)
                    &&& (filter.unassigned ==> r@[i]@.assignee is None)
                },
    {
        self.sync_if_asked(json_tasks);
        self.matching_tasks(filter)
    }

    /// The next task to work on: the first open, unassigned task by local
    /// id, if there is one, after the implicit sync that the settings ask
    /// for (see `list_tasks`).
    pub fn get_next_task(&mut self, json_tasks: &Vec<Task>) -> (r: Option<Task>)
        requires
            old(self).wf(),
        ensures
            final(self).wf(),
            final(self).paths == old(self).paths,
            final(self).config == old(self).config,
            final(self).repo@ == auto_synced(
                old(self).repo@,
                old(self).config.output.auto_sync,
                views(json_tasks@),
            ),
            match r {
                Some(t) => select(final(self).repo@.rows, next_filter()).len() > 0 && t@ == select(
                    final(self).repo@.rows,
                    next_filter(),
                )[0],
                None => select(final(self).repo@.rows, next_filter()).len() == 0,
            },
            r matches Some(t) ==> {
                &&& t@.status == Status::Open
                &&& t@.assignee is None
                &&& first_open_unassigned(final(self).repo@.rows, t@)
            },
            r is None ==> no_open_unassigned(final(self).repo@.rows),
    {
        self.sync_if_asked(json_tasks);
        self.first_next_task()
    }

    /// Sets the status of the task with local id `local_id` and stamps it
    /// updated now. Returns the task as stored.
    pub fn update_status(&mut self, local_id: i32, status: Status) -> (r: Result<Task, TodoError>)
        requires
            old(self).wf(),
        ensures
            final(self).wf(),
            final(self).paths == old(self).paths,
            final(self).config == old(self).config,
            !has_local(old(self).repo@.rows, local_id as int) ==> {
                &&& r matches Err(TodoError::TaskNotFound(id)) && id == local_id
                &&& final(self).repo@ == old(self).repo@
            },
            has_local(old(self).repo@.rows, local_id as int) ==> (r matches Ok(row) && {
                let i = local_index(old(self).repo@.rows, local_id as int);
                &&& row@ == with_status(old(self).repo@.rows[i], status, row@.updated_at)
                &&& row@.status == status
                &&& row@.assignee == old(self).repo@.rows[i].assignee
                &&& row@.local_id == Some(local_id)
                &&& final(self).repo@ == (RepoView {
                    rows: old(self).repo@.rows.update(i, row@),
                    next_id: old(self).repo@.next_id,
                })
            }),
    {
        match self.repo.position_of_local(local_id) {
            None => Err(TodoError::TaskNotFound(local_id)),
            Some(i) => {
                let mut task = self.repo.row(i);
                task.status = status;
                task.updated_at = now();
                let row = self.store_edited(Ghost(i as int), &task);
                Ok(row)
            },
        }
    }

    /// Puts the task with local id `child_id` under the task with local id
    /// `parent_id` and stamps it updated now. Returns the child as stored.
    pub fn link_tasks(&mut self, child_id: i32, parent_id: i32) -> (r: Result<Task, TodoError>)
        requires
            old(self).wf(),
        ensures
            final(self).wf(),
            final(self).paths == old(self).paths,
            final(self).config == old(self).config,
            !has_local(old(self).repo@.rows, parent_id as int) ==> {
                &&& r matches Err(TodoError::LinkParentNotFound(id)) && id == parent_id
                &&& final(self).repo@ == old(self).repo@
            },
            has_local(old(self).repo@.rows, parent_id as int) && !has_local(
                old(self).repo@.rows,
                child_id as int,
            ) ==> {
                &&& r matches Err(TodoError::LinkChildNotFound(id)) && id == child_id
                &&& final(self).repo@ == old(self).repo@
            },
            has_local(old(self).repo@.rows, parent_id as int) && has_local(
                old(self).repo@.rows,
                child_id as int,
            ) ==> (r matches Ok(row) && {
                let rows = old(self).repo@.rows;
                let i = local_index(rows, child_id as int);
                let parent = rows[local_index(rows, parent_id as int)];
                &&& row@ == with_parent(rows[i], Some(parent.global_id), row@.updated_at)
                &&& row@.parent_global_id == Some(parent.global_id)
                &&& parent.local_id == Some(parent_id)
                &&& row@.local_id == Some(child_id)
                &&& final(self).repo@ == (RepoView {
                    rows: rows.update(i, row@),
                    next_id: old(self).repo@.next_id,
                })
            }),
    {
        let parent_global_id = match self.repo.position_of_local(parent_id) {
            None => {
                return Err(TodoError::LinkParentNotFound(parent_id));
            },
            Some(p) => self.repo.row_global_id(p),
        };
        match self.repo.position_of_local(child_id) {
            None => Err(TodoError::LinkChildNotFound(child_id)),
            Some(i) => {
                let mut task = self.repo.row(i);
                task.parent_global_id = Some(parent_global_id);
                task.updated_at = now();
                let row = self.store_edited(Ghost(i as int), &task);
                Ok(row)
            },
        }
    }

    /// Takes the task with local id `local_id` out from under its parent and
    /// stamps it updated now. Returns the task as stored.
    pub fn unlink_task(&mut self, local_id: i32) -> (r: Result<Task, TodoError>)
        requires
            old(self).wf(),
        ensures
            final(self).wf(),
            final(self).paths == old(self).paths,
            final(self).config == old(self).config,
            !has_local(old(self).repo@.rows, local_id as int) ==> {
                &&& r matches Err(TodoError::TaskNotFound(id)) && id == local_id
                &&& final(self).repo@ == old(self).repo@
            },
            has_local(old(self).repo@.rows, local_id as int) ==> (r matches Ok(row) && {
                let i = local_index(old(self).repo@.rows, local_id as int);
                &&& row@ == with_parent(old(self).repo@.rows[i], None, row@.updated_at)
                &&& row@.parent_global_id is None
                &&& row@.local_id == Some(local_id)
                &&& final(self).repo@ == (RepoView {
                    rows: old(self).repo@.rows.update(i, row@),
                    next_id: old(self).repo@.next_id,
                })
            }),
    {
        match self.repo.position_of_local(local_id) {
            None => Err(TodoError::TaskNotFound(local_id)),
            Some(i) => {
                let mut task = self.repo.row(i);
                task.parent_global_id = None;
                task.updated_at = now();
                let row = self.store_edited(Ghost(i as int), &task);
                Ok(row)
            },
        }
    }

    /// Marks the task with local id `local_id` in progress, assigns it to
    /// `assignee` and stamps it updated now. Returns the task as stored.
    pub fn claim_task(&mut self, local_id: i32, assignee: Option<String>) -> (r: Result<
        Task,
        TodoError,
    >)
        requires
            old(self).wf(),
        ensures
            final(self).wf(),
            final(self).paths == old(self).paths,
            final(self).config == old(self).config,
            !has_local(old(self).repo@.rows, local_id as int) ==> {
                &&& r matches Err(TodoError::TaskNotFound(id)) && id == local_id
                &&& final(self).repo@ == old(self).repo@
            },
            has_local(old(self).repo@.rows, local_id as int) ==> (r matches Ok(row) && {
                let i = local_index(old(self).repo@.rows, local_id as int);
                &&& row@ == claimed(
                    old(self).repo@.rows[i],
                    assignee.deep_view(),
                    row@.updated_at,
                )
                &&& row@.status == Status::InProgress
                &&& row@.assignee == assignee.deep_view()
                &&& row@.local_id == Some(local_id)
                &&& final(self).repo@ == (RepoView {
                    rows: old(self).repo@.rows.update(i, row@),
                    next_id: old(self).repo@.next_id,
                })
            }),
    {
        match self.repo.position_of_local(local_id) {
            None => Err(TodoError::TaskNotFound(local_id)),
            Some(i) => {
                let mut task = self.repo.row(i);
                task.status = Status::InProgress;
                task.assignee = assignee;
                task.updated_at = now();
                let row = self.store_edited(Ghost(i as int), &task);
                Ok(row)
            },
        }
    }

    /// Links each of `files` that the task with local id `local_id` does not
    /// link yet, in order, and stamps it updated now. Returns the task as
    /// stored.
    pub fn attach_files(&mut self, local_id: i32, files: &Vec<String>) -> (r: Result<
        Task,
        TodoError,
    >)
        requires
            old(self).wf(),
        ensures
            final(self).wf(),
            final(self).paths == old(self).paths,
            final(self).config == old(self).config,
            !has_local(old(self).repo@.rows, local_id as int) ==> {
                &&& r matches Err(TodoError::TaskNotFound(id)) && id == local_id
                &&& final(self).repo@ == old(self).repo@
            },
            has_local(old(self).repo@.rows, local_id as int) ==> (r matches Ok(row) && {
                let i = local_index(old(self).repo@.rows, local_id as int);
                let t = old(self).repo@.rows[i];
                &&& row@ == TaskView {
                    linked_files: attached(t.linked_files, files.deep_view()),
                    updated_at: row@.updated_at,
                    ..t
                }
                &&& forall|k: int|
                    0 <= k < files.len() ==> row@.linked_files.contains(#[trigger] files.deep_view()[k])
                &&& forall|k: int|
                    0 <= k < t.linked_files.len() ==> row@.linked_files.contains(
                        #[trigger] t.linked_files[k],
                    )
                &&& final(self).repo@ == (RepoView {
                    rows: old(self).repo@.rows.update(i, row@),
                    next_id: old(self).repo@.next_id,
                })
            }),
    {
        match self.repo.position_of_local(local_id) {
            None => Err(TodoError::TaskNotFound(local_id)),
            Some(i) => {
                let mut task = self.repo.row(i);
                let ghost start = task.linked_files.deep_view();
                let ghost fs = files.deep_view();
                let mut k: usize = 0;
                assert(fs.take(0) =~= Seq::<Seq<char>>::empty());
                while k < files.len()
                    invariant
                        fs == files.deep_view(),
                        k <= files.len(),
                        task.linked_files.deep_view() == attached(start, fs.take(k as int)),
                        task@ == (TaskView {
                            linked_files: task@.linked_files,
                            ..old(self).repo@.rows[i as int]
                        }),
                        start == old(self).repo@.rows[i as int].linked_files,
                        self.repo@ == old(self).repo@,
                        self.wf(),
                        i < self.repo@.rows.len(),
                        local_index(old(self).repo@.rows, local_id as int) == i,
                        self.paths == old(self).paths,
                        self.config == old(self).config,
                    decreases files.len() - k,
                {
                    assert(fs.take(k + 1).drop_last() =~= fs.take(k as int));
                    assert(fs.take(k + 1).last() == files@[k as int]@);
                    if !holds(&task.linked_files, files[k].as_str()) {
                        let ghost before = task.linked_files.deep_view();
                        task.linked_files.push(files[k].clone());
                        assert(task.linked_files.deep_view() =~= before.push(files@[k as int]@));
                    }
                    k = k + 1;
                }
                assert(fs.take(k as int) =~= fs);
                proof {
                    lemma_attached_links_all(start, fs);
                }
                task.updated_at = now();
                let row = self.store_edited(Ghost(i as int), &task);
                Ok(row)
            },
        }
    }

    /// Links `file` to the task with local id `local_id`, or unlinks it when
    /// the task links it already, and stamps the task updated now. Returns
    /// the task as stored.
    pub fn toggle_linked_file(&mut self, local_id: i32, file: &str) -> (r: Result<Task, TodoError>)
        requires
            old(self).wf(),
        ensures
            final(self).wf(),
            final(self).paths == old(self).paths,
            final(self).config == old(self).config,
            !has_local(old(self).repo@.rows, local_id as int) ==> {
                &&& r matches Err(TodoError::TaskNotFound(id)) && id == local_id
                &&& final(self).repo@ == old(self).repo@
            },
            has_local(old(self).repo@.rows, local_id as int) ==> (r matches Ok(row) && {
                let i = local_index(old(self).repo@.rows, local_id as int);
                let t = old(self).repo@.rows[i];
                &&& row@ == TaskView {
                    linked_files: toggled(t.linked_files, file@),
                    updated_at: row@.updated_at,
                    ..t
                }
                &&& t.linked_files.contains(file@) ==> !row@.linked_files.contains(file@)
                &&& !t.linked_files.contains(file@) ==> row@.linked_files == t.linked_files.push(file@)
                &&& final(self).repo@ == (RepoView {
                    rows: old(self).repo@.rows.update(i, row@),
                    next_id: old(self).repo@.next_id,
                })
            }),
    {
        match self.repo.position_of_local(local_id) {
            None => Err(TodoError::TaskNotFound(local_id)),
            Some(i) => {
                let mut task = self.repo.row(i);
                let ghost start = task.linked_files.deep_view();
                if holds(&task.linked_files, file) {
                    let mut kept: Vec<String> = Vec::new();
                    let mut k: usize = 0;
                    while k < task.linked_files.len()
                        invariant
                            start == task.linked_files.deep_view(),
                            k <= task.linked_files.len(),
                            kept.deep_view() == without_file(start.take(k as int), file@),
                        decreases task.linked_files.len() - k,
                    {
                        let ghost before = kept.deep_view();
                        assert(start.take(k + 1).drop_last() =~= start.take(k as int));
                        assert(start.take(k + 1).last() == task.linked_files@[k as int]@);
                        if !str_eq(task.linked_files[k].as_str(), file) {
                            kept.push(task.linked_files[k].clone());
                            assert(kept.deep_view() =~= before.push(task.linked_files@[k as int]@));
                        }
                        k = k + 1;
                    }
                    assert(start.take(k as int) =~= start);
                    task.linked_files = kept;
                } else {
                    task.linked_files.push(String::from_str(file));
                    assert(task.linked_files.deep_view() =~= start.push(file@));
                }
                proof {
                    lemma_toggled_off(start, file@);
                }
                task.updated_at = now();
                let row = self.store_edited(Ghost(i as int), &task);
                Ok(row)
            },
        }
    }

    /// Writes `task` to the table (see `TaskRepository::save`). Returns the
    /// task as stored.
    pub fn save_task(&mut self, task: &Task) -> (r: Result<Task, TodoError>)
        requires
            old(self).wf(),
        ensures
            final(self).wf(),
            final(self).paths == old(self).paths,
            final(self).config == old(self).config,
            match r {
                Ok(row) => {
                    &&& saved(old(self).repo@, task@) == Some(final(self).repo@)
                    &&& find_global(final(self).repo@.rows, task@.global_id) == Some(row@)
                },
                Err(e) => {
                    &&& saved(old(self).repo@, task@) is None
                    &&& final(self).repo@ == old(self).repo@
                    &&& e is IdsExhausted
                },
            },
    {
        match self.repo.save(task) {
            Ok(row) => Ok(row),
            Err(_) => Err(TodoError::IdsExhausted),
        }
    }

    /// Reads the shared tasks `json_tasks` into the table, one after another:
    /// a task the table lacks is added, and a task updated later than its
    /// row overwrites it. Refused as a whole, with the table unchanged, when
    /// a new task finds no local id.
    pub fn sync(&mut self, json_tasks: &Vec<Task>) -> (r: Result<(), TodoError>)
        requires
            old(self).wf(),
        ensures
            final(self).wf(),
            final(self).paths == old(self).paths,
            final(self).config == old(self).config,
            match r {
                Ok(()) => synced(old(self).repo@, views(json_tasks@)) == Some(final(self).repo@),
                Err(e) => {
                    &&& synced(old(self).repo@, views(json_tasks@)) is None
                    &&& final(self).repo@ == old(self).repo@
                    &&& e is IdsExhausted
                },
            },
    {
        let ghost start = self.repo@;
        let ghost js = views(json_tasks@);
        let mut work = self.repo.copy();
        let mut i: usize = 0;
        assert(js.take(0) =~= Seq::<TaskView>::empty());
        while i < json_tasks.len()
            invariant
                work.wf(),
                js == views(json_tasks@),
                i <= json_tasks.len(),
                synced(start, js.take(i as int)) == Some(work@),
                start == old(self).repo@,
                self.repo@ == start,
                self.wf(),
                self.paths == old(self).paths,
                self.config == old(self).config,
            decreases json_tasks.len() - i,
        {
            let j = &json_tasks[i];
            assert(js.take(i + 1).drop_last() =~= js.take(i as int));
            assert(js.take(i + 1).last() == j@);
            let write = match work.find_by_global_id(j.global_id) {
                Some(local) => j.updated_at.is_later_than(&local.updated_at),
                None => true,
            };
            if write {
                match work.save(j) {
                    Ok(_) => {},
                    Err(_) => {
                        proof {
                            lemma_synced_stays_none(start, js, i + 1);
                        }
                        return Err(TodoError::IdsExhausted);
                    },
                }
            }
            i = i + 1;
        }
        assert(js.take(i as int) =~= js);
        self.repo = work;
        Ok(())
    }

    /// Removes every closed task and returns them in the order of their
    /// local ids; their number is the length of the result.
    pub fn clear_closed_tasks(&mut self) -> (r: Vec<Task>)
        requires
            old(self).wf(),
        ensures
            final(self).wf(),
            final(self).paths == old(self).paths,
            final(self).config == old(self).config,
            final(self).repo@.rows == without_closed(old(self).repo@.rows),
            final(self).repo@.next_id == old(self).repo@.next_id,
            views(r@) == select(old(self).repo@.rows, closed_filter()),
    {
        let snap = self.repo.find_all();
        let ghost rows = self.repo@.rows;
        let ghost next = self.repo@.next_id;
        let mut removed: Vec<Task> = Vec::new();
        let mut i: usize = 0;
        assert(rows.skip(0) =~= rows);
        assert(without_closed(rows.take(0)) =~= Seq::<TaskView>::empty());
        assert(select(rows.take(0), closed_filter()) =~= Seq::<TaskView>::empty());
        assert(self.repo@.rows =~= without_closed(rows.take(0)) + rows.skip(0));
        while i < snap.len()
            invariant
                self.wf(),
                views(snap@) == rows,
                rows_wf(rows, next),
                i <= snap.len(),
                self.repo@.rows == without_closed(rows.take(i as int)) + rows.skip(i as int),
                self.repo@.next_id == next,
                views(removed@) == select(rows.take(i as int), closed_filter()),
                self.paths == old(self).paths,
                self.config == old(self).config,
            decreases snap.len() - i,
        {
            let ghost kept = without_closed(rows.take(i as int));
            let ghost cur = self.repo@.rows;
            assert(rows.take(i + 1).drop_last() =~= rows.take(i as int));
            assert(rows.take(i + 1).last() == rows[i as int]);
            assert(snap@[i as int]@ == rows[i as int]);
            assert(cur[kept.len() as int] == rows[i as int]);
            if snap[i].status == Status::Close {
                assert(rows[i as int].local_id is Some);
                let id = match snap[i].local_id {
                    Some(id) => id,
                    None => 0,
                };
                proof {
                    lemma_row_lookup(cur, next, kept.len() as int);
                }
                let gone = self.repo.delete(id);
                assert(self.repo@.rows =~= kept + rows.skip(i + 1));
                let ghost before = views(removed@);
                match gone {
                    Some(t) => {
                        removed.push(t);
                    },
                    None => {},
                }
                assert(views(removed@) =~= before.push(rows[i as int]));
            } else {
                assert(self.repo@.rows =~= without_closed(rows.take(i + 1)) + rows.skip(i + 1));
            }
            i = i + 1;
        }
        assert(rows.take(i as int) =~= rows);
        assert(rows.skip(i as int) =~= Seq::<TaskView>::empty());
        assert(self.repo@.rows =~= without_closed(rows));
        removed
    }

    /// Renames the linked file `old_path` to `new_path` in every task that
    /// links it, stamping those tasks updated now; both paths must stay under
    /// the root. Returns the tasks rewritten and both full paths.
    pub fn move_file(&mut self, old_path: &str, new_path: &str) -> (r: Result<
        MoveOutcome,
        TodoError,
    >)
        requires
            old(self).wf(),
        ensures
            final(self).wf(),
            final(self).paths == old(self).paths,
            final(self).config == old(self).config,
            ({
                let root = old(self).paths.root@;
                let old_ok = within(lexiclean_spec(join(root, old_path@)), root);
                let new_ok = within(lexiclean_spec(join(root, new_path@)), root);
                &&& !old_ok ==> (r matches Err(TodoError::PathOutsideRoot(p)) && p@ == old_path@)
                &&& old_ok && !new_ok ==> (r matches Err(TodoError::PathOutsideRoot(p)) && p@
                    == new_path@)
                &&& r is Err ==> final(self).repo@ == old(self).repo@
                &&& old_ok && new_ok ==> r is Ok
            }),
            r matches Ok(out) ==> {
                let olds = old(self).repo@.rows;
                let news = final(self).repo@.rows;
                &&& out.old_full@ == join(old(self).paths.root@, old_path@)
                &&& out.new_full@ == join(old(self).paths.root@, new_path@)
                &&& news.len() == olds.len()
                &&& final(self).repo@.next_id == old(self).repo@.next_id
                &&& forall|i: int|
                    0 <= i < olds.len() ==> moved_row(
                        #[trigger] olds[i],
                        news[i],
                        old_path@,
                        new_path@,
                    )
                &&& views(out.updated@) == changed_rows(olds, news, old_path@)
                &&& forall|i: int|
                    0 <= i < olds.len() && (#[trigger] olds[i]).linked_files.contains(old_path@)
                        ==> {
                        &&& news[i].linked_files == renamed(
                            olds[i].linked_files,
                            old_path@,
                            new_path@,
                        )
                        &&& news[i].status == olds[i].status
                        &&& views(out.updated@).contains(news[i])
                    }
                &&& old_path@ != new_path@ ==> forall|i: int|
                    0 <= i < news.len() ==> !(#[trigger] news[i]).linked_files.contains(old_path@)
            },
    {
        let old_full = match self.paths.validate_within_root(old_path) {
            Ok(p) => p,
            Err(e) => {
                return Err(e);
            },
        };
        let new_full = match self.paths.validate_within_root(new_path) {
            Ok(p) => p,
            Err(e) => {
                return Err(e);
            },
        };
        let ghost olds = self.repo@.rows;
        let n = self.repo.len();
        let mut updated: Vec<Task> = Vec::new();
        let mut i: usize = 0;
        while i < n
            invariant
                self.wf(),
                n == olds.len(),
                self.repo@.rows.len() == n,
                self.repo@.next_id == old(self).repo@.next_id,
                olds == old(self).repo@.rows,
                self.paths == old(self).paths,
                self.config == old(self).config,
                i <= n,
                forall|k: int|
                    0 <= k < i ==> moved_row(
                        #[trigger] olds[k],
                        self.repo@.rows[k],
                        old_path@,
                        new_path@,
                    ),
                forall|k: int| i <= k < n ==> #[trigger] self.repo@.rows[k] == olds[k],
                views(updated@) == changed_rows(olds.take(i as int), self.repo@.rows.take(i as int), old_path@),
            decreases n - i,
        {
            let ghost cur = self.repo@.rows;
            let mut task = self.repo.row(i);
            let (files, any) = rename_links(&task.linked_files, old_path, new_path);
            assert(olds.take(i + 1).drop_last() =~= olds.take(i as int));
            if any {
                task.linked_files = files;
                task.updated_at = now();
                let row = self.store_edited(Ghost(i as int), &task);
                assert(self.repo@.rows.take(i + 1).drop_last() =~= cur.take(i as int));
                assert(self.repo@.rows.take(i as int) =~= cur.take(i as int));
                let ghost before = views(updated@);
                updated.push(row);
                assert(views(updated@) =~= before.push(self.repo@.rows[i as int]));
            } else {
                assert(cur.take(i + 1).drop_last() =~= cur.take(i as int));
            }
            i = i + 1;
        }
        assert(olds.take(n as int) =~= olds);
        assert(self.repo@.rows.take(n as int) =~= self.repo@.rows);
        proof {
            lemma_move_rewrites_all(olds, self.repo@.rows, old_path@, new_path@);
        }
        Ok(MoveOutcome { updated, old_full, new_full })
    }

    /// For each linked file of the task with local id `local_id`, where its
    /// content is read from for the task's context, if it is read at all.
    pub fn context_sources(&self, local_id: i32) -> (r: Result<(Task, Vec<Option<String>>), TodoError>)
        requires
            self.wf(),
        ensures
            !has_local(self.repo@.rows, local_id as int) ==> (r matches Err(
                TodoError::TaskNotFound(id),
            ) && id == local_id),
            has_local(self.repo@.rows, local_id as int) ==> (r matches Ok((t, srcs)) && {
                &&& find_local(self.repo@.rows, local_id as int) == Some(t@)
                &&& srcs.len() == t@.linked_files.len()
                &&& forall|i: int|
                    0 <= i < srcs.len() ==> #[trigger] srcs@[i].deep_view() == source_of(
                        self.config.context.strategy@,
                        self.paths.root@,
                        t@.linked_files[i],
                    )
            }),
    {
        let task = match self.repo.find_by_local_id(local_id) {
            Some(t) => t,
            None => {
                return Err(TodoError::TaskNotFound(local_id));
            },
        };
        let raw = str_eq(self.config.context.strategy.as_str(), "raw_content");
        let mut srcs: Vec<Option<String>> = Vec::new();
        let mut i: usize = 0;
        while i < task.linked_files.len()
            invariant
                i <= task.linked_files.len(),
                srcs.len() == i,
                raw == (self.config.context.strategy@ == "raw_content"@),
                forall|k: int|
                    0 <= k < i ==> #[trigger] srcs@[k].deep_view() == source_of(
                        self.config.context.strategy@,
                        self.paths.root@,
                        task@.linked_files[k],
                    ),
            decreases task.linked_files.len() - i,
        {
            assert(task@.linked_files[i as int] == task.linked_files@[i as int]@);
            let src = if raw {
                match self.paths.validate_within_root(task.linked_files[i].as_str()) {
                    Ok(full) => Some(full),
                    Err(_) => None,
                }
            } else {
                None
            };
            srcs.push(src);
            i = i + 1;
        }
        Ok((task, srcs))
    }

    /// The context of the task with local id `local_id`: title, description,
    /// status, assignee, and each linked file with the content read for it in
    /// `contents` (at the same place), if any.
    pub fn get_task_context(&self, local_id: i32, contents: &Vec<Option<String>>) -> (r: Result<
        (Task, String),
        TodoError,
    >)
        requires
            self.wf(),
        ensures
            !has_local(self.repo@.rows, local_id as int) ==> (r matches Err(
                TodoError::TaskNotFound(id),
            ) && id == local_id),
            has_local(self.repo@.rows, local_id as int) ==> (r matches Ok((t, text)) && {
                &&& find_local(self.repo@.rows, local_id as int) == Some(t@)
                &&& text@ == context_text(t@, contents.deep_view())
                &&& t@.assignee matches Some(a) ==> occurs(text@, "Assignee: "@ + a + "\n"@)
                &&& t@.description matches Some(d) ==> occurs(text@, "Description: "@ + d + "\n"@)
                &&& occurs(text@, "Status: "@ + status_label(t@.status) + "\n"@)
            }),
    {
        let task = match self.repo.find_by_local_id(local_id) {
            Some(t) => t,
            None => {
                return Err(TodoError::TaskNotFound(local_id));
            },
        };
        let text = context_of(&task, contents);
        Ok((task, text))
    }

    /// The ignore file of a project after making sure it names the
    /// database (see `gitignore_text`).
    pub fn gitignore_content(content: &str) -> (r: Option<String>)
        ensures
            r.deep_view() == gitignore_text(content@),
    {
        if occurs_in(content, ".lissue/data.db") {
            return None;
        }
        let cs = chars_of(content);
        let mut s = String::from_str(content);
        if cs.len() > 0 && cs[cs.len() - 1] != '\n' {
            crate::text::push_char(&mut s, '\n');
        }
        s.append(".lissue/data.db\n");
        Some(s)
    }

    /// Removes the task with local id `local_id`, if there is one, and
    /// returns it.
    pub fn delete_task(&mut self, local_id: i32) -> (r: Option<Task>)
        requires
            old(self).wf(),
        ensures
            final(self).wf(),
            final(self).paths == old(self).paths,
            final(self).config == old(self).config,
            final(self).repo@ == deleted(old(self).repo@, local_id as int),
            r matches Some(t) ==> find_local(old(self).repo@.rows, local_id as int) == Some(t@),
            r is None <==> !has_local(old(self).repo@.rows, local_id as int),
    {
        self.repo.delete(local_id)
    }
}


/// A listing holds exactly the rows that pass its filter: each task listed
/// passes and is a row, and each row that passes is listed.
pub proof fn lemma_select(rows: Seq<TaskView>, f: TaskFilter)
    ensures
        forall|i: int|
            0 <= i < select(rows, f).len() ==> passes(f, #[trigger] select(rows, f)[i])
                && rows.contains(select(rows, f)[i]),
        forall|i: int|
            0 <= i < rows.len() && passes(f, #[trigger] rows[i]) ==> select(rows, f).contains(
                rows[i],
            ),
        select(rows, f).len() <= rows.len(),
    decreases rows.len(),
{
    if rows.len() > 0 {
        let pre = rows.drop_last();
        lemma_select(pre, f);
        let sel = select(rows, f);
        assert forall|i: int| 0 <= i < sel.len() implies passes(f, #[trigger] sel[i])
            && rows.contains(sel[i]) by {
            if i < select(pre, f).len() {
                assert(sel[i] == select(pre, f)[i]);
                let k = choose|k: int| 0 <= k < pre.len() && pre[k] == sel[i];
                assert(rows[k] == sel[i]);
            } else {
                assert(sel[i] == rows.last());
                assert(rows[rows.len() - 1] == sel[i]);
            }
        }
        assert forall|i: int| 0 <= i < rows.len() && passes(f, #[trigger] rows[i]) implies sel.contains(
            rows[i],
        ) by {
            if i < pre.len() {
                assert(pre[i] == rows[i]);
                let k = choose|k: int| 0 <= k < select(pre, f).len() && select(pre, f)[k] == pre[i];
                assert(sel[k] == rows[i]);
            } else {
                assert(sel[sel.len() - 1] == rows[i]);
            }
        }
    }
}

/// Last write wins: once a shared task is read in, the table has a row with
/// its global id. The row stays as it was when it was updated no earlier
/// than the shared task; otherwise it takes the shared task's title,
/// description, status, assignee, parent, links and update time. Either
/// way the row is no older than the shared task.
pub proof fn lemma_sync_one_lww(s: RepoView, j: TaskView)
    requires
        rows_wf(s.rows, s.next_id),
        sync_one(Some(s), j) is Some,
    ensures
        ({
            let s2 = sync_one(Some(s), j)->0;
            let r = find_global(s2.rows, j.global_id)->0;
            &&& rows_wf(s2.rows, s2.next_id)
            &&& has_global(s2.rows, j.global_id)
            &&& !later(j.updated_at, r.updated_at)
            &&& has_global(s.rows, j.global_id) && !later(
                j.updated_at,
                find_global(s.rows, j.global_id)->0.updated_at,
            ) ==> s2 == s
            &&& !has_global(s.rows, j.global_id) || later(
                j.updated_at,
                find_global(s.rows, j.global_id)->0.updated_at,
            ) ==> {
                &&& r.title == j.title
                &&& r.description == j.description
                &&& r.status == j.status
                &&& r.assignee == j.assignee
                &&& r.parent_global_id == j.parent_global_id
                &&& r.linked_files == j.linked_files
                &&& r.updated_at == j.updated_at
            }
        }),
{
    if has_global(s.rows, j.global_id) && !later(
        j.updated_at,
        find_global(s.rows, j.global_id)->0.updated_at,
    ) {
    } else {
        lemma_saved_wf(s, j);
        lemma_save_then_find(s, j);
    }
}

/// After the shared tasks `js` are read in, every one of them has a row,
/// and no row is older than a shared task with its global id.
pub proof fn lemma_synced_covers(s: RepoView, js: Seq<TaskView>)
    requires
        rows_wf(s.rows, s.next_id),
        synced(s, js) is Some,
    ensures
        rows_wf(synced(s, js)->0.rows, synced(s, js)->0.next_id),
        forall|k: int|
            0 <= k < js.len() ==> has_global(synced(s, js)->0.rows, (#[trigger] js[k]).global_id)
                && !later(
                js[k].updated_at,
                find_global(synced(s, js)->0.rows, js[k].global_id)->0.updated_at,
            ),
    decreases js.len(),
{
    if js.len() > 0 {
        let pre = js.drop_last();
        let j = js.last();
        assert(synced(s, pre) is Some);
        lemma_synced_covers(s, pre);
        let s1 = synced(s, pre)->0;
        let s2 = synced(s, js)->0;
        lemma_sync_one_lww(s1, j);
        let written = !(has_global(s1.rows, j.global_id) && !later(
            j.updated_at,
            find_global(s1.rows, j.global_id)->0.updated_at,
        ));
        assert forall|k: int| 0 <= k < js.len() implies has_global(
            s2.rows,
            (#[trigger] js[k]).global_id,
        ) && !later(js[k].updated_at, find_global(s2.rows, js[k].global_id)->0.updated_at) by {
            if k < pre.len() {
                assert(js[k] == pre[k]);
                if written && js[k].global_id != j.global_id {
                    lemma_save_keeps_others(s1, j, js[k].global_id);
                }
            }
        }
    }
}

/// Reading the same shared tasks in again changes nothing.
pub proof fn lemma_sync_idempotent(s: RepoView, js: Seq<TaskView>)
    requires
        rows_wf(s.rows, s.next_id),
        synced(s, js) is Some,
    ensures
        synced(synced(s, js)->0, js) == synced(s, js),
{
    let s2 = synced(s, js)->0;
    lemma_synced_covers(s, js);
    lemma_synced_fixed(s2, js, js.len() as int);
    assert(js.take(js.len() as int) =~= js);
}

proof fn lemma_synced_fixed(s: RepoView, js: Seq<TaskView>, n: int)
    requires
        0 <= n <= js.len(),
        forall|k: int|
            0 <= k < js.len() ==> has_global(s.rows, (#[trigger] js[k]).global_id) && !later(
                js[k].updated_at,
                find_global(s.rows, js[k].global_id)->0.updated_at,
            ),
    ensures
        synced(s, js.take(n)) == Some(s),
    decreases n,
{
    if n > 0 {
        assert(js.take(n).drop_last() =~= js.take(n - 1));
        lemma_synced_fixed(s, js, n - 1);
        assert(js.take(n).last() == js[n - 1]);
    } else {
        assert(js.take(0).len() == 0);
    }
}

/// Clearing keeps exactly the rows that are not closed: none of the rows
/// left is closed, each row that is not closed is left, and the rows left
/// and the rows removed together are as many as there were.
pub proof fn lemma_without_closed(rows: Seq<TaskView>)
    ensures
        forall|i: int|
            0 <= i < without_closed(rows).len() ==> (#[trigger] without_closed(rows)[i]).status
                != Status::Close,
        forall|i: int|
            0 <= i < rows.len() && (#[trigger] rows[i]).status != Status::Close
                ==> without_closed(rows).contains(rows[i]),
        without_closed(rows).len() + select(rows, closed_filter()).len() == rows.len(),
    decreases rows.len(),
{
    if rows.len() > 0 {
        let pre = rows.drop_last();
        lemma_without_closed(pre);
        let w = without_closed(rows);
        assert forall|i: int| 0 <= i < w.len() implies (#[trigger] w[i]).status != Status::Close by {
            if i < without_closed(pre).len() {
                assert(w[i] == without_closed(pre)[i]);
            }
        }
        assert forall|i: int|
            0 <= i < rows.len() && (#[trigger] rows[i]).status != Status::Close implies w.contains(
            rows[i],
        ) by {
            if i < pre.len() {
                assert(pre[i] == rows[i]);
                let k = choose|k: int|
                    0 <= k < without_closed(pre).len() && without_closed(pre)[k] == pre[i];
                assert(w[k] == rows[i]);
            } else {
                assert(w[w.len() - 1] == rows[i]);
            }
        }
    }
}

/// Moving a file renames every link to it and keeps the number of links;
/// when the new path differs from the old, no link to the old path is
/// left.
pub proof fn lemma_renamed(files: Seq<Seq<char>>, from: Seq<char>, to: Seq<char>)
    ensures
        renamed(files, from, to).len() == files.len(),
        from != to ==> !renamed(files, from, to).contains(from),
        files.contains(from) ==> renamed(files, from, to).contains(to),
{
    let r = renamed(files, from, to);
    if from != to {
        assert forall|k: int| 0 <= k < r.len() implies r[k] != from by {}
    }
    if files.contains(from) {
        let k = choose|k: int| 0 <= k < files.len() && files[k] == from;
        assert(r[k] == to);
    }
}

/// Editing a task without changing its text gives its title and
/// description back: for a title with no surrounding white space and no line
/// break, and a description that is absent, or present with no surrounding
/// white space and no `'\r'`.
pub proof fn lemma_editor_round_trip(t: TaskView)
    requires
        t.title.len() > 0,
        trim(t.title) == t.title,
        forall|i: int| 0 <= i < t.title.len() ==> t.title[i] != '\n',
        t.description matches Some(d) ==> {
            &&& d.len() > 0
            &&& trim(d) == d
            &&& forall|i: int| 0 <= i < d.len() ==> d[i] != '\r'
        },
    ensures
        editor_fields(editor_text(t)) == (t.title, t.description),
{
    let d = match t.description {
        Some(d) => d,
        None => Seq::empty(),
    };
    assert(editor_text(t) =~= t.title + seq!['\n'] + d);
    crate::text::lemma_lines_head(Seq::empty(), t.title, d);
    assert(Seq::<char>::empty() + t.title =~= t.title);
    assert(crate::text::strip_cr(t.title) == t.title) by {
        crate::text::lemma_trimmed_ends(t.title);
    }
    let ls = lines(editor_text(t));
    assert(ls.skip(1) =~= lines(d));
    match t.description {
        None => {
            assert(lines(d).len() == 0);
        },
        Some(dd) => {
            assert(dd.last() != '\n') by {
                crate::text::lemma_trimmed_ends(dd);
            }
            crate::text::lemma_join_lines_from(Seq::empty(), dd);
            assert(Seq::<char>::empty() + dd =~= dd);
        },
    }
}

/// Making sure the ignore file names the database twice does nothing more
/// than doing it once, and the file only grows at its end.
pub proof fn lemma_gitignore_idempotent(content: Seq<char>)
    ensures
        gitignore_text(content) matches Some(t) ==> {
            &&& gitignore_text(t) is None
            &&& content.is_prefix_of(t)
        },
{
    if let Some(t) = gitignore_text(content) {
        reveal_strlit(".lissue/data.db");
        reveal_strlit(".lissue/data.db\n");
        let pat = ".lissue/data.db"@;
        let at = t.len() - 16;
        assert(t.subrange(at, at + pat.len()) =~= pat);
        assert(occurs(t, pat));
        assert(content.is_prefix_of(t)) by {
            assert forall|i: int| 0 <= i < content.len() implies content[i] == t[i] by {}
        }
    }
}


/// A listing keeps its promises whatever the filter: with a status asked
/// for, every task listed has that status; under the unassigned filter,
/// no task listed has an assignee; every task listed is a row; and every
/// row with the status asked for (if any) and, under the unassigned filter,
/// without an assignee, is listed.
pub proof fn lemma_listing_filters(rows: Seq<TaskView>, f: TaskFilter)
    ensures
        forall|i: int|
            0 <= i < select(rows, f).len() ==> {
                &&& (f.status matches Some(s) ==> (#[trigger] select(rows, f)[i]).status == s)
                &&& (f.unassigned ==> select(rows, f)[i].assignee is None)
                &&& rows.contains(select(rows, f)[i])
            },
        forall|i: int|
            0 <= i < rows.len() && (f.status matches Some(s) ==> (#[trigger] rows[i]).status == s)
                && (f.unassigned ==> rows[i].assignee is None) ==> select(rows, f).contains(
                rows[i],
            ),
{
    lemma_select(rows, f);
    assert forall|i: int| 0 <= i < select(rows, f).len() implies {
        &&& (f.status matches Some(s) ==> (#[trigger] select(rows, f)[i]).status == s)
        &&& (f.unassigned ==> select(rows, f)[i].assignee is None)
        &&& rows.contains(select(rows, f)[i])
    } by {
        assert(passes(f, select(rows, f)[i]));
    }
    assert forall|i: int|
        0 <= i < rows.len() && (f.status matches Some(s) ==> (#[trigger] rows[i]).status == s) && (
        f.unassigned ==> rows[i].assignee is None) implies select(rows, f).contains(rows[i]) by {
        assert(passes(f, rows[i]));
    }
}

/// The first task a listing shows is the first row, in the table's order,
/// that passes the filter; an empty listing means no row passes.
proof fn lemma_select_first(rows: Seq<TaskView>, f: TaskFilter)
    ensures
        select(rows, f).len() > 0 ==> exists|i: int|
            0 <= i < rows.len() && #[trigger] rows[i] == select(rows, f)[0] && passes(f, rows[i])
                && forall|j: int| 0 <= j < i ==> !passes(f, #[trigger] rows[j]),
        select(rows, f).len() == 0 ==> forall|i: int| 0 <= i < rows.len() ==> !passes(f, #[trigger] rows[i]),
    decreases rows.len(),
{
    if rows.len() > 0 {
        let pre = rows.drop_last();
        lemma_select_first(pre, f);
        assert forall|j: int| 0 <= j < pre.len() implies #[trigger] pre[j] == rows[j] by {}
        if select(pre, f).len() > 0 {
            let i = choose|i: int|
                0 <= i < pre.len() && #[trigger] pre[i] == select(pre, f)[0] && passes(f, pre[i])
                    && forall|j: int| 0 <= j < i ==> !passes(f, #[trigger] pre[j]);
            assert(select(rows, f)[0] == select(pre, f)[0]);
            assert(rows[i] == pre[i]);
            assert forall|j: int| 0 <= j < i implies !passes(f, #[trigger] rows[j]) by {
                assert(rows[j] == pre[j]);
            }
        } else if passes(f, rows.last()) {
            let i = rows.len() - 1;
            assert(select(rows, f)[0] == rows.last());
            assert forall|j: int| 0 <= j < i implies !passes(f, #[trigger] rows[j]) by {
                assert(rows[j] == pre[j]);
            }
        } else {
            assert forall|i: int| 0 <= i < rows.len() implies !passes(f, #[trigger] rows[i]) by {
                if i < pre.len() {
                    assert(rows[i] == pre[i]);
                }
            }
        }
    }
}

/// `t` is a row of `rows`, and no row before it is both open and without
/// an assignee.
#[verifier::opaque]
pub open spec fn first_open_unassigned(rows: Seq<TaskView>, t: TaskView) -> bool {
    exists|i: int|
        0 <= i < rows.len() && #[trigger] rows[i] == t && forall|j: int|
            0 <= j < i ==> !((#[trigger] rows[j]).status == Status::Open && rows[j].assignee is None)
}

/// No row of `rows` is both open and without an assignee.
#[verifier::opaque]
pub open spec fn no_open_unassigned(rows: Seq<TaskView>) -> bool {
    forall|i: int|
        0 <= i < rows.len() ==> !((#[trigger] rows[i]).status == Status::Open
            && rows[i].assignee is None)
}

/// The next task to work on is open and has no assignee, and no row
/// before it in the table (ordered by local id) is both; when there is
/// none, no row is both.
pub proof fn lemma_next_is_first_open_unassigned(rows: Seq<TaskView>)
    ensures
        select(rows, next_filter()).len() > 0 ==> {
            let t = select(rows, next_filter())[0];
            &&& t.status == Status::Open
            &&& t.assignee is None
            &&& exists|i: int|
                0 <= i < rows.len() && #[trigger] rows[i] == t && forall|j: int|
                    0 <= j < i ==> !((#[trigger] rows[j]).status == Status::Open
                        && rows[j].assignee is None)
        },
        select(rows, next_filter()).len() == 0 ==> forall|i: int|
            0 <= i < rows.len() ==> !((#[trigger] rows[i]).status == Status::Open
                && rows[i].assignee is None),
{
    let f = next_filter();
    lemma_select_first(rows, f);
    if select(rows, f).len() > 0 {
        let i = choose|i: int|
            0 <= i < rows.len() && #[trigger] rows[i] == select(rows, f)[0] && passes(f, rows[i])
                && forall|j: int| 0 <= j < i ==> !passes(f, #[trigger] rows[j]);
        assert(passes(f, rows[i]));
        assert forall|j: int| 0 <= j < i implies !((#[trigger] rows[j]).status == Status::Open
            && rows[j].assignee is None) by {
            assert(!passes(f, rows[j]));
        }
    } else {
        assert forall|i: int| 0 <= i < rows.len() implies !((#[trigger] rows[i]).status
            == Status::Open && rows[i].assignee is None) by {
            assert(!passes(f, rows[i]));
        }
    }
}

/// Claiming puts a task in progress and assigns it, whatever its status
/// was, and keeps everything else but the update time.
pub proof fn lemma_claim_in_progress(t: TaskView, assignee: Option<Seq<char>>, at: Timestamp)
    ensures
        claimed(t, assignee, at).status == Status::InProgress,
        claimed(t, assignee, at).assignee == assignee,
        claimed(t, assignee, at).title == t.title,
        claimed(t, assignee, at).local_id == t.local_id,
        claimed(t, assignee, at).global_id == t.global_id,
        claimed(t, assignee, at).linked_files == t.linked_files,
        claimed(t, assignee, at).updated_at == at,
{
}

/// A move rewrites every row that links the moved file, whatever its
/// status: each of its links to the old path becomes the new path and the
/// rest stays; afterwards, when the paths differ, no row links the old
/// path; and every rewritten row is reported.
pub proof fn lemma_move_rewrites_all(
    olds: Seq<TaskView>,
    news: Seq<TaskView>,
    from: Seq<char>,
    to: Seq<char>,
)
    requires
        olds.len() == news.len(),
        forall|i: int| 0 <= i < olds.len() ==> moved_row(#[trigger] olds[i], news[i], from, to),
    ensures
        forall|i: int|
            0 <= i < olds.len() && (#[trigger] olds[i]).linked_files.contains(from) ==> {
                &&& news[i].linked_files == renamed(olds[i].linked_files, from, to)
                &&& news[i].linked_files.len() == olds[i].linked_files.len()
                &&& news[i].linked_files.contains(to)
                &&& news[i].status == olds[i].status
                &&& news[i].title == olds[i].title
                &&& news[i].local_id == olds[i].local_id
                &&& changed_rows(olds, news, from).contains(news[i])
            },
        from != to ==> forall|i: int|
            0 <= i < news.len() ==> !(#[trigger] news[i]).linked_files.contains(from),
        forall|i: int|
            0 <= i < olds.len() && !(#[trigger] olds[i]).linked_files.contains(from) ==> news[i]
                == olds[i],
    decreases olds.len(),
{
    if olds.len() > 0 {
        let po = olds.drop_last();
        let pn = news.drop_last();
        assert forall|i: int| 0 <= i < po.len() implies moved_row(#[trigger] po[i], pn[i], from, to) by {
            assert(po[i] == olds[i]);
            assert(pn[i] == news[i]);
        }
        lemma_move_rewrites_all(po, pn, from, to);
        assert forall|i: int|
            0 <= i < olds.len() && (#[trigger] olds[i]).linked_files.contains(from) implies {
                &&& news[i].linked_files == renamed(olds[i].linked_files, from, to)
                &&& news[i].linked_files.len() == olds[i].linked_files.len()
                &&& news[i].linked_files.contains(to)
                &&& news[i].status == olds[i].status
                &&& news[i].title == olds[i].title
                &&& news[i].local_id == olds[i].local_id
                &&& changed_rows(olds, news, from).contains(news[i])
            } by {
            assert(moved_row(olds[i], news[i], from, to));
            lemma_renamed(olds[i].linked_files, from, to);
            if i < po.len() {
                assert(po[i] == olds[i]);
                assert(pn[i] == news[i]);
                let k = choose|k: int|
                    0 <= k < changed_rows(po, pn, from).len() && changed_rows(po, pn, from)[k]
                        == pn[i];
                assert(changed_rows(olds, news, from)[k] == news[i]);
            } else {
                let c = changed_rows(olds, news, from);
                assert(c[c.len() - 1] == news[i]);
            }
        }
        if from != to {
            assert forall|i: int| 0 <= i < news.len() implies !(#[trigger] news[i]).linked_files.contains(
                from,
            ) by {
                assert(moved_row(olds[i], news[i], from, to));
                lemma_renamed(olds[i].linked_files, from, to);
                if i < pn.len() {
                    assert(pn[i] == news[i]);
                }
            }
        }
        assert forall|i: int|
            0 <= i < olds.len() && !(#[trigger] olds[i]).linked_files.contains(from) implies news[i]
            == olds[i] by {
            assert(moved_row(olds[i], news[i], from, to));
        }
    }
}

/// The context of a task names its title and status, its description
/// when it has one and its assignee when it has one, each on a line of its
/// own, and every linked file.
pub proof fn lemma_context_mentions(t: TaskView, contents: Seq<Option<Seq<char>>>)
    ensures
        occurs(context_text(t, contents), "Title: "@ + t.title + "\n"@),
        occurs(context_text(t, contents), "Status: "@ + status_label(t.status) + "\n"@),
        t.description matches Some(d) ==> occurs(
            context_text(t, contents),
            "Description: "@ + d + "\n"@,
        ),
        t.assignee matches Some(a) ==> occurs(context_text(t, contents), "Assignee: "@ + a + "\n"@),
{
    let title_line = "Title: "@ + t.title + "\n"@;
    let desc: Seq<char> = match t.description {
        Some(d) => "Description: "@ + d + "\n"@,
        None => Seq::empty(),
    };
    let status_line = "Status: "@ + status_label(t.status) + "\n"@;
    let asg: Seq<char> = match t.assignee {
        Some(a) => "Assignee: "@ + a + "\n"@,
        None => Seq::empty(),
    };
    let tail = "\nLinked Files:\n"@ + file_entries(t.linked_files, contents, t.linked_files.len());
    let text = context_text(t, contents);
    assert(text =~= title_line + desc + status_line + asg + tail);
    assert(text.subrange(0, title_line.len() as int) =~= title_line);
    lemma_occurs_at(text, title_line, 0);
    let at = (title_line.len() + desc.len()) as int;
    assert(text.subrange(at, at + status_line.len()) =~= status_line);
    lemma_occurs_at(text, status_line, at);
    if t.description is Some {
        let at1 = title_line.len() as int;
        assert(text.subrange(at1, at1 + desc.len()) =~= desc);
        lemma_occurs_at(text, desc, at1);
    }
    if t.assignee is Some {
        let at2 = (title_line.len() + desc.len() + status_line.len()) as int;
        assert(text.subrange(at2, at2 + asg.len()) =~= asg);
        lemma_occurs_at(text, asg, at2);
    }
}

proof fn lemma_occurs_at(s: Seq<char>, pat: Seq<char>, at: int)
    requires
        0 <= at,
        at + pat.len() <= s.len(),
        s.subrange(at, at + pat.len()) == pat,
    ensures
        occurs(s, pat),
{
}


/// Attaching files keeps every file the task linked and links every file
/// attached, each at most once more.
pub proof fn lemma_attached_links_all(existing: Seq<Seq<char>>, files: Seq<Seq<char>>)
    ensures
        forall|k: int| 0 <= k < files.len() ==> attached(existing, files).contains(#[trigger] files[k]),
        forall|k: int|
            0 <= k < existing.len() ==> attached(existing, files).contains(#[trigger] existing[k]),
    decreases files.len(),
{
    if files.len() > 0 {
        let pre = files.drop_last();
        lemma_attached_links_all(existing, pre);
        let before = attached(existing, pre);
        let after = attached(existing, files);
        assert forall|x: Seq<char>| before.contains(x) implies after.contains(x) by {
            let j = choose|j: int| 0 <= j < before.len() && before[j] == x;
            if !before.contains(files.last()) {
                assert(after[j] == x);
            }
        }
        assert forall|k: int| 0 <= k < files.len() implies after.contains(#[trigger] files[k]) by {
            if k < pre.len() {
                assert(files[k] == pre[k]);
                assert(before.contains(pre[k]));
            } else if !before.contains(files.last()) {
                assert(after[after.len() - 1] == files.last());
            }
        }
        assert forall|k: int| 0 <= k < existing.len() implies after.contains(#[trigger] existing[k]) by {
            assert(before.contains(existing[k]));
        }
    }
}

/// Toggling a file off leaves no link to it.
pub proof fn lemma_toggled_off(files: Seq<Seq<char>>, f: Seq<char>)
    ensures
        !without_file(files, f).contains(f),
        files.contains(f) ==> !toggled(files, f).contains(f),
        !files.contains(f) ==> toggled(files, f).contains(f),
    decreases files.len(),
{
    if files.len() > 0 {
        lemma_toggled_off(files.drop_last(), f);
        let w = without_file(files, f);
        let rest = without_file(files.drop_last(), f);
        assert forall|i: int| 0 <= i < w.len() implies w[i] != f by {
            if i < rest.len() {
                assert(w[i] == rest[i]);
            }
        }
    }
    if !files.contains(f) {
        assert(toggled(files, f)[files.len() as int] == f);
    }
}

} // verus!
