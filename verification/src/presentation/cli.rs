//! The command line: its commands, and the listing of tasks it prints, flat
//! or as a tree of parents and children.
use crate::domain::repository::{has_global, views};
use crate::domain::task::{status_label, Status, Task, TaskView};
use crate::text::{int_string, int_text};
use vstd::prelude::*;

verus! {

/// A command line of the tracker.
#[derive(Debug, Clone)]
pub struct Cli {
    pub command: Option<Commands>,
}

/// The commands of the tracker.
#[derive(Debug, Clone)]
pub enum Commands {
    /// Initialize the .lissue directory and database.
    Init,
    /// Add a new task.
    Add {
        title: Option<String>,
        message: Option<String>,
        parent: Option<i32>,
        files: Vec<String>,
    },
    /// List tasks with filtering and formatting.
    List { format: Option<String>, tree: bool, status: Option<Status>, unassigned: bool },
    /// Get the next task to work on (open and unassigned).
    Next,
    /// Close a task by its local ID.
    Close { local_id: i32 },
    /// Reopen a closed task.
    Open { local_id: i32 },
    /// Link a child task to a parent task.
    Link { child_id: i32, to: i32 },
    /// Remove the parent-child relationship from a task.
    Unlink { child_id: i32 },
    /// Claim a task and set an assignee.
    Claim { local_id: i32, by: Option<String> },
    /// Dump task details and linked file contents for AI context.
    Context { local_id: i32 },
    /// Synchronize the local database with the shared task files.
    Sync,
    /// Move a linked file and update the path in all tasks that link it.
    Mv { old_path: String, new_path: String },
    /// Permanently remove a task.
    Rm { local_id: i32 },
    /// Attach files to an existing task.
    Attach { local_id: i32, files: Vec<String> },
    /// Permanently remove all closed tasks.
    Clear,
}

/// The first line of a listing.
pub open spec fn listing_header() -> Seq<char> {
    "Tasks (ID):\n"@
}

/// The local id a task is listed with (0 when it has none).
pub open spec fn listed_id(t: TaskView) -> int {
    match t.local_id {
        Some(id) => id as int,
        None => 0,
    }
}

/// `depth` levels of indentation, two spaces each.
pub open spec fn indent(depth: nat) -> Seq<char> {
    Seq::new(2 * depth, |i: int| ' ')
}

/// The line of a task at `depth`: a check box, ticked when closed, the
/// title, the local id and the status.
pub open spec fn task_line(t: TaskView, depth: nat) -> Seq<char> {
    indent(depth) + (if t.status == Status::Close {
        "[x] "@
    } else {
        "[ ] "@
    }) + t.title + " (ID: "@ + int_text(listed_id(t)) + ") ["@ + status_label(t.status) + "]\n"@
}

/// The lines of `tasks`, one after another, at depth 0.
pub open spec fn flat_lines(tasks: Seq<TaskView>) -> Seq<char>
    decreases tasks.len(),
{
    if tasks.len() == 0 {
        Seq::empty()
    } else {
        flat_lines(tasks.drop_last()) + task_line(tasks.last(), 0)
    }
}

/// The tasks of `tasks` whose parent is `g`, in order.
pub open spec fn children_of(tasks: Seq<TaskView>, g: u128) -> Seq<TaskView>
    decreases tasks.len(),
{
    if tasks.len() == 0 {
        Seq::empty()
    } else {
        let rest = children_of(tasks.drop_last(), g);
        if tasks.last().parent_global_id == Some(g) {
            rest.push(tasks.last())
        } else {
            rest
        }
    }
}

/// `t` heads a tree: it has no parent, or its parent is not listed.
pub open spec fn is_root(tasks: Seq<TaskView>, t: TaskView) -> bool {
    match t.parent_global_id {
        None => true,
        Some(p) => !has_global(tasks, p),
    }
}

/// The tasks of `tasks` that head a tree, in order.
pub open spec fn roots_of(tasks: Seq<TaskView>, all: Seq<TaskView>) -> Seq<TaskView>
    decreases tasks.len(),
{
    if tasks.len() == 0 {
        Seq::empty()
    } else {
        let rest = roots_of(tasks.drop_last(), all);
        if is_root(all, tasks.last()) {
            rest.push(tasks.last())
        } else {
            rest
        }
    }
}

/// The lines of `nodes` at `depth`, each followed by its children one
/// level deeper, going at most `fuel` levels down (so that a cycle of
/// parents ends).
pub open spec fn forest(all: Seq<TaskView>, nodes: Seq<TaskView>, depth: nat, fuel: nat) -> Seq<char>
    decreases fuel, nodes.len(),
{
    if fuel == 0 || nodes.len() == 0 {
        Seq::empty()
    } else {
        forest(all, nodes.drop_last(), depth, fuel) + task_line(nodes.last(), depth) + forest(
            all,
            children_of(all, nodes.last().global_id),
            depth + 1,
            (fuel - 1) as nat,
        )
    }
}

/// The listing of `tasks`: a header, then each task on a line, or, as a
/// tree, each task that heads a tree followed by its children, indented.
pub open spec fn listing(tasks: Seq<TaskView>, tree: bool) -> Seq<char> {
    listing_header() + if tree {
        forest(tasks, roots_of(tasks, tasks), 0, tasks.len())
    } else {
        flat_lines(tasks)
    }
}

fn append_line(out: &mut String, t: &Task, depth: usize)
    ensures
        final(out)@ == old(out)@ + task_line(t@, depth as nat),
{
    let ghost start = old(out)@;
    let mut k: usize = 0;
    while k < depth
        invariant
            k <= depth,
            out@ == start + indent(k as nat),
        decreases depth - k,
    {
        out.append("  ");
        k = k + 1;
        assert(out@ =~= start + indent(k as nat)) by {
            reveal_strlit("  ");
        }
    }
    if t.status == Status::Close {
        out.append("[x] ");
    } else {
        out.append("[ ] ");
    }
    out.append(t.title.as_str());
    out.append(" (ID: ");
    let id = match t.local_id {
        Some(id) => id,
        None => 0,
    };
    out.append(int_string(id).as_str());
    out.append(") [");
    out.append(t.status.label().as_str());
    out.append("]\n");
    assert(out@ =~= start + task_line(t@, depth as nat));
}

/// The tasks of `tasks` whose parent is `g`.
fn children(tasks: &Vec<Task>, g: u128) -> (r: Vec<Task>)
    ensures
        views(r@) == children_of(views(tasks@), g),
{
    let ghost ts = views(tasks@);
    let mut out: Vec<Task> = Vec::new();
    let mut i: usize = 0;
    while i < tasks.len()
        invariant
            ts == views(tasks@),
            i <= tasks.len(),
            views(out@) == children_of(ts.take(i as int), g),
        decreases tasks.len() - i,
    {
        let ghost before = views(out@);
        assert(ts.take(i + 1).drop_last() =~= ts.take(i as int));
        assert(ts.take(i + 1).last() == tasks@[i as int]@);
        if tasks[i].parent_global_id == Some(g) {
            out.push(tasks[i].copy());
            assert(views(out@) =~= before.push(tasks@[i as int]@));
        }
        i = i + 1;
    }
    assert(ts.take(i as int) =~= ts);
    out
}

/// Tests whether some task of `tasks` has global id `g`.
fn listed(tasks: &Vec<Task>, g: u128) -> (r: bool)
    ensures
        r == has_global(views(tasks@), g),
{
    let mut i: usize = 0;
    while i < tasks.len()
        invariant
            i <= tasks.len(),
            forall|k: int| 0 <= k < i ==> #[trigger] views(tasks@)[k].global_id != g,
        decreases tasks.len() - i,
    {
        assert(views(tasks@)[i as int] == tasks@[i as int]@);
        if tasks[i].global_id == g {
            return true;
        }
        i = i + 1;
    }
    false
}

fn append_forest(all: &Vec<Task>, nodes: &Vec<Task>, depth: usize, fuel: usize, out: &mut String)
    requires
        depth + fuel <= usize::MAX,
    ensures
        final(out)@ == old(out)@ + forest(views(all@), views(nodes@), depth as nat, fuel as nat),
    decreases fuel, nodes.len(),
{
    let ghost a = views(all@);
    let ghost ns = views(nodes@);
    let ghost start = old(out)@;
    if fuel == 0 {
        assert(out@ =~= start + forest(a, ns, depth as nat, fuel as nat));
        return;
    }
    let mut i: usize = 0;
    assert(forest(a, ns.take(0), depth as nat, fuel as nat) =~= Seq::<char>::empty());
    assert(out@ =~= start + forest(a, ns.take(0), depth as nat, fuel as nat));
    while i < nodes.len()
        invariant
            a == views(all@),
            ns == views(nodes@),
            fuel > 0,
            depth + fuel <= usize::MAX,
            i <= nodes.len(),
            out@ == start + forest(a, ns.take(i as int), depth as nat, fuel as nat),
        decreases nodes.len() - i,
    {
        let ghost before = out@;
        assert(ns.take(i + 1).drop_last() =~= ns.take(i as int));
        assert(ns.take(i + 1).last() == nodes@[i as int]@);
        append_line(out, &nodes[i], depth);
        let kids = children(all, nodes[i].global_id);
        append_forest(all, &kids, depth + 1, fuel - 1, out);
        assert(out@ =~= before + task_line(nodes@[i as int]@, depth as nat) + forest(
            a,
            views(kids@),
            (depth + 1) as nat,
            (fuel - 1) as nat,
        ));
        i = i + 1;
    }
    assert(ns.take(i as int) =~= ns);
}

/// The listing of `tasks`, flat or as a tree (see `listing`).
pub fn format_tasks_human(tasks: &Vec<Task>, tree: bool) -> (r: String)
    ensures
        r@ == listing(views(tasks@), tree),
{
    let ghost ts = views(tasks@);
    let mut out = String::from_str("Tasks (ID):\n");
    if tree {
        let mut roots: Vec<Task> = Vec::new();
        let mut i: usize = 0;
        while i < tasks.len()
            invariant
                ts == views(tasks@),
                i <= tasks.len(),
                views(roots@) == roots_of(ts.take(i as int), ts),
            decreases tasks.len() - i,
        {
            let ghost before = views(roots@);
            assert(ts.take(i + 1).drop_last() =~= ts.take(i as int));
            assert(ts.take(i + 1).last() == tasks@[i as int]@);
            let root = match tasks[i].parent_global_id {
                None => true,
                Some(p) => !listed(tasks, p),
            };
            if root {
                roots.push(tasks[i].copy());
                assert(views(roots@) =~= before.push(tasks@[i as int]@));
            }
            i = i + 1;
        }
        assert(ts.take(i as int) =~= ts);
        append_forest(tasks, &roots, 0, tasks.len(), &mut out);
    } else {
        let mut i: usize = 0;
        assert(out@ =~= listing_header() + flat_lines(ts.take(0)));
        while i < tasks.len()
            invariant
                ts == views(tasks@),
                i <= tasks.len(),
                out@ == listing_header() + flat_lines(ts.take(i as int)),
            decreases tasks.len() - i,
        {
            assert(ts.take(i + 1).drop_last() =~= ts.take(i as int));
            assert(ts.take(i + 1).last() == tasks@[i as int]@);
            append_line(&mut out, &tasks[i], 0);
            i = i + 1;
        }
        assert(ts.take(i as int) =~= ts);
    }
    out
}

} // verus!
