//! The task table: rows ordered by local id, a global id at most once, and
//! local ids handed out from a counter that never goes back, so an id once
//! given is never given again.
use crate::domain::task::{copy_opt_string, copy_strings, Task, TaskView};
use vstd::prelude::*;

verus! {

/// Why the table refused a write.
#[derive(Debug, Clone, Copy, PartialEq, Eq, Structural)]
pub enum RepoError {
    /// Every local id that fits in an `i32` has been handed out.
    IdsExhausted,
}

/// The mathematical value of the table: its rows, ordered by local id, and
/// the local id that the next new row gets.
pub struct RepoView {
    pub rows: Seq<TaskView>,
    pub next_id: int,
}

/// The local id of a row (rows always have one).
pub open spec fn id_of(t: TaskView) -> int {
    match t.local_id {
        Some(id) => id as int,
        None => 0,
    }
}

/// The values of a sequence of tasks.
pub open spec fn views(v: Seq<Task>) -> Seq<TaskView> {
    v.map_values(|t: Task| t@)
}

/// The shape every table keeps: each row has a local id between 1 and the
/// counter, local ids rise strictly along the rows, and no global id occurs
/// twice.
pub open spec fn rows_wf(rows: Seq<TaskView>, next_id: int) -> bool {
    &&& 1 <= next_id <= i32::MAX + 1
    &&& forall|i: int| 0 <= i < rows.len() ==> #[trigger] rows[i].local_id is Some
    &&& forall|i: int| 0 <= i < rows.len() ==> 1 <= #[trigger] id_of(rows[i]) < next_id
    &&& forall|i: int, j: int| 0 <= i < j < rows.len() ==> id_of(rows[i]) < id_of(rows[j])
    &&& forall|i: int, j: int|
        0 <= i < j < rows.len() ==> (#[trigger] rows[i]).global_id != (#[trigger] rows[j]).global_id
}

/// Some row has global id `g`.
pub open spec fn has_global(rows: Seq<TaskView>, g: u128) -> bool {
    exists|i: int| 0 <= i < rows.len() && (#[trigger] rows[i]).global_id == g
}

/// The place of the row with global id `g`.
pub open spec fn global_index(rows: Seq<TaskView>, g: u128) -> int {
    choose|i: int| 0 <= i < rows.len() && (#[trigger] rows[i]).global_id == g
}

/// The row with global id `g`, if there is one.
pub open spec fn find_global(rows: Seq<TaskView>, g: u128) -> Option<TaskView> {
    if has_global(rows, g) {
        Some(rows[global_index(rows, g)])
    } else {
        None
    }
}

/// Some row has local id `id`.
pub open spec fn has_local(rows: Seq<TaskView>, id: int) -> bool {
    exists|i: int| 0 <= i < rows.len() && #[trigger] id_of(rows[i]) == id
}

/// The place of the row with local id `id`.
pub open spec fn local_index(rows: Seq<TaskView>, id: int) -> int {
    choose|i: int| 0 <= i < rows.len() && #[trigger] id_of(rows[i]) == id
}

/// The row with local id `id`, if there is one.
pub open spec fn find_local(rows: Seq<TaskView>, id: int) -> Option<TaskView> {
    if has_local(rows, id) {
        Some(rows[local_index(rows, id)])
    } else {
        None
    }
}

/// An existing row after a write of `t`: the local id, the global id and the
/// creation time stay, every other field is taken from `t`.
pub open spec fn merged(old: TaskView, t: TaskView) -> TaskView {
    TaskView {
        local_id: old.local_id,
        global_id: old.global_id,
        created_at: old.created_at,
        ..t
    }
}

/// A new row made of `t` with local id `id`.
pub open spec fn inserted(t: TaskView, id: int) -> TaskView {
    TaskView { local_id: Some(id as i32), ..t }
}

/// The table after a write of `t`: the row with `t`'s global id is updated
/// if there is one; else `t` is added with the next local id, unless no
/// local id is left (`None`).
pub open spec fn saved(s: RepoView, t: TaskView) -> Option<RepoView> {
    if has_global(s.rows, t.global_id) {
        let i = global_index(s.rows, t.global_id);
        Some(RepoView { rows: s.rows.update(i, merged(s.rows[i], t)), next_id: s.next_id })
    } else if s.next_id <= i32::MAX {
        Some(RepoView { rows: s.rows.push(inserted(t, s.next_id)), next_id: s.next_id + 1 })
    } else {
        None
    }
}

/// The table without the row with local id `id`; the counter stays.
pub open spec fn deleted(s: RepoView, id: int) -> RepoView {
    if has_local(s.rows, id) {
        RepoView { rows: s.rows.remove(local_index(s.rows, id)), next_id: s.next_id }
    } else {
        s
    }
}

/// In a table of good shape the row at `i` is the one found by its global
/// id and the one found by its local id.
pub proof fn lemma_row_lookup(rows: Seq<TaskView>, next_id: int, i: int)
    requires
        rows_wf(rows, next_id),
        0 <= i < rows.len(),
    ensures
        has_global(rows, rows[i].global_id),
        global_index(rows, rows[i].global_id) == i,
        find_global(rows, rows[i].global_id) == Some(rows[i]),
        has_local(rows, id_of(rows[i])),
        local_index(rows, id_of(rows[i])) == i,
        find_local(rows, id_of(rows[i])) == Some(rows[i]),
{
    assert(rows[i].global_id == rows[i].global_id);
    let j = global_index(rows, rows[i].global_id);
    if j < i {
        assert(rows[j].global_id != rows[i].global_id);
    } else if j > i {
        assert(rows[i].global_id != rows[j].global_id);
    }
    assert(id_of(rows[i]) == id_of(rows[i]));
    let k = local_index(rows, id_of(rows[i]));
    if k < i {
        assert(id_of(rows[k]) < id_of(rows[i]));
    } else if k > i {
        assert(id_of(rows[i]) < id_of(rows[k]));
    }
}

/// The task table.
pub struct TaskRepository {
    rows: Vec<Task>,
    next_id: i64,
}

impl View for TaskRepository {
    type V = RepoView;

    closed spec fn view(&self) -> RepoView {
        RepoView { rows: views(self.rows@), next_id: self.next_id as int }
    }
}

/// The tasks of `v` again, as values of their own.
pub fn copy_tasks(v: &Vec<Task>) -> (r: Vec<Task>)
    ensures
        views(r@) == views(v@),
{
    let mut r: Vec<Task> = Vec::new();
    let mut i: usize = 0;
    while i < v.len()
        invariant
            i <= v.len(),
            r.len() == i,
            forall|k: int| 0 <= k < i ==> r@[k]@ == v@[k]@,
        decreases v.len() - i,
    {
        r.push(v[i].copy());
        i = i + 1;
    }
    assert(views(r@) =~= views(v@));
    r
}

impl TaskRepository {
    /// The table keeps its shape.
    pub open spec fn wf(&self) -> bool {
        rows_wf(self@.rows, self@.next_id)
    }

    /// An empty table whose first row will get local id 1.
    pub fn new() -> (r: TaskRepository)
        ensures
            r.wf(),
            r@.rows.len() == 0,
            r@.next_id == 1,
    {
        let r = TaskRepository { rows: Vec::new(), next_id: 1 };
        assert(r@.rows =~= Seq::<TaskView>::empty());
        r
    }

    /// A table holding `rows` with the counter at `next_id`, if they have the
    /// shape of a table; `None` otherwise.
    pub fn from_rows(rows: Vec<Task>, next_id: i64) -> (r: Option<TaskRepository>)
        ensures
            r is Some <==> rows_wf(views(rows@), next_id as int),
            r matches Some(repo) ==> repo@.rows == views(rows@) && repo@.next_id == next_id && repo.wf(),
    {
        if next_id < 1 || next_id > i32::MAX as i64 + 1 {
            return None;
        }
        let ghost vs = views(rows@);
        let mut i: usize = 0;
        while i < rows.len()
            invariant
                vs == views(rows@),
                1 <= next_id <= i32::MAX + 1,
                i <= rows.len(),
                forall|k: int| 0 <= k < i ==> #[trigger] vs[k].local_id is Some,
                forall|k: int| 0 <= k < i ==> 1 <= #[trigger] id_of(vs[k]) < next_id,
                forall|a: int, b: int| 0 <= a < b < i ==> id_of(vs[a]) < id_of(vs[b]),
                forall|a: int, b: int|
                    0 <= a < b < i ==> (#[trigger] vs[a]).global_id != (#[trigger] vs[b]).global_id,
            decreases rows.len() - i,
        {
            assert(vs[i as int] == rows@[i as int]@);
            match rows[i].local_id {
                None => {
                    return None;
                },
                Some(id) => {
                    if (id as i64) < 1 || (id as i64) >= next_id {
                        return None;
                    }
                    if i > 0 {
                        match rows[i - 1].local_id {
                            Some(prev) => {
                                if prev >= id {
                                    assert(vs[i - 1] == rows@[i - 1]@);
                                    assert(id_of(vs[i - 1]) >= id_of(vs[i as int]));
                                    return None;
                                }
                            },
                            None => {},
                        }
                    }
                },
            }
            let mut j: usize = 0;
            while j < i
                invariant
                    vs == views(rows@),
                    j <= i < rows.len(),
                    forall|k: int| 0 <= k < j ==> vs[k].global_id != vs[i as int].global_id,
                decreases i - j,
            {
                assert(vs[j as int] == rows@[j as int]@);
                if rows[j].global_id == rows[i].global_id {
                    return None;
                }
                j = j + 1;
            }
            proof {
                assert forall|a: int, b: int| 0 <= a < b < i + 1 implies id_of(vs[a]) < id_of(
                    vs[b],
                ) by {
                    if b == i && a < i - 1 {
                        assert(id_of(vs[a]) < id_of(vs[i - 1]));
                    }
                }
            }
            i = i + 1;
        }
        let r = TaskRepository { rows, next_id };
        Some(r)
    }

    /// Another table with the same rows and the same next id.
    pub fn copy(&self) -> (r: TaskRepository)
        ensures
            r@ == self@,
    {
        TaskRepository { rows: copy_tasks(&self.rows), next_id: self.next_id }
    }

    /// The counter: the local id that the next new row gets.
    pub fn next_id(&self) -> (r: i64)
        ensures
            r == self@.next_id,
    {
        self.next_id
    }

    /// The number of rows.
    pub fn len(&self) -> (r: usize)
        ensures
            r == self@.rows.len(),
    {
        self.rows.len()
    }

    /// The place of the row with global id `g`, if there is one.
    fn position_global(&self, g: u128) -> (r: Option<usize>)
        requires
            self.wf(),
        ensures
            match r {
                Some(i) => i < self@.rows.len() && self@.rows[i as int].global_id == g,
                None => !has_global(self@.rows, g),
            },
    {
        let mut i: usize = 0;
        while i < self.rows.len()
            invariant
                self.wf(),
                i <= self.rows.len(),
                forall|k: int| 0 <= k < i ==> #[trigger] self@.rows[k].global_id != g,
            decreases self.rows.len() - i,
        {
            assert(self@.rows[i as int] == self.rows@[i as int]@);
            if self.rows[i].global_id == g {
                return Some(i);
            }
            i = i + 1;
        }
        None
    }

    /// The place of the row with local id `id`, if there is one.
    pub fn position_of_local(&self, id: i32) -> (r: Option<usize>)
        requires
            self.wf(),
        ensures
            match r {
                Some(i) => {
                    &&& i < self@.rows.len()
                    &&& id_of(self@.rows[i as int]) == id
                    &&& has_local(self@.rows, id as int)
                    &&& local_index(self@.rows, id as int) == i
                },
                None => !has_local(self@.rows, id as int),
            },
    {
        let mut i: usize = 0;
        while i < self.rows.len()
            invariant
                self.wf(),
                i <= self.rows.len(),
                forall|k: int| 0 <= k < i ==> #[trigger] id_of(self@.rows[k]) != id,
            decreases self.rows.len() - i,
        {
            assert(self@.rows[i as int] == self.rows@[i as int]@);
            assert(self@.rows[i as int].local_id is Some);
            let here = match self.rows[i].local_id {
                Some(x) => x == id,
                None => false,
            };
            if here {
                proof {
                    lemma_row_lookup(self@.rows, self@.next_id, i as int);
                }
                return Some(i);
            }
            i = i + 1;
        }
        None
    }

    /// The row at place `i`, handed out by value.
    pub fn row(&self, i: usize) -> (r: Task)
        requires
            i < self@.rows.len(),
        ensures
            r@ == self@.rows[i as int],
    {
        self.rows[i].copy()
    }

    /// The global id of the row at place `i`.
    pub fn row_global_id(&self, i: usize) -> (r: u128)
        requires
            i < self@.rows.len(),
        ensures
            r == self@.rows[i as int].global_id,
    {
        self.rows[i].global_id
    }

    /// Writes `task`: the row with the same global id keeps its local id and
    /// creation time and takes every other field from `task`; a task not yet
    /// in the table is added with the next local id (the local id that
    /// `task` carries is not read). Returns the row as stored.
    pub fn save(&mut self, task: &Task) -> (r: Result<Task, RepoError>)
        requires
            old(self).wf(),
        ensures
            final(self).wf(),
            match r {
                Ok(row) => {
                    &&& saved(old(self)@, task@) == Some(final(self)@)
                    &&& find_global(final(self)@.rows, task@.global_id) == Some(row@)
                },
                Err(e) => {
                    &&& saved(old(self)@, task@) is None
                    &&& final(self)@ == old(self)@
                    &&& e == RepoError::IdsExhausted
                },
            },
    {
        let ghost old_view = self@;
        match self.position_global(task.global_id) {
            Some(i) => {
                proof {
                    lemma_row_lookup(old_view.rows, old_view.next_id, i as int);
                }
                assert(old_view.rows[i as int] == self.rows@[i as int]@);
                let row = Task {
                    local_id: self.rows[i].local_id,
                    global_id: self.rows[i].global_id,
                    title: task.title.clone(),
                    description: copy_opt_string(&task.description),
                    status: task.status,
                    assignee: copy_opt_string(&task.assignee),
                    parent_global_id: task.parent_global_id,
                    linked_files: copy_strings(&task.linked_files),
                    created_at: self.rows[i].created_at,
                    updated_at: task.updated_at,
                };
                assert(row@ == merged(old_view.rows[i as int], task@));
                self.rows.set(i, row.copy());
                assert(self@.rows =~= old_view.rows.update(i as int, row@));
                proof {
                    lemma_saved_wf(old_view, task@);
                    lemma_row_lookup(self@.rows, self@.next_id, i as int);
                }
                Ok(row)
            },
            None => {
                if self.next_id > i32::MAX as i64 {
                    return Err(RepoError::IdsExhausted);
                }
                let row = Task {
                    local_id: Some(self.next_id as i32),
                    global_id: task.global_id,
                    title: task.title.clone(),
                    description: copy_opt_string(&task.description),
                    status: task.status,
                    assignee: copy_opt_string(&task.assignee),
                    parent_global_id: task.parent_global_id,
                    linked_files: copy_strings(&task.linked_files),
                    created_at: task.created_at,
                    updated_at: task.updated_at,
                };
                assert(row@ == inserted(task@, old_view.next_id));
                self.rows.push(row.copy());
                self.next_id = self.next_id + 1;
                assert(self@.rows =~= old_view.rows.push(row@));
                proof {
                    lemma_saved_wf(old_view, task@);
                    lemma_row_lookup(self@.rows, self@.next_id, old_view.rows.len() as int);
                }
                Ok(row)
            },
        }
    }

    /// The row with local id `local_id`, if there is one.
    pub fn find_by_local_id(&self, local_id: i32) -> (r: Option<Task>)
        requires
            self.wf(),
        ensures
            match r {
                Some(t) => find_local(self@.rows, local_id as int) == Some(t@),
                None => find_local(self@.rows, local_id as int) is None,
            },
    {
        match self.position_of_local(local_id) {
            Some(i) => {
                proof {
                    lemma_row_lookup(self@.rows, self@.next_id, i as int);
                }
                Some(self.rows[i].copy())
            },
            None => None,
        }
    }

    /// The row with global id `global_id`, if there is one.
    pub fn find_by_global_id(&self, global_id: u128) -> (r: Option<Task>)
        requires
            self.wf(),
        ensures
            match r {
                Some(t) => find_global(self@.rows, global_id) == Some(t@),
                None => find_global(self@.rows, global_id) is None,
            },
    {
        match self.position_global(global_id) {
            Some(i) => {
                proof {
                    lemma_row_lookup(self@.rows, self@.next_id, i as int);
                }
                Some(self.rows[i].copy())
            },
            None => None,
        }
    }

    /// Every row, in the order of the local ids.
    pub fn find_all(&self) -> (r: Vec<Task>)
        ensures
            views(r@) == self@.rows,
    {
        copy_tasks(&self.rows)
    }

    /// Removes the row with local id `local_id`, if there is one, and returns
    /// it. The counter stays, so the id is not given again.
    pub fn delete(&mut self, local_id: i32) -> (r: Option<Task>)
        requires
            old(self).wf(),
        ensures
            final(self).wf(),
            final(self)@ == deleted(old(self)@, local_id as int),
            r matches Some(t) ==> find_local(old(self)@.rows, local_id as int) == Some(t@),
            r is None <==> !has_local(old(self)@.rows, local_id as int),
    {
        let ghost old_view = self@;
        match self.position_of_local(local_id) {
            Some(i) => {
                let t = self.rows.remove(i);
                assert(self@.rows =~= old_view.rows.remove(i as int));
                proof {
                    lemma_deleted_wf(old_view, local_id as int);
                }
                Some(t)
            },
            None => None,
        }
    }
}


/// Every write keeps the shape of the table.
pub proof fn lemma_saved_wf(s: RepoView, t: TaskView)
    requires
        rows_wf(s.rows, s.next_id),
        saved(s, t) is Some,
    ensures
        rows_wf(saved(s, t)->0.rows, saved(s, t)->0.next_id),
{
    let s2 = saved(s, t)->0;
    let n = s.rows.len() as int;
    if has_global(s.rows, t.global_id) {
        let i = global_index(s.rows, t.global_id);
        assert forall|a: int, b: int| 0 <= a < b < s2.rows.len() implies (
        #[trigger] s2.rows[a]).global_id != (#[trigger] s2.rows[b]).global_id by {
            assert(s.rows[a].global_id != s.rows[b].global_id);
        }
        assert forall|a: int, b: int| 0 <= a < b < s2.rows.len() implies id_of(s2.rows[a]) < id_of(
            s2.rows[b],
        ) by {
            assert(id_of(s.rows[a]) < id_of(s.rows[b]));
        }
        assert forall|a: int| 0 <= a < s2.rows.len() implies 1 <= #[trigger] id_of(s2.rows[a])
            < s2.next_id by {
            assert(1 <= id_of(s.rows[a]) < s.next_id);
        }
        assert forall|a: int| 0 <= a < s2.rows.len() implies #[trigger] s2.rows[a].local_id is Some by {
            assert(s.rows[a].local_id is Some);
        }
    } else {
        assert forall|a: int, b: int| 0 <= a < b < s2.rows.len() implies (
        #[trigger] s2.rows[a]).global_id != (#[trigger] s2.rows[b]).global_id by {
            if b < n {
                assert(s.rows[a].global_id != s.rows[b].global_id);
            } else {
                assert(s.rows[a].global_id != t.global_id);
            }
        }
        assert forall|a: int, b: int| 0 <= a < b < s2.rows.len() implies id_of(s2.rows[a]) < id_of(
            s2.rows[b],
        ) by {
            if b < n {
                assert(id_of(s.rows[a]) < id_of(s.rows[b]));
            } else {
                assert(id_of(s.rows[a]) < s.next_id);
            }
        }
        assert forall|a: int| 0 <= a < s2.rows.len() implies 1 <= #[trigger] id_of(s2.rows[a])
            < s2.next_id by {
            if a < n {
                assert(1 <= id_of(s.rows[a]) < s.next_id);
            }
        }
        assert forall|a: int| 0 <= a < s2.rows.len() implies #[trigger] s2.rows[a].local_id is Some by {
            if a < n {
                assert(s.rows[a].local_id is Some);
            }
        }
    }
}

/// What a read gives back of a write: after `t` is written, the row found by
/// its global id holds `t`'s title, description, status, assignee, parent,
/// linked files and update time; it keeps the local id and creation time of
/// the row it replaced, or, when new, takes the next local id and `t`'s
/// creation time.
pub proof fn lemma_save_then_find(s: RepoView, t: TaskView)
    requires
        rows_wf(s.rows, s.next_id),
        saved(s, t) is Some,
    ensures
        ({
            let s2 = saved(s, t)->0;
            let r = find_global(s2.rows, t.global_id)->0;
            &&& has_global(s2.rows, t.global_id)
            &&& r.global_id == t.global_id
            &&& r.title == t.title
            &&& r.description == t.description
            &&& r.status == t.status
            &&& r.assignee == t.assignee
            &&& r.parent_global_id == t.parent_global_id
            &&& r.linked_files == t.linked_files
            &&& r.updated_at == t.updated_at
            &&& has_global(s.rows, t.global_id) ==> {
                let old_row = find_global(s.rows, t.global_id)->0;
                &&& r.local_id == old_row.local_id
                &&& r.created_at == old_row.created_at
            }
            &&& !has_global(s.rows, t.global_id) ==> {
                &&& r.local_id == Some(s.next_id as i32)
                &&& r.created_at == t.created_at
            }
        }),
{
    let s2 = saved(s, t)->0;
    lemma_saved_wf(s, t);
    if has_global(s.rows, t.global_id) {
        let i = global_index(s.rows, t.global_id);
        lemma_row_lookup(s2.rows, s2.next_id, i);
    } else {
        lemma_row_lookup(s2.rows, s2.next_id, s.rows.len() as int);
    }
}

/// A write touches one row: every other global id finds what it found
/// before.
pub proof fn lemma_save_keeps_others(s: RepoView, t: TaskView, g: u128)
    requires
        rows_wf(s.rows, s.next_id),
        saved(s, t) is Some,
        g != t.global_id,
    ensures
        find_global(saved(s, t)->0.rows, g) == find_global(s.rows, g),
{
    let s2 = saved(s, t)->0;
    lemma_saved_wf(s, t);
    if has_global(s.rows, g) {
        let k = global_index(s.rows, g);
        assert(s2.rows[k] == s.rows[k]) by {
            if has_global(s.rows, t.global_id) {
                assert(k != global_index(s.rows, t.global_id));
            }
        }
        lemma_row_lookup(s2.rows, s2.next_id, k);
    } else {
        assert(!has_global(s2.rows, g)) by {
            if has_global(s2.rows, g) {
                let k = global_index(s2.rows, g);
                if k < s.rows.len() {
                    assert(s.rows[k].global_id == g || (has_global(s.rows, t.global_id) && k
                        == global_index(s.rows, t.global_id)));
                }
            }
        }
    }
}

/// Writing the same task twice leaves the table as one write does.
pub proof fn lemma_save_idempotent(s: RepoView, t: TaskView)
    requires
        rows_wf(s.rows, s.next_id),
        saved(s, t) is Some,
    ensures
        saved(saved(s, t)->0, t) == saved(s, t),
{
    let s2 = saved(s, t)->0;
    lemma_saved_wf(s, t);
    lemma_save_then_find(s, t);
    let i = global_index(s2.rows, t.global_id);
    let r = s2.rows[i];
    assert(merged(r, t) == r);
    assert(s2.rows.update(i, merged(r, t)) =~= s2.rows);
}

/// Removing a row keeps the shape of the table, and the row is gone.
pub proof fn lemma_deleted_wf(s: RepoView, id: int)
    requires
        rows_wf(s.rows, s.next_id),
    ensures
        rows_wf(deleted(s, id).rows, deleted(s, id).next_id),
        !has_local(deleted(s, id).rows, id),
{
    if has_local(s.rows, id) {
        let i = local_index(s.rows, id);
        let rows = deleted(s, id).rows;
        assert forall|a: int, b: int| 0 <= a < b < rows.len() implies (
        #[trigger] rows[a]).global_id != (#[trigger] rows[b]).global_id by {
            let oa = if a < i { a } else { a + 1 };
            let ob = if b < i { b } else { b + 1 };
            assert(s.rows[oa].global_id != s.rows[ob].global_id);
        }
        assert forall|a: int, b: int| 0 <= a < b < rows.len() implies id_of(rows[a]) < id_of(
            rows[b],
        ) by {
            let oa = if a < i { a } else { a + 1 };
            let ob = if b < i { b } else { b + 1 };
            assert(id_of(s.rows[oa]) < id_of(s.rows[ob]));
        }
        assert forall|a: int| 0 <= a < rows.len() implies 1 <= #[trigger] id_of(rows[a])
            < s.next_id by {
            let oa = if a < i { a } else { a + 1 };
            assert(1 <= id_of(s.rows[oa]) < s.next_id);
        }
        assert forall|a: int| 0 <= a < rows.len() implies #[trigger] rows[a].local_id is Some by {
            let oa = if a < i { a } else { a + 1 };
            assert(s.rows[oa].local_id is Some);
        }
        assert(!has_local(rows, id)) by {
            if has_local(rows, id) {
                let k = local_index(rows, id);
                let ok = if k < i { k } else { k + 1 };
                assert(id_of(s.rows[ok]) == id);
                if ok < i {
                    assert(id_of(s.rows[ok]) < id_of(s.rows[i]));
                } else {
                    assert(id_of(s.rows[i]) < id_of(s.rows[ok]));
                }
            }
        }
    }
}

/// Local ids are never given twice: a task added after a row was removed
/// gets a local id other than the removed one.
pub proof fn lemma_ids_not_reused(s: RepoView, id: int, t: TaskView)
    requires
        rows_wf(s.rows, s.next_id),
        has_local(s.rows, id),
        !has_global(deleted(s, id).rows, t.global_id),
        saved(deleted(s, id), t) is Some,
    ensures
        find_global(saved(deleted(s, id), t)->0.rows, t.global_id)->0.local_id != Some(id as i32),
        id_of(find_global(saved(deleted(s, id), t)->0.rows, t.global_id)->0) > id,
{
    let d = deleted(s, id);
    lemma_deleted_wf(s, id);
    lemma_save_then_find(d, t);
    let i = local_index(s.rows, id);
    assert(id_of(s.rows[i]) < s.next_id);
}

} // verus!
