//! Reading a row of the SQLite task table back into a task: the columns as
//! the table holds them, text for ids, status and linked files.
use crate::domain::task::{status_from_text, status_of_text, Task, Timestamp};
use crate::infrastructure::json::{lemma_uuid_round_trip, parse_uuid, uuid_parsed, uuid_text};
use vstd::prelude::*;

verus! {

/// The list of strings that `serde_json::from_str::<Vec<String>>` reads from
/// `s`, or `None` when it refuses `s`.
pub uninterp spec fn json_string_list(s: Seq<char>) -> Option<Seq<Seq<char>>>;

/// Reads a JSON array of strings through `serde_json::from_str`, or `None`
/// when the text is not one. The result depends on the text alone and is
/// named `json_string_list`.
#[verifier::external_body]
fn parse_string_list(s: &str) -> (r: Option<Vec<String>>)
    ensures
        r.deep_view() == json_string_list(s@),
{
    match serde_json::from_str::<Vec<String>>(s) {
        Ok(v) => Some(v),
        Err(_) => None,
    }
}

/// The linked files a row's column holds: the JSON list it reads as, and
/// none when the column is empty or does not read as a list.
pub open spec fn files_of_column(col: Option<Seq<char>>) -> Seq<Seq<char>> {
    match col {
        Some(text) => match json_string_list(text) {
            Some(files) => files,
            None => Seq::empty(),
        },
        None => Seq::empty(),
    }
}

/// The task a row of the table holds. The global id is the UUID its text
/// reads as, or 0 when it does not read as one; the parent is the UUID its
/// text reads as, or none; the status is read with case ignored; the
/// linked files are read from their JSON list; every other column is taken
/// as it is. Ids written as `uuid_string` writes them read back unchanged.
pub fn task_from_columns(
    local_id: i32,
    global_id: &str,
    title: String,
    description: Option<String>,
    status: &str,
    assignee: Option<String>,
    parent: Option<String>,
    linked_files: Option<String>,
    created_at: Timestamp,
    updated_at: Timestamp,
) -> (t: Task)
    ensures
        t@.local_id == Some(local_id),
        t@.global_id == (match uuid_parsed(global_id@) {
            Some(g) => g,
            None => 0,
        }),
        t@.title == title@,
        t@.description == description.deep_view(),
        t@.status == status_of_text(status@),
        t@.assignee == assignee.deep_view(),
        t@.parent_global_id == (match parent.deep_view() {
            Some(p) => uuid_parsed(p),
            None => None,
        }),
        t@.linked_files == files_of_column(linked_files.deep_view()),
        forall|n: u128| global_id@ == uuid_text(n) ==> t@.global_id == n,
        forall|n: u128| parent.deep_view() == Some(uuid_text(n)) ==> t@.parent_global_id == Some(n),
        t@.created_at == created_at,
        t@.updated_at == updated_at,
{
    let gid = match parse_uuid(global_id) {
        Some(g) => g,
        None => 0,
    };
    let parent_global_id = match &parent {
        Some(p) => parse_uuid(p.as_str()),
        None => None,
    };
    let files: Vec<String> = match &linked_files {
        Some(text) => match parse_string_list(text.as_str()) {
            Some(v) => v,
            None => Vec::new(),
        },
        None => Vec::new(),
    };
    proof {
        if linked_files.deep_view() is None || json_string_list(linked_files.deep_view()->0) is None {
            assert(files.deep_view() =~= Seq::<Seq<char>>::empty());
        }
    }
    proof {
        assert forall|n: u128| global_id@ == uuid_text(n) implies uuid_parsed(global_id@) == Some(n) by {
            lemma_uuid_round_trip(n);
        }
        assert forall|n: u128| parent.deep_view() == Some(uuid_text(n)) implies uuid_parsed(
            uuid_text(n),
        ) == Some(n) by {
            lemma_uuid_round_trip(n);
        }
    }
    Task {
        local_id: Some(local_id),
        global_id: gid,
        title,
        description,
        status: status_from_text(status),
        assignee,
        parent_global_id,
        linked_files: files,
        created_at,
        updated_at,
    }
}

} // verus!
