//! Tasks and their status.
use crate::text::str_eq;
use vstd::prelude::*;

verus! {

/// Where a task stands.
#[derive(Debug, Clone, Copy, PartialEq, Eq, Structural)]
pub enum Status {
    Open,
    InProgress,
    Pending,
    Close,
}

/// The text a status is shown as.
pub open spec fn status_label(s: Status) -> Seq<char> {
    match s {
        Status::Open => "Open"@,
        Status::InProgress => "In Progress"@,
        Status::Pending => "Pending"@,
        Status::Close => "Close"@,
    }
}

/// The status that a lowercase keyword names; any other text reads as
/// `Open`.
pub open spec fn status_of_keyword(k: Seq<char>) -> Status {
    if k == "open"@ {
        Status::Open
    } else if k == "inprogress"@ || k == "in progress"@ || k == "in_progress"@ {
        Status::InProgress
    } else if k == "pending"@ {
        Status::Pending
    } else if k == "close"@ || k == "closed"@ {
        Status::Close
    } else {
        Status::Open
    }
}

/// Every character of `s` is ASCII.
pub open spec fn all_ascii(s: Seq<char>) -> bool {
    forall|i: int| 0 <= i < s.len() ==> (s[i] as u32) < 128
}

/// `c` with `A`..`Z` mapped to `a`..`z`.
pub open spec fn ascii_lower_char(c: char) -> char {
    if 'A' <= c <= 'Z' {
        ((c as u32) + 32) as char
    } else {
        c
    }
}

/// `s` with `A`..`Z` mapped to `a`..`z`.
pub open spec fn ascii_lower(s: Seq<char>) -> Seq<char> {
    s.map_values(|c: char| ascii_lower_char(c))
}

/// The lowercase form of `s` that `str::to_lowercase` computes (the Unicode
/// `Lowercase` mapping).
pub uninterp spec fn lowercase(s: Seq<char>) -> Seq<char>;

/// Calls `str::to_lowercase`. Its result is named `lowercase`; for a string
/// of ASCII characters alone it is the ASCII mapping of `A`..`Z` to
/// `a`..`z`, as the Unicode case tables give it. Nothing more is stated of
/// other characters.
#[verifier::external_body]
fn to_lowercase(s: &str) -> (r: String)
    ensures
        r@ == lowercase(s@),
        all_ascii(s@) ==> r@ == ascii_lower(s@),
{
    s.to_lowercase()
}

impl Status {
    /// The text this status is shown as: `Open`, `In Progress`, `Pending`
    /// or `Close`.
    pub fn label(&self) -> (r: String)
        ensures
            r@ == status_label(*self),
    {
        match self {
            Status::Open => String::from_str("Open"),
            Status::InProgress => String::from_str("In Progress"),
            Status::Pending => String::from_str("Pending"),
            Status::Close => String::from_str("Close"),
        }
    }

    /// The status a lowercase keyword names: `open`; `inprogress`,
    /// `in progress` or `in_progress`; `pending`; `close` or `closed`. Any
    /// other text reads as `Open`.
    pub fn from_keyword(k: &str) -> (r: Status)
        ensures
            r == status_of_keyword(k@),
    {
        if str_eq(k, "open") {
            Status::Open
        } else if str_eq(k, "inprogress") || str_eq(k, "in progress") || str_eq(k, "in_progress") {
            Status::InProgress
        } else if str_eq(k, "pending") {
            Status::Pending
        } else if str_eq(k, "close") || str_eq(k, "closed") {
            Status::Close
        } else {
            Status::Open
        }
    }
}

impl From<String> for Status {
    /// Reads a status from text, ignoring case.
    fn from(s: String) -> (r: Status) {
        let lower = to_lowercase(s.as_str());
        Status::from_keyword(lower.as_str())
    }
}

impl vstd::std_specs::convert::FromSpecImpl<String> for Status {
    open spec fn obeys_from_spec() -> bool {
        true
    }

    open spec fn from_spec(s: String) -> Status {
        status_of_text(s@)
    }
}

/// The status that the text `s` names, with case ignored: for ASCII text
/// the keyword after mapping `A`..`Z` to `a`..`z`, otherwise the keyword of
/// the lowercase form.
pub open spec fn status_of_text(s: Seq<char>) -> Status {
    if all_ascii(s) {
        status_of_keyword(ascii_lower(s))
    } else {
        status_of_keyword(lowercase(s))
    }
}

/// Reads a status from text, ignoring case; for ASCII text the keyword is
/// matched after mapping `A`..`Z` to `a`..`z`.
pub fn status_from_text(s: &str) -> (r: Status)
    ensures
        r == status_of_text(s@),
        r == status_of_keyword(lowercase(s@)),
        all_ascii(s@) ==> r == status_of_keyword(ascii_lower(s@)),
{
    let lower = to_lowercase(s);
    Status::from_keyword(lower.as_str())
}

/// Reading the label of a status, with case ignored, gives the status back.
pub proof fn lemma_label_round_trip(s: Status)
    ensures
        all_ascii(status_label(s)),
        status_of_keyword(ascii_lower(status_label(s))) == s,
{
    reveal_strlit("Open");
    reveal_strlit("In Progress");
    reveal_strlit("Pending");
    reveal_strlit("Close");
    reveal_strlit("open");
    reveal_strlit("in progress");
    reveal_strlit("pending");
    reveal_strlit("close");
    reveal_strlit("inprogress");
    reveal_strlit("in_progress");
    reveal_strlit("closed");
    match s {
        Status::Open => {
            assert(ascii_lower("Open"@) =~= "open"@);
        },
        Status::InProgress => {
            assert(ascii_lower("In Progress"@) =~= "in progress"@);
            assert(ascii_lower("In Progress"@) != "inprogress"@);
            assert("in progress"@ != "open"@);
        },
        Status::Pending => {
            assert(ascii_lower("Pending"@) =~= "pending"@);
            assert("pending"@ != "open"@);
            assert("pending"@ != "inprogress"@);
            assert("pending"@ != "in_progress"@);
            assert("pending"@ != "in progress"@);
        },
        Status::Close => {
            assert(ascii_lower("Close"@) =~= "close"@);
            assert("close"@ != "open"@);
            assert("close"@ != "pending"@);
            assert("close"@ != "inprogress"@);
            assert("close"@ != "in_progress"@);
            assert("close"@ != "in progress"@);
        },
    }
}

/// A point in time, UTC: whole seconds since the Unix epoch and the
/// nanoseconds past them (up to 1_999_999_999 in a leap second).
#[derive(Debug, Clone, Copy, PartialEq, Eq, Structural)]
pub struct Timestamp {
    pub secs: i64,
    pub nanos: u32,
}

/// `a` lies after `b`: seconds first, then nanoseconds.
pub open spec fn later(a: Timestamp, b: Timestamp) -> bool {
    a.secs > b.secs || (a.secs == b.secs && a.nanos > b.nanos)
}

impl Timestamp {
    /// This point lies after `other`.
    pub fn is_later_than(&self, other: &Timestamp) -> (r: bool)
        ensures
            r == later(*self, *other),
    {
        self.secs > other.secs || (self.secs == other.secs && self.nanos > other.nanos)
    }
}

/// Reads the system clock through `chrono::Utc::now`. The result depends on
/// the time of the call; of every outcome the nanoseconds stay below two
/// seconds' worth, as chrono documents for `timestamp_subsec_nanos`.
#[verifier::external_body]
pub(crate) fn now() -> (r: Timestamp)
    ensures
        r.nanos < 2_000_000_000,
{
    let t = chrono::Utc::now();
    Timestamp { secs: t.timestamp(), nanos: t.timestamp_subsec_nanos() }
}

/// The version field of a UUID held as a 128-bit number.
pub open spec fn uuid_version(id: u128) -> u128 {
    (id >> 76u128) & 0xfu128
}

/// Draws a random UUID through `uuid::Uuid::new_v4` and returns it as its
/// 128-bit number (`Uuid::as_u128`). The value is random; of every outcome
/// the version field is 4.
#[verifier::external_body]
pub(crate) fn new_global_id() -> (r: u128)
    ensures
        uuid_version(r) == 4,
{
    uuid::Uuid::new_v4().as_u128()
}

/// A task. Its global id is a UUID held as its 128-bit number.
#[derive(Debug, Clone)]
pub struct Task {
    pub local_id: Option<i32>,
    pub global_id: u128,
    pub title: String,
    pub description: Option<String>,
    pub status: Status,
    pub assignee: Option<String>,
    pub parent_global_id: Option<u128>,
    pub linked_files: Vec<String>,
    pub created_at: Timestamp,
    pub updated_at: Timestamp,
}

/// The mathematical value of a task.
pub struct TaskView {
    pub local_id: Option<i32>,
    pub global_id: u128,
    pub title: Seq<char>,
    pub description: Option<Seq<char>>,
    pub status: Status,
    pub assignee: Option<Seq<char>>,
    pub parent_global_id: Option<u128>,
    pub linked_files: Seq<Seq<char>>,
    pub created_at: Timestamp,
    pub updated_at: Timestamp,
}

impl View for Task {
    type V = TaskView;

    open spec fn view(&self) -> TaskView {
        TaskView {
            local_id: self.local_id,
            global_id: self.global_id,
            title: self.title@,
            description: self.description.deep_view(),
            status: self.status,
            assignee: self.assignee.deep_view(),
            parent_global_id: self.parent_global_id,
            linked_files: self.linked_files.deep_view(),
            created_at: self.created_at,
            updated_at: self.updated_at,
        }
    }
}

/// A fresh `Option<String>` equal to the given one.
pub fn copy_opt_string(o: &Option<String>) -> (r: Option<String>)
    ensures
        r.deep_view() == o.deep_view(),
{
    match o {
        Some(s) => Some(s.clone()),
        None => None,
    }
}

/// A fresh list of strings equal to the given one.
pub fn copy_strings(v: &Vec<String>) -> (r: Vec<String>)
    ensures
        r.deep_view() == v.deep_view(),
{
    let mut r: Vec<String> = Vec::new();
    let mut i: usize = 0;
    while i < v.len()
        invariant
            i <= v.len(),
            r.len() == i,
            forall|k: int| 0 <= k < i ==> r@[k]@ == v@[k]@,
        decreases v.len() - i,
    {
        let s = v[i].clone();
        r.push(s);
        i = i + 1;
    }
    assert(r.deep_view() =~= v.deep_view());
    r
}

impl Task {
    /// A new open task with a fresh random global id, no local id, no
    /// assignee and no linked files, created and updated now.
    pub fn new(title: String, description: Option<String>, parent_global_id: Option<u128>) -> (t:
        Task)
        ensures
            t@.local_id is None,
            uuid_version(t@.global_id) == 4,
            t@.title == title@,
            t@.description == description.deep_view(),
            t@.status == Status::Open,
            t@.assignee is None,
            t@.parent_global_id == parent_global_id,
            t@.linked_files.len() == 0,
            t@.created_at == t@.updated_at,
    {
        let stamp = now();
        let id = new_global_id();
        let files: Vec<String> = Vec::new();
        let t = Task {
            local_id: None,
            global_id: id,
            title,
            description,
            status: Status::Open,
            assignee: None,
            parent_global_id,
            linked_files: files,
            created_at: stamp,
            updated_at: stamp,
        };
        assert(t@.linked_files =~= Seq::<Seq<char>>::empty());
        t
    }

    /// The same task, held apart from this one.
    pub fn copy(&self) -> (r: Task)
        ensures
            r@ == self@,
    {
        Task {
            local_id: self.local_id,
            global_id: self.global_id,
            title: self.title.clone(),
            description: copy_opt_string(&self.description),
            status: self.status,
            assignee: copy_opt_string(&self.assignee),
            parent_global_id: self.parent_global_id,
            linked_files: copy_strings(&self.linked_files),
            created_at: self.created_at,
            updated_at: self.updated_at,
        }
    }
}

} // verus!
