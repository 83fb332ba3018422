//! A task: its id, title, priority, status, optional project and the day it
//! was created.

use vstd::prelude::*;

verus! {

/// How urgent a task is, from `Low` to `High`.
#[derive(Clone, Copy, Debug, PartialEq, Eq, Structural, Hash, PartialOrd, Ord)]
pub enum Priority {
    Low,
    Medium,
    High,
}

/// Whether a task is still to do or done.
#[derive(Clone, Copy, Debug, PartialEq, Eq, Structural, Hash)]
pub enum Status {
    Todo,
    Done,
}

/// One task of the store.
pub struct Task {
    pub id: u32,
    pub title: String,
    pub priority: Priority,
    pub status: Status,
    pub project: Option<String>,
    pub created_at: String,
}

/// A task as the contracts speak of it: its strings as character sequences.
pub struct TaskView {
    pub id: u32,
    pub title: Seq<char>,
    pub priority: Priority,
    pub status: Status,
    pub project: Option<Seq<char>>,
    pub created_at: Seq<char>,
}

/// The characters of an optional string.
pub open spec fn opt_text(o: Option<String>) -> Option<Seq<char>> {
    match o {
        Some(s) => Some(s@),
        None => None,
    }
}

impl View for Task {
    type V = TaskView;

    open spec fn view(&self) -> TaskView {
        TaskView {
            id: self.id,
            title: self.title@,
            priority: self.priority,
            status: self.status,
            project: opt_text(self.project),
            created_at: self.created_at@,
        }
    }
}

/// The views of a sequence of tasks.
pub open spec fn task_views(tasks: Seq<Task>) -> Seq<TaskView> {
    tasks.map_values(|t: Task| t@)
}

/// A decimal digit character.
pub open spec fn is_digit(c: char) -> bool {
    '0' <= c && c <= '9'
}

/// The value of a decimal digit character.
pub open spec fn digit_value(c: char) -> int {
    c as int - '0' as int
}

/// The value of the two digits of `s` at `i` and `i + 1`.
pub open spec fn two_digit_value(s: Seq<char>, i: int) -> int {
    digit_value(s[i]) * 10 + digit_value(s[i + 1])
}

/// A calendar day written year, month and day, with `-` between them: the
/// year in at least four digits, with a sign in front where it is below 0
/// or above 9999, then a month from 01 to 12 and a day from 01 to 31.
pub open spec fn is_date_text(s: Seq<char>) -> bool {
    let n = s.len() as int;
    &&& n >= 10
    &&& s[n - 6] == '-'
    &&& s[n - 3] == '-'
    &&& is_digit(s[n - 5]) && is_digit(s[n - 4])
    &&& is_digit(s[n - 2]) && is_digit(s[n - 1])
    &&& 1 <= two_digit_value(s, n - 5) <= 12
    &&& 1 <= two_digit_value(s, n - 2) <= 31
    &&& (is_digit(s[0]) || s[0] == '+' || s[0] == '-')
    &&& forall|i: int| 1 <= i < n - 6 ==> is_digit(#[trigger] s[i])
}

/// chrono's `Local::now()` followed by `format(fmt).to_string()`: today's
/// date in the local time zone. For the pattern `%Y-%m-%d` chrono documents
/// the year zero-padded to four digits (signed outside 0..=9999), the month
/// as 01 to 12 and the day as 01 to 31, so the text is a date text. Which
/// day it is depends on the clock and is not stated. Only that pattern is
/// admitted: chrono's formatting of a malformed pattern fails, and
/// `to_string` panics on that failure.
#[verifier::external_body]
fn local_date_text(fmt: &str) -> (s: String)
    requires
        fmt@ == "%Y-%m-%d"@,
    ensures
        is_date_text(s@),
{
    chrono::Local::now().format(fmt).to_string()
}

impl Task {
    /// A new task, still to do, created on the given day.
    pub fn with_date(
        id: u32,
        title: String,
        priority: Priority,
        project: Option<String>,
        created_at: String,
    ) -> (task: Task)
        ensures
            task@ == (TaskView {
                id,
                title: title@,
                priority,
                status: Status::Todo,
                project: opt_text(project),
                created_at: created_at@,
            }),
    {
        Task { id, title, priority, status: Status::Todo, project, created_at }
    }

    /// A new task, still to do, created today (the local date, `YYYY-MM-DD`).
    pub fn new(id: u32, title: String, priority: Priority, project: Option<String>) -> (task: Task)
        ensures
            task.id == id,
            task.title@ == title@,
            task.priority == priority,
            task.status == Status::Todo,
            opt_text(task.project) == opt_text(project),
            is_date_text(task.created_at@),
    {
        let today = local_date_text("%Y-%m-%d");
        Task::with_date(id, title, priority, project, today)
    }

    pub fn id(&self) -> (id: u32)
        ensures
            id == self.id,
    {
        self.id
    }

    pub fn title(&self) -> (title: &str)
        ensures
            title@ == self.title@,
    {
        self.title.as_str()
    }

    pub fn priority(&self) -> (priority: Priority)
        ensures
            priority == self.priority,
    {
        self.priority
    }

    pub fn status(&self) -> (status: Status)
        ensures
            status == self.status,
    {
        self.status
    }

    /// The project, if the task has one.
    pub fn project(&self) -> (project: Option<&str>)
        ensures
            match project {
                Some(p) => self@.project == Some(p@),
                None => self@.project is None,
            },
    {
        match &self.project {
            Some(p) => Some(p.as_str()),
            None => None,
        }
    }

    pub fn created_at(&self) -> (created_at: &str)
        ensures
            created_at@ == self.created_at@,
    {
        self.created_at.as_str()
    }

    pub fn set_title(&mut self, title: String)
        ensures
            final(self)@ == (TaskView { title: title@, ..old(self)@ }),
    {
        self.title = title;
    }

    pub fn set_priority(&mut self, priority: Priority)
        ensures
            final(self)@ == (TaskView { priority, ..old(self)@ }),
    {
        self.priority = priority;
    }

    pub fn set_status(&mut self, status: Status)
        ensures
            final(self)@ == (TaskView { status, ..old(self)@ }),
    {
        self.status = status;
    }

    /// Sets the project, or clears it with `None`.
    pub fn set_project(&mut self, project: Option<String>)
        ensures
            final(self)@ == (TaskView { project: opt_text(project), ..old(self)@ }),
    {
        self.project = project;
    }
}

} // verus!
