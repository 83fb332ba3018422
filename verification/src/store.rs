//! The task store: the tasks in the order they were added and the counter
//! that hands out their ids.

use vstd::prelude::*;

use crate::summary::{
    count_status, priority_row_counts, priority_rows, project_row_texts, project_rows, Summary,
};
use crate::task::{is_date_text, opt_text, task_views, Priority, Status, Task, TaskView};
use crate::text::{
    ascii_lower, ascii_upper, contains_text, decimal, is_ascii_text, law_ascii_case_round_trip,
    law_ascii_lower_idempotent, lemma_empty_occurs,
    lowercase_text, push_decimal, text_contains,
};

verus! {

/// The tasks and the id that the next added task receives.
pub struct TaskStore {
    pub next_id: u32,
    pub tasks: Vec<Task>,
}

/// A store as the contracts speak of it.
pub struct StoreView {
    pub next_id: u32,
    pub tasks: Seq<TaskView>,
}

impl View for TaskStore {
    type V = StoreView;

    open spec fn view(&self) -> StoreView {
        StoreView { next_id: self.next_id, tasks: task_views(self.tasks@) }
    }
}

/// The first position at or after `k` of a task with the given id, or -1.
pub open spec fn position_from(tasks: Seq<TaskView>, id: u32, k: nat) -> int
    decreases tasks.len() - k,
{
    if k >= tasks.len() {
        -1
    } else if tasks[k as int].id == id {
        k as int
    } else {
        position_from(tasks, id, k + 1)
    }
}

/// The position of the first task with the given id, or -1.
pub open spec fn position_of(tasks: Seq<TaskView>, id: u32) -> int {
    position_from(tasks, id, 0)
}

/// Some task has the given id.
pub open spec fn has_id(tasks: Seq<TaskView>, id: u32) -> bool {
    exists|i: int| 0 <= i < tasks.len() && tasks[i].id == id
}

proof fn lemma_position_from(tasks: Seq<TaskView>, id: u32, k: nat)
    requires
        forall|j: int| 0 <= j < k && j < tasks.len() ==> tasks[j].id != id,
    ensures
        ({
            let p = position_from(tasks, id, k);
            &&& -1 <= p < tasks.len()
            &&& p >= 0 ==> tasks[p].id == id && forall|j: int| 0 <= j < p ==> tasks[j].id != id
            &&& p < 0 <==> !has_id(tasks, id)
        }),
    decreases tasks.len() - k,
{
    if k < tasks.len() && tasks[k as int].id != id {
        lemma_position_from(tasks, id, k + 1);
    }
}

/// `position_of` finds the first task with the id, and finds one exactly
/// when some task has it.
pub proof fn lemma_position_of(tasks: Seq<TaskView>, id: u32)
    ensures
        ({
            let p = position_of(tasks, id);
            &&& -1 <= p < tasks.len()
            &&& p >= 0 ==> tasks[p].id == id && forall|j: int| 0 <= j < p ==> tasks[j].id != id
            &&& p < 0 <==> !has_id(tasks, id)
        }),
{
    lemma_position_from(tasks, id, 0);
}

/// A task with the fields that an edit gives it: each `Some` replaces the
/// field, `None` leaves it; for the project, `Some(None)` clears it.
pub open spec fn edited(
    t: TaskView,
    title: Option<Seq<char>>,
    priority: Option<Priority>,
    project: Option<Option<Seq<char>>>,
) -> TaskView {
    TaskView {
        title: match title {
            Some(x) => x,
            None => t.title,
        },
        priority: match priority {
            Some(x) => x,
            None => t.priority,
        },
        project: match project {
            Some(x) => x,
            None => t.project,
        },
        ..t
    }
}

/// The characters of a project edit.
pub open spec fn opt_opt_text(o: Option<Option<String>>) -> Option<Option<Seq<char>>> {
    match o {
        Some(p) => Some(opt_text(p)),
        None => None,
    }
}

/// A task passes the filters: each given filter must match, an absent one
/// lets every task pass.
pub open spec fn passes_filters(
    t: TaskView,
    project: Option<Seq<char>>,
    priority: Option<Priority>,
    status: Option<Status>,
) -> bool {
    &&& (project matches Some(p) ==> t.project == Some(p))
    &&& (status matches Some(s) ==> t.status == s)
    &&& (priority matches Some(p) ==> t.priority == p)
}

/// A task's title holds the keyword, both taken in lowercase.
pub open spec fn title_matches(t: TaskView, keyword: Seq<char>) -> bool {
    contains_text(lowercase_text(t.title), lowercase_text(keyword))
}

/// The error text when no task has the id, for edits and deletions.
pub open spec fn missing_id_text(id: u32) -> Seq<char> {
    "Could not find a task with id: "@ + decimal(id as nat)
}

/// The error text when no task has the id, for marking a task done.
pub open spec fn missing_id_done_text(id: u32) -> Seq<char> {
    "Could not find a task with the id: "@ + decimal(id as nat)
}

impl StoreView {
    /// Ids grow along the list and all lie below the counter: so no id
    /// occurs twice and the counter never hands out one in use.
    pub open spec fn well_formed(self) -> bool {
        &&& forall|i: int, j: int|
            0 <= i < j < self.tasks.len() ==> self.tasks[i].id < self.tasks[j].id
        &&& forall|i: int| 0 <= i < self.tasks.len() ==> self.tasks[i].id < self.next_id
    }

    pub open spec fn has_id(self, id: u32) -> bool {
        has_id(self.tasks, id)
    }

    /// The store after adding a task with the counter's id.
    pub open spec fn add(
        self,
        title: Seq<char>,
        priority: Priority,
        project: Option<Seq<char>>,
        created_at: Seq<char>,
    ) -> StoreView {
        StoreView {
            next_id: (self.next_id + 1) as u32,
            tasks: self.tasks.push(
                TaskView {
                    id: self.next_id,
                    title,
                    priority,
                    status: Status::Todo,
                    project,
                    created_at,
                },
            ),
        }
    }

    /// The store after editing the first task with the id (unchanged when
    /// there is none).
    pub open spec fn edit(
        self,
        id: u32,
        title: Option<Seq<char>>,
        priority: Option<Priority>,
        project: Option<Option<Seq<char>>>,
    ) -> StoreView {
        let p = position_of(self.tasks, id);
        if p < 0 {
            self
        } else {
            StoreView {
                tasks: self.tasks.update(p, edited(self.tasks[p], title, priority, project)),
                ..self
            }
        }
    }

    /// The store after marking the first task with the id done.
    pub open spec fn mark_done(self, id: u32) -> StoreView {
        let p = position_of(self.tasks, id);
        if p < 0 {
            self
        } else {
            StoreView {
                tasks: self.tasks.update(p, TaskView { status: Status::Done, ..self.tasks[p] }),
                ..self
            }
        }
    }

    /// The store after removing the first task with the id.
    pub open spec fn delete(self, id: u32) -> StoreView {
        let p = position_of(self.tasks, id);
        if p < 0 {
            self
        } else {
            StoreView { tasks: self.tasks.remove(p), ..self }
        }
    }
}

impl TaskStore {
    /// An empty store whose first task gets id 1.
    pub fn new() -> (store: TaskStore)
        ensures
            store@.next_id == 1,
            store@.tasks == Seq::<TaskView>::empty(),
            store@.well_formed(),
    {
        let store = TaskStore { next_id: 1, tasks: Vec::new() };
        assert(store@.tasks =~= Seq::<TaskView>::empty());
        store
    }

    pub fn tasks(&self) -> (tasks: &[Task])
        ensures
            tasks@ == self.tasks@,
    {
        self.tasks.as_slice()
    }

    pub fn tasks_mut(&mut self) -> (tasks: &mut Vec<Task>)
        ensures
            *tasks == old(self).tasks,
            final(self).tasks == *final(tasks),
            final(self).next_id == old(self).next_id,
    {
        &mut self.tasks
    }

    /// Hands out the counter's id and moves the counter on by one.
    pub fn next_id(&mut self) -> (id: u32)
        requires
            old(self).next_id < u32::MAX,
        ensures
            id == old(self).next_id,
            final(self).next_id == old(self).next_id + 1,
            final(self).tasks == old(self).tasks,
            old(self)@.well_formed() ==> final(self)@.well_formed(),
    {
        let id = self.next_id;
        self.next_id = self.next_id + 1;
        id
    }

    /// The position of the first task with the given id.
    fn position(&self, id: u32) -> (p: Option<usize>)
        ensures
            match p {
                Some(i) => i == position_of(self@.tasks, id),
                None => position_of(self@.tasks, id) < 0,
            },
    {
        let n = self.tasks.len();
        let mut i: usize = 0;
        while i < n
            invariant
                n == self@.tasks.len(),
                i <= n,
                position_of(self@.tasks, id) == position_from(self@.tasks, id, i as nat),
            decreases n - i,
        {
            if self.tasks[i].id == id {
                return Some(i);
            }
            i = i + 1;
        }
        None
    }

    /// Adds a task, still to do and created today, with the counter's id.
    pub fn add_task(&mut self, title: String, priority: Priority, project: Option<String>)
        requires
            old(self).next_id < u32::MAX,
        ensures
            final(self)@ == old(self)@.add(
                title@,
                priority,
                opt_text(project),
                final(self)@.tasks.last().created_at,
            ),
            is_date_text(final(self)@.tasks.last().created_at),
            old(self)@.well_formed() ==> final(self)@.well_formed(),
    {
        let ghost title_text = title@;
        let ghost project_text = opt_text(project);
        let id = self.next_id();
        let task = Task::new(id, title, priority, project);
        self.tasks.push(task);
        assert(self@.tasks =~= old(self)@.tasks.push(self@.tasks.last()));
        proof {
            if old(self)@.well_formed() {
                lemma_add_keeps_well_formed(
                    old(self)@,
                    title_text,
                    priority,
                    project_text,
                    self@.tasks.last().created_at,
                );
            }
        }
    }

    /// Edits the first task with the id: each given field replaces the old
    /// one; for the project, `Some(None)` clears it. Without such a task the
    /// store is unchanged and the error names the id.
    pub fn edit_task(
        &mut self,
        id: u32,
        title: Option<String>,
        priority: Option<Priority>,
        project: Option<Option<String>>,
    ) -> (r: Result<(), String>)
        ensures
            final(self)@ == old(self)@.edit(id, opt_text(title), priority, opt_opt_text(project)),
            r is Ok <==> old(self)@.has_id(id),
            r matches Err(e) ==> e@ == missing_id_text(id),
            old(self)@.well_formed() ==> final(self)@.well_formed(),
    {
        proof {
            lemma_position_of(self@.tasks, id);
        }
        let ghost title_text = opt_text(title);
        let ghost project_text = opt_opt_text(project);
        match self.position(id) {
            Some(i) => {
                if let Some(t) = title {
                    self.tasks[i].set_title(t);
                }
                if let Some(p) = priority {
                    self.tasks[i].set_priority(p);
                }
                if let Some(p) = project {
                    self.tasks[i].set_project(p);
                }
                assert(self@.tasks =~= old(self)@.tasks.update(
                    i as int,
                    edited(old(self)@.tasks[i as int], title_text, priority, project_text),
                ));
                proof {
                    if old(self)@.well_formed() {
                        lemma_edit_keeps_well_formed(old(self)@, id, title_text, priority, project_text);
                    }
                }
                Ok(())
            },
            None => Err(missing_id_message("Could not find a task with id: ", id)),
        }
    }

    /// Marks the first task with the id done. Without such a task the store
    /// is unchanged and the error names the id.
    pub fn mark_done(&mut self, id: u32) -> (r: Result<(), String>)
        ensures
            final(self)@ == old(self)@.mark_done(id),
            r is Ok <==> old(self)@.has_id(id),
            r matches Err(e) ==> e@ == missing_id_done_text(id),
            old(self)@.well_formed() ==> final(self)@.well_formed(),
    {
        proof {
            lemma_position_of(self@.tasks, id);
        }
        match self.position(id) {
            Some(i) => {
                self.tasks[i].set_status(Status::Done);
                assert(self@.tasks =~= old(self)@.tasks.update(
                    i as int,
                    TaskView { status: Status::Done, ..old(self)@.tasks[i as int] },
                ));
                proof {
                    if old(self)@.well_formed() {
                        lemma_mark_done_keeps_well_formed(old(self)@, id);
                    }
                }
                Ok(())
            },
            None => Err(missing_id_message("Could not find a task with the id: ", id)),
        }
    }

    /// Removes the first task with the id. Without such a task the store is
    /// unchanged and the error names the id. The counter stays where it is,
    /// so the id is not handed out again.
    pub fn delete_task(&mut self, id: u32) -> (r: Result<(), String>)
        ensures
            final(self)@ == old(self)@.delete(id),
            r is Ok <==> old(self)@.has_id(id),
            r matches Err(e) ==> e@ == missing_id_text(id),
            old(self)@.well_formed() ==> final(self)@.well_formed(),
    {
        proof {
            lemma_position_of(self@.tasks, id);
        }
        match self.position(id) {
            Some(i) => {
                let _removed = self.tasks.remove(i);
                assert(self@.tasks =~= old(self)@.tasks.remove(i as int));
                proof {
                    if old(self)@.well_formed() {
                        lemma_delete_keeps_well_formed(old(self)@, id);
                    }
                }
                Ok(())
            },
            None => Err(missing_id_message("Could not find a task with id: ", id)),
        }
    }

    /// The tasks, in store order, that pass every given filter.
    pub fn filter_tasks(
        &self,
        project: Option<String>,
        priority: Option<Priority>,
        status: Option<Status>,
    ) -> (found: Vec<&Task>)
        ensures
            found@.map_values(|t: &Task| t@) == self@.tasks.filter(
                |t: TaskView| passes_filters(t, opt_text(project), priority, status),
            ),
    {
        let ghost pred = |t: TaskView| passes_filters(t, opt_text(project), priority, status);
        let mut found: Vec<&Task> = Vec::new();
        let n = self.tasks.len();
        let mut i: usize = 0;
        while i < n
            invariant
                n == self@.tasks.len(),
                i <= n,
                pred == (|t: TaskView| passes_filters(t, opt_text(project), priority, status)),
                found@.map_values(|t: &Task| t@) == self@.tasks.take(i as int).filter(pred),
            decreases n - i,
        {
            let t = &self.tasks[i];
            let project_ok = match &project {
                Some(p) => match &t.project {
                    Some(tp) => tp.eq(p),
                    None => false,
                },
                None => true,
            };
            let status_ok = match &status {
                Some(s) => t.status == *s,
                None => true,
            };
            let priority_ok = match &priority {
                Some(p) => t.priority == *p,
                None => true,
            };
            proof {
                assert(self@.tasks.take(i + 1) =~= self@.tasks.take(i as int).push(t@));
                self@.tasks.take(i as int).lemma_filter_push(t@, pred);
            }
            if project_ok && status_ok && priority_ok {
                found.push(t);
            }
            assert(found@.map_values(|t: &Task| t@) =~= self@.tasks.take(i + 1).filter(pred));
            i = i + 1;
        }
        assert(self@.tasks.take(n as int) =~= self@.tasks);
        found
    }

    /// The counts of the store's tasks (see `Summary::of_tasks`).
    pub fn summary(&self) -> (summary: Summary)
        ensures
            summary.total == self@.tasks.len(),
            summary.todo == count_status(self@.tasks, Status::Todo),
            summary.done == count_status(self@.tasks, Status::Done),
            summary.done == summary.total - summary.todo,
            project_row_texts(summary.by_project@) == project_rows(self@.tasks),
            priority_row_counts(summary.by_priority@) == priority_rows(self@.tasks),
    {
        Summary::of_tasks(self.tasks.as_slice())
    }

    /// The tasks, in store order, whose title holds the keyword, ignoring
    /// case (both are taken in lowercase). For an ASCII keyword the lowercase
    /// form is the keyword with its capitals `A` to `Z` made small, so two
    /// ASCII keywords that differ only in case find the same tasks.
    pub fn search_tasks(&self, keyword: &str) -> (found: Vec<&Task>)
        ensures
            found@.map_values(|t: &Task| t@) == self@.tasks.filter(
                |t: TaskView| title_matches(t, keyword@),
            ),
            is_ascii_text(keyword@) ==> found@.map_values(|t: &Task| t@) == self@.tasks.filter(
                |t: TaskView| contains_text(lowercase_text(t.title), ascii_lower(keyword@)),
            ),
    {
        let lowercase_keyword = keyword.to_lowercase();
        let n = self.tasks.len();
        let mut titles: Vec<String> = Vec::new();
        let mut i: usize = 0;
        while i < n
            invariant
                n == self@.tasks.len(),
                i <= n,
                titles@.len() == i,
                forall|j: int| 0 <= j < i ==> (#[trigger] titles@[j])@ == lowercase_text(
                    self@.tasks[j].title,
                ),
            decreases n - i,
        {
            titles.push(self.tasks[i].title().to_lowercase());
            i = i + 1;
        }
        let found = select_matching(self.tasks.as_slice(), &titles, lowercase_keyword.as_str());
        proof {
            lemma_matching_titles(self@.tasks, titles@.map_values(|t: String| t@), keyword@);
            if is_ascii_text(keyword@) {
                assert((|t: TaskView| title_matches(t, keyword@)) =~= (|t: TaskView|
                    contains_text(lowercase_text(t.title), ascii_lower(keyword@))));
            }
        }
        found
    }
}

/// The tasks, in order, whose lowercase title holds the lowercase keyword:
/// `titles` gives the lowercase title of each task.
pub open spec fn matching_titles(
    tasks: Seq<TaskView>,
    titles: Seq<Seq<char>>,
    lowercase_keyword: Seq<char>,
) -> Seq<TaskView>
    decreases tasks.len(),
{
    if tasks.len() == 0 || titles.len() == 0 {
        Seq::empty()
    } else {
        let rest = matching_titles(tasks.drop_last(), titles.drop_last(), lowercase_keyword);
        if contains_text(titles.last(), lowercase_keyword) {
            rest.push(tasks.last())
        } else {
            rest
        }
    }
}

/// With the lowercase titles of the tasks and the lowercase keyword,
/// selecting by the titles is searching by the keyword.
pub proof fn lemma_matching_titles(tasks: Seq<TaskView>, titles: Seq<Seq<char>>, keyword: Seq<char>)
    requires
        titles.len() == tasks.len(),
        forall|j: int| 0 <= j < tasks.len() ==> titles[j] == lowercase_text(tasks[j].title),
    ensures
        matching_titles(tasks, titles, lowercase_text(keyword)) == tasks.filter(
            |t: TaskView| title_matches(t, keyword),
        ),
    decreases tasks.len(),
{
    let pred = |t: TaskView| title_matches(t, keyword);
    if tasks.len() == 0 {
        reveal(Seq::filter);
    } else {
        let t0 = tasks.drop_last();
        lemma_matching_titles(t0, titles.drop_last(), keyword);
        t0.lemma_filter_push(tasks.last(), pred);
        assert(t0.push(tasks.last()) =~= tasks);
    }
}

/// The tasks, in order, whose lowercase title (given in `lowercase_titles`,
/// one per task) holds `lowercase_keyword`.
pub fn select_matching<'a>(
    tasks: &'a [Task],
    lowercase_titles: &Vec<String>,
    lowercase_keyword: &str,
) -> (found: Vec<&'a Task>)
    requires
        lowercase_titles@.len() == tasks@.len(),
    ensures
        found@.map_values(|t: &Task| t@) == matching_titles(
            task_views(tasks@),
            lowercase_titles@.map_values(|t: String| t@),
            lowercase_keyword@,
        ),
{
    let ghost views = task_views(tasks@);
    let ghost titles = lowercase_titles@.map_values(|t: String| t@);
    let mut found: Vec<&Task> = Vec::new();
    let n = tasks.len();
    let mut i: usize = 0;
    while i < n
        invariant
            n == tasks@.len(),
            n == lowercase_titles@.len(),
            views == task_views(tasks@),
            titles == lowercase_titles@.map_values(|t: String| t@),
            i <= n,
            found@.map_values(|t: &Task| t@) == matching_titles(
                views.take(i as int),
                titles.take(i as int),
                lowercase_keyword@,
            ),
        decreases n - i,
    {
        let hit = text_contains(lowercase_titles[i].as_str(), lowercase_keyword);
        assert(views.take(i + 1).drop_last() =~= views.take(i as int));
        assert(titles.take(i + 1).drop_last() =~= titles.take(i as int));
        assert(titles.take(i + 1).last() == lowercase_titles@[i as int]@);
        assert(views.take(i + 1).last() == tasks@[i as int]@);
        if hit {
            found.push(&tasks[i]);
        }
        assert(found@.map_values(|t: &Task| t@) =~= matching_titles(
            views.take(i + 1),
            titles.take(i + 1),
            lowercase_keyword@,
        ));
        i = i + 1;
    }
    assert(views.take(n as int) =~= views);
    assert(titles.take(n as int) =~= titles);
    found
}

/// A keyword, its ASCII capitals and its ASCII small letters find the same
/// tasks: for an ASCII keyword, what `search_tasks` ensures of `keyword`, of
/// `ascii_upper(keyword)` and of `ascii_lower(keyword)` is one and the same
/// sequence.
pub proof fn law_search_ignores_ascii_case(tasks: Seq<TaskView>, keyword: Seq<char>)
    requires
        is_ascii_text(keyword),
    ensures
        is_ascii_text(ascii_upper(keyword)),
        is_ascii_text(ascii_lower(keyword)),
        tasks.filter(
            |t: TaskView| contains_text(lowercase_text(t.title), ascii_lower(ascii_upper(keyword))),
        ) == tasks.filter(
            |t: TaskView| contains_text(lowercase_text(t.title), ascii_lower(keyword)),
        ),
        tasks.filter(
            |t: TaskView| contains_text(lowercase_text(t.title), ascii_lower(ascii_lower(keyword))),
        ) == tasks.filter(
            |t: TaskView| contains_text(lowercase_text(t.title), ascii_lower(keyword)),
        ),
{
    law_ascii_case_round_trip(keyword);
    law_ascii_lower_idempotent(keyword);
}

/// The empty keyword finds every task, in store order: `search_tasks`
/// ensures for it (ASCII, with an empty lowercase form) the filter below.
pub proof fn law_empty_keyword_finds_all(tasks: Seq<TaskView>)
    ensures
        tasks.filter(
            |t: TaskView| contains_text(lowercase_text(t.title), ascii_lower(Seq::<char>::empty())),
        ) == tasks,
    decreases tasks.len(),
{
    let pred = |t: TaskView| contains_text(lowercase_text(t.title), ascii_lower(Seq::<char>::empty()));
    assert(ascii_lower(Seq::<char>::empty()) =~= Seq::<char>::empty());
    reveal(Seq::filter);
    if tasks.len() > 0 {
        law_empty_keyword_finds_all(tasks.drop_last());
        lemma_empty_occurs(lowercase_text(tasks.last().title));
        assert(pred(tasks.last()));
        assert(tasks.drop_last().push(tasks.last()) =~= tasks);
    }
}

/// `prefix` followed by the id in decimal.
fn missing_id_message(prefix: &str, id: u32) -> (s: String)
    ensures
        s@ == prefix@ + decimal(id as nat),
{
    let mut s = String::from_str(prefix);
    push_decimal(&mut s, id as u64);
    s
}

/// Adding a task keeps ids growing and below the counter.
pub proof fn lemma_add_keeps_well_formed(
    s: StoreView,
    title: Seq<char>,
    priority: Priority,
    project: Option<Seq<char>>,
    created_at: Seq<char>,
)
    requires
        s.well_formed(),
        s.next_id < u32::MAX,
    ensures
        s.add(title, priority, project, created_at).well_formed(),
{
}

/// Editing a task keeps ids growing and below the counter.
pub proof fn lemma_edit_keeps_well_formed(
    s: StoreView,
    id: u32,
    title: Option<Seq<char>>,
    priority: Option<Priority>,
    project: Option<Option<Seq<char>>>,
)
    requires
        s.well_formed(),
    ensures
        s.edit(id, title, priority, project).well_formed(),
{
    lemma_position_of(s.tasks, id);
}

/// Marking a task done keeps ids growing and below the counter.
pub proof fn lemma_mark_done_keeps_well_formed(s: StoreView, id: u32)
    requires
        s.well_formed(),
    ensures
        s.mark_done(id).well_formed(),
{
    lemma_position_of(s.tasks, id);
}

/// Deleting a task keeps ids growing and below the counter.
pub proof fn lemma_delete_keeps_well_formed(s: StoreView, id: u32)
    requires
        s.well_formed(),
    ensures
        s.delete(id).well_formed(),
{
    lemma_position_of(s.tasks, id);
    let p = position_of(s.tasks, id);
    if p >= 0 {
        let t = s.tasks.remove(p);
        assert forall|i: int, j: int| 0 <= i < j < t.len() implies t[i].id < t[j].id by {
            let a = if i < p { i } else { i + 1 };
            let b = if j < p { j } else { j + 1 };
            assert(t[i] == s.tasks[a]);
            assert(t[j] == s.tasks[b]);
        }
        assert forall|i: int| 0 <= i < t.len() implies t[i].id < s.next_id by {
            let a = if i < p { i } else { i + 1 };
            assert(t[i] == s.tasks[a]);
        }
    }
}

/// In a well-formed store no two tasks share an id.
pub proof fn law_ids_unique(s: StoreView)
    requires
        s.well_formed(),
    ensures
        forall|i: int, j: int|
            0 <= i < s.tasks.len() && 0 <= j < s.tasks.len() && i != j ==> s.tasks[i].id
                != s.tasks[j].id,
{
    assert forall|i: int, j: int|
        0 <= i < s.tasks.len() && 0 <= j < s.tasks.len() && i != j implies s.tasks[i].id
        != s.tasks[j].id by {
        if i < j {
            assert(s.tasks[i].id < s.tasks[j].id);
        } else {
            assert(s.tasks[j].id < s.tasks[i].id);
        }
    }
}

/// The id an added task receives is larger than every id already in a
/// well-formed store.
pub proof fn law_add_gives_fresh_id(
    s: StoreView,
    title: Seq<char>,
    priority: Priority,
    project: Option<Seq<char>>,
    created_at: Seq<char>,
)
    requires
        s.well_formed(),
    ensures
        forall|i: int|
            0 <= i < s.tasks.len() ==> s.tasks[i].id < s.add(
                title,
                priority,
                project,
                created_at,
            ).tasks.last().id,
{
}

/// Once a task is deleted from a well-formed store, the next added task
/// does not receive its id, and no task has it any more.
pub proof fn law_deleted_id_not_reused(
    s: StoreView,
    id: u32,
    title: Seq<char>,
    priority: Priority,
    project: Option<Seq<char>>,
    created_at: Seq<char>,
)
    requires
        s.well_formed(),
        s.has_id(id),
        s.next_id < u32::MAX,
    ensures
        !s.delete(id).has_id(id),
        !s.delete(id).add(title, priority, project, created_at).has_id(id),
{
    lemma_position_of(s.tasks, id);
    law_ids_unique(s);
    let p = position_of(s.tasks, id);
    let d = s.delete(id);
    let a = d.add(title, priority, project, created_at);
    assert forall|i: int| 0 <= i < d.tasks.len() implies d.tasks[i].id != id by {
        if i < p {
            assert(d.tasks[i] == s.tasks[i]);
        } else {
            assert(d.tasks[i] == s.tasks[i + 1]);
        }
    }
    assert forall|i: int| 0 <= i < a.tasks.len() implies a.tasks[i].id != id by {
        if i < d.tasks.len() {
            assert(a.tasks[i] == d.tasks[i]);
        } else {
            assert(s.tasks[p].id < s.next_id);
        }
    }
}

/// Marking a task done changes its status and nothing else: the other
/// tasks, its other fields and the counter stay as they were.
pub proof fn law_mark_done_changes_only_status(s: StoreView, id: u32)
    requires
        s.has_id(id),
    ensures
        ({
            let p = position_of(s.tasks, id);
            let d = s.mark_done(id);
            &&& d.next_id == s.next_id
            &&& d.tasks.len() == s.tasks.len()
            &&& d.tasks[p] == (TaskView { status: Status::Done, ..s.tasks[p] })
            &&& forall|j: int| 0 <= j < s.tasks.len() && j != p ==> d.tasks[j] == s.tasks[j]
        }),
{
    lemma_position_of(s.tasks, id);
}

/// The filters are exact: every listed task has the requested project,
/// priority and status (each that is given), and every task of the store
/// that has them is listed.
pub proof fn law_filters_are_exact(
    tasks: Seq<TaskView>,
    project: Option<Seq<char>>,
    priority: Option<Priority>,
    status: Option<Status>,
)
    ensures
        ({
            let found = tasks.filter(|t: TaskView| passes_filters(t, project, priority, status));
            &&& forall|i: int|
                0 <= i < found.len() ==> {
                    &&& (project is Some ==> (#[trigger] found[i]).project == project)
                    &&& (priority is Some ==> found[i].priority == priority->Some_0)
                    &&& (status is Some ==> found[i].status == status->Some_0)
                }
            &&& forall|j: int|
                0 <= j < tasks.len() && (project is Some ==> tasks[j].project == project) && (
                priority is Some ==> tasks[j].priority == priority->Some_0) && (status is Some
                    ==> tasks[j].status == status->Some_0) ==> found.contains(#[trigger] tasks[j])
        }),
{
    let pred = |t: TaskView| passes_filters(t, project, priority, status);
    let found = tasks.filter(pred);
    broadcast use vstd::seq_lib::group_filter_ensures;
    assert forall|i: int| 0 <= i < found.len() implies {
        &&& (project is Some ==> (#[trigger] found[i]).project == project)
        &&& (priority is Some ==> found[i].priority == priority->Some_0)
        &&& (status is Some ==> found[i].status == status->Some_0)
    } by {
        assert(pred(found[i]));
    }
    assert forall|j: int|
        0 <= j < tasks.len() && (project is Some ==> tasks[j].project == project) && (priority is Some
            ==> tasks[j].priority == priority->Some_0) && (status is Some ==> tasks[j].status
            == status->Some_0) implies found.contains(#[trigger] tasks[j]) by {
        assert(pred(tasks[j]));
        tasks.lemma_filter_contains(pred, j);
    }
}

/// An edit of a task that exists gives it exactly the given title, priority
/// and project (`Some(None)` clearing the project), keeps the fields not
/// given, its id, status and creation day, and leaves every other task and
/// the counter alone. Without such a task nothing changes.
pub proof fn law_edit_sets_given_fields(
    s: StoreView,
    id: u32,
    title: Option<Seq<char>>,
    priority: Option<Priority>,
    project: Option<Option<Seq<char>>>,
)
    ensures
        !s.has_id(id) ==> s.edit(id, title, priority, project) == s,
        s.has_id(id) ==> {
            let e = s.edit(id, title, priority, project);
            let p = position_of(s.tasks, id);
            let old_task = s.tasks[p];
            let new_task = e.tasks[p];
            &&& 0 <= p < s.tasks.len()
            &&& old_task.id == id
            &&& e.next_id == s.next_id
            &&& e.tasks.len() == s.tasks.len()
            &&& new_task.id == id
            &&& new_task.title == (if title is Some { title->Some_0 } else { old_task.title })
            &&& new_task.priority == (if priority is Some {
                priority->Some_0
            } else {
                old_task.priority
            })
            &&& new_task.project == (if project is Some {
                project->Some_0
            } else {
                old_task.project
            })
            &&& new_task.status == old_task.status
            &&& new_task.created_at == old_task.created_at
            &&& forall|j: int| 0 <= j < s.tasks.len() && j != p ==> e.tasks[j] == s.tasks[j]
        },
{
    lemma_position_of(s.tasks, id);
}

/// Deleting a task that exists removes exactly the first task with the id:
/// the tasks before it stay, the ones after it move up by one, the counter
/// stays. Without such a task nothing changes.
pub proof fn law_delete_removes_first_match(s: StoreView, id: u32)
    ensures
        !s.has_id(id) ==> s.delete(id) == s,
        s.has_id(id) ==> {
            let d = s.delete(id);
            let p = position_of(s.tasks, id);
            &&& 0 <= p < s.tasks.len()
            &&& s.tasks[p].id == id
            &&& forall|j: int| 0 <= j < p ==> s.tasks[j].id != id
            &&& d.next_id == s.next_id
            &&& d.tasks.len() + 1 == s.tasks.len()
            &&& forall|j: int| 0 <= j < p ==> d.tasks[j] == s.tasks[j]
            &&& forall|j: int| p <= j < d.tasks.len() ==> d.tasks[j] == s.tasks[j + 1]
        },
{
    lemma_position_of(s.tasks, id);
}

/// Adding a task keeps the tasks there are, puts the new one last with the
/// counter's id, the given title, priority and project and status `Todo`,
/// and moves the counter on by one.
pub proof fn law_add_appends_todo(
    s: StoreView,
    title: Seq<char>,
    priority: Priority,
    project: Option<Seq<char>>,
    created_at: Seq<char>,
)
    requires
        s.next_id < u32::MAX,
    ensures
        ({
            let a = s.add(title, priority, project, created_at);
            let t = a.tasks[s.tasks.len() as int];
            &&& a.next_id == s.next_id + 1
            &&& a.tasks.len() == s.tasks.len() + 1
            &&& forall|j: int| 0 <= j < s.tasks.len() ==> a.tasks[j] == s.tasks[j]
            &&& t.id == s.next_id
            &&& t.title == title
            &&& t.priority == priority
            &&& t.project == project
            &&& t.status == Status::Todo
            &&& t.created_at == created_at
        }),
{
}

/// Without filters every task is listed, in store order.
pub proof fn law_no_filter_lists_all(tasks: Seq<TaskView>)
    ensures
        tasks.filter(|t: TaskView| passes_filters(t, None, None, None)) == tasks,
    decreases tasks.len(),
{
    reveal(Seq::filter);
    if tasks.len() > 0 {
        law_no_filter_lists_all(tasks.drop_last());
        assert(tasks.drop_last().push(tasks.last()) =~= tasks);
    }
}

/// Every listed task passes the filters, and no task is listed that the
/// store does not hold.
pub proof fn law_filtered_tasks_pass(
    tasks: Seq<TaskView>,
    project: Option<Seq<char>>,
    priority: Option<Priority>,
    status: Option<Status>,
)
    ensures
        ({
            let found = tasks.filter(|t: TaskView| passes_filters(t, project, priority, status));
            &&& found.len() <= tasks.len()
            &&& forall|i: int|
                0 <= i < found.len() ==> passes_filters(found[i], project, priority, status)
                    && tasks.contains(found[i])
        }),
{
    let pred = |t: TaskView| passes_filters(t, project, priority, status);
    let found = tasks.filter(pred);
    broadcast use vstd::seq_lib::group_filter_ensures;
    assert forall|i: int| 0 <= i < found.len() implies passes_filters(
        found[i],
        project,
        priority,
        status,
    ) && tasks.contains(found[i]) by {
        assert(pred(found[i]));
        assert(found.contains(found[i]));
        tasks.lemma_filter_contains_rev(pred, found[i]);
    }
}

} // verus!
