//! What each command of the command line does to the store, and the text it
//! answers with.

use vstd::prelude::*;

use crate::display::{
    format_summary, format_task_list, law_list_text_shows_titles, list_text, summary_text,
};
use crate::store::{
    missing_id_done_text, missing_id_text, opt_opt_text, passes_filters, title_matches, TaskStore,
};
use crate::summary::{count_status, priority_rows, project_rows};
use crate::task::{is_date_text, opt_text, Priority, Status, TaskView};
use crate::text::{ascii_lower, contains_text, decimal, is_ascii_text, lowercase_text, push_decimal};

verus! {

/// The confirmation of an added task.
pub open spec fn added_text(title: Seq<char>) -> Seq<char> {
    "✓ Task added: "@ + title
}

/// The answer to a search that found nothing.
pub open spec fn no_match_text(keyword: Seq<char>) -> Seq<char> {
    "No matching tasks for '"@ + keyword + "'"@
}

/// The answer to a search: the table of the tasks whose title holds the
/// keyword (ignoring case), or a note that none does.
pub open spec fn search_answer(tasks: Seq<TaskView>, keyword: Seq<char>) -> Seq<char> {
    let found = tasks.filter(|t: TaskView| title_matches(t, keyword));
    if found.len() == 0 {
        no_match_text(keyword)
    } else {
        list_text(found)
    }
}

/// The answer to a search shows the title of every task that matches.
pub proof fn law_search_answer_shows_every_match(tasks: Seq<TaskView>, keyword: Seq<char>)
    ensures
        forall|j: int|
            0 <= j < tasks.len() && title_matches(tasks[j], keyword) ==> contains_text(
                search_answer(tasks, keyword),
                #[trigger] tasks[j].title,
            ),
{
    let pred = |t: TaskView| title_matches(t, keyword);
    let found = tasks.filter(pred);
    law_list_text_shows_titles(found);
    assert forall|j: int|
        0 <= j < tasks.len() && title_matches(tasks[j], keyword) implies contains_text(
        search_answer(tasks, keyword),
        #[trigger] tasks[j].title,
    ) by {
        tasks.lemma_filter_contains(pred, j);
        let i = choose|i: int| 0 <= i < found.len() && found[i] == tasks[j];
        assert(found[i].title == tasks[j].title);
    }
}

/// The error of an edit that changes no field.
pub open spec fn no_field_text() -> Seq<char> {
    "Atleast one field is required"@
}

/// The confirmation of an edit.
pub open spec fn updated_text(id: u32) -> Seq<char> {
    "✓ Task "@ + decimal(id as nat) + " updated"@
}

/// The confirmation of marking a task done.
pub open spec fn marked_done_text(id: u32) -> Seq<char> {
    "✓ Task "@ + decimal(id as nat) + " marked as done"@
}

/// The confirmation of a deletion.
pub open spec fn deleted_text(id: u32) -> Seq<char> {
    "✓ Task "@ + decimal(id as nat) + " deleted"@
}

/// `✓ Task <id><suffix>`.
fn task_message(id: u32, suffix: &str) -> (s: String)
    ensures
        s@ == "✓ Task "@ + decimal(id as nat) + suffix@,
{
    let mut s = String::from_str("✓ Task ");
    push_decimal(&mut s, id as u64);
    s.append(suffix);
    s
}

/// Adds the task and confirms it by its title.
pub fn handle_add(
    store: &mut TaskStore,
    title: String,
    priority: Priority,
    project: Option<String>,
) -> (message: String)
    requires
        old(store).next_id < u32::MAX,
    ensures
        message@ == added_text(title@),
        final(store)@ == old(store)@.add(
            title@,
            priority,
            opt_text(project),
            final(store)@.tasks.last().created_at,
        ),
        is_date_text(final(store)@.tasks.last().created_at),
        old(store)@.well_formed() ==> final(store)@.well_formed(),
{
    let mut message = String::from_str("✓ Task added: ");
    message.append(title.as_str());
    store.add_task(title, priority, project);
    message
}

/// The table of the tasks that pass the filters.
pub fn handle_list(
    store: &TaskStore,
    project: Option<String>,
    priority: Option<Priority>,
    status: Option<Status>,
) -> (table: String)
    ensures
        table@ == list_text(
            store@.tasks.filter(
                |t: TaskView| passes_filters(t, opt_text(project), priority, status),
            ),
        ),
{
    let filtered_tasks = store.filter_tasks(project, priority, status);
    format_task_list(filtered_tasks)
}

/// The table of the tasks whose title holds the keyword (ignoring case),
/// or a note that none does.
pub fn handle_search(store: &TaskStore, keyword: &str) -> (answer: String)
    ensures
        answer@ == search_answer(store@.tasks, keyword@),
        is_ascii_text(keyword@) ==> ({
            let found = store@.tasks.filter(
                |t: TaskView| contains_text(lowercase_text(t.title), ascii_lower(keyword@)),
            );
            answer@ == if found.len() == 0 {
                no_match_text(keyword@)
            } else {
                list_text(found)
            }
        }),
{
    let results = store.search_tasks(keyword);
    if results.len() == 0 {
        let mut answer = String::from_str("No matching tasks for '");
        answer.append(keyword);
        answer.append("'");
        return answer;
    }
    format_task_list(results)
}

/// Edits the task when at least one field is given; otherwise, or when no
/// task has the id, the store is unchanged and the error says why.
pub fn handle_edit(
    store: &mut TaskStore,
    id: u32,
    title: Option<String>,
    priority: Option<Priority>,
    project: Option<Option<String>>,
) -> (r: Result<String, String>)
    ensures
        title is None && priority is None && project is None ==> {
            &&& final(store)@ == old(store)@
            &&& r matches Err(e) && e@ == no_field_text()
        },
        !(title is None && priority is None && project is None) ==> {
            &&& final(store)@ == old(store)@.edit(
                id,
                opt_text(title),
                priority,
                opt_opt_text(project),
            )
            &&& (r is Ok <==> old(store)@.has_id(id))
            &&& (r matches Ok(m) ==> m@ == updated_text(id))
            &&& (r matches Err(e) ==> e@ == missing_id_text(id))
        },
        old(store)@.well_formed() ==> final(store)@.well_formed(),
{
    if title.is_none() && priority.is_none() && project.is_none() {
        return Err(String::from_str("Atleast one field is required"));
    }
    match store.edit_task(id, title, priority, project) {
        Ok(()) => Ok(task_message(id, " updated")),
        Err(e) => Err(e),
    }
}

/// Marks the task done and confirms it, or says that no task has the id.
pub fn handle_mark_done(store: &mut TaskStore, id: u32) -> (r: Result<String, String>)
    ensures
        final(store)@ == old(store)@.mark_done(id),
        r is Ok <==> old(store)@.has_id(id),
        r matches Ok(m) ==> m@ == marked_done_text(id),
        r matches Err(e) ==> e@ == missing_id_done_text(id),
        old(store)@.well_formed() ==> final(store)@.well_formed(),
{
    match store.mark_done(id) {
        Ok(()) => Ok(task_message(id, " marked as done")),
        Err(e) => Err(e),
    }
}

/// Deletes the task and confirms it, or says that no task has the id.
pub fn handle_delete(store: &mut TaskStore, id: u32) -> (r: Result<String, String>)
    ensures
        final(store)@ == old(store)@.delete(id),
        r is Ok <==> old(store)@.has_id(id),
        r matches Ok(m) ==> m@ == deleted_text(id),
        r matches Err(e) ==> e@ == missing_id_text(id),
        old(store)@.well_formed() ==> final(store)@.well_formed(),
{
    match store.delete_task(id) {
        Ok(()) => Ok(task_message(id, " deleted")),
        Err(e) => Err(e),
    }
}

/// The summary of the store as text.
pub fn handle_summary(store: &TaskStore) -> (text: String)
    ensures
        text@ == summary_text(
            store@.tasks.len(),
            count_status(store@.tasks, Status::Todo),
            count_status(store@.tasks, Status::Done),
            project_rows(store@.tasks),
            priority_rows(store@.tasks),
        ),
{
    let summary = store.summary();
    format_summary(&summary)
}

} // verus!
