use tsk::store::{select_matching, TaskStore};
use tsk::task::{Priority, Status};

#[test]
fn store_next_id_is_one_for_empty_list() {
    let task_store = TaskStore::new();
    assert_eq!(task_store.next_id, 1)
}

#[test]
fn next_id_increments_after_each_call() {
    let mut task_store = TaskStore::new();

    assert_eq!(task_store.next_id(), 1);
    assert_eq!(task_store.next_id(), 2);
}

#[test]
fn add_task_increments_the_next_id() {
    let mut task_store = TaskStore::new();

    task_store.add_task(String::from("first"), Priority::Medium, None);
    assert_eq!(task_store.next_id, 2);

    task_store.add_task(String::from("second"), Priority::Medium, None);
    assert_eq!(task_store.next_id, 3);
}

#[test]
fn add_task_assigns_correct_counter_value_as_next_id() {
    let mut task_store = TaskStore::new();

    task_store.add_task(String::from("first"), Priority::Medium, None);
    task_store.add_task(String::from("second"), Priority::Medium, None);

    assert_eq!(task_store.tasks[0].id(), 1);
    assert_eq!(task_store.tasks[1].id(), 2);
}

#[test]
fn add_task_status_is_always_todo() {
    let mut task_store = TaskStore::new();

    task_store.add_task(String::from("first"), Priority::Medium, None);

    assert!(matches!(task_store.tasks()[0].status(), Status::Todo));
}

#[test]
fn filter_by_project() {
    let mut task_store = TaskStore::new();

    task_store.add_task(
        String::from("Test 1"),
        Priority::Medium,
        Some(String::from("backend")),
    );
    task_store.add_task(
        String::from("Test 2"),
        Priority::Medium,
        Some(String::from("backend")),
    );
    task_store.add_task(String::from("Test 3"), Priority::Medium, None);

    let results = task_store.filter_tasks(Some(String::from("backend")), None, None);

    assert_eq!(results.len(), 2);
}

#[test]
fn filter_by_status_todo() {
    let mut task_store = TaskStore::new();

    task_store.add_task(String::from("Test 1"), Priority::Medium, None);
    task_store.add_task(String::from("Test 2"), Priority::Medium, None);

    task_store.tasks_mut()[0].set_status(Status::Done);

    let results = task_store.filter_tasks(None, None, Some(Status::Todo));

    assert_eq!(results.len(), 1);
}

#[test]
fn filter_by_priority() {
    let mut task_store = TaskStore::new();

    task_store.add_task(String::from("Test 1"), Priority::Medium, None);
    task_store.add_task(String::from("Test 2"), Priority::Medium, None);
    task_store.add_task(String::from("Test 3"), Priority::High, None);

    let results = task_store.filter_tasks(None, Some(Priority::High), None);

    assert_eq!(results.len(), 1);
    assert_eq!(results[0].title(), "Test 3");
}

#[test]
fn filter_combined_project_and_status() {
    let mut task_store = TaskStore::new();

    task_store.add_task(
        String::from("Test 1"),
        Priority::Medium,
        Some(String::from("backend")),
    );
    task_store.add_task(
        String::from("Test 2"),
        Priority::Medium,
        Some(String::from("backend")),
    );
    task_store.add_task(String::from("Test 3"), Priority::Medium, None);

    task_store.tasks_mut()[1].set_status(Status::Done);

    let results =
        task_store.filter_tasks(Some(String::from("backend")), None, Some(Status::Todo));

    assert_eq!(results.len(), 1);
    assert_eq!(results[0].title(), "Test 1");
}

#[test]
fn filter_no_match_returns_empty() {
    let mut task_store = TaskStore::new();

    task_store.add_task(String::from("Test 1"), Priority::Medium, None);
    task_store.add_task(String::from("Test 2"), Priority::Medium, None);
    task_store.add_task(String::from("Test 3"), Priority::Medium, None);

    let results = task_store.filter_tasks(Some(String::from("nonexistent")), None, None);
    assert!(results.is_empty());
}

#[test]
fn mark_done_updates_status() {
    let mut task_store = TaskStore::new();

    task_store.add_task(String::from("Test Task"), Priority::Medium, None);

    let result = task_store.mark_done(1);

    assert!(result.is_ok());
    assert!(matches!(task_store.tasks()[0].status(), Status::Done));
}

#[test]
fn mark_done_returns_error_for_missing_id() {
    let mut task_store = TaskStore::new();

    let result = task_store.mark_done(99);

    assert!(result.is_err());
}

#[test]
fn mark_done_does_not_affect_other_tasks() {
    let mut task_store = TaskStore::new();

    task_store.add_task(String::from("Test 1"), Priority::Medium, None);
    task_store.add_task(String::from("Test 2"), Priority::Medium, None);
    task_store.add_task(String::from("Test 3"), Priority::Medium, None);

    task_store.mark_done(1).unwrap();

    assert!(matches!(task_store.tasks()[1].status(), Status::Todo));
    assert!(matches!(task_store.tasks()[2].status(), Status::Todo));
}

#[test]
fn mark_done_on_empty_list_does_not_panic() {
    let mut task_store = TaskStore::new();
    let result = task_store.mark_done(1);
    assert!(result.is_err());
}

#[test]
fn delete_task_removes_it() {
    let mut task_store = TaskStore::new();

    task_store.add_task(String::from("Test 1"), Priority::Medium, None);
    task_store.add_task(String::from("Test 2"), Priority::Medium, None);
    task_store.add_task(String::from("Test 3"), Priority::Medium, None);

    let result = task_store.delete_task(2);

    assert!(result.is_ok());
    assert_eq!(task_store.tasks().len(), 2);
    assert_eq!(task_store.tasks()[0].id(), 1);
}

#[test]
fn delete_task_returns_error_for_missing_id() {
    let mut task_store = TaskStore::new();

    task_store.add_task(String::from("Test 1"), Priority::Medium, None);
    task_store.add_task(String::from("Test 2"), Priority::Medium, None);
    task_store.add_task(String::from("Test 3"), Priority::Medium, None);

    let result = task_store.delete_task(99);

    assert!(result.is_err());
}

#[test]
fn deleted_id_is_not_reused() {
    let mut task_store = TaskStore::new();

    task_store.add_task(String::from("Test 1"), Priority::Medium, None);
    task_store.add_task(String::from("Test 2"), Priority::Medium, None);
    task_store.add_task(String::from("Test 3"), Priority::Medium, None);

    task_store.delete_task(3).unwrap();

    task_store.add_task(String::from("Test 4"), Priority::Medium, None);

    // since we removed the `3` id the new task should have the id `4`
    assert_eq!(task_store.tasks().last().unwrap().id(), 4);
}

#[test]
fn delete_on_empty_list_does_not_panic() {
    let mut task_store = TaskStore::new();
    let result = task_store.delete_task(1);
    assert!(result.is_err());
}

#[test]
fn search_is_case_insensitive() {
    let mut task_store = TaskStore::new();

    task_store.add_task(String::from("Learn Rust"), Priority::Medium, None);
    task_store.add_task(String::from("Build Api"), Priority::Medium, None);
    task_store.add_task(String::from("Deploy"), Priority::Medium, None);

    let result = task_store.search_tasks("rust");

    assert_eq!(result.len(), 1);
    assert_eq!(result[0].id(), 1);
}

#[test]
fn search_matches_partial_word() {
    let mut task_store = TaskStore::new();

    task_store.add_task(String::from("Learn Rust"), Priority::Medium, None);
    task_store.add_task(String::from("Build Api"), Priority::Medium, None);
    task_store.add_task(String::from("Deploy"), Priority::Medium, None);

    let result = task_store.search_tasks("rus");

    assert_eq!(result.len(), 1);
}

#[test]
fn search_no_match_returns_empty() {
    let mut task_store = TaskStore::new();

    task_store.add_task(String::from("Learn Rust"), Priority::Medium, None);
    task_store.add_task(String::from("Build Api"), Priority::Medium, None);
    task_store.add_task(String::from("Deploy"), Priority::Medium, None);

    let result = task_store.search_tasks("python");

    assert!(result.is_empty());
}

#[test]
fn edit_updates_title() {
    let mut task_store = TaskStore::new();

    task_store.add_task(String::from("Old Title"), Priority::Medium, None);

    task_store
        .edit_task(1, Some(String::from("New Title")), None, None)
        .unwrap();

    assert_eq!(task_store.tasks()[0].title(), "New Title");
}

#[test]
fn edit_updates_priority_only() {
    let mut task_store = TaskStore::new();

    task_store.add_task(String::from("Same Title"), Priority::Medium, None);

    task_store
        .edit_task(1, None, Some(Priority::High), None)
        .unwrap();

    assert_eq!(task_store.tasks()[0].title(), "Same Title");
    assert!(matches!(task_store.tasks()[0].priority(), Priority::High));
}

#[test]
fn edit_returns_error_for_missing_id() {
    let mut task_store = TaskStore::new();

    let result = task_store.edit_task(99, None, Some(Priority::High), None);

    assert!(result.is_err());
}

#[test]
fn edit_updates_project() {
    let mut task_store = TaskStore::new();

    task_store.add_task(String::from("Build API"), Priority::Medium, None);

    task_store
        .edit_task(1, None, None, Some(Some(String::from("backend"))))
        .unwrap();

    assert_eq!(task_store.tasks()[0].project(), Some("backend"));
}

#[test]
fn summary_counts_total_todo_done() {
    let mut task_store = TaskStore::new();

    task_store.add_task(String::from("Learn Rust"), Priority::High, None);
    task_store.add_task(String::from("Build Api"), Priority::Medium, None);
    task_store.add_task(String::from("Deploy"), Priority::Low, None);

    task_store.tasks_mut()[2].set_status(Status::Done);

    let result = task_store.summary();

    assert_eq!(result.total, 3);
    assert_eq!(result.todo, 2);
    assert_eq!(result.done, 1);
}

#[test]
fn summary_counts_by_priority() {
    let mut task_store = TaskStore::new();

    task_store.add_task(String::from("Learn Rust"), Priority::High, None);
    task_store.add_task(String::from("Build Api"), Priority::High, None);
    task_store.add_task(String::from("Deploy"), Priority::Low, None);

    let result = task_store.summary();

    assert_eq!(result.priority_count(Priority::High), 2);
    assert_eq!(result.priority_count(Priority::Medium), 0);
    assert_eq!(result.priority_count(Priority::Low), 1);
}

#[test]
fn summary_counts_by_project() {
    let mut task_store = TaskStore::new();

    task_store.add_task(
        String::from("Learn Rust"),
        Priority::High,
        Some(String::from("backend")),
    );
    task_store.add_task(
        String::from("Build Api"),
        Priority::High,
        Some(String::from("backend")),
    );
    task_store.add_task(String::from("Deploy"), Priority::Low, None);

    let result = task_store.summary();

    assert_eq!(result.project_count("backend"), 2);
    assert_eq!(result.project_count("(none)"), 1);
}

#[test]
fn summary_rows_are_ordered() {
    let mut task_store = TaskStore::new();

    task_store.add_task(String::from("a"), Priority::High, Some(String::from("web")));
    task_store.add_task(String::from("b"), Priority::Low, None);
    task_store.add_task(String::from("c"), Priority::High, Some(String::from("cli")));
    task_store.add_task(String::from("d"), Priority::Low, Some(String::from("cli")));
    task_store.add_task(String::from("e"), Priority::High, Some(String::from("web")));

    let result = task_store.summary();

    assert_eq!(
        result.by_priority,
        vec![(Priority::Low, 2), (Priority::High, 3)]
    );
    assert_eq!(
        result.by_project,
        vec![
            (String::from("web"), 2),
            (String::from("cli"), 2),
            (String::from("(none)"), 1),
        ]
    );
    assert_eq!(result.project_count("nowhere"), 0);
}

#[test]
fn edit_clears_project_and_keeps_other_tasks() {
    let mut task_store = TaskStore::new();

    task_store.add_task(String::from("one"), Priority::Low, Some(String::from("x")));
    task_store.add_task(String::from("two"), Priority::Low, Some(String::from("y")));

    task_store.edit_task(2, None, None, Some(None)).unwrap();

    assert_eq!(task_store.tasks()[1].project(), None);
    assert_eq!(task_store.tasks()[0].project(), Some("x"));
}

#[test]
fn missing_id_errors_name_the_id() {
    let mut task_store = TaskStore::new();

    assert_eq!(
        task_store.edit_task(42, None, None, None),
        Err(String::from("Could not find a task with id: 42"))
    );
    assert_eq!(
        task_store.delete_task(7),
        Err(String::from("Could not find a task with id: 7"))
    );
    assert_eq!(
        task_store.mark_done(1234567),
        Err(String::from("Could not find a task with the id: 1234567"))
    );
}

#[test]
fn filter_without_criteria_lists_every_task_in_order() {
    let mut task_store = TaskStore::new();

    task_store.add_task(String::from("first"), Priority::Low, None);
    task_store.add_task(String::from("second"), Priority::High, None);

    let results = task_store.filter_tasks(None, None, None);

    assert_eq!(results.len(), 2);
    assert_eq!(results[0].id(), 1);
    assert_eq!(results[1].id(), 2);
}

#[test]
fn search_finds_keyword_anywhere_in_title() {
    let mut task_store = TaskStore::new();

    task_store.add_task(String::from("Write DOCS now"), Priority::Low, None);
    task_store.add_task(String::from("docs"), Priority::Low, None);
    task_store.add_task(String::from("doc"), Priority::Low, None);

    let results = task_store.search_tasks("Docs");

    assert_eq!(results.len(), 2);
    assert_eq!(results[0].id(), 1);
    assert_eq!(results[1].id(), 2);
}

#[test]
fn search_ignores_keyword_case() {
    let mut task_store = TaskStore::new();

    task_store.add_task(String::from("Learn Rust"), Priority::Medium, None);
    task_store.add_task(String::from("rusty tools"), Priority::Medium, None);
    task_store.add_task(String::from("Deploy"), Priority::Medium, None);

    let upper: Vec<u32> = task_store.search_tasks("RUST").iter().map(|t| t.id()).collect();
    let lower: Vec<u32> = task_store.search_tasks("rust").iter().map(|t| t.id()).collect();
    let mixed: Vec<u32> = task_store.search_tasks("rUsT").iter().map(|t| t.id()).collect();

    assert_eq!(upper, vec![1, 2]);
    assert_eq!(lower, upper);
    assert_eq!(mixed, upper);
}

#[test]
fn select_matching_uses_the_given_lowercase_titles() {
    let mut task_store = TaskStore::new();

    task_store.add_task(String::from("Alpha"), Priority::Low, None);
    task_store.add_task(String::from("Beta"), Priority::Low, None);

    let titles = vec![String::from("alpha"), String::from("beta")];
    let found = select_matching(task_store.tasks(), &titles, "ta");

    assert_eq!(found.len(), 1);
    assert_eq!(found[0].id(), 2);
    assert!(select_matching(task_store.tasks(), &titles, "ALPHA").is_empty());
}

#[test]
fn empty_keyword_finds_every_task() {
    let mut task_store = TaskStore::new();

    task_store.add_task(String::from("One"), Priority::Low, None);
    task_store.add_task(String::from("Two"), Priority::High, None);

    let ids: Vec<u32> = task_store.search_tasks("").iter().map(|t| t.id()).collect();

    assert_eq!(ids, vec![1, 2]);
}

#[test]
fn priority_rows_run_from_low_to_high() {
    let mut task_store = TaskStore::new();

    task_store.add_task(String::from("a"), Priority::High, None);
    task_store.add_task(String::from("b"), Priority::Medium, None);
    task_store.add_task(String::from("c"), Priority::Low, None);
    task_store.add_task(String::from("d"), Priority::High, None);

    let result = task_store.summary();

    assert_eq!(
        result.by_priority,
        vec![(Priority::Low, 1), (Priority::Medium, 1), (Priority::High, 2)]
    );
}
