use tsk::command::{
    handle_add, handle_delete, handle_edit, handle_list, handle_mark_done, handle_search,
    handle_summary,
};
use tsk::store::TaskStore;
use tsk::task::{Priority, Status};

#[test]
fn handle_add_confirms_with_a_success_message() {
    let mut store = TaskStore::new();
    let result = handle_add(
        &mut store,
        String::from("Learn Rust"),
        Priority::Medium,
        None,
    );

    assert_eq!(result, "✓ Task added: Learn Rust")
}

#[test]
fn handle_list_returns_all_tasks_when_no_filters_given() {
    let mut store = TaskStore::new();

    store.add_task(String::from("Task 1"), Priority::Medium, None);
    store.add_task(String::from("Task 2"), Priority::Medium, None);
    store.add_task(String::from("Task 3"), Priority::Medium, None);

    let results = handle_list(&store, None, None, None);

    assert!(results.contains("Task 1"));
    assert!(results.contains("Task 2"));
    assert!(results.contains("Task 3"));
}

#[test]
fn handle_list_returns_empty_message_when_no_tasks_exist() {
    let store = TaskStore::new();

    let results = handle_list(&store, None, None, None);

    assert_eq!(results, "No tasks found.");
}

#[test]
fn handle_list_successfully_filters_by_project() {
    let mut store = TaskStore::new();

    store.add_task(
        String::from("Task 1"),
        Priority::Medium,
        Some(String::from("backend")),
    );
    store.add_task(
        String::from("Task 2"),
        Priority::Medium,
        Some(String::from("backend")),
    );
    store.add_task(String::from("Task 3"), Priority::Medium, None);

    let results = handle_list(&store, Some(String::from("backend")), None, None);

    assert!(results.contains("Task 1"));
    assert!(results.contains("Task 2"));
}

#[test]
fn handle_list_successfully_filters_by_priority() {
    let mut store = TaskStore::new();

    store.add_task(String::from("Task 1"), Priority::High, None);
    store.add_task(String::from("Task 2"), Priority::Medium, None);
    store.add_task(String::from("Task 3"), Priority::High, None);

    let results = handle_list(&store, None, Some(Priority::High), None);

    assert!(results.contains("Task 1"));
    assert!(results.contains("Task 3"));
}

#[test]
fn handle_list_successfully_filters_by_status() {
    let mut store = TaskStore::new();

    store.add_task(String::from("Task 1"), Priority::Medium, None);
    store.add_task(String::from("Task 2"), Priority::Medium, None);
    store.add_task(String::from("Task 3"), Priority::Medium, None);

    store.mark_done(1).unwrap();

    let results = handle_list(&store, None, None, Some(Status::Done));

    assert!(results.contains("Task 1"));
}

#[test]
fn handle_list_successfully_filters_by_combined_filters() {
    let mut store = TaskStore::new();

    store.add_task(
        String::from("Task 1"),
        Priority::Medium,
        Some(String::from("backend")),
    );
    store.add_task(
        String::from("Task 2"),
        Priority::High,
        Some(String::from("frontend")),
    );
    store.add_task(
        String::from("Task 3"),
        Priority::High,
        Some(String::from("frontend")),
    );

    store.mark_done(3).unwrap();

    let results = handle_list(
        &store,
        Some(String::from("frontend")),
        Some(Priority::High),
        Some(Status::Done),
    );

    assert!(results.contains("Task 3"));
}

#[test]
fn handle_list_returns_empty_message_when_no_matches() {
    let mut store = TaskStore::new();

    store.add_task(String::from("Task 1"), Priority::Medium, None);

    let result = handle_list(&store, Some(String::from("nonexistent")), None, None);

    assert_eq!(result, "No tasks found.")
}

#[test]
fn handle_list_includes_header() {
    let mut store = TaskStore::new();

    store.add_task(String::from("Task 1"), Priority::Medium, None);

    let result = handle_list(&store, None, None, None);

    assert!(result.contains("ID"));
    assert!(result.contains("PRIORITY"));
    assert!(result.contains("STATUS"));
    assert!(result.contains("PROJECT"));
    assert!(result.contains("TITLE"));
}

#[test]
fn handle_search_finds_matching_tasks() {
    let mut store = TaskStore::new();

    store.add_task(
        String::from("Learn Rust"),
        Priority::Medium,
        Some(String::from("backend")),
    );
    store.add_task(
        String::from("Test 2"),
        Priority::High,
        Some(String::from("backend")),
    );
    store.add_task(
        String::from("Task 3"),
        Priority::High,
        Some(String::from("frontend")),
    );

    let results = handle_search(&store, "Rust");

    assert!(results.contains("Learn Rust"));
}

#[test]
fn handle_search_returns_empty_message_when_no_matches() {
    let mut store = TaskStore::new();

    store.add_task(
        String::from("Task 1"),
        Priority::Medium,
        Some(String::from("backend")),
    );

    let results = handle_search(&store, "nonexistent");

    assert_eq!(results, "No matching tasks for 'nonexistent'");
}

#[test]
fn handle_search_works_for_partial_match() {
    let mut store = TaskStore::new();

    store.add_task(
        String::from("Learn Rust"),
        Priority::Medium,
        Some(String::from("backend")),
    );
    store.add_task(
        String::from("Test 2"),
        Priority::High,
        Some(String::from("backend")),
    );
    store.add_task(
        String::from("Task 3"),
        Priority::High,
        Some(String::from("frontend")),
    );

    let results = handle_search(&store, "Rus");

    assert!(results.contains("Learn Rust"));
}

#[test]
fn handle_search_is_case_insensitive() {
    let mut store = TaskStore::new();

    store.add_task(
        String::from("Learn Rust"),
        Priority::Medium,
        Some(String::from("backend")),
    );
    store.add_task(
        String::from("Test 2"),
        Priority::High,
        Some(String::from("backend")),
    );
    store.add_task(
        String::from("Task 3"),
        Priority::High,
        Some(String::from("frontend")),
    );

    let results = handle_search(&store, "rust");

    assert!(results.contains("Learn Rust"));
}

#[test]
fn handle_search_returns_all_the_matches() {
    let mut store = TaskStore::new();

    store.add_task(
        String::from("Learn Rust"),
        Priority::Medium,
        Some(String::from("backend")),
    );
    store.add_task(
        String::from("Build an API in Rust"),
        Priority::High,
        Some(String::from("backend")),
    );
    store.add_task(
        String::from("Task 3"),
        Priority::High,
        Some(String::from("frontend")),
    );

    let results = handle_search(&store, "Rust");

    assert!(results.contains("Learn Rust"));
    assert!(results.contains("Build an API in Rust"));
}

#[test]
fn handle_edit_updates_title() {
    let mut store = TaskStore::new();

    store.add_task(
        String::from("Learn Rust"),
        Priority::Medium,
        Some(String::from("backend")),
    );

    let result =
        handle_edit(&mut store, 1, Some(String::from("Create CLI")), None, None).unwrap();

    assert_eq!(result, "✓ Task 1 updated");
    assert_eq!(store.tasks()[0].title(), "Create CLI");
}

#[test]
fn handle_edit_updates_priority() {
    let mut store = TaskStore::new();

    store.add_task(
        String::from("Learn Rust"),
        Priority::Medium,
        Some(String::from("backend")),
    );

    let result = handle_edit(&mut store, 1, None, Some(Priority::High), None).unwrap();

    assert_eq!(result, "✓ Task 1 updated");
    assert!(matches!(store.tasks()[0].priority(), Priority::High));
}

#[test]
fn handle_edit_updates_project() {
    let mut store = TaskStore::new();

    store.add_task(
        String::from("Learn Rust"),
        Priority::Medium,
        Some(String::from("backend")),
    );

    let result =
        handle_edit(&mut store, 1, None, None, Some(Some(String::from("cli")))).unwrap();

    assert_eq!(result, "✓ Task 1 updated");
    assert_eq!(store.tasks()[0].project(), Some("cli"));
}

#[test]
fn handle_edit_clears_the_project() {
    let mut store = TaskStore::new();

    store.add_task(
        String::from("Learn Rust"),
        Priority::Medium,
        Some(String::from("backend")),
    );

    let result = handle_edit(&mut store, 1, None, None, Some(None)).unwrap();

    assert_eq!(result, "✓ Task 1 updated");
    assert_eq!(store.tasks()[0].project(), None);
}

#[test]
fn handle_edit_can_edit_mutliple_fields() {
    let mut store = TaskStore::new();

    store.add_task(
        String::from("Learn Rust"),
        Priority::Medium,
        Some(String::from("backend")),
    );

    let result = handle_edit(
        &mut store,
        1,
        Some(String::from("Build CLI")),
        Some(Priority::High),
        Some(Some(String::from("cli"))),
    )
    .unwrap();

    assert_eq!(result, "✓ Task 1 updated");
    assert_eq!(store.tasks()[0].title(), String::from("Build CLI"));
    assert!(matches!(store.tasks()[0].priority(), Priority::High));
    assert_eq!(store.tasks()[0].project(), Some("cli"));
}

#[test]
fn handle_edit_preserves_unchanged_edits() {
    let mut store = TaskStore::new();

    store.add_task(
        String::from("Learn Rust"),
        Priority::Medium,
        Some(String::from("backend")),
    );

    let result = handle_edit(&mut store, 1, None, Some(Priority::High), None).unwrap();

    assert_eq!(result, "✓ Task 1 updated");
    assert_eq!(store.tasks()[0].title(), String::from("Learn Rust"));
    assert!(matches!(store.tasks()[0].priority(), Priority::High));
    assert_eq!(store.tasks()[0].project(), Some("backend"));
}

#[test]
fn handle_edit_returns_error_on_missing_id() {
    let mut store = TaskStore::new();

    store.add_task(
        String::from("Learn Rust"),
        Priority::Medium,
        Some(String::from("backend")),
    );

    let result = handle_edit(
        &mut store,
        3,
        Some(String::from("Build CLI")),
        Some(Priority::Medium),
        Some(Some(String::from("cli"))),
    );

    assert!(result.is_err());
    assert!(
        result
            .unwrap_err()
            .contains("Could not find a task with id: 3")
    );
}

#[test]
fn handle_edit_returns_error_on_missing_fields() {
    let mut store = TaskStore::new();

    store.add_task(
        String::from("Learn Rust"),
        Priority::Medium,
        Some(String::from("backend")),
    );

    let result = handle_edit(&mut store, 1, None, None, None);

    assert!(result.is_err());
    assert!(
        result
            .unwrap_err()
            .contains("Atleast one field is required")
    );
}

#[test]
fn handle_mark_done_mark_task_done_and_returns_a_message() {
    let mut store = TaskStore::new();

    store.add_task(
        String::from("Learn Rust"),
        Priority::Medium,
        Some(String::from("backend")),
    );

    let result = handle_mark_done(&mut store, 1).unwrap();

    assert_eq!(result, "✓ Task 1 marked as done");
    assert!(matches!(store.tasks()[0].status(), Status::Done));
}

#[test]
fn handle_mark_done_returns_an_error_message_on_missing_id() {
    let mut store = TaskStore::new();

    store.add_task(
        String::from("Learn Rust"),
        Priority::Medium,
        Some(String::from("backend")),
    );

    let result = handle_mark_done(&mut store, 99);

    assert!(result.is_err());
}

#[test]
fn handle_edit_without_fields_leaves_store_unchanged() {
    let mut store = TaskStore::new();

    store.add_task(String::from("Keep"), Priority::Low, None);

    let result = handle_edit(&mut store, 1, None, None, None);

    assert_eq!(result, Err(String::from("Atleast one field is required")));
    assert_eq!(store.tasks()[0].title(), "Keep");
    assert!(matches!(store.tasks()[0].priority(), Priority::Low));
}

#[test]
fn handle_delete_confirms_and_removes() {
    let mut store = TaskStore::new();

    store.add_task(String::from("One"), Priority::Low, None);
    store.add_task(String::from("Two"), Priority::Low, None);

    assert_eq!(handle_delete(&mut store, 1), Ok(String::from("✓ Task 1 deleted")));
    assert_eq!(store.tasks().len(), 1);
    assert_eq!(store.tasks()[0].id(), 2);
    assert_eq!(
        handle_delete(&mut store, 1),
        Err(String::from("Could not find a task with id: 1"))
    );
}

#[test]
fn handle_mark_done_error_names_the_id() {
    let mut store = TaskStore::new();

    assert_eq!(
        handle_mark_done(&mut store, 99),
        Err(String::from("Could not find a task with the id: 99"))
    );
}

#[test]
fn handle_summary_counts_everything() {
    let mut store = TaskStore::new();

    store.add_task(String::from("A"), Priority::High, Some(String::from("web")));
    store.add_task(String::from("B"), Priority::Medium, None);
    store.mark_done(2).unwrap();

    let text = handle_summary(&store);

    assert_eq!(
        text,
        "Total:     2\nTodo:      1\nDone:      1\n\nBy Project:\n  web        1\n  (none)     1\n\nBy Priority:\n  Medium     1\n  High       1\n"
    );
}

#[test]
fn handle_search_finds_only_lowercase_matches_of_the_keyword() {
    let mut store = TaskStore::new();

    store.add_task(String::from("ÜBER Task"), Priority::Low, None);

    let results = handle_search(&store, "über");

    assert!(results.contains("ÜBER Task"));
    assert_eq!(handle_search(&store, "zzz"), "No matching tasks for 'zzz'");
}

#[test]
fn summary_text_has_one_line_per_row() {
    let mut store = TaskStore::new();

    store.add_task(String::from("A"), Priority::High, Some(String::from("web")));
    store.add_task(String::from("B"), Priority::Low, Some(String::from("cli")));
    store.add_task(String::from("C"), Priority::Low, None);

    let text = handle_summary(&store);

    assert_eq!(text.matches('\n').count(), 7 + 3 + 2);
    assert!(text.starts_with("Total:"));
    assert!(text.ends_with('\n'));
    assert!(text.find("\nBy Project:\n").unwrap() < text.find("\nBy Priority:\n").unwrap());
}
