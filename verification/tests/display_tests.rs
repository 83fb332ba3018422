use tsk::display::{format_summary, format_task, format_task_list};
use tsk::summary::Summary;
use tsk::task::{Priority, Task};

#[test]
fn format_row_pads_to_fixed_widths() {
    let task = Task::new(
        1,
        String::from("Build API"),
        Priority::High,
        Some(String::from("backend")),
    );
    let row = format_task(&task);

    assert!(row.starts_with("1   ")); // ID - 4 wide
    assert!(row.contains("HIGH    "));
}

#[test]
fn format_row_handles_no_project() {
    let task = Task::new(1, String::from("Build API"), Priority::High, None);
    let row = format_task(&task);
    assert!(row.contains("(none)"));
}

#[test]
fn format_row_has_exact_columns() {
    let task = Task::with_date(
        12,
        String::from("Ship it"),
        Priority::Medium,
        Some(String::from("release")),
        String::from("2026-06-08"),
    );

    assert_eq!(
        format_task(&task),
        "12   2026-06-08   MEDIUM    todo    release    Ship it"
    );
}

#[test]
fn long_project_is_not_cut() {
    let mut task = Task::with_date(
        12345,
        String::from("T"),
        Priority::Low,
        Some(String::from("averyverylongproject")),
        String::from("2026-06-08"),
    );
    task.set_status(tsk::task::Status::Done);

    assert_eq!(
        format_task(&task),
        "12345 2026-06-08   LOW       done    averyverylongproject T"
    );
}

#[test]
fn task_list_has_header_and_rows() {
    let a = Task::with_date(1, String::from("A"), Priority::High, None, String::from("2026-01-02"));
    let b = Task::with_date(2, String::from("B"), Priority::Low, None, String::from("2026-01-03"));

    let list = format_task_list(vec![&a, &b]);

    assert_eq!(
        list,
        "ID   CREATED AT   PRIORITY  STATUS  PROJECT    TITLE\n\
         1    2026-01-02   HIGH      todo    (none)     A\n\
         2    2026-01-03   LOW       todo    (none)     B\n"
    );
    assert_eq!(format_task_list(vec![]), "No tasks found.");
}

#[test]
fn summary_text_lists_counts() {
    let summary = Summary {
        total: 3,
        todo: 2,
        done: 1,
        by_project: vec![(String::from("backend"), 2), (String::from("(none)"), 1)],
        by_priority: vec![(Priority::Low, 1), (Priority::High, 2)],
    };

    assert_eq!(
        format_summary(&summary),
        "Total:     3\nTodo:      2\nDone:      1\n\nBy Project:\n  backend    2\n  (none)     1\n\nBy Priority:\n  Low        1\n  High       2\n"
    );
}
