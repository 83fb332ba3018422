use chrono::Local;
use tsk::task::{Priority, Status, Task};

#[test]
fn new_task_has_todo_status() {
    let task = Task::new(1, String::from("Tests"), Priority::Medium, None);
    assert!(matches!(task.status, Status::Todo));
}

#[test]
fn new_task_stores_title() {
    let task = Task::new(1, String::from("Tests"), Priority::Medium, None);
    assert_eq!(task.title, "Tests");
}

#[test]
fn new_task_stores_priority() {
    let task = Task::new(1, String::from("Tests"), Priority::High, None);
    assert!(matches!(task.priority, Priority::High));
}

#[test]
fn new_task_with_project() {
    let task = Task::new(
        1,
        String::from("Tests"),
        Priority::Medium,
        Some(String::from("Testing")),
    );

    assert_eq!(task.project, Some(String::from("Testing")));
}

#[test]
fn new_task_without_project_is_none() {
    let task = Task::new(1, String::from("Tests"), Priority::Medium, None);

    assert!(task.project.is_none());
}

#[test]
fn new_task_is_created_with_today() {
    let task = Task::new(1, String::from("Test"), Priority::Medium, None);
    let today = Local::now().format("%Y-%m-%d").to_string();

    assert_eq!(task.created_at, today);
}

#[test]
fn created_at_is_valid_date_format() {
    let task = Task::new(1, String::from("Tests"), Priority::Medium, None);

    assert_eq!(task.created_at.len(), 10);
    assert_eq!(&task.created_at[4..5], "-");
    assert_eq!(&task.created_at[7..8], "-");
}

#[test]
fn with_date_keeps_the_given_day() {
    let task = Task::with_date(
        7,
        String::from("Plan"),
        Priority::Low,
        Some(String::from("home")),
        String::from("2026-06-08"),
    );

    assert_eq!(task.id(), 7);
    assert_eq!(task.title(), "Plan");
    assert_eq!(task.priority(), Priority::Low);
    assert_eq!(task.status(), Status::Todo);
    assert_eq!(task.project(), Some("home"));
    assert_eq!(task.created_at(), "2026-06-08");
}

#[test]
fn setters_change_one_field_each() {
    let mut task = Task::with_date(
        1,
        String::from("A"),
        Priority::Low,
        None,
        String::from("2026-01-01"),
    );

    task.set_title(String::from("B"));
    task.set_priority(Priority::High);
    task.set_status(Status::Done);
    task.set_project(Some(String::from("p")));

    assert_eq!(task.title(), "B");
    assert_eq!(task.priority(), Priority::High);
    assert_eq!(task.status(), Status::Done);
    assert_eq!(task.project(), Some("p"));
    assert_eq!(task.id(), 1);
    assert_eq!(task.created_at(), "2026-01-01");

    task.set_project(None);
    assert_eq!(task.project(), None);
}
