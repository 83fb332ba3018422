use tsk::storage::{get_next_id, next_id};
use tsk::task::{Priority, Task};

#[test]
fn storage_next_id_is_one_for_empty_list() {
    let tasks: Vec<Task> = vec![];
    assert_eq!(next_id(&tasks), 1)
}

#[test]
fn next_id_is_max_plus_one() {
    let tasks = vec![
        Task::new(1, String::from("A"), Priority::Medium, None),
        Task::new(3, String::from("B"), Priority::Medium, None), // gap — 2 was deleted
    ];

    assert_eq!(next_id(&tasks), 4);
}

#[test]
fn next_id_after_single_task() {
    let tasks = vec![Task::new(1, String::from("Only"), Priority::Medium, None)];

    assert_eq!(next_id(&tasks), 2);
}

#[test]
fn get_next_id_uses_the_largest_id_wherever_it_stands() {
    let tasks = vec![
        Task::new(9, String::from("A"), Priority::Medium, None),
        Task::new(3, String::from("B"), Priority::Medium, None),
    ];

    assert_eq!(get_next_id(&tasks), 10);
}
