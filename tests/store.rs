use task_tracker::store::{add_task, complete_task, find_task, CompleteError};
use task_tracker::task::Task;

fn task(id: u32, content: &str, completed: bool) -> Task {
    Task { id, content: content.to_string(), completed }
}

#[test]
fn add_numbers_tasks_in_order() {
    let mut tasks: Vec<Task> = Vec::new();
    for c in ["a", "b", "c", "d"] {
        add_task(&mut tasks, c.to_string());
    }
    assert_eq!(tasks.len(), 4);
    for (i, c) in ["a", "b", "c", "d"].iter().enumerate() {
        assert_eq!(tasks[i], task(i as u32 + 1, c, false));
    }
}

#[test]
fn add_to_loaded_store_uses_length() {
    let mut tasks = vec![task(1, "x", true), task(2, "y", false)];
    add_task(&mut tasks, String::new());
    assert_eq!(tasks[2], task(3, "", false));
    assert_eq!(tasks[0], task(1, "x", true));
}

#[test]
fn complete_marks_only_that_task() {
    let mut tasks = vec![task(1, "a", false), task(2, "b", false), task(3, "c", true)];
    assert_eq!(complete_task(&mut tasks, 2), Ok(()));
    assert_eq!(tasks, vec![task(1, "a", false), task(2, "b", true), task(3, "c", true)]);
}

#[test]
fn complete_twice_reports_already_completed() {
    let mut tasks = vec![task(1, "a", false)];
    assert_eq!(complete_task(&mut tasks, 1), Ok(()));
    assert_eq!(complete_task(&mut tasks, 1), Err(CompleteError::AlreadyCompleted));
    assert_eq!(tasks, vec![task(1, "a", true)]);
}

#[test]
fn complete_absent_id_reports_not_found() {
    let mut tasks = vec![task(1, "a", false), task(2, "b", true)];
    let before = tasks.clone();
    assert_eq!(complete_task(&mut tasks, 3), Err(CompleteError::NotFound));
    assert_eq!(tasks, before);
    let mut empty: Vec<Task> = Vec::new();
    assert_eq!(complete_task(&mut empty, 1), Err(CompleteError::NotFound));
    assert!(empty.is_empty());
}

#[test]
fn complete_picks_first_of_equal_ids() {
    let mut tasks = vec![task(1, "a", false), task(5, "b", false), task(5, "c", false)];
    assert_eq!(complete_task(&mut tasks, 5), Ok(()));
    assert_eq!(tasks, vec![task(1, "a", false), task(5, "b", true), task(5, "c", false)]);
}

#[test]
fn find_returns_first_position() {
    let tasks = vec![task(4, "a", false), task(7, "b", false), task(7, "c", true)];
    assert_eq!(find_task(&tasks, 7), Some(1));
    assert_eq!(find_task(&tasks, 4), Some(0));
    assert_eq!(find_task(&tasks, 9), None);
}

#[test]
fn task_new_is_open() {
    assert_eq!(Task::new(9, "z".to_string()), task(9, "z", false));
    assert_ne!(task(1, "a", false), task(1, "a", true));
    assert_ne!(task(1, "a", false), task(1, "b", false));
    assert_ne!(task(1, "a", false), task(2, "a", false));
}
