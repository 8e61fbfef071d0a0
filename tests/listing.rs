use task_tracker::decimal::{parse_task_id, push_decimal};
use task_tracker::listing::{list_tasks, render_row};
use task_tracker::store::{add_task, complete_task, CompleteError};
use task_tracker::task::Task;

#[test]
fn list_empty_store_shows_only_message() {
    let tasks: Vec<Task> = Vec::new();
    assert_eq!(list_tasks(&tasks), vec!["No tasks found.".to_string()]);
}

#[test]
fn render_row_marks_done_and_open() {
    let done = Task { id: 12, content: "buy milk".to_string(), completed: true };
    let open = Task { id: 3, content: "walk dog".to_string(), completed: false };
    assert_eq!(render_row(&done), "[12] x - buy milk");
    assert_eq!(render_row(&open), "[3]   - walk dog");
}

#[test]
fn decimal_digits() {
    for (n, text) in [(0u32, "0"), (7, "7"), (10, "10"), (305, "305"), (4294967295, "4294967295")] {
        let mut s = String::from("id=");
        push_decimal(&mut s, n);
        assert_eq!(s, format!("id={}", text));
    }
}

#[test]
fn parse_task_id_accepts_digits_only() {
    assert_eq!(parse_task_id("1"), Some(1));
    assert_eq!(parse_task_id("0"), Some(0));
    assert_eq!(parse_task_id("0042"), Some(42));
    assert_eq!(parse_task_id("4294967295"), Some(4294967295));
    assert_eq!(parse_task_id("4294967296"), None);
    assert_eq!(parse_task_id("99999999999"), None);
    assert_eq!(parse_task_id(""), None);
    assert_eq!(parse_task_id("-1"), None);
    assert_eq!(parse_task_id("1a"), None);
    assert_eq!(parse_task_id(" 1"), None);
    assert_eq!(parse_task_id("abc"), None);
}

#[test]
fn scenario_add_complete_list() {
    let mut tasks: Vec<Task> = Vec::new();
    add_task(&mut tasks, "buy milk".to_string());
    assert_eq!(tasks, vec![Task { id: 1, content: "buy milk".to_string(), completed: false }]);
    add_task(&mut tasks, "walk dog".to_string());
    assert_eq!(tasks[1], Task { id: 2, content: "walk dog".to_string(), completed: false });
    assert_eq!(complete_task(&mut tasks, 1), Ok(()));
    assert!(tasks[0].completed);
    assert_eq!(tasks[1], Task { id: 2, content: "walk dog".to_string(), completed: false });
    assert_eq!(
        list_tasks(&tasks),
        vec!["[1] x - buy milk".to_string(), "[2]   - walk dog".to_string()]
    );
}

#[test]
fn scenario_complete_missing_leaves_store() {
    let mut tasks: Vec<Task> = Vec::new();
    add_task(&mut tasks, "buy milk".to_string());
    add_task(&mut tasks, "walk dog".to_string());
    assert_eq!(complete_task(&mut tasks, 1), Ok(()));
    let before = tasks.clone();
    assert_eq!(complete_task(&mut tasks, 99), Err(CompleteError::NotFound));
    assert_eq!(tasks, before);
}

#[test]
fn listed_id_reads_back() {
    for n in [0u32, 9, 10, 99, 100, 65536, 4294967295] {
        let mut s = String::new();
        push_decimal(&mut s, n);
        assert_eq!(parse_task_id(&s), Some(n));
    }
}
