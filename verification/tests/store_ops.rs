use todo_cli::Command;
use todo_cli::Task;
use todo_cli::add;
use todo_cli::clear;
use todo_cli::dispatch;
use todo_cli::list_lines;
use todo_cli::mark_done;
use todo_cli::next_id;
use todo_cli::remove;

fn task(id: u32, text: &str, done: bool) -> Task {
    Task { id, text: text.to_owned(), done }
}

#[test]
fn next_id_on_empty_store_is_one() {
    let tasks: Vec<Task> = Vec::new();
    assert_eq!(next_id(&tasks), 1);
}

#[test]
fn next_id_is_one_more_than_max() {
    let tasks = vec![task(3, "a", false), task(7, "b", true), task(5, "c", false)];
    assert_eq!(next_id(&tasks), 8);
}

#[test]
fn add_assigns_strictly_increasing_ids() {
    let mut tasks: Vec<Task> = Vec::new();
    let a = add(&mut tasks, "first".to_owned());
    let b = add(&mut tasks, "second".to_owned());
    let c = add(&mut tasks, "third".to_owned());
    assert_eq!((a, b, c), (1, 2, 3));
    assert_eq!(tasks.len(), 3);
    assert_eq!(tasks[0].id, 1);
    assert_eq!(tasks[1].id, 2);
    assert_eq!(tasks[2].id, 3);
    assert!(tasks.iter().all(|t| !t.done));
}

#[test]
fn removed_ids_are_not_reused() {
    let mut tasks: Vec<Task> = Vec::new();
    let a = add(&mut tasks, "a".to_owned());
    let b = add(&mut tasks, "b".to_owned());
    assert_eq!((a, b), (1, 2));
    assert!(remove(&mut tasks, 1));
    let c = add(&mut tasks, "c".to_owned());
    assert_eq!(c, 3);
    assert_eq!(tasks.len(), 2);
    assert_eq!(tasks[0].id, 2);
    assert_eq!(tasks[1].id, 3);
}

#[test]
fn mark_done_is_idempotent() {
    let mut tasks = vec![task(1, "a", false), task(2, "b", false)];
    assert!(mark_done(&mut tasks, 2));
    assert!(tasks[1].done);
    assert!(mark_done(&mut tasks, 2));
    assert!(tasks[1].done);
    assert!(!tasks[0].done);
    assert_eq!(tasks.len(), 2);
    assert_eq!(tasks[1].text, "b");
}

#[test]
fn mark_done_on_unknown_id_changes_nothing() {
    let mut tasks = vec![task(1, "a", false)];
    assert!(!mark_done(&mut tasks, 9));
    assert_eq!(tasks.len(), 1);
    assert!(!tasks[0].done);
}

#[test]
fn remove_deletes_only_the_matching_task() {
    let mut tasks = vec![task(1, "a", false), task(2, "b", true), task(3, "c", false)];
    assert!(remove(&mut tasks, 2));
    assert_eq!(tasks.len(), 2);
    assert_eq!(tasks[0].id, 1);
    assert_eq!(tasks[1].id, 3);
    assert!(!remove(&mut tasks, 2));
    assert_eq!(tasks.len(), 2);
}

#[test]
fn clear_empties_the_store() {
    let mut tasks = vec![task(1, "a", false), task(2, "b", true)];
    clear(&mut tasks);
    assert!(tasks.is_empty());
}

#[test]
fn list_on_empty_store_prints_placeholder() {
    let tasks: Vec<Task> = Vec::new();
    let lines = list_lines(&tasks);
    assert_eq!(lines, vec!["(no tasks)".to_owned()]);
}

#[test]
fn list_lines_format_ids_and_marks() {
    let tasks = vec![task(1, "buy milk", false), task(42, "call", true), task(123, "x", false)];
    let lines = list_lines(&tasks);
    assert_eq!(lines.len(), 3);
    assert_eq!(lines[0], "  1. [ ] buy milk");
    assert_eq!(lines[1], " 42. [\u{2714}] call");
    assert_eq!(lines[2], "123. [ ] x");
}

#[test]
fn dispatch_done_on_missing_id_reports_and_succeeds() {
    let mut tasks: Vec<Task> = Vec::new();
    let (save, lines) = dispatch(&mut tasks, Command::Done(5));
    assert!(!save);
    assert_eq!(lines, vec!["no task with id 5".to_owned()]);
    assert!(tasks.is_empty());
}

#[test]
fn dispatch_rm_on_missing_id_reports_and_succeeds() {
    let mut tasks = vec![task(1, "a", false)];
    let (save, lines) = dispatch(&mut tasks, Command::Rm(2));
    assert!(!save);
    assert_eq!(lines, vec!["no task with id 2".to_owned()]);
    assert_eq!(tasks.len(), 1);
}

#[test]
fn missing_id_message_handles_large_ids() {
    let mut tasks: Vec<Task> = Vec::new();
    let (_, lines) = dispatch(&mut tasks, Command::Done(4294967295));
    assert_eq!(lines, vec!["no task with id 4294967295".to_owned()]);
}

#[test]
fn stored_id_zero_still_yields_next_id_one() {
    let tasks = vec![task(0, "zero", false)];
    assert_eq!(next_id(&tasks), 1);
}
