use todo_cli::Command;
use todo_cli::Task;
use todo_cli::dispatch;
use todo_cli::encode_tasks;
use todo_cli::load_tasks;

#[test]
fn full_session_from_no_storage_file() {
    // First run: no storage file yet.
    let mut tasks = load_tasks(None).expect("missing file is an empty store");
    assert!(tasks.is_empty());

    // add "buy milk"
    let (save, lines) = dispatch(&mut tasks, Command::Add("buy milk".to_owned()));
    assert!(save);
    assert_eq!(lines, vec!["\u{2713} added".to_owned()]);
    assert_eq!(tasks.len(), 1);
    assert_eq!(tasks[0].id, 1);
    assert_eq!(tasks[0].text, "buy milk");
    assert!(!tasks[0].done);

    // the save → load cycle between invocations
    let stored = encode_tasks(&tasks);
    let mut tasks = load_tasks(Some(&stored)).expect("saved store loads");
    assert_eq!(tasks.len(), 1);

    // list
    let (save, lines) = dispatch(&mut tasks, Command::List);
    assert!(!save);
    assert_eq!(lines, vec!["  1. [ ] buy milk".to_owned()]);

    // done 1
    let (save, lines) = dispatch(&mut tasks, Command::Done(1));
    assert!(save);
    assert_eq!(lines, vec!["\u{2713} marked as done".to_owned()]);
    assert!(tasks[0].done);

    // rm 2: nothing with that id, reported but not an error
    let (save, lines) = dispatch(&mut tasks, Command::Rm(2));
    assert!(!save);
    assert_eq!(lines, vec!["no task with id 2".to_owned()]);
    assert_eq!(tasks.len(), 1);

    // clear
    let (save, lines) = dispatch(&mut tasks, Command::Clear);
    assert!(save);
    assert_eq!(lines, vec!["\u{2713} cleared".to_owned()]);
    assert!(tasks.is_empty());

    // list again: the placeholder, not silence
    let (save, lines) = dispatch(&mut tasks, Command::List);
    assert!(!save);
    assert_eq!(lines, vec!["(no tasks)".to_owned()]);
}

#[test]
fn dispatch_add_then_list_shows_done_mark() {
    let mut tasks: Vec<Task> = Vec::new();
    dispatch(&mut tasks, Command::Add("one".to_owned()));
    dispatch(&mut tasks, Command::Add("two".to_owned()));
    dispatch(&mut tasks, Command::Done(2));
    let (_, lines) = dispatch(&mut tasks, Command::List);
    assert_eq!(lines, vec!["  1. [ ] one".to_owned(), "  2. [\u{2714}] two".to_owned()]);
}

#[test]
fn corrupt_file_blocks_every_loading_command() {
    let corrupt = "[{\"id\": oops]";
    assert!(load_tasks(Some(corrupt)).is_err());
}
