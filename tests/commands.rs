use todo_tui::command::{
    add_deadline, date_text_of, execute, parse_add_stamp, parse_command, process_command,
    Command, CommandError, Flow,
};
use todo_tui::clock::LocalStamp;
use todo_tui::task::{Deadline, Status, TimeFormat, Todo, Viewer};

fn task(name: &str, status: Status, timestamp: i64) -> Todo {
    Todo { name: name.to_string(), status, deadline: Deadline { timestamp, offset: 0 } }
}

fn names(todos: &Vec<Todo>) -> Vec<String> {
    todos.iter().map(|t| t.name.clone()).collect()
}

fn three() -> Vec<Todo> {
    vec![
        task("a", Status::NotStarted, 10),
        task("b", Status::InProgress, 20),
        task("c", Status::Completed, 30),
    ]
}

#[test]
fn toggle_twice_walks_the_cycle() {
    let mut todos = vec![task("one", Status::NotStarted, 100)];
    let mut viewer = Viewer::new();
    assert_eq!(process_command("t 0", &mut todos, &mut viewer), Ok(Flow::Continue));
    assert_eq!(todos[0].status, Status::InProgress);
    assert_eq!(process_command("t 0", &mut todos, &mut viewer), Ok(Flow::Continue));
    assert_eq!(todos[0].status, Status::Completed);
}

#[test]
fn toggle_three_times_restores_status() {
    let mut todos = three();
    let mut viewer = Viewer::new();
    for _ in 0..3 {
        assert_eq!(process_command("t 1", &mut todos, &mut viewer), Ok(Flow::Continue));
    }
    assert_eq!(todos[1].status, Status::InProgress);
    assert_eq!(process_command("t   2", &mut todos, &mut viewer), Ok(Flow::Continue));
    assert_eq!(todos[2].status, Status::NotStarted);
}

#[test]
fn unknown_command_changes_nothing() {
    let mut todos = three();
    let mut viewer = Viewer::new();
    assert_eq!(
        process_command("zzz", &mut todos, &mut viewer),
        Err(CommandError::InvalidCommand)
    );
    assert_eq!(names(&todos), vec!["a", "b", "c"]);
    assert_eq!(todos[0].status, Status::NotStarted);
    assert_eq!(todos[1].status, Status::InProgress);
    assert_eq!(viewer.time_format, TimeFormat::Remaining);
}

#[test]
fn delete_keeps_order_of_the_rest() {
    let mut todos = three();
    let mut viewer = Viewer::new();
    assert_eq!(process_command("d 1", &mut todos, &mut viewer), Ok(Flow::Continue));
    assert_eq!(names(&todos), vec!["a", "c"]);
    assert_eq!(process_command("  d 0  ", &mut todos, &mut viewer), Ok(Flow::Continue));
    assert_eq!(names(&todos), vec!["c"]);
}

#[test]
fn index_past_the_end_is_refused() {
    let mut viewer = Viewer::new();
    for line in ["d 3", "t 3", "e 3 new", "d 17"] {
        let mut todos = three();
        assert_eq!(
            process_command(line, &mut todos, &mut viewer),
            Err(CommandError::IndexOutOfBounds)
        );
        assert_eq!(names(&todos), vec!["a", "b", "c"]);
        assert_eq!(todos[2].status, Status::Completed);
    }
}

#[test]
fn index_too_large_is_a_format_error() {
    let mut todos = three();
    let mut viewer = Viewer::new();
    let line = "d 99999999999999999999999999";
    assert_eq!(
        process_command(line, &mut todos, &mut viewer),
        Err(CommandError::InvalidIndexFormat)
    );
    assert_eq!(todos.len(), 3);
    assert_eq!(
        parse_command("e 18446744073709551616 x").err(),
        Some(CommandError::InvalidIndexFormat)
    );
}

#[test]
fn edit_replaces_the_name_trimmed() {
    let mut todos = three();
    let mut viewer = Viewer::new();
    assert_eq!(process_command("e 2   New name", &mut todos, &mut viewer), Ok(Flow::Continue));
    assert_eq!(names(&todos), vec!["a", "b", "New name"]);
    assert_eq!(todos[2].status, Status::Completed);
    assert_eq!(todos[2].deadline.timestamp, 30);
}

#[test]
fn edit_needs_single_spaces() {
    assert_eq!(parse_command("e  0 x").err(), Some(CommandError::InvalidCommand));
    assert_eq!(parse_command("e 0").err(), Some(CommandError::InvalidCommand));
}

#[test]
fn mode_toggle_and_quit() {
    let mut todos = three();
    let mut viewer = Viewer::new();
    assert_eq!(process_command("s", &mut todos, &mut viewer), Ok(Flow::Continue));
    assert_eq!(viewer.time_format, TimeFormat::Absolute);
    assert_eq!(process_command(" s ", &mut todos, &mut viewer), Ok(Flow::Continue));
    assert_eq!(viewer.time_format, TimeFormat::Remaining);
    assert_eq!(process_command("q", &mut todos, &mut viewer), Ok(Flow::Quit));
    assert_eq!(todos.len(), 3);
}

#[test]
fn parse_add_command() {
    match parse_command("a (5 Dec 14:30) Submit report") {
        Ok(Command::Add { when, name }) => {
            assert_eq!(when, "5 Dec 14:30");
            assert_eq!(name, "Submit report");
        }
        other => panic!("unexpected {:?}", other),
    }
    match parse_command("a\t( 5 Dec 14:30 )   x)y (z") {
        Ok(Command::Add { when, name }) => {
            assert_eq!(when, "5 Dec 14:30");
            assert_eq!(name, "x)y (z");
        }
        other => panic!("unexpected {:?}", other),
    }
    match parse_command("a (x)y) z") {
        Ok(Command::Add { when, name }) => {
            assert_eq!(when, "x)y");
            assert_eq!(name, "z");
        }
        other => panic!("unexpected {:?}", other),
    }
    assert_eq!(parse_command("a () z").err(), Some(CommandError::InvalidCommand));
    assert_eq!(parse_command("a (x)z").err(), Some(CommandError::InvalidCommand));
}

#[test]
fn add_date_text_in_2024() {
    assert_eq!(date_text_of("5 Dec 14:30", 2024), "5 Dec 14:30 2024");
    assert_eq!(date_text_of("1 Jan 00:00", -7), "1 Jan 00:00 -7");
    assert_eq!(
        parse_add_stamp("5 Dec 14:30", 2024),
        Some(LocalStamp { year: 2024, month: 12, day: 5, hour: 14, minute: 30 })
    );
    assert_eq!(parse_add_stamp("31 Feb 10:00", 2024), None);
    assert_eq!(parse_add_stamp("5 Foo 14:30", 2024), None);
}

#[test]
fn add_deadline_is_the_local_wall_clock_time() {
    let d = add_deadline("5 Dec 14:30", 2024).expect("a single local instant");
    assert_eq!(d.timestamp + d.offset as i64, 1733409000);
    assert_eq!(add_deadline("5 Dec 25:30", 2024), None);
}

#[test]
fn add_appends_a_new_task() {
    let mut todos = three();
    let mut viewer = Viewer::new();
    assert_eq!(
        process_command("a (5 Dec 14:30) Submit report", &mut todos, &mut viewer),
        Ok(Flow::Continue)
    );
    assert_eq!(todos.len(), 4);
    assert_eq!(todos[3].name, "Submit report");
    assert_eq!(todos[3].status, Status::NotStarted);
    assert_eq!(
        process_command("a (5 Dex 14:30) Submit report", &mut todos, &mut viewer),
        Err(CommandError::InvalidDatetimeFormat)
    );
    assert_eq!(todos.len(), 4);
}

#[test]
fn execute_add_with_given_deadline() {
    let mut todos = three();
    let mut viewer = Viewer::new();
    let cmd = Command::Add { when: "5 Dec 14:30".to_string(), name: "x".to_string() };
    let d = Deadline { timestamp: 1733409000, offset: 3600 };
    assert_eq!(execute(cmd, &mut todos, &mut viewer, Some(d)), Ok(Flow::Continue));
    assert_eq!(todos[3].deadline, d);
    assert_eq!(todos[3].name, "x");
    let cmd = Command::Add { when: "bad".to_string(), name: "y".to_string() };
    assert_eq!(
        execute(cmd, &mut todos, &mut viewer, None),
        Err(CommandError::InvalidDatetimeFormat)
    );
    assert_eq!(todos.len(), 4);
}

#[test]
fn error_messages() {
    assert_eq!(CommandError::InvalidCommand.message(), "Invalid command format");
    assert_eq!(CommandError::InvalidIndexFormat.message(), "Invalid index format");
    assert_eq!(CommandError::IndexOutOfBounds.message(), "Index out of bounds");
    assert_eq!(CommandError::InvalidDatetimeFormat.message(), "Invalid datetime format");
}

#[test]
fn other_decimal_digits_are_an_index_format_error() {
    let mut viewer = Viewer::new();
    for line in ["d \u{663}", "t \u{663}", "e \u{663} x", "d 1\u{663}", "e 0\u{ff11} x"] {
        let mut todos = three();
        assert_eq!(
            process_command(line, &mut todos, &mut viewer),
            Err(CommandError::InvalidIndexFormat)
        );
        assert_eq!(names(&todos), vec!["a", "b", "c"]);
    }
    assert_eq!(parse_command("d x").err(), Some(CommandError::InvalidCommand));
}
