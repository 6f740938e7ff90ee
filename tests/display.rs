use todo_tui::render::{remaining_text, LineColor};
use todo_tui::task::{Deadline, Status, TimeFormat, Todo, Viewer};

const NOW: i64 = 1_700_000_000;

fn task(name: &str, status: Status, timestamp: i64) -> Todo {
    Todo { name: name.to_string(), status, deadline: Deadline { timestamp, offset: 0 } }
}

#[test]
fn remaining_uses_largest_unit() {
    assert_eq!(remaining_text(NOW + 3 * 86_400 + 7_200, NOW), "3d");
    assert_eq!(remaining_text(NOW + 5 * 3_600 + 59, NOW), "5h");
    assert_eq!(remaining_text(NOW + 12 * 60 + 30, NOW), "12m");
    assert_eq!(remaining_text(NOW + 40, NOW), "40s");
    assert_eq!(remaining_text(NOW, NOW), "0s");
}

#[test]
fn remaining_is_the_same_before_and_after() {
    assert_eq!(remaining_text(NOW - 3 * 86_400, NOW), "3d");
    assert_eq!(remaining_text(NOW - 40, NOW), "40s");
    assert_eq!(remaining_text(i64::MIN, i64::MAX), "213503982334601d");
}

#[test]
fn print_in_both_modes() {
    let mut viewer = Viewer::new();
    let t = task("Submit report", Status::InProgress, 1733409000);
    assert_eq!(t.print(&viewer, 1733409000 - 2 * 3_600), "[.] (2h) Submit report");
    viewer.flip_time_format();
    assert_eq!(viewer.time_format, TimeFormat::Absolute);
    assert_eq!(t.print(&viewer, NOW), "[.] (05 Dec ⋅ 14:30) Submit report");
    let shifted = Todo {
        name: "x".to_string(),
        status: Status::Completed,
        deadline: Deadline { timestamp: 1733409000, offset: 3_600 },
    };
    assert_eq!(shifted.print(&viewer, NOW), "[✓] (05 Dec ⋅ 15:30) x");
    let open = task("y", Status::NotStarted, NOW + 61);
    viewer.flip_time_format();
    assert_eq!(open.print(&viewer, NOW), "[ ] (1m) y");
}

#[test]
fn overdue_open_task_shows_alert_in_any_mode() {
    let mut viewer = Viewer::new();
    let late = task("late", Status::NotStarted, NOW - 10);
    assert_eq!(late.line_color(NOW), LineColor::Alert);
    viewer.flip_time_format();
    assert_eq!(late.line_color(NOW), LineColor::Alert);
    let busy = task("busy", Status::InProgress, NOW - 1);
    assert_eq!(busy.line_color(NOW), LineColor::Alert);
}

#[test]
fn colors_of_done_and_upcoming() {
    assert_eq!(task("d", Status::Completed, NOW - 10).line_color(NOW), LineColor::Success);
    assert_eq!(task("u", Status::NotStarted, NOW + 10).line_color(NOW), LineColor::Plain);
    assert_eq!(task("n", Status::InProgress, NOW).line_color(NOW), LineColor::Plain);
}
