use todo_tui::storage::{load_plan, LoadPlan, EMPTY_STORE};
use todo_tui::task::{sort_by_deadline, Deadline, Status, Todo};

fn task(name: &str, timestamp: i64) -> Todo {
    Todo { name: name.to_string(), status: Status::NotStarted, deadline: Deadline { timestamp, offset: 0 } }
}

#[test]
fn sort_orders_by_deadline_and_keeps_ties() {
    let mut todos = vec![task("c", 30), task("a1", 10), task("b", 20), task("a2", 10), task("z", -5)];
    sort_by_deadline(&mut todos);
    let names: Vec<&str> = todos.iter().map(|t| t.name.as_str()).collect();
    assert_eq!(names, vec!["z", "a1", "a2", "b", "c"]);
}

#[test]
fn sort_of_empty_and_sorted() {
    let mut empty: Vec<Todo> = Vec::new();
    sort_by_deadline(&mut empty);
    assert!(empty.is_empty());
    let mut todos = vec![task("x", 1), task("y", 1), task("z", 2)];
    sort_by_deadline(&mut todos);
    let names: Vec<&str> = todos.iter().map(|t| t.name.as_str()).collect();
    assert_eq!(names, vec!["x", "y", "z"]);
}

#[test]
fn load_plan_cases() {
    assert_eq!(load_plan(false, ""), LoadPlan::CreateEmpty);
    assert_eq!(load_plan(true, ""), LoadPlan::Empty);
    assert_eq!(load_plan(true, "  \n\t "), LoadPlan::Empty);
    assert_eq!(load_plan(true, "[]"), LoadPlan::Parse);
    assert_eq!(EMPTY_STORE, "[]");
}
