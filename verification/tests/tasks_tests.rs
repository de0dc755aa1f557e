use taskchat::json::opens_array;
use taskchat::tasks::{
    add_task, checked_context, complete_task, get_next_id, highest_id, remove_task, tasks_context,
    Task,
};

fn task(id: u8, description: &str, completed: bool) -> Task {
    Task { id, description: description.to_string(), completed }
}

#[test]
fn next_id_of_the_empty_list_is_one() {
    assert_eq!(highest_id(&Vec::new()), 0);
    assert_eq!(get_next_id(&Vec::new()), 1);
}

#[test]
fn next_id_is_one_more_than_the_highest() {
    let tasks = vec![task(1, "a", false), task(5, "b", true), task(3, "c", false)];
    assert_eq!(highest_id(&tasks), 5);
    assert_eq!(get_next_id(&tasks), 6);
    assert_eq!(get_next_id(&vec![task(254, "x", false)]), 255);
}

#[test]
fn highest_id_reaches_the_limit() {
    assert_eq!(highest_id(&vec![task(255, "x", false), task(2, "y", false)]), 255);
}

#[test]
fn added_task_is_open_and_last() {
    let mut tasks = vec![task(2, "a", true)];
    assert_eq!(add_task(&mut tasks, "Buy milk".to_string()), 3);
    assert_eq!(tasks, vec![task(2, "a", true), task(3, "Buy milk", false)]);
    let mut empty = Vec::new();
    assert_eq!(add_task(&mut empty, "first".to_string()), 1);
    assert_eq!(empty, vec![task(1, "first", false)]);
}

#[test]
fn completing_marks_the_first_task_with_the_id() {
    let mut tasks = vec![task(1, "a", false), task(2, "b", false), task(2, "c", false)];
    assert!(complete_task(&mut tasks, 2));
    assert_eq!(tasks, vec![task(1, "a", false), task(2, "b", true), task(2, "c", false)]);
    assert!(complete_task(&mut tasks, 2));
    assert_eq!(tasks, vec![task(1, "a", false), task(2, "b", true), task(2, "c", false)]);
}

#[test]
fn completing_an_unknown_id_changes_nothing() {
    let mut tasks = vec![task(1, "a", false)];
    assert!(!complete_task(&mut tasks, 9));
    assert_eq!(tasks, vec![task(1, "a", false)]);
    let mut empty: Vec<Task> = Vec::new();
    assert!(!complete_task(&mut empty, 1));
}

#[test]
fn removing_drops_every_task_with_the_id() {
    let mut tasks = vec![task(1, "a", false), task(2, "b", true), task(1, "c", false), task(3, "d", false)];
    assert!(remove_task(&mut tasks, 1));
    assert_eq!(tasks, vec![task(2, "b", true), task(3, "d", false)]);
    assert!(!remove_task(&mut tasks, 1));
    assert_eq!(tasks, vec![task(2, "b", true), task(3, "d", false)]);
}

#[test]
fn context_is_the_stored_text_when_it_is_a_json_array() {
    let stored = "[{\"id\":1,\"description\":\"x\",\"completed\":false}]";
    assert_eq!(tasks_context(Some(stored.to_string())), stored);
    assert_eq!(tasks_context(Some("[]".to_string())), "[]");
    assert_eq!(tasks_context(Some("  [ ]\n".to_string())), "  [ ]\n");
    assert_eq!(tasks_context(Some("\t\r\n [1, [2]] ".to_string())), "\t\r\n [1, [2]] ");
}

#[test]
fn context_is_the_empty_array_for_json_that_is_no_array() {
    assert_eq!(tasks_context(Some("{}".to_string())), "[]");
    assert_eq!(tasks_context(Some("{\"a\":1}".to_string())), "[]");
    assert_eq!(tasks_context(Some("{\"any\":[1]}".to_string())), "[]");
    assert_eq!(tasks_context(Some("42".to_string())), "[]");
    assert_eq!(tasks_context(Some("\"[]\"".to_string())), "[]");
    assert_eq!(tasks_context(Some("null".to_string())), "[]");
    assert_eq!(tasks_context(Some(" true".to_string())), "[]");
}

#[test]
fn context_is_the_empty_array_for_text_that_is_no_json() {
    assert_eq!(tasks_context(None), "[]");
    assert_eq!(tasks_context(Some("".to_string())), "[]");
    assert_eq!(tasks_context(Some("[1,".to_string())), "[]");
    assert_eq!(tasks_context(Some("not json".to_string())), "[]");
    assert_eq!(tasks_context(Some("[] []".to_string())), "[]");
    assert_eq!(tasks_context(Some("\u{a0}[]".to_string())), "[]");
}

#[test]
fn checked_context_follows_the_verdict_and_the_opening() {
    assert_eq!(checked_context("[1]".to_string(), true), "[1]");
    assert_eq!(checked_context(" \n[1]".to_string(), true), " \n[1]");
    assert_eq!(checked_context("[1".to_string(), false), "[]");
    assert_eq!(checked_context("[1]".to_string(), false), "[]");
    assert_eq!(checked_context("{}".to_string(), true), "[]");
    assert_eq!(checked_context("42".to_string(), true), "[]");
    assert_eq!(checked_context("".to_string(), true), "[]");
}

#[test]
fn array_opening_is_judged_after_json_whitespace() {
    assert!(opens_array("[]"));
    assert!(opens_array(" \t\r\n["));
    assert!(!opens_array(""));
    assert!(!opens_array("   "));
    assert!(!opens_array("{[]}"));
    assert!(!opens_array("x["));
    assert!(!opens_array("\u{a0}["));
}
