use todolist::persistence::{load, save};
use todolist::tasks::{Message, Task, TodoList};

fn task(description: &str, starred: bool, edit: bool) -> Task {
    Task { description: String::from(description), starred, edit }
}

#[test]
fn save_writes_the_exact_text() {
    let tasks = vec![task("p", false, false)];
    assert_eq!(save(&tasks), "[{\"description\":\"p\",\"starred\":false,\"edit\":false}]");
}

#[test]
fn save_writes_flags_and_commas() {
    let tasks = vec![task("p", true, false), task("q", false, true)];
    assert_eq!(
        save(&tasks),
        "[{\"description\":\"p\",\"starred\":true,\"edit\":false},{\"description\":\"q\",\"starred\":false,\"edit\":true}]"
    );
}

#[test]
fn save_escapes_special_characters() {
    let tasks = vec![task("a\"b\\c\nd\te\rf", false, false)];
    assert_eq!(
        save(&tasks),
        "[{\"description\":\"a\\\"b\\\\c\\nd\\te\\rf\",\"starred\":false,\"edit\":false}]"
    );
}

#[test]
fn save_of_empty_list_is_empty_array() {
    let tasks: Vec<Task> = vec![];
    assert_eq!(save(&tasks), "[]");
}

#[test]
fn save_then_load_returns_the_tasks() {
    let mut state = TodoList::new();
    assert!(state.apply(Message::Update(String::from("p"))));
    assert!(state.apply(Message::Add));
    assert!(state.apply(Message::Update(String::from("q"))));
    assert!(state.apply(Message::Add));
    let stored = save(&state.tasks);
    let loaded = load(Some(stored.as_str()));
    assert_eq!(loaded.len(), 2);
    assert_eq!(loaded[0].description, "p");
    assert_eq!(loaded[1].description, "q");
    assert!(!loaded[0].starred && !loaded[0].edit);
    assert!(!loaded[1].starred && !loaded[1].edit);
}

#[test]
fn save_then_load_keeps_flags_and_special_characters() {
    let tasks = vec![task("a\"b\\c\nd", true, true), task("", false, true)];
    let stored = save(&tasks);
    let loaded = load(Some(stored.as_str()));
    assert_eq!(loaded.len(), 2);
    assert_eq!(loaded[0].description, "a\"b\\c\nd");
    assert!(loaded[0].starred && loaded[0].edit);
    assert_eq!(loaded[1].description, "");
    assert!(!loaded[1].starred && loaded[1].edit);
}

#[test]
fn load_save_load_is_stable() {
    let stored = "[{\"description\":\"p\",\"starred\":true,\"edit\":false}]";
    let once = load(Some(stored));
    let again = load(Some(save(&once).as_str()));
    assert_eq!(once.len(), again.len());
    assert_eq!(once[0].description, again[0].description);
    assert_eq!(once[0].starred, again[0].starred);
    assert_eq!(once[0].edit, again[0].edit);
}

#[test]
fn load_of_nothing_is_empty() {
    assert_eq!(load(None).len(), 0);
}

#[test]
fn load_of_empty_array_is_empty() {
    assert_eq!(load(Some("[]")).len(), 0);
}

#[test]
fn load_of_malformed_text_is_empty() {
    assert_eq!(load(Some("")).len(), 0);
    assert_eq!(load(Some("not a list")).len(), 0);
    assert_eq!(load(Some("[{\"description\":\"p\"")).len(), 0);
    assert_eq!(load(Some("[{\"description\":3}]")).len(), 0);
    assert_eq!(load(Some("[{}]trailing")).len(), 0);
}

#[test]
fn load_fills_missing_fields_with_defaults() {
    let loaded = load(Some("[{}]"));
    assert_eq!(loaded.len(), 1);
    assert_eq!(loaded[0].description, "");
    assert!(!loaded[0].starred);
    assert!(!loaded[0].edit);

    let loaded = load(Some("[{\"starred\":true}]"));
    assert_eq!(loaded.len(), 1);
    assert_eq!(loaded[0].description, "");
    assert!(loaded[0].starred);
}

#[test]
fn load_ignores_unknown_fields() {
    let loaded = load(Some(
        "[{\"description\":\"p\",\"starred\":true,\"edit\":false,\"due\":null,\"rank\":-1.5e2,\"note\":\"x\",\"done\":true}]",
    ));
    assert_eq!(loaded.len(), 1);
    assert_eq!(loaded[0].description, "p");
    assert!(loaded[0].starred);
    assert!(!loaded[0].edit);
}

#[test]
fn load_reads_escapes_in_any_field_order() {
    let loaded = load(Some(
        "[{\"edit\":true,\"description\":\"a\\\"b\\\\c\\nd\\u0041\",\"starred\":false}]",
    ));
    assert_eq!(loaded.len(), 0);
    let loaded = load(Some(
        "[{\"edit\":true,\"description\":\"a\\\"b\\\\c\\nd\\/e\\b\\f\",\"starred\":false}]",
    ));
    assert_eq!(loaded.len(), 1);
    assert_eq!(loaded[0].description, "a\"b\\c\nd/e\u{0008}\u{000C}");
    assert!(loaded[0].edit);
    assert!(!loaded[0].starred);
}
