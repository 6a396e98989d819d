use todolist::tasks::{Message, Task, TodoList};

fn add(state: &mut TodoList, text: &str) {
    assert!(state.apply(Message::Update(String::from(text))));
    assert!(state.apply(Message::Add));
}

#[test]
fn update_then_add_makes_one_task() {
    let mut state = TodoList::new();
    assert!(state.apply(Message::Update(String::from("buy milk"))));
    assert_eq!(state.input, "buy milk");
    assert!(state.apply(Message::Add));
    assert_eq!(state.tasks.len(), 1);
    assert_eq!(state.tasks[0].description, "buy milk");
    assert!(!state.tasks[0].starred);
    assert!(!state.tasks[0].edit);
    assert_eq!(state.input, "");
}

#[test]
fn update_is_idempotent() {
    let mut state = TodoList::new();
    assert!(state.apply(Message::Update(String::from("same"))));
    assert!(state.apply(Message::Update(String::from("same"))));
    assert_eq!(state.input, "same");
    assert_eq!(state.tasks.len(), 0);
}

#[test]
fn add_accepts_empty_input() {
    let mut state = TodoList::new();
    assert!(state.apply(Message::Add));
    assert_eq!(state.tasks.len(), 1);
    assert_eq!(state.tasks[0].description, "");
}

#[test]
fn remove_first_of_two_keeps_second() {
    let mut state = TodoList::new();
    add(&mut state, "a");
    add(&mut state, "b");
    assert!(state.apply(Message::Remove(0)));
    assert_eq!(state.tasks.len(), 1);
    assert_eq!(state.tasks[0].description, "b");
    assert!(!state.tasks[0].starred);
    assert!(!state.tasks[0].edit);
}

#[test]
fn remove_keeps_relative_order() {
    let mut state = TodoList::new();
    add(&mut state, "a");
    add(&mut state, "b");
    add(&mut state, "c");
    add(&mut state, "d");
    assert!(state.apply(Message::Remove(1)));
    assert_eq!(state.tasks.len(), 3);
    assert_eq!(state.tasks[0].description, "a");
    assert_eq!(state.tasks[1].description, "c");
    assert_eq!(state.tasks[2].description, "d");
}

#[test]
fn remove_out_of_range_is_dropped() {
    let mut state = TodoList::new();
    assert!(!state.apply(Message::Remove(5)));
    assert_eq!(state.tasks.len(), 0);
    assert_eq!(state.input, "");
    assert_eq!(state.edit_input, "");
}

#[test]
fn edit_commits_edit_input_in_place() {
    let mut state = TodoList::new();
    add(&mut state, "x");
    assert!(state.apply(Message::Toggle(0)));
    assert!(state.tasks[0].edit);
    assert!(state.apply(Message::UpdateEdit(String::from("y"))));
    assert_eq!(state.edit_input, "y");
    assert!(state.apply(Message::Edit(0)));
    assert_eq!(state.tasks.len(), 1);
    assert_eq!(state.tasks[0].description, "y");
    assert!(!state.tasks[0].starred);
    assert!(!state.tasks[0].edit);
}

#[test]
fn edit_preserves_starred_and_position() {
    let mut state = TodoList {
        tasks: vec![
            Task { description: String::from("a"), starred: false, edit: false },
            Task { description: String::from("b"), starred: true, edit: true },
            Task { description: String::from("c"), starred: false, edit: false },
        ],
        input: String::new(),
        edit_input: String::from("new b"),
    };
    assert!(state.apply(Message::Edit(1)));
    assert_eq!(state.tasks.len(), 3);
    assert_eq!(state.tasks[0].description, "a");
    assert_eq!(state.tasks[1].description, "new b");
    assert!(state.tasks[1].starred);
    assert!(!state.tasks[1].edit);
    assert_eq!(state.tasks[2].description, "c");
    assert_eq!(state.edit_input, "new b");
}

#[test]
fn edit_out_of_range_is_dropped() {
    let mut state = TodoList::new();
    add(&mut state, "only");
    assert!(!state.apply(Message::Edit(1)));
    assert_eq!(state.tasks.len(), 1);
    assert_eq!(state.tasks[0].description, "only");
}

#[test]
fn toggle_flips_only_that_task() {
    let mut state = TodoList::new();
    add(&mut state, "a");
    add(&mut state, "b");
    assert!(state.apply(Message::Toggle(1)));
    assert!(!state.tasks[0].edit);
    assert!(state.tasks[1].edit);
    assert_eq!(state.tasks[1].description, "b");
    assert!(!state.tasks[1].starred);
    assert!(state.apply(Message::Toggle(1)));
    assert!(!state.tasks[1].edit);
}

#[test]
fn toggle_out_of_range_is_dropped() {
    let mut state = TodoList::new();
    assert!(!state.apply(Message::Toggle(0)));
    assert_eq!(state.tasks.len(), 0);
}

#[test]
fn remove_all_clears_tasks_and_keeps_fields() {
    let mut state = TodoList::new();
    add(&mut state, "a");
    add(&mut state, "b");
    add(&mut state, "c");
    assert!(state.apply(Message::Update(String::from("pending"))));
    assert!(state.apply(Message::UpdateEdit(String::from("editing"))));
    assert!(state.apply(Message::RemoveAll));
    assert_eq!(state.tasks.len(), 0);
    assert_eq!(state.input, "pending");
    assert_eq!(state.edit_input, "editing");
}

#[test]
fn remove_all_after_adds_leaves_empty_input() {
    let mut state = TodoList::new();
    add(&mut state, "a");
    add(&mut state, "b");
    add(&mut state, "c");
    assert!(state.apply(Message::RemoveAll));
    assert_eq!(state.tasks.len(), 0);
    assert_eq!(state.input, "");
}

#[test]
fn nothing_changes_nothing_and_reports_false() {
    let mut state = TodoList::new();
    add(&mut state, "a");
    assert!(state.apply(Message::Update(String::from("typed"))));
    assert!(!state.apply(Message::Nothing));
    assert_eq!(state.tasks.len(), 1);
    assert_eq!(state.tasks[0].description, "a");
    assert_eq!(state.input, "typed");
}
