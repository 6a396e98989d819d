use todolist::tasks::{Message, TodoList};
use todolist::ui::{key_message, view};

#[test]
fn view_lists_descriptions_in_order() {
    let mut state = TodoList::new();
    assert!(state.apply(Message::Update(String::from("a"))));
    assert!(state.apply(Message::Add));
    assert!(state.apply(Message::Update(String::from("b"))));
    assert!(state.apply(Message::Add));
    assert!(state.apply(Message::Update(String::from("half typed"))));
    let doc = view(&state);
    assert_eq!(doc.heading, "Todo List");
    assert_eq!(doc.input_placeholder, "New Task");
    assert_eq!(doc.add_label, "Add");
    assert_eq!(doc.input_value, "half typed");
    assert_eq!(doc.items.len(), 2);
    assert_eq!(doc.items[0], "a");
    assert_eq!(doc.items[1], "b");
}

#[test]
fn view_of_empty_state_has_no_items() {
    let state = TodoList::new();
    let doc = view(&state);
    assert_eq!(doc.items.len(), 0);
    assert_eq!(doc.input_value, "");
}

#[test]
fn enter_adds_and_other_keys_do_nothing() {
    assert!(matches!(key_message("Enter"), Message::Add));
    assert!(matches!(key_message("a"), Message::Nothing));
    assert!(matches!(key_message(""), Message::Nothing));
    assert!(matches!(key_message("Escape"), Message::Nothing));
}
