//! The view's pure half: a declarative description of the page for a given
//! state, and the mapping from a key press to the message it emits. The
//! rendering host only has to display the description and route events.

use vstd::prelude::*;
use vstd::string::StringExecFns;

use crate::tasks::{Message, MessageModel, TodoList};

verus! {

/// A declarative description of the page: fixed texts, the bound value of
/// the new-task field, and one line per task.
pub struct Document {
    pub heading: String,
    pub input_value: String,
    pub input_placeholder: String,
    pub add_label: String,
    pub items: Vec<String>,
}

/// The page for a state: fixed heading and labels, the new-task field bound
/// to the pending input, and the tasks' descriptions listed in order.
pub fn view(state: &TodoList) -> (doc: Document)
    ensures
        doc.heading@ == "Todo List"@,
        doc.input_placeholder@ == "New Task"@,
        doc.add_label@ == "Add"@,
        doc.input_value@ == state@.input,
        doc.items@.len() == state@.tasks.len(),
        forall|j: int| 0 <= j < state@.tasks.len() ==> doc.items@[j]@
            == state@.tasks[j].description,
{
    let mut items: Vec<String> = Vec::new();
    let mut k: usize = 0;
    while k < state.tasks.len()
        invariant
            k <= state.tasks.len(),
            items@.len() == k,
            forall|j: int| 0 <= j < k ==> items@[j]@ == state.tasks@[j]@.description,
        decreases state.tasks.len() - k,
    {
        items.push(state.tasks[k].description.clone());
        k += 1;
    }
    Document {
        heading: String::from_str("Todo List"),
        input_value: state.input.clone(),
        input_placeholder: String::from_str("New Task"),
        add_label: String::from_str("Add"),
        items,
    }
}

/// The message for a key press in the new-task field: the Enter key adds the
/// task, every other key does nothing.
pub fn key_message(key: &str) -> (m: Message)
    ensures
        m@ == if key@ == "Enter"@ {
            MessageModel::Add
        } else {
            MessageModel::Nothing
        },
{
    if key.to_owned() == String::from_str("Enter") {
        Message::Add
    } else {
        Message::Nothing
    }
}

} // verus!
