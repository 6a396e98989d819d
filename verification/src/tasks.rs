//! The data model: one todo item, the whole list state, and the message
//! alphabet the reducer consumes, together with their mathematical views.

use vstd::prelude::*;

verus! {

/// One todo item: a free-form description plus two flags.
pub struct Task {
    pub description: String,
    pub starred: bool,
    pub edit: bool,
}

/// Mathematical view of a [`Task`].
#[verifier::ext_equal]
pub struct TaskModel {
    pub description: Seq<char>,
    pub starred: bool,
    pub edit: bool,
}

impl View for Task {
    type V = TaskModel;

    open spec fn view(&self) -> TaskModel {
        TaskModel { description: self.description@, starred: self.starred, edit: self.edit }
    }
}

/// The views of a sequence of tasks, in order.
pub open spec fn views_of(ts: Seq<Task>) -> Seq<TaskModel> {
    ts.map_values(|t: Task| t@)
}

/// The whole application state: the task list plus the two text fields.
pub struct TodoList {
    pub tasks: Vec<Task>,
    pub input: String,
    pub edit_input: String,
}

/// Mathematical view of a [`TodoList`].
#[verifier::ext_equal]
pub struct StateModel {
    pub tasks: Seq<TaskModel>,
    pub input: Seq<char>,
    pub edit_input: Seq<char>,
}

impl View for TodoList {
    type V = StateModel;

    open spec fn view(&self) -> StateModel {
        StateModel {
            tasks: views_of(self.tasks@),
            input: self.input@,
            edit_input: self.edit_input@,
        }
    }
}

impl TodoList {
    /// The empty state: no tasks, both text fields empty.
    pub fn new() -> (s: TodoList)
        ensures
            s@ == (StateModel {
                tasks: Seq::<TaskModel>::empty(),
                input: Seq::<char>::empty(),
                edit_input: Seq::<char>::empty(),
            }),
    {
        let s = TodoList { tasks: Vec::new(), input: String::new(), edit_input: String::new() };
        proof {
            assert(s@.tasks =~= Seq::<TaskModel>::empty());
        }
        s
    }
}

/// A command for the reducer.
pub enum Message {
    /// Create a new task from the current input field.
    Add,
    /// The user typed in the new-task field.
    Update(String),
    /// Remove the task at an index.
    Remove(usize),
    /// Commit the edit field into the task at an index.
    Edit(usize),
    /// The user typed in the edit field.
    UpdateEdit(String),
    /// Toggle whether the task at an index is being edited.
    Toggle(usize),
    /// Clear all tasks.
    RemoveAll,
    /// No action.
    Nothing,
}

/// Mathematical view of a [`Message`].
pub enum MessageModel {
    Add,
    Update(Seq<char>),
    Remove(int),
    Edit(int),
    UpdateEdit(Seq<char>),
    Toggle(int),
    RemoveAll,
    Nothing,
}

impl View for Message {
    type V = MessageModel;

    open spec fn view(&self) -> MessageModel {
        match self {
            Message::Add => MessageModel::Add,
            Message::Update(s) => MessageModel::Update(s@),
            Message::Remove(i) => MessageModel::Remove(*i as int),
            Message::Edit(i) => MessageModel::Edit(*i as int),
            Message::UpdateEdit(s) => MessageModel::UpdateEdit(s@),
            Message::Toggle(i) => MessageModel::Toggle(*i as int),
            Message::RemoveAll => MessageModel::RemoveAll,
            Message::Nothing => MessageModel::Nothing,
        }
    }
}

} // verus!
