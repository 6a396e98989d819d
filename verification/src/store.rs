//! The store: a pure reducer applying one [`Message`] to the state, and the
//! laws that hold of it.
//!
//! Every message except `Nothing` is accepted and reported with a `true`
//! rerender flag; an index that is out of range is dropped: the state is left
//! unchanged and the flag is `false`.

use vstd::prelude::*;

use crate::tasks::{Message, MessageModel, StateModel, Task, TaskModel, TodoList};

verus! {

/// What one message does to the state, and whether the caller should
/// rerender: the reducer's whole behaviour, as a mathematical function.
pub open spec fn spec_apply(s: StateModel, m: MessageModel) -> (StateModel, bool) {
    match m {
        MessageModel::Add => (
            StateModel {
                tasks: s.tasks.push(
                    TaskModel { description: s.input, starred: false, edit: false },
                ),
                input: Seq::<char>::empty(),
                edit_input: s.edit_input,
            },
            true,
        ),
        MessageModel::Update(t) => (
            StateModel { tasks: s.tasks, input: t, edit_input: s.edit_input },
            true,
        ),
        MessageModel::Remove(i) => if 0 <= i < s.tasks.len() {
            (
                StateModel { tasks: s.tasks.remove(i), input: s.input, edit_input: s.edit_input },
                true,
            )
        } else {
            (s, false)
        },
        MessageModel::Edit(i) => if 0 <= i < s.tasks.len() {
            (
                StateModel {
                    tasks: s.tasks.update(
                        i,
                        TaskModel {
                            description: s.edit_input,
                            starred: s.tasks[i].starred,
                            edit: false,
                        },
                    ),
                    input: s.input,
                    edit_input: s.edit_input,
                },
                true,
            )
        } else {
            (s, false)
        },
        MessageModel::UpdateEdit(t) => (
            StateModel { tasks: s.tasks, input: s.input, edit_input: t },
            true,
        ),
        MessageModel::Toggle(i) => if 0 <= i < s.tasks.len() {
            (
                StateModel {
                    tasks: s.tasks.update(
                        i,
                        TaskModel {
                            description: s.tasks[i].description,
                            starred: s.tasks[i].starred,
                            edit: !s.tasks[i].edit,
                        },
                    ),
                    input: s.input,
                    edit_input: s.edit_input,
                },
                true,
            )
        } else {
            (s, false)
        },
        MessageModel::RemoveAll => (
            StateModel { tasks: Seq::<TaskModel>::empty(), input: s.input, edit_input: s.edit_input },
            true,
        ),
        MessageModel::Nothing => (s, false),
    }
}

impl TodoList {
    /// Apply one message to the state; the result says whether the view
    /// should rerender.
    pub fn apply(&mut self, msg: Message) -> (rerender: bool)
        ensures
            final(self)@ == spec_apply(old(self)@, msg@).0,
            rerender == spec_apply(old(self)@, msg@).1,
    {
        match msg {
            Message::Add => {
                let item = Task { description: self.input.clone(), starred: false, edit: false };
                self.tasks.push(item);
                self.input = String::new();
                proof {
                    assert(self@.tasks =~= spec_apply(old(self)@, msg@).0.tasks);
                }
                true
            },
            Message::Update(s) => {
                self.input = s;
                true
            },
            Message::Remove(i) => {
                if i < self.tasks.len() {
                    self.tasks.remove(i);
                    proof {
                        assert(self@.tasks =~= spec_apply(old(self)@, msg@).0.tasks);
                    }
                    true
                } else {
                    false
                }
            },
            Message::Edit(i) => {
                if i < self.tasks.len() {
                    let modified = Task {
                        description: self.edit_input.clone(),
                        starred: self.tasks[i].starred,
                        edit: false,
                    };
                    self.tasks.set(i, modified);
                    proof {
                        assert(self@.tasks =~= spec_apply(old(self)@, msg@).0.tasks);
                    }
                    true
                } else {
                    false
                }
            },
            Message::UpdateEdit(s) => {
                self.edit_input = s;
                true
            },
            Message::Toggle(i) => {
                if i < self.tasks.len() {
                    let flipped = Task {
                        description: self.tasks[i].description.clone(),
                        starred: self.tasks[i].starred,
                        edit: !self.tasks[i].edit,
                    };
                    self.tasks.set(i, flipped);
                    proof {
                        assert(self@.tasks =~= spec_apply(old(self)@, msg@).0.tasks);
                    }
                    true
                } else {
                    false
                }
            },
            Message::RemoveAll => {
                self.tasks = Vec::new();
                proof {
                    assert(self@.tasks =~= Seq::<TaskModel>::empty());
                }
                true
            },
            Message::Nothing => false,
        }
    }
}

/// An index message whose index is out of range is dropped: the state is
/// unchanged and no rerender is asked for.
pub proof fn lemma_out_of_range_dropped(s: StateModel, m: MessageModel)
    requires
        match m {
            MessageModel::Remove(i) => !(0 <= i < s.tasks.len()),
            MessageModel::Edit(i) => !(0 <= i < s.tasks.len()),
            MessageModel::Toggle(i) => !(0 <= i < s.tasks.len()),
            _ => false,
        },
    ensures
        spec_apply(s, m).0 == s,
        spec_apply(s, m).1 == false,
{
}

/// `Update` stores exactly the given text in the input field and touches
/// nothing else; applying the same `Update` twice is the same as once.
pub proof fn lemma_update_sets_input(s: StateModel, t: Seq<char>)
    ensures
        spec_apply(s, MessageModel::Update(t)).0.input == t,
        spec_apply(s, MessageModel::Update(t)).0.tasks == s.tasks,
        spec_apply(s, MessageModel::Update(t)).0.edit_input == s.edit_input,
        spec_apply(spec_apply(s, MessageModel::Update(t)).0, MessageModel::Update(t)).0
            == spec_apply(s, MessageModel::Update(t)).0,
{
}

/// `Add` appends one task built from the input field, leaves the earlier
/// tasks as they were, and clears the input field.
pub proof fn lemma_add_appends(s: StateModel)
    ensures
        spec_apply(s, MessageModel::Add).0.tasks.len() == s.tasks.len() + 1,
        spec_apply(s, MessageModel::Add).0.tasks.last()
            == (TaskModel { description: s.input, starred: false, edit: false }),
        forall|j: int| 0 <= j < s.tasks.len()
            ==> spec_apply(s, MessageModel::Add).0.tasks[j] == s.tasks[j],
        spec_apply(s, MessageModel::Add).0.input == Seq::<char>::empty(),
        spec_apply(s, MessageModel::Add).0.edit_input == s.edit_input,
{
}

/// `Remove(i)` on a valid index removes exactly that task: the list is one
/// shorter and the surviving tasks keep their relative order.
pub proof fn lemma_remove_shifts(s: StateModel, i: int)
    requires
        0 <= i < s.tasks.len(),
    ensures
        spec_apply(s, MessageModel::Remove(i)).0.tasks.len() == s.tasks.len() - 1,
        forall|j: int| 0 <= j < i ==> spec_apply(s, MessageModel::Remove(i)).0.tasks[j]
            == s.tasks[j],
        forall|j: int| i <= j < s.tasks.len() - 1
            ==> spec_apply(s, MessageModel::Remove(i)).0.tasks[j] == s.tasks[j + 1],
        spec_apply(s, MessageModel::Remove(i)).0.input == s.input,
        spec_apply(s, MessageModel::Remove(i)).0.edit_input == s.edit_input,
{
}

/// `RemoveAll` empties the task list and preserves both text fields.
pub proof fn lemma_remove_all_clears(s: StateModel)
    ensures
        spec_apply(s, MessageModel::RemoveAll).0.tasks.len() == 0,
        spec_apply(s, MessageModel::RemoveAll).0.input == s.input,
        spec_apply(s, MessageModel::RemoveAll).0.edit_input == s.edit_input,
{
}

/// `Edit(i)` on a valid index rewrites that task in place from the edit
/// field: same length, same order, same `starred`, `edit` cleared, and every
/// other task untouched; the edit field itself is left as it was.
pub proof fn lemma_edit_in_place(s: StateModel, i: int)
    requires
        0 <= i < s.tasks.len(),
    ensures
        spec_apply(s, MessageModel::Edit(i)).0.tasks.len() == s.tasks.len(),
        spec_apply(s, MessageModel::Edit(i)).0.tasks[i].description == s.edit_input,
        spec_apply(s, MessageModel::Edit(i)).0.tasks[i].starred == s.tasks[i].starred,
        spec_apply(s, MessageModel::Edit(i)).0.tasks[i].edit == false,
        forall|j: int| 0 <= j < s.tasks.len() && j != i
            ==> spec_apply(s, MessageModel::Edit(i)).0.tasks[j] == s.tasks[j],
        spec_apply(s, MessageModel::Edit(i)).0.input == s.input,
        spec_apply(s, MessageModel::Edit(i)).0.edit_input == s.edit_input,
{
}

/// `Toggle(i)` on a valid index negates that task's `edit` flag and changes
/// nothing else anywhere in the state.
pub proof fn lemma_toggle_flips_one(s: StateModel, i: int)
    requires
        0 <= i < s.tasks.len(),
    ensures
        spec_apply(s, MessageModel::Toggle(i)).0.tasks.len() == s.tasks.len(),
        spec_apply(s, MessageModel::Toggle(i)).0.tasks[i].edit == !s.tasks[i].edit,
        spec_apply(s, MessageModel::Toggle(i)).0.tasks[i].description
            == s.tasks[i].description,
        spec_apply(s, MessageModel::Toggle(i)).0.tasks[i].starred == s.tasks[i].starred,
        forall|j: int| 0 <= j < s.tasks.len() && j != i
            ==> spec_apply(s, MessageModel::Toggle(i)).0.tasks[j] == s.tasks[j],
        spec_apply(s, MessageModel::Toggle(i)).0.input == s.input,
        spec_apply(s, MessageModel::Toggle(i)).0.edit_input == s.edit_input,
{
}

/// `Nothing` is the identity on the state and asks for no rerender.
pub proof fn lemma_nothing_identity(s: StateModel)
    ensures
        spec_apply(s, MessageModel::Nothing).0 == s,
        spec_apply(s, MessageModel::Nothing).1 == false,
{
}

} // verus!
