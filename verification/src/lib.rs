//! A small Elm-style todo-list core: a pure reducer over a task list,
//! a text codec for persisting the list, and a pure view description.

pub mod persistence;
pub mod store;
pub mod tasks;
pub mod ui;
