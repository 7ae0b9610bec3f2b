//! Core of a keyboard-driven task manager: a task model, a collection kept in
//! a canonical order, a modal application state machine with a dispatcher for
//! abstract input events, and a persistence codec with a proved round trip.
pub mod task;
pub mod text;
pub mod app;
pub mod input;
pub mod persistence;
pub mod todolist;

use vstd::prelude::*;

verus! {

/// Parsed command surface shared between the binary and tests.
pub struct Cli {
    /// Optional override for the data file.
    pub data_file: Option<String>,
    pub cmd: Option<Cmd>,
}

/// One non-interactive command, or the interactive view.
pub enum Cmd {
    /// Add a task directly.
    Add { title: String, priority: i8, notes: Option<String> },
    /// Print all tasks, one line each.
    List,
    /// Toggle the done status of the task at a visible position.
    Done { index: usize },
    /// Delete the task at a visible position.
    Delete { index: usize },
    /// Launch the full-screen view.
    Tui,
}

} // verus!
