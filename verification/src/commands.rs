//! What the interactive interface lists and the commands it accepts.

use vstd::prelude::*;

verus! {

/// Which records the interface lists.
#[derive(Clone, Copy, Debug, PartialEq, Eq, Structural)]
pub enum ListType {
    All,
    Today,
    Recurring,
    Search,
}

/// A command typed into the interface.
#[derive(Debug)]
pub enum CommandType {
    /// Delete records by primary key.
    Delete(Vec<u64>),
    /// Delete recurrences by recurrence key.
    DeleteRecurring(Vec<u64>),
    /// Record an entry written in the entry language.
    Entry(String),
    /// Edit a record (or, with `true`, a recurrence) by key.
    Edit(bool, u64),
    /// Show a record (or, with `true`, a recurrence) by key.
    Show(bool, u64),
    /// Search with the words of the search language.
    Search(Vec<String>),
}

} // verus!
