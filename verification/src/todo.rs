//! The interface of a task list and the error it reports.

use crate::task::Task;
use vstd::prelude::*;
use vstd::string::StringExecFns;

verus! {

/// Why an operation failed.
#[derive(Clone, Copy, Debug, PartialEq, Eq, Structural)]
pub enum ErrorKind {
    /// An empty line was given to the decoder.
    EmptyInput,
    /// A line held nothing but markers, so no priority could be read.
    UnparseablePriority,
    /// An index past the end of the list was given.
    IndexOutOfRange,
    /// The sink failed to read, to rewind, to write or to flush.
    IOFailure,
}

impl ErrorKind {
    /// The message that goes with an error of this kind where no lower-level
    /// cause supplies one.
    pub open spec fn text(self) -> Seq<char> {
        match self {
            ErrorKind::EmptyInput => "Cannot parse empty string"@,
            ErrorKind::UnparseablePriority => "Cannot parse task priority"@,
            ErrorKind::IndexOutOfRange => "Index out of range"@,
            ErrorKind::IOFailure => "Input or output failed"@,
        }
    }
}

/// The one error of the library: its kind and a message for people.
#[derive(Debug)]
pub struct TodoError {
    /// Why the operation failed.
    pub kind: ErrorKind,
    /// The message for people.
    pub message: String,
}

impl TodoError {
    /// An input or output failure that reports `s`, the message of its
    /// lower-level cause.
    pub fn new(s: &str) -> (e: TodoError)
        ensures
            e.kind == ErrorKind::IOFailure,
            e.message@ == s@,
    {
        TodoError { kind: ErrorKind::IOFailure, message: String::from_str(s) }
    }

    /// The error of the given kind with the message that goes with it.
    pub fn of_kind(kind: ErrorKind) -> (e: TodoError)
        ensures
            e.kind == kind,
            e.message@ == kind.text(),
    {
        let message = match kind {
            ErrorKind::EmptyInput => String::from_str("Cannot parse empty string"),
            ErrorKind::UnparseablePriority => String::from_str("Cannot parse task priority"),
            ErrorKind::IndexOutOfRange => String::from_str("Index out of range"),
            ErrorKind::IOFailure => String::from_str("Input or output failed"),
        };
        TodoError { kind, message }
    }

    /// The message, as the error is shown to people.
    pub fn to_string(&self) -> (s: String)
        ensures
            s@ == self.message@,
    {
        self.message.clone()
    }
}

/// A list of tasks that can be added to, removed from and listed.
pub trait Todo {
    /// What a failed operation reports.
    type Err;

    /// Appends `task` to the list.
    fn add(&mut self, task: Task) -> Result<(), Self::Err>;

    /// Removes the task at `index`.
    fn remove(&mut self, index: usize) -> Result<(), Self::Err>;

    /// The tasks of the list, in order.
    fn list(&mut self) -> Result<Vec<Task>, Self::Err>;
}

} // verus!
