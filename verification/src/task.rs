//! The task record.

use crate::codec::{decode, encode, encode_fields, find_name, find_priority, find_project};
use crate::text::{to_chars, to_string};
use crate::todo::{ErrorKind, TodoError};
use vstd::prelude::*;

verus! {

/// What a task is, as plain mathematical values.
pub struct TaskView {
    /// The descriptive text.
    pub name: Seq<char>,
    /// The project tag without its `+`; empty where the task has none.
    pub project: Seq<char>,
    /// The priority letter.
    pub priority: char,
    /// Whether the task is done.
    pub completed: bool,
}

/// One task: a name, a project tag, a priority and whether it is done.
#[derive(Debug)]
pub struct Task {
    /// The descriptive text.
    pub name: String,
    /// The project tag without its `+`; empty where the task has none.
    pub project: String,
    priority: char,
    completed: bool,
}

impl View for Task {
    type V = TaskView;

    closed spec fn view(&self) -> TaskView {
        TaskView {
            name: self.name@,
            project: self.project@,
            priority: self.priority,
            completed: self.completed,
        }
    }
}

impl Task {
    /// A task that is not done yet.
    pub fn new(name: String, project: String, priority: char) -> (t: Task)
        ensures
            t@ == (TaskView {
                name: name@,
                project: project@,
                priority: priority,
                completed: false,
            }),
    {
        Task { name, project, priority, completed: false }
    }

    /// Marks the task as done. Nothing undoes this.
    pub fn complete(&mut self)
        ensures
            final(self)@ == (TaskView { completed: true, ..old(self)@ }),
    {
        self.completed = true;
    }

    /// The descriptive text.
    pub fn name(&self) -> (s: &str)
        ensures
            s@ == self@.name,
    {
        self.name.as_str()
    }

    /// The project tag without its `+`; empty where the task has none.
    pub fn project(&self) -> (s: &str)
        ensures
            s@ == self@.project,
    {
        self.project.as_str()
    }

    /// Whether the task is done.
    pub fn is_complete(&self) -> (b: bool)
        ensures
            b == self@.completed,
    {
        self.completed
    }

    /// The priority letter.
    pub fn get_priority(&self) -> (c: char)
        ensures
            c == self@.priority,
    {
        self.priority
    }
}

impl Task {
    /// Reads a task from a line of text. An empty line is refused, and so is
    /// a line of markers alone, which gives no priority.
    pub fn from_str(s: &str) -> (r: Result<Task, TodoError>)
        ensures
            match r {
                Ok(t) => decode(s@) == Ok::<TaskView, ErrorKind>(t@),
                Err(e) => decode(s@) == Err::<TaskView, ErrorKind>(e.kind) && e.message@
                    == e.kind.text(),
            },
    {
        let line = to_chars(s);
        Task::from_chars(line.as_slice())
    }

    /// Reads a task from the characters of a line.
    pub fn from_chars(line: &[char]) -> (r: Result<Task, TodoError>)
        ensures
            match r {
                Ok(t) => decode(line@) == Ok::<TaskView, ErrorKind>(t@),
                Err(e) => decode(line@) == Err::<TaskView, ErrorKind>(e.kind) && e.message@
                    == e.kind.text(),
            },
    {
        if line.len() == 0 {
            return Err(TodoError::of_kind(ErrorKind::EmptyInput));
        }
        let completed = line[0] == 'x';
        let priority = match find_priority(line) {
            Some(c) => c,
            None => {
                return Err(TodoError::of_kind(ErrorKind::UnparseablePriority));
            },
        };
        let name = find_name(line);
        let project = find_project(name);
        let mut task = Task::new(to_string(name), to_string(project), priority);
        if completed {
            task.complete();
        }
        Ok(task)
    }

    /// Writes the task as a line of text, without a line ending.
    pub fn to_string(&self) -> (line: String)
        ensures
            line@ == encode(self@),
    {
        encode_fields(self.name.as_str(), self.project.as_str(), self.priority, self.completed)
    }
}

impl Clone for Task {
    fn clone(&self) -> (t: Task)
        ensures
            t == *self,
    {
        Task {
            name: self.name.clone(),
            project: self.project.clone(),
            priority: self.priority,
            completed: self.completed,
        }
    }
}

/// The views of a sequence of tasks, in order.
pub open spec fn views(tasks: Seq<Task>) -> Seq<TaskView> {
    tasks.map_values(|t: Task| t@)
}

} // verus!
