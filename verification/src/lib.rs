//! A task list kept as lines of text: one task per line, written and read
//! back by a small codec, and a store that reloads the list from its sink
//! before every operation and rewrites it after every change.

pub mod codec;
pub mod task;
pub mod text;
pub mod todo;
pub mod todotxt;

pub use task::{Task, TaskView};
pub use todo::{ErrorKind, Todo, TodoError};
pub use todotxt::{TodoTxt, TodotxtIO};
