//! A file-backed todo list: tasks with a binary status and a one-line note,
//! serialized one task per line as `- [x] note` / `- [ ] note`.

pub mod digits;
pub mod list;
pub mod style;
pub mod task;

pub use list::IndexOutcome;
pub use list::LoadError;
pub use list::TodoList;
pub use task::ParseError;
pub use task::Status;
pub use task::Task;
