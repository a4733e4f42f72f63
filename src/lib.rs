//! Task model and derivation engine for todo.txt task lists: display
//! ordering, hierarchical tag matching, per-tag progress, visibility
//! filtering and subject markup.
pub mod date;
pub mod keywords;
pub mod line;
pub mod list;
pub mod tags;
pub mod task;
pub mod text;

pub use date::Date;
pub use list::List;
pub use tags::{Model, Tags, Type};
pub use task::Task;
