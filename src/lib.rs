//! A to-do list whose repeating tasks fall back to "incomplete" at local
//! midnight of their due day, with a lenient parser for index lists.
pub mod cli;
pub mod indexes;
pub mod item;
pub mod list;
pub mod stamp;

pub use cli::{Cli, Commands, Outcome};
pub use indexes::parse_index_list;
pub use item::{RepeatStatus, TodoItem};
pub use list::TodoList;
pub use stamp::Stamp;
