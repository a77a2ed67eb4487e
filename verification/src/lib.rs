pub mod chars;
pub mod codec;
mod command;
mod error;
mod priority;
mod registry;
mod task;
mod time;

pub use command::Command;
pub use error::TaskError;
pub use priority::Priority;
pub use registry::TasksManager;
pub use task::{Task, TaskView};
pub use time::Timestamp;
