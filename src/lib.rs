pub mod command;
pub mod list;
pub mod queue;

pub use command::{Command, CommandPayload, PayloadAware, PayloadCommand};
pub use list::CommandList;
pub use queue::{CommandQueue, QueueError};
