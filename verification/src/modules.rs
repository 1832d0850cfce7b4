pub mod command;
pub mod environment;
pub mod init;
pub mod input;
pub mod pipeline;
pub mod repl;
pub mod runner;

pub use command::Command;
pub use environment::Environment;
