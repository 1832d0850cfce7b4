pub mod errors;
pub mod expander;
pub mod quote_handler;
pub mod tokenizer;
pub mod input_processor;

pub use crate::modules::command;
pub use crate::modules::environment::Environment;
pub use errors::{CliError, Result};
pub use input_processor::{CommandProducer, InputProcessor, InputProcessorBuilder};
