pub mod grep;
pub mod modules;
pub mod text;
