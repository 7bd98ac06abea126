//! Small helpers shared by the other modules.
pub mod reader;
pub mod utils;
