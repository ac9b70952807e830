//! Turns a markdown task file into a described command-line interface and
//! decides how each selected task is run.

pub mod text;
pub mod types;
pub mod cli;
pub mod arg_type;
pub mod argument;
pub mod markdown;
pub mod parser;
pub mod loader;
pub mod executor;
pub mod selection;
pub mod laws;
