//! Command-line arguments.

pub mod args;
pub mod command;
pub mod exit_codes;
