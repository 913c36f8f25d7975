//! The command line: arguments, commands and output paths.

pub mod commands;
pub mod emit;
pub mod run;
pub mod session;
