//! The shell's commands: parsing a command line, completing command names,
//! and deciding what each command does.

pub mod help;
pub mod parser;
pub mod run;
