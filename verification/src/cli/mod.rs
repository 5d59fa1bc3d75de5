//! The command interpreter of the command-line commissioner.

pub mod interpreter;
pub mod laws;
pub mod tokens;
