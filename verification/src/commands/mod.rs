//! The computing parts of the command handlers.

pub mod decision;
pub mod flow;
pub mod hook;
pub mod init;
pub mod prompt;
pub mod why;
