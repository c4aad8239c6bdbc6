//! The command-line surface as plain data: what the user asked for, free of
//! any argument-parsing machinery. The binary around the library parses the
//! real command line and hands these values in.

use vstd::prelude::*;

verus! {

/// How much the logger should say.
#[derive(Debug, PartialEq, Eq, Clone, Copy)]
pub enum LogLevel {
    Off,
    Error,
    Warn,
    Info,
    Debug,
    Trace,
}

/// One invocation of the tool.
#[derive(Debug)]
pub struct Arguments {
    /// The location to sync tasks with, when given.
    pub location: Option<String>,
    /// The log level, when given.
    pub verbosity: Option<LogLevel>,
    /// What to do.
    pub command: Commands,
}

/// The commands the tool understands.
#[derive(Debug)]
pub enum Commands {
    /// Lists all the tasks.
    List,
    /// Adds a new task.
    Add { name: String, description: Option<String> },
    /// Removes a task.
    Remove { number: i32 },
    /// Completes a task.
    Complete { number: i32 },
}

} // verus!
