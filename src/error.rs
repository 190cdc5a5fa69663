//! Errors of the library: configuration errors, which abort a run before any
//! task starts, and task execution errors, which end one task.
use vstd::prelude::*;

use crate::status::CommandType;

verus! {

/// A configuration error: always fatal, found before any task executes.
#[derive(Debug)]
pub enum ConfigError {
    /// No config path was given and there is no home directory.
    NoHomeDir,
    /// A task file could not be parsed (unknown field, malformed content).
    Parse { path: String, message: String },
    /// A task file gave no name and its path has no file stem.
    NoName { path: String },
    /// A task's name is empty.
    EmptyName { path: String },
    /// Neither a library call nor a shell command is present.
    InvalidTask { name: String },
    /// Both a library call and a shell command are present.
    AmbiguousTask { name: String },
    /// A task lists itself among its dependencies.
    SelfDependency { name: String },
    /// Two tasks share a name.
    DuplicateName { name: String },
    /// A dependency names no task at all.
    UnknownDependency { task: String, dependency: String },
    /// A dependency names a task that was filtered out of this run.
    DependencyExcluded { task: String, dependency: String },
    /// The dependencies form a cycle; its members in traversal order.
    CyclicDependency { cycle: Vec<String> },
}

/// An error that ends one task with status `Failed`.
#[derive(Debug)]
pub enum TaskError {
    /// A command's argument vector is empty.
    EmptyCmd,
    /// An environment variable named in a command is not defined.
    ResolveEnv { var: String },
    /// A command could not be spawned.
    CmdFailed {
        command_type: CommandType,
        name: String,
        cmd: Vec<String>,
        message: String,
        suggestion: String,
    },
    /// A command exited with a code other than 0 or 204.
    CmdNonZero { command_type: CommandType, name: String, cmd: Vec<String>, code: i32 },
    /// A command was terminated by a signal.
    CmdTerminated { command_type: CommandType, name: String, cmd: Vec<String> },
    /// The task has neither a library call nor a shell command.
    MissingCmd { name: String },
    /// The task names a library that does not exist.
    UnimplementedLibrary { name: String, lib: String },
    /// The library needs a `data` block and the task has none.
    TaskDataRequired { task: String },
    /// The task library reported a failure.
    LibraryFailed { name: String, lib: String, message: String },
}

} // verus!
