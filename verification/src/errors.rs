//! The errors with which an operation turns its input down.

use vstd::prelude::*;

verus! {

/// A submission that is turned down; no task is created.
#[derive(Clone, Copy, Debug, PartialEq, Eq, Structural)]
pub enum TaskError {
    /// The working directory is missing or blank.
    CwdRequired,
    /// The command is blank.
    EmptyCommand,
    /// No thread has the given identifier.
    ThreadNotFound,
}

/// A snapshot that cannot be taken up.
#[derive(Clone, Copy, Debug, PartialEq, Eq, Structural)]
pub enum RestoreError {
    /// Two projects have the same identifier.
    DuplicateProject,
    /// A thread names a project that is not stored.
    UnknownProject,
    /// Two threads have the same identifier.
    DuplicateThread,
    /// A task names a thread that is not stored.
    UnknownThread,
}

/// A change of settings that is turned down.
#[derive(Clone, Copy, Debug, PartialEq, Eq, Structural)]
pub enum SettingsError {
    /// The cap on parallel tasks must be at least one.
    ZeroParallelism,
}

/// A thread that cannot be created.
#[derive(Clone, Copy, Debug, PartialEq, Eq, Structural)]
pub enum ThreadError {
    /// No project has the given identifier.
    ProjectNotFound,
}

impl TaskError {
    pub fn message(self) -> (r: &'static str)
        ensures
            r@ == match self {
                TaskError::CwdRequired => "Task cwd is required"@,
                TaskError::EmptyCommand => "Task command is required"@,
                TaskError::ThreadNotFound => "Thread not found"@,
            },
    {
        match self {
            TaskError::CwdRequired => "Task cwd is required",
            TaskError::EmptyCommand => "Task command is required",
            TaskError::ThreadNotFound => "Thread not found",
        }
    }
}

impl RestoreError {
    pub fn message(self) -> (r: &'static str)
        ensures
            r@ == match self {
                RestoreError::DuplicateProject => "Invalid db: two projects share an identifier"@,
                RestoreError::UnknownProject => "Invalid db: a thread names no stored project"@,
                RestoreError::DuplicateThread => "Invalid db: two threads share an identifier"@,
                RestoreError::UnknownThread => "Invalid db: a task names no stored thread"@,
            },
    {
        match self {
            RestoreError::DuplicateProject => "Invalid db: two projects share an identifier",
            RestoreError::UnknownProject => "Invalid db: a thread names no stored project",
            RestoreError::DuplicateThread => "Invalid db: two threads share an identifier",
            RestoreError::UnknownThread => "Invalid db: a task names no stored thread",
        }
    }
}

impl SettingsError {
    pub fn message(self) -> (r: &'static str)
        ensures
            r@ == "max_parallel_tasks must be >= 1"@,
    {
        "max_parallel_tasks must be >= 1"
    }
}

impl ThreadError {
    pub fn message(self) -> (r: &'static str)
        ensures
            r@ == "Project not found"@,
    {
        "Project not found"
    }
}

} // verus!
