//! The entity records kept by the state store, and their mathematical views.
//!
//! Every record is plain data. Its view replaces each `String` by the
//! sequence of characters it holds, so that contracts can speak of records
//! as values.

use crate::status::{LogStream, TaskStatus};
use vstd::prelude::*;

verus! {

/// The views of the elements of a sequence, in the same order.
pub open spec fn views<T: View>(s: Seq<T>) -> Seq<T::V> {
    Seq::new(s.len(), |i: int| s[i]@)
}

/// The view of an optional string.
pub open spec fn opt_text(s: Option<String>) -> Option<Seq<char>> {
    match s {
        Some(t) => Some(t@),
        None => None,
    }
}

/// A workspace directory that has been opened.
#[derive(Debug, PartialEq, Eq)]
pub struct ProjectRecord {
    pub id: String,
    pub name: String,
    /// Canonical absolute path; no two projects share one.
    pub path: String,
    pub last_accessed_at: i64,
    pub created_at: i64,
}

pub struct ProjectView {
    pub id: Seq<char>,
    pub name: Seq<char>,
    pub path: Seq<char>,
    pub last_accessed_at: i64,
    pub created_at: i64,
}

impl View for ProjectRecord {
    type V = ProjectView;

    open spec fn view(&self) -> ProjectView {
        ProjectView {
            id: self.id@,
            name: self.name@,
            path: self.path@,
            last_accessed_at: self.last_accessed_at,
            created_at: self.created_at,
        }
    }
}

impl Clone for ProjectRecord {
    fn clone(&self) -> (r: Self)
        ensures
            r == *self,
    {
        ProjectRecord {
            id: self.id.clone(),
            name: self.name.clone(),
            path: self.path.clone(),
            last_accessed_at: self.last_accessed_at,
            created_at: self.created_at,
        }
    }
}

/// A named sequence of tasks and messages under one project.
#[derive(Debug, PartialEq, Eq)]
pub struct ThreadRecord {
    pub id: String,
    pub project_id: String,
    pub name: String,
    pub description: String,
    /// Mirrors the latest status transition of a task of this thread.
    pub status: TaskStatus,
    pub created_at: i64,
    pub updated_at: i64,
}

pub struct ThreadView {
    pub id: Seq<char>,
    pub project_id: Seq<char>,
    pub name: Seq<char>,
    pub description: Seq<char>,
    pub status: TaskStatus,
    pub created_at: i64,
    pub updated_at: i64,
}

impl View for ThreadRecord {
    type V = ThreadView;

    open spec fn view(&self) -> ThreadView {
        ThreadView {
            id: self.id@,
            project_id: self.project_id@,
            name: self.name@,
            description: self.description@,
            status: self.status,
            created_at: self.created_at,
            updated_at: self.updated_at,
        }
    }
}

impl Clone for ThreadRecord {
    fn clone(&self) -> (r: Self)
        ensures
            r == *self,
    {
        ThreadRecord {
            id: self.id.clone(),
            project_id: self.project_id.clone(),
            name: self.name.clone(),
            description: self.description.clone(),
            status: self.status,
            created_at: self.created_at,
            updated_at: self.updated_at,
        }
    }
}

/// One message of a thread. Messages are only ever appended.
#[derive(Debug, PartialEq, Eq)]
pub struct ThreadMessage {
    pub id: String,
    pub thread_id: String,
    pub role: String,
    pub content: String,
    pub created_at: i64,
}

pub struct MessageView {
    pub id: Seq<char>,
    pub thread_id: Seq<char>,
    pub role: Seq<char>,
    pub content: Seq<char>,
    pub created_at: i64,
}

impl View for ThreadMessage {
    type V = MessageView;

    open spec fn view(&self) -> MessageView {
        MessageView {
            id: self.id@,
            thread_id: self.thread_id@,
            role: self.role@,
            content: self.content@,
            created_at: self.created_at,
        }
    }
}

impl Clone for ThreadMessage {
    fn clone(&self) -> (r: Self)
        ensures
            r == *self,
    {
        ThreadMessage {
            id: self.id.clone(),
            thread_id: self.thread_id.clone(),
            role: self.role.clone(),
            content: self.content.clone(),
            created_at: self.created_at,
        }
    }
}

/// One run of a shell command.
#[derive(Debug, PartialEq, Eq)]
pub struct TaskRecord {
    pub id: String,
    pub thread_id: String,
    pub command: String,
    /// Canonical path of an existing directory.
    pub cwd: String,
    pub shell: String,
    pub status: TaskStatus,
    pub created_at: i64,
    pub started_at: Option<i64>,
    pub finished_at: Option<i64>,
    pub exit_code: Option<i32>,
}

pub struct TaskView {
    pub id: Seq<char>,
    pub thread_id: Seq<char>,
    pub command: Seq<char>,
    pub cwd: Seq<char>,
    pub shell: Seq<char>,
    pub status: TaskStatus,
    pub created_at: i64,
    pub started_at: Option<i64>,
    pub finished_at: Option<i64>,
    pub exit_code: Option<i32>,
}

impl View for TaskRecord {
    type V = TaskView;

    open spec fn view(&self) -> TaskView {
        TaskView {
            id: self.id@,
            thread_id: self.thread_id@,
            command: self.command@,
            cwd: self.cwd@,
            shell: self.shell@,
            status: self.status,
            created_at: self.created_at,
            started_at: self.started_at,
            finished_at: self.finished_at,
            exit_code: self.exit_code,
        }
    }
}

impl Clone for TaskRecord {
    fn clone(&self) -> (r: Self)
        ensures
            r == *self,
    {
        TaskRecord {
            id: self.id.clone(),
            thread_id: self.thread_id.clone(),
            command: self.command.clone(),
            cwd: self.cwd.clone(),
            shell: self.shell.clone(),
            status: self.status,
            created_at: self.created_at,
            started_at: self.started_at,
            finished_at: self.finished_at,
            exit_code: self.exit_code,
        }
    }
}

/// One line of output of a task.
#[derive(Debug, PartialEq, Eq)]
pub struct TaskLogRecord {
    pub id: String,
    pub task_id: String,
    pub stream: LogStream,
    pub line: String,
    pub created_at: i64,
}

pub struct LogView {
    pub id: Seq<char>,
    pub task_id: Seq<char>,
    pub stream: LogStream,
    pub line: Seq<char>,
    pub created_at: i64,
}

impl View for TaskLogRecord {
    type V = LogView;

    open spec fn view(&self) -> LogView {
        LogView {
            id: self.id@,
            task_id: self.task_id@,
            stream: self.stream,
            line: self.line@,
            created_at: self.created_at,
        }
    }
}

impl Clone for TaskLogRecord {
    fn clone(&self) -> (r: Self)
        ensures
            r == *self,
    {
        TaskLogRecord {
            id: self.id.clone(),
            task_id: self.task_id.clone(),
            stream: self.stream,
            line: self.line.clone(),
            created_at: self.created_at,
        }
    }
}

/// Process-wide settings.
#[derive(Debug, PartialEq, Eq)]
pub struct AppSettings {
    /// The cap on tasks that run at once. A stored zero counts as one.
    pub max_parallel_tasks: usize,
    pub default_shell: String,
}

pub struct SettingsView {
    pub max_parallel_tasks: usize,
    pub default_shell: Seq<char>,
}

impl View for AppSettings {
    type V = SettingsView;

    open spec fn view(&self) -> SettingsView {
        SettingsView {
            max_parallel_tasks: self.max_parallel_tasks,
            default_shell: self.default_shell@,
        }
    }
}

impl Clone for AppSettings {
    fn clone(&self) -> (r: Self)
        ensures
            r == *self,
    {
        AppSettings {
            max_parallel_tasks: self.max_parallel_tasks,
            default_shell: self.default_shell.clone(),
        }
    }
}

impl Default for AppSettings {
    fn default() -> (r: Self)
        ensures
            r@ == SettingsView::initial(),
    {
        AppSettings { max_parallel_tasks: 2, default_shell: "powershell".to_owned() }
    }
}

impl SettingsView {
    /// Two tasks at once, PowerShell as the shell.
    pub open spec fn initial() -> SettingsView {
        SettingsView { max_parallel_tasks: 2, default_shell: "powershell"@ }
    }

    /// The cap that admission goes by: the stored value, but at least one.
    pub open spec fn cap(self) -> int {
        if self.max_parallel_tasks == 0 {
            1
        } else {
            self.max_parallel_tasks as int
        }
    }
}

/// The whole persisted snapshot.
#[derive(Debug, PartialEq, Eq)]
pub struct AppDb {
    pub projects: Vec<ProjectRecord>,
    pub threads: Vec<ThreadRecord>,
    pub messages: Vec<ThreadMessage>,
    pub tasks: Vec<TaskRecord>,
    pub task_logs: Vec<TaskLogRecord>,
    pub settings: AppSettings,
}

pub struct DbView {
    pub projects: Seq<ProjectView>,
    pub threads: Seq<ThreadView>,
    pub messages: Seq<MessageView>,
    pub tasks: Seq<TaskView>,
    pub task_logs: Seq<LogView>,
    pub settings: SettingsView,
}

impl View for AppDb {
    type V = DbView;

    open spec fn view(&self) -> DbView {
        DbView {
            projects: views(self.projects@),
            threads: views(self.threads@),
            messages: views(self.messages@),
            tasks: views(self.tasks@),
            task_logs: views(self.task_logs@),
            settings: self.settings@,
        }
    }
}

impl DbView {
    /// No records, and the initial settings.
    pub open spec fn initial() -> DbView {
        DbView {
            projects: Seq::empty(),
            threads: Seq::empty(),
            messages: Seq::empty(),
            tasks: Seq::empty(),
            task_logs: Seq::empty(),
            settings: SettingsView::initial(),
        }
    }
}

/// A copy of a vector of records, element by element.
pub fn clone_all<T: Clone>(v: &Vec<T>) -> (r: Vec<T>)
    ensures
        r@.len() == v@.len(),
        forall|i: int| 0 <= i < v@.len() ==> cloned::<T>(v@[i], #[trigger] r@[i]),
{
    let mut out: Vec<T> = Vec::new();
    let mut i: usize = 0;
    while i < v.len()
        invariant
            i <= v.len(),
            out@.len() == i,
            forall|j: int| 0 <= j < i ==> cloned::<T>(v@[j], #[trigger] out@[j]),
        decreases v.len() - i,
    {
        out.push(v[i].clone());
        i += 1;
    }
    out
}

impl Clone for AppDb {
    fn clone(&self) -> (r: Self)
        ensures
            r@ == self@,
    {
        let r = AppDb {
            projects: clone_all(&self.projects),
            threads: clone_all(&self.threads),
            messages: clone_all(&self.messages),
            tasks: clone_all(&self.tasks),
            task_logs: clone_all(&self.task_logs),
            settings: self.settings.clone(),
        };
        assert(r@.projects =~= self@.projects);
        assert(r@.threads =~= self@.threads);
        assert(r@.messages =~= self@.messages);
        assert(r@.tasks =~= self@.tasks);
        assert(r@.task_logs =~= self@.task_logs);
        r
    }
}

impl Default for AppDb {
    fn default() -> (r: Self)
        ensures
            r@ == DbView::initial(),
    {
        let r = AppDb {
            projects: Vec::new(),
            threads: Vec::new(),
            messages: Vec::new(),
            tasks: Vec::new(),
            task_logs: Vec::new(),
            settings: AppSettings::default(),
        };
        assert(r@.projects =~= Seq::empty());
        assert(r@.threads =~= Seq::empty());
        assert(r@.messages =~= Seq::empty());
        assert(r@.tasks =~= Seq::empty());
        assert(r@.task_logs =~= Seq::empty());
        r
    }
}

/// What the job queue holds of a task: all that is needed to start it.
#[derive(Debug, PartialEq, Eq)]
pub struct QueuedTask {
    pub task_id: String,
    pub thread_id: String,
    pub command: String,
    pub cwd: String,
    pub shell: String,
}

pub struct QueuedView {
    pub task_id: Seq<char>,
    pub thread_id: Seq<char>,
    pub command: Seq<char>,
    pub cwd: Seq<char>,
    pub shell: Seq<char>,
}

impl View for QueuedTask {
    type V = QueuedView;

    open spec fn view(&self) -> QueuedView {
        QueuedView {
            task_id: self.task_id@,
            thread_id: self.thread_id@,
            command: self.command@,
            cwd: self.cwd@,
            shell: self.shell@,
        }
    }
}

impl Clone for QueuedTask {
    fn clone(&self) -> (r: Self)
        ensures
            r == *self,
    {
        QueuedTask {
            task_id: self.task_id.clone(),
            thread_id: self.thread_id.clone(),
            command: self.command.clone(),
            cwd: self.cwd.clone(),
            shell: self.shell.clone(),
        }
    }
}

impl QueuedView {
    /// The event that tells of the start of the task.
    pub open spec fn started(self) -> StatusEventView {
        StatusEventView {
            task_id: self.task_id,
            thread_id: self.thread_id,
            status: TaskStatus::Running,
            exit_code: None,
        }
    }
}

impl QueuedTask {
    /// The event to send for a task that was admitted.
    pub fn started_event(&self) -> (event: TaskStatusEvent)
        ensures
            event@ == self@.started(),
    {
        TaskStatusEvent {
            task_id: self.task_id.clone(),
            thread_id: self.thread_id.clone(),
            status: TaskStatus::Running,
            exit_code: None,
        }
    }
}

impl TaskView {
    /// The queue entry that stands for the task.
    pub open spec fn descriptor(self) -> QueuedView {
        QueuedView {
            task_id: self.id,
            thread_id: self.thread_id,
            command: self.command,
            cwd: self.cwd,
            shell: self.shell,
        }
    }
}

/// Sent to the subscriber on every status transition of a task.
#[derive(Debug, PartialEq, Eq)]
pub struct TaskStatusEvent {
    pub task_id: String,
    pub thread_id: String,
    pub status: TaskStatus,
    pub exit_code: Option<i32>,
}

pub struct StatusEventView {
    pub task_id: Seq<char>,
    pub thread_id: Seq<char>,
    pub status: TaskStatus,
    pub exit_code: Option<i32>,
}

impl View for TaskStatusEvent {
    type V = StatusEventView;

    open spec fn view(&self) -> StatusEventView {
        StatusEventView {
            task_id: self.task_id@,
            thread_id: self.thread_id@,
            status: self.status,
            exit_code: self.exit_code,
        }
    }
}

/// Sent to the subscriber on every appended log line.
#[derive(Debug, PartialEq, Eq)]
pub struct TaskLogEvent {
    pub task_id: String,
    pub thread_id: String,
    pub stream: LogStream,
    pub line: String,
}

pub struct LogEventView {
    pub task_id: Seq<char>,
    pub thread_id: Seq<char>,
    pub stream: LogStream,
    pub line: Seq<char>,
}

impl View for TaskLogEvent {
    type V = LogEventView;

    open spec fn view(&self) -> LogEventView {
        LogEventView {
            task_id: self.task_id@,
            thread_id: self.thread_id@,
            stream: self.stream,
            line: self.line@,
        }
    }
}

} // verus!
