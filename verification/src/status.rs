//! Status values of tasks and threads, and the tag of an output stream.

use crate::text::same_text;
use vstd::prelude::*;

verus! {

/// Lifecycle status shared by tasks and threads. A thread that has never had
/// a task is `Idle`; a task starts as `Queued`.
#[derive(Clone, Copy, Debug, PartialEq, Eq, Structural)]
pub enum TaskStatus {
    Idle,
    Queued,
    Running,
    Success,
    Failed,
    Cancelled,
}

/// The output stream a log line was read from.
#[derive(Clone, Copy, Debug, PartialEq, Eq, Structural)]
pub enum LogStream {
    Stdout,
    Stderr,
}

impl TaskStatus {
    /// A terminal status is never left again.
    pub open spec fn is_terminal(self) -> bool {
        self == TaskStatus::Success || self == TaskStatus::Failed || self == TaskStatus::Cancelled
    }

    /// A live task is one that still waits or runs.
    pub open spec fn is_live(self) -> bool {
        self == TaskStatus::Queued || self == TaskStatus::Running
    }

    /// The text under which the status is stored and sent.
    pub open spec fn label_text(self) -> Seq<char> {
        match self {
            TaskStatus::Idle => "idle"@,
            TaskStatus::Queued => "queued"@,
            TaskStatus::Running => "running"@,
            TaskStatus::Success => "success"@,
            TaskStatus::Failed => "failed"@,
            TaskStatus::Cancelled => "cancelled"@,
        }
    }

    /// The status a task ends in, given the status it has when its process
    /// ends and the exit code, if one could be had. A status that is already
    /// terminal stays, so a cancellation wins over any exit code; otherwise
    /// exit code zero is a success and everything else, a missing exit code
    /// too, is a failure.
    pub open spec fn settled(self, exit_code: Option<i32>) -> TaskStatus {
        if self.is_terminal() {
            self
        } else if exit_code == Some(0i32) {
            TaskStatus::Success
        } else {
            TaskStatus::Failed
        }
    }

    /// The status that a status found in a loaded snapshot is taken for. No
    /// process survives a restart: what ran has failed, and what waited is
    /// cancelled.
    pub open spec fn reconciled(self) -> TaskStatus {
        match self {
            TaskStatus::Running => TaskStatus::Failed,
            TaskStatus::Queued => TaskStatus::Cancelled,
            TaskStatus::Idle => TaskStatus::Cancelled,
            _ => self,
        }
    }

    /// Settles the status of a task whose process has ended.
    pub fn settle(self, exit_code: Option<i32>) -> (r: TaskStatus)
        ensures
            r == self.settled(exit_code),
            r.is_terminal(),
            self == TaskStatus::Cancelled ==> r == TaskStatus::Cancelled,
            !self.is_terminal() && exit_code == Some(0i32) ==> r == TaskStatus::Success,
            !self.is_terminal() && exit_code != Some(0i32) ==> r == TaskStatus::Failed,
    {
        if self.terminal() {
            self
        } else {
            match exit_code {
                Some(code) => if code == 0 {
                    TaskStatus::Success
                } else {
                    TaskStatus::Failed
                },
                None => TaskStatus::Failed,
            }
        }
    }

    /// The status that a status found in a loaded snapshot is taken for.
    pub fn reconcile(self) -> (r: TaskStatus)
        ensures
            r == self.reconciled(),
    {
        match self {
            TaskStatus::Running => TaskStatus::Failed,
            TaskStatus::Queued => TaskStatus::Cancelled,
            TaskStatus::Idle => TaskStatus::Cancelled,
            other => other,
        }
    }

    /// Whether a task of this status still waits or runs.
    pub fn live(self) -> (r: bool)
        ensures
            r == self.is_live(),
    {
        match self {
            TaskStatus::Queued | TaskStatus::Running => true,
            _ => false,
        }
    }

    /// Whether the status is never left again.
    pub fn terminal(self) -> (r: bool)
        ensures
            r == self.is_terminal(),
    {
        match self {
            TaskStatus::Success | TaskStatus::Failed | TaskStatus::Cancelled => true,
            _ => false,
        }
    }

    /// The status that a label stands for.
    pub fn parse(label: &str) -> (r: Option<TaskStatus>)
        ensures
            match r {
                Some(status) => status.label_text() == label@,
                None => forall|status: TaskStatus| status.label_text() != label@,
            },
    {
        if same_text(label, "idle") {
            Some(TaskStatus::Idle)
        } else if same_text(label, "queued") {
            Some(TaskStatus::Queued)
        } else if same_text(label, "running") {
            Some(TaskStatus::Running)
        } else if same_text(label, "success") {
            Some(TaskStatus::Success)
        } else if same_text(label, "failed") {
            Some(TaskStatus::Failed)
        } else if same_text(label, "cancelled") {
            Some(TaskStatus::Cancelled)
        } else {
            None
        }
    }

    /// The label of the status.
    pub fn as_str(self) -> (r: &'static str)
        ensures
            r@ == self.label_text(),
    {
        match self {
            TaskStatus::Idle => "idle",
            TaskStatus::Queued => "queued",
            TaskStatus::Running => "running",
            TaskStatus::Success => "success",
            TaskStatus::Failed => "failed",
            TaskStatus::Cancelled => "cancelled",
        }
    }
}


/// No two statuses share a label.
pub proof fn lemma_labels_differ(a: TaskStatus, b: TaskStatus)
    requires
        a.label_text() == b.label_text(),
    ensures
        a == b,
{
    lemma_label_marks(a);
    lemma_label_marks(b);
}

/// The length of the label of a status, and the character it begins with.
pub open spec fn label_mark(status: TaskStatus) -> (nat, char) {
    match status {
        TaskStatus::Idle => (4, 'i'),
        TaskStatus::Queued => (6, 'q'),
        TaskStatus::Running => (7, 'r'),
        TaskStatus::Success => (7, 's'),
        TaskStatus::Failed => (6, 'f'),
        TaskStatus::Cancelled => (9, 'c'),
    }
}

/// The label of each status has the length and the first character that
/// `label_mark` gives, and no two statuses have the same of both.
proof fn lemma_label_marks(status: TaskStatus)
    ensures
        status.label_text().len() == label_mark(status).0,
        status.label_text()[0] == label_mark(status).1,
{
    match status {
        TaskStatus::Idle => {
            reveal_strlit("idle");
        },
        TaskStatus::Queued => {
            reveal_strlit("queued");
        },
        TaskStatus::Running => {
            reveal_strlit("running");
        },
        TaskStatus::Success => {
            reveal_strlit("success");
        },
        TaskStatus::Failed => {
            reveal_strlit("failed");
        },
        TaskStatus::Cancelled => {
            reveal_strlit("cancelled");
        },
    }
}

impl LogStream {
    /// The text under which the stream is stored and sent.
    pub open spec fn label_text(self) -> Seq<char> {
        match self {
            LogStream::Stdout => "stdout"@,
            LogStream::Stderr => "stderr"@,
        }
    }

    /// The name of the channel on which lines of the stream are sent.
    pub open spec fn channel_text(self) -> Seq<char> {
        match self {
            LogStream::Stdout => "task:stdout"@,
            LogStream::Stderr => "task:stderr"@,
        }
    }

    pub fn as_str(self) -> (r: &'static str)
        ensures
            r@ == self.label_text(),
    {
        match self {
            LogStream::Stdout => "stdout",
            LogStream::Stderr => "stderr",
        }
    }

    pub fn channel(self) -> (r: &'static str)
        ensures
            r@ == self.channel_text(),
    {
        match self {
            LogStream::Stdout => "task:stdout",
            LogStream::Stderr => "task:stderr",
        }
    }

    /// The stream that a label stands for.
    pub fn parse(label: &str) -> (r: Option<LogStream>)
        ensures
            match r {
                Some(stream) => stream.label_text() == label@,
                None => forall|stream: LogStream| stream.label_text() != label@,
            },
    {
        if same_text(label, "stdout") {
            Some(LogStream::Stdout)
        } else if same_text(label, "stderr") {
            Some(LogStream::Stderr)
        } else {
            None
        }
    }
}

/// The name of the channel on which status events are sent.
pub fn status_channel() -> (r: &'static str)
    ensures
        r@ == "task:status"@,
{
    "task:status"
}

} // verus!
