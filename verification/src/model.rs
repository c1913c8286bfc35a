//! The scheduler as a mathematical state machine: the state as a value, and
//! every operation as a function from state and input to the next state.

use crate::errors::{RestoreError, TaskError, ThreadError};
use crate::ids::id_text;
use crate::records::{
    DbView, LogView, MessageView, ProjectView, QueuedView, SettingsView, StatusEventView,
    TaskView, ThreadView,
};
use crate::status::{LogStream, TaskStatus};
use crate::text::{is_blank, trimmed};
use vstd::prelude::*;

verus! {

/// Whether `i` is the first position at which `key` occurs.
pub open spec fn is_first(keys: Seq<Seq<char>>, i: int, key: Seq<char>) -> bool {
    &&& 0 <= i < keys.len()
    &&& keys[i] == key
    &&& forall|k: int| 0 <= k < i ==> #[trigger] keys[k] != key
}

/// The first position at which `key` occurs, if it occurs at all.
pub open spec fn first_index(keys: Seq<Seq<char>>, key: Seq<char>) -> Option<int> {
    if exists|i: int| is_first(keys, i, key) {
        Some(choose|i: int| is_first(keys, i, key))
    } else {
        None
    }
}

/// The identifiers of the tasks, in their order.
pub open spec fn task_ids(tasks: Seq<TaskView>) -> Seq<Seq<char>> {
    Seq::new(tasks.len(), |i: int| tasks[i].id)
}

/// The identifiers of the threads, in their order.
pub open spec fn thread_ids(threads: Seq<ThreadView>) -> Seq<Seq<char>> {
    Seq::new(threads.len(), |i: int| threads[i].id)
}

/// The identifiers of the projects, in their order.
pub open spec fn project_ids(projects: Seq<ProjectView>) -> Seq<Seq<char>> {
    Seq::new(projects.len(), |i: int| projects[i].id)
}

/// The paths of the projects, in their order.
pub open spec fn project_paths(projects: Seq<ProjectView>) -> Seq<Seq<char>> {
    Seq::new(projects.len(), |i: int| projects[i].path)
}

/// The identifiers of the messages, in their order.
pub open spec fn message_ids(messages: Seq<MessageView>) -> Seq<Seq<char>> {
    Seq::new(messages.len(), |i: int| messages[i].id)
}

/// The identifiers of the log lines, in their order.
pub open spec fn log_ids(logs: Seq<LogView>) -> Seq<Seq<char>> {
    Seq::new(logs.len(), |i: int| logs[i].id)
}

/// Whether no text occurs twice.
pub open spec fn distinct(keys: Seq<Seq<char>>) -> bool {
    forall|a: int, b: int| 0 <= a < b < keys.len() ==> #[trigger] keys[a] != #[trigger] keys[b]
}

/// Whether some task of the thread has the status that the thread shows.
pub open spec fn shown_by(tasks: Seq<TaskView>, thread: ThreadView) -> bool {
    exists|i: int|
        0 <= i < tasks.len() && (#[trigger] tasks[i]).thread_id == thread.id && tasks[i].status
            == thread.status
}

/// Whether every thread names a stored project.
pub open spec fn threads_have_projects(db: DbView) -> bool {
    forall|j: int|
        0 <= j < db.threads.len() ==> project_ids(db.projects).contains(
            (#[trigger] db.threads[j]).project_id,
        )
}

/// Whether every task names a stored thread.
pub open spec fn tasks_have_threads(db: DbView) -> bool {
    forall|i: int|
        0 <= i < db.tasks.len() ==> thread_ids(db.threads).contains(
            (#[trigger] db.tasks[i]).thread_id,
        )
}

/// Whether the records of a store belong together: no two projects and no
/// two threads share an identifier, every thread belongs to a stored
/// project, and every task to a stored thread. So every task belongs to
/// exactly one thread, and every thread to exactly one project.
pub open spec fn linked(db: DbView) -> bool {
    &&& distinct(project_ids(db.projects))
    &&& threads_have_projects(db)
    &&& distinct(thread_ids(db.threads))
    &&& tasks_have_threads(db)
}

/// Why a snapshot cannot be taken up, if it cannot: its records do not
/// belong together. The projects are looked at first, then the threads,
/// then the tasks.
pub open spec fn snapshot_error(db: DbView) -> Option<RestoreError> {
    if !distinct(project_ids(db.projects)) {
        Some(RestoreError::DuplicateProject)
    } else if !threads_have_projects(db) {
        Some(RestoreError::UnknownProject)
    } else if !distinct(thread_ids(db.threads)) {
        Some(RestoreError::DuplicateThread)
    } else if !tasks_have_threads(db) {
        Some(RestoreError::UnknownThread)
    } else {
        None
    }
}

/// The identifiers of the tasks in the queue, in their order.
pub open spec fn queue_ids(queue: Seq<QueuedView>) -> Seq<Seq<char>> {
    Seq::new(queue.len(), |i: int| queue[i].task_id)
}

/// The threads after the first thread with the given identifier has taken
/// on a status. Without such a thread nothing changes.
pub open spec fn set_thread_status(
    threads: Seq<ThreadView>,
    id: Seq<char>,
    status: TaskStatus,
    now: i64,
) -> Seq<ThreadView> {
    match first_index(thread_ids(threads), id) {
        Some(j) => threads.update(j, ThreadView { status, updated_at: now, ..threads[j] }),
        None => threads,
    }
}

/// The threads after the first thread with the given identifier has been
/// stamped as updated.
pub open spec fn touch_thread(threads: Seq<ThreadView>, id: Seq<char>, now: i64) -> Seq<
    ThreadView,
> {
    match first_index(thread_ids(threads), id) {
        Some(j) => threads.update(j, ThreadView { updated_at: now, ..threads[j] }),
        None => threads,
    }
}

/// The slots after a task has been given one: a task that holds a slot
/// keeps it and gets no second one.
pub open spec fn registered(slots: Seq<Seq<char>>, id: Seq<char>) -> Seq<Seq<char>> {
    if slots.contains(id) {
        slots
    } else {
        slots.push(id)
    }
}

/// The slots after a task has given up its slot, if it held one.
pub open spec fn unregistered(slots: Seq<Seq<char>>, id: Seq<char>) -> Seq<Seq<char>> {
    match first_index(slots, id) {
        Some(r) => slots.remove(r),
        None => slots,
    }
}

/// The sequence number that follows `n`; after the largest comes zero.
pub open spec fn next_seq_after(n: u64) -> u64 {
    if n == u64::MAX {
        0
    } else {
        (n + 1) as u64
    }
}

/// The first sequence number, counting on from `start`, whose identifier
/// is not among `ids`. At most `tries` numbers are passed over.
pub open spec fn fresh_seq(
    ids: Seq<Seq<char>>,
    prefix: Seq<char>,
    now: int,
    start: u64,
    tries: nat,
) -> u64
    decreases tries,
{
    if tries == 0 || !ids.contains(id_text(prefix, now, start as nat)) {
        start
    } else {
        fresh_seq(ids, prefix, now, next_seq_after(start), (tries - 1) as nat)
    }
}

/// The shell a task runs in: the one asked for unless that is missing or
/// blank, else the default.
pub open spec fn resolve_shell(asked: Option<Seq<char>>, default_shell: Seq<char>) -> Seq<char> {
    match asked {
        Some(shell) => if is_blank(shell) {
            default_shell
        } else {
            shell
        },
        None => default_shell,
    }
}

/// A task of a loaded snapshot as it is taken up: one that has ended stays
/// as it is; any other is settled and stamped as finished.
pub open spec fn reconcile_task(task: TaskView, now: i64) -> TaskView {
    if task.status.is_terminal() {
        task
    } else {
        TaskView { status: task.status.reconciled(), finished_at: Some(now), ..task }
    }
}

/// A thread of a loaded snapshot as it is taken up: one that waits or runs
/// follows its tasks and is stamped as updated; any other stays as it is.
pub open spec fn reconcile_thread(thread: ThreadView, now: i64) -> ThreadView {
    if thread.status.is_live() {
        ThreadView { status: thread.status.reconciled(), updated_at: now, ..thread }
    } else {
        thread
    }
}

/// The name a project is shown under: the one given, else the last
/// component of its path, else a stock name; trimmed in every case.
pub open spec fn project_name(name: Option<Seq<char>>, dir_name: Option<Seq<char>>) -> Seq<char> {
    trimmed(
        match name {
            Some(n) => n,
            None => match dir_name {
                Some(d) => d,
                None => "Workspace"@,
            },
        },
    )
}

/// The name a thread is shown under: the one given, trimmed, or a stock
/// name where that is blank.
pub open spec fn thread_name(name: Seq<char>) -> Seq<char> {
    if is_blank(name) {
        "New thread"@
    } else {
        trimmed(name)
    }
}

/// Why a submission is turned down, if it is: a blank working directory
/// comes before a blank command.
pub open spec fn submission_error(command: Seq<char>, cwd: Seq<char>) -> Option<TaskError> {
    if is_blank(cwd) {
        Some(TaskError::CwdRequired)
    } else if is_blank(command) {
        Some(TaskError::EmptyCommand)
    } else {
        None
    }
}

/// What can happen to the scheduler.
#[allow(inconsistent_fields)]
pub enum Input {
    /// A task is submitted.
    Submit { thread_id: Seq<char>, command: Seq<char>, cwd: Seq<char>, shell: Option<Seq<char>> },
    /// A task is cancelled.
    Cancel { task_id: Seq<char> },
    /// The process of a task has ended.
    Exit { task_id: Seq<char>, exit_code: Option<i32> },
    /// No process could be started for a task.
    SpawnFailed { task_id: Seq<char>, error: Seq<char> },
    /// The process of a task has written a line.
    Output { task_id: Seq<char>, stream: LogStream, line: Seq<char> },
    /// The cap on parallel tasks is set.
    SetCap { value: usize },
    /// The scheduler is run for no other reason.
    Wake,
    /// A workspace is opened.
    OpenProject { path: Seq<char>, name: Option<Seq<char>>, dir_name: Option<Seq<char>> },
    /// A project is stamped as accessed.
    TouchProject { project_id: Seq<char> },
    /// A thread is created.
    CreateThread { project_id: Seq<char>, name: Seq<char>, description: Option<Seq<char>> },
    /// A message is added to a thread.
    AddMessage { thread_id: Seq<char>, role: Seq<char>, content: Seq<char> },
}

/// The state of the scheduler: the store, the job queue, the identifiers
/// of the tasks that hold a slot, and the next sequence number.
pub struct StateView {
    pub db: DbView,
    pub queue: Seq<QueuedView>,
    pub running: Seq<Seq<char>>,
    pub next_seq: u64,
}

impl StateView {
    /// An empty store with the initial settings; nothing queued or running.
    pub open spec fn initial() -> StateView {
        StateView {
            db: DbView::initial(),
            queue: Seq::empty(),
            running: Seq::empty(),
            next_seq: 1,
        }
    }

    /// The state that a loaded snapshot is taken up in.
    pub open spec fn restored(db: DbView, now: i64) -> StateView {
        StateView {
            db: DbView {
                tasks: Seq::new(db.tasks.len(), |i: int| reconcile_task(db.tasks[i], now)),
                threads: Seq::new(db.threads.len(), |i: int| reconcile_thread(db.threads[i], now)),
                ..db
            },
            queue: Seq::empty(),
            running: Seq::empty(),
            next_seq: 1,
        }
    }

    /// Whether some stored task waits under the identifier of this queue
    /// entry and agrees with it in every field.
    pub open spec fn backed(self, entry: QueuedView) -> bool {
        exists|i: int|
            0 <= i < self.db.tasks.len() && (#[trigger] self.db.tasks[i]).status
                == TaskStatus::Queued && self.db.tasks[i].descriptor() == entry
    }

    /// Whether some stored task with this identifier may hold a slot: one
    /// that runs, or one that was cancelled while its process had not ended.
    pub open spec fn holder(self, id: Seq<char>) -> bool {
        exists|i: int|
            0 <= i < self.db.tasks.len() && (#[trigger] self.db.tasks[i]).id == id && (
            self.db.tasks[i].status == TaskStatus::Running || self.db.tasks[i].status
                == TaskStatus::Cancelled)
    }

    /// The invariant of the scheduler.
    ///
    /// Queue, slots and tasks agree; the stamps of a task go with its
    /// status; the records of the store belong together; and a thread that
    /// shows a task as waiting or running has such a task.
    pub open spec fn wf(self) -> bool {
        &&& self.scheduling_ok()
        &&& self.stamps_ok()
        &&& linked(self.db)
        &&& self.threads_follow()
    }

    /// A task that waits has neither started nor finished; a task that
    /// runs has started and not finished; neither has an exit code.
    pub open spec fn stamps_ok(self) -> bool {
        forall|i: int|
            0 <= i < self.db.tasks.len() ==> {
                let task = #[trigger] self.db.tasks[i];
                &&& task.status.is_live() ==> task.finished_at is None && task.exit_code is None
                &&& task.status == TaskStatus::Queued ==> task.started_at is None
                &&& task.status == TaskStatus::Running ==> task.started_at is Some
            }
    }

    /// A thread that shows a task as waiting or running has such a task.
    pub open spec fn threads_follow(self) -> bool {
        forall|j: int|
            0 <= j < self.db.threads.len() && (#[trigger] self.db.threads[j]).status.is_live()
                ==> shown_by(self.db.tasks, self.db.threads[j])
    }

    /// Queue, slots and tasks agree.
    ///
    /// No task is idle. A task that shares its identifier with another has
    /// ended and holds no slot. The queue holds exactly the tasks that wait,
    /// each once and as stored. The slots are held by tasks that run or were
    /// cancelled while running, each once, and every task that runs holds one.
    pub open spec fn scheduling_ok(self) -> bool {
        let tasks = self.db.tasks;
        &&& forall|i: int|
            0 <= i < tasks.len() ==> (#[trigger] tasks[i]).status != TaskStatus::Idle
        &&& forall|i: int, j: int|
            0 <= i < tasks.len() && 0 <= j < tasks.len() && i != j && (#[trigger] tasks[i]).id == (
            #[trigger] tasks[j]).id ==> tasks[i].status.is_terminal() && !self.running.contains(
                tasks[i].id,
            )
        &&& forall|q: int| 0 <= q < self.queue.len() ==> self.backed(#[trigger] self.queue[q])
        &&& forall|a: int, b: int|
            0 <= a < b < self.queue.len() ==> (#[trigger] self.queue[a]).task_id != (
            #[trigger] self.queue[b]).task_id
        &&& forall|i: int|
            0 <= i < tasks.len() && (#[trigger] tasks[i]).status == TaskStatus::Queued
                ==> queue_ids(self.queue).contains(tasks[i].id)
        &&& forall|a: int, b: int|
            0 <= a < b < self.running.len() ==> #[trigger] self.running[a]
                != #[trigger] self.running[b]
        &&& forall|r: int| 0 <= r < self.running.len() ==> self.holder(#[trigger] self.running[r])
        &&& forall|i: int|
            0 <= i < tasks.len() && (#[trigger] tasks[i]).status == TaskStatus::Running
                ==> self.running.contains(tasks[i].id)
    }

    /// Whether no more slots are taken than the cap allows.
    pub open spec fn within_cap(self) -> bool {
        self.running.len() <= self.cap()
    }

    /// The cap on occupied slots.
    pub open spec fn cap(self) -> int {
        self.db.settings.cap()
    }

    /// How many tasks the scheduler admits from this state.
    pub open spec fn admit_count(self) -> int {
        let free = self.cap() - self.running.len();
        if free <= 0 {
            0
        } else if free < self.queue.len() {
            free
        } else {
            self.queue.len() as int
        }
    }

    /// The head of the queue leaves it and takes a slot: its task is marked
    /// as running and stamped, and its thread follows.
    pub open spec fn admit_one(self, now: i64) -> StateView {
        let head = self.queue[0];
        let tasks = match first_index(task_ids(self.db.tasks), head.task_id) {
            Some(i) => self.db.tasks.update(
                i,
                TaskView {
                    status: TaskStatus::Running,
                    started_at: Some(now),
                    ..self.db.tasks[i]
                },
            ),
            None => self.db.tasks,
        };
        StateView {
            db: DbView {
                tasks,
                threads: set_thread_status(
                    self.db.threads,
                    head.thread_id,
                    TaskStatus::Running,
                    now,
                ),
                ..self.db
            },
            queue: self.queue.drop_first(),
            running: registered(self.running, head.task_id),
            ..self
        }
    }

    /// Admission: while a slot is free and the queue is not empty, the head
    /// of the queue is admitted.
    pub open spec fn schedule(self, now: i64) -> StateView
        decreases self.queue.len(),
    {
        if self.queue.len() > 0 && self.running.len() < self.cap() {
            self.admit_one(now).schedule(now)
        } else {
            self
        }
    }

    /// The sequence number that the next record gets whose identifier
    /// begins with `prefix` and must not be among `ids`: the first one,
    /// counting on from the next sequence number, that gives a new
    /// identifier.
    pub open spec fn fresh_of(self, ids: Seq<Seq<char>>, prefix: Seq<char>, now: i64) -> u64 {
        fresh_seq(ids, prefix, now as int, self.next_seq, ids.len())
    }

    /// The sequence number that the next task gets.
    pub open spec fn fresh_task_seq(self, now: i64) -> u64 {
        self.fresh_of(task_ids(self.db.tasks), "task"@, now)
    }

    /// Why a submission is turned down, if it is: for what is wrong with
    /// its texts, or else because no thread has the identifier.
    pub open spec fn task_error(
        self,
        thread_id: Seq<char>,
        command: Seq<char>,
        cwd: Seq<char>,
    ) -> Option<TaskError> {
        match submission_error(command, cwd) {
            Some(e) => Some(e),
            None => if thread_ids(self.db.threads).contains(thread_id) {
                None
            } else {
                Some(TaskError::ThreadNotFound)
            },
        }
    }

    /// The record of a task submitted now.
    pub open spec fn new_task(
        self,
        thread_id: Seq<char>,
        command: Seq<char>,
        cwd: Seq<char>,
        shell: Option<Seq<char>>,
        now: i64,
    ) -> TaskView {
        TaskView {
            id: id_text("task"@, now as int, self.fresh_task_seq(now) as nat),
            thread_id,
            command,
            cwd,
            shell: resolve_shell(shell, self.db.settings.default_shell),
            status: TaskStatus::Queued,
            created_at: now,
            started_at: None,
            finished_at: None,
            exit_code: None,
        }
    }

    /// A new task is stored and appended to the queue; its thread follows.
    pub open spec fn enqueue(
        self,
        thread_id: Seq<char>,
        command: Seq<char>,
        cwd: Seq<char>,
        shell: Option<Seq<char>>,
        now: i64,
    ) -> StateView {
        let task = self.new_task(thread_id, command, cwd, shell, now);
        StateView {
            db: DbView {
                tasks: self.db.tasks.push(task),
                threads: set_thread_status(self.db.threads, thread_id, TaskStatus::Queued, now),
                ..self.db
            },
            queue: self.queue.push(task.descriptor()),
            next_seq: next_seq_after(self.fresh_task_seq(now)),
            ..self
        }
    }

    /// The position of the task that a cancellation marks: the first task
    /// with the identifier, if it still waits or runs.
    pub open spec fn cancel_target(self, id: Seq<char>) -> Option<int> {
        match first_index(task_ids(self.db.tasks), id) {
            Some(i) => if self.db.tasks[i].status.is_live() {
                Some(i)
            } else {
                None
            },
            None => None,
        }
    }

    /// The event that a cancellation sends: one for the task it marks.
    pub open spec fn cancel_event(self, id: Seq<char>) -> Option<StatusEventView> {
        match self.cancel_target(id) {
            Some(i) => Some(
                StatusEventView {
                    task_id: id,
                    thread_id: self.db.tasks[i].thread_id,
                    status: TaskStatus::Cancelled,
                    exit_code: None,
                },
            ),
            None => None,
        }
    }

    /// The event that the end of a process sends: one for the task that
    /// gives up its slot.
    pub open spec fn release_event(self, id: Seq<char>, exit_code: Option<i32>) -> Option<
        StatusEventView,
    > {
        if first_index(self.running, id) is Some {
            match first_index(task_ids(self.db.tasks), id) {
                Some(i) => Some(
                    StatusEventView {
                        task_id: id,
                        thread_id: self.db.tasks[i].thread_id,
                        status: self.db.tasks[i].status.settled(exit_code),
                        exit_code,
                    },
                ),
                None => None,
            }
        } else {
            None
        }
    }

    /// The tasks that the scheduler admits from this state, in the order of
    /// their admission.
    pub open spec fn admitted(self) -> Seq<QueuedView> {
        self.queue.take(self.admit_count())
    }

    /// Whether a cancellation has a process to terminate.
    pub open spec fn must_kill(self, id: Seq<char>) -> bool {
        first_index(queue_ids(self.queue), id) is None && first_index(self.running, id) is Some
    }

    /// A cancellation before the scheduler runs again: the task leaves the
    /// queue if it is there, and is marked as cancelled if it waits or runs.
    /// A slot it holds stays taken until its process has ended.
    pub open spec fn withdraw(self, id: Seq<char>, now: i64) -> StateView {
        let queue = match first_index(queue_ids(self.queue), id) {
            Some(q) => self.queue.remove(q),
            None => self.queue,
        };
        match self.cancel_target(id) {
            Some(i) => {
                let task = self.db.tasks[i];
                StateView {
                    db: DbView {
                        tasks: self.db.tasks.update(
                            i,
                            TaskView {
                                status: TaskStatus::Cancelled,
                                finished_at: Some(now),
                                ..task
                            },
                        ),
                        threads: set_thread_status(
                            self.db.threads,
                            task.thread_id,
                            TaskStatus::Cancelled,
                            now,
                        ),
                        ..self.db
                    },
                    queue,
                    ..self
                }
            },
            None => StateView { queue, ..self },
        }
    }

    /// The end of a process before the scheduler runs again: the task gives
    /// up its slot and is settled and stamped; its thread follows. A task
    /// that holds no slot is left alone.
    pub open spec fn release(self, id: Seq<char>, exit_code: Option<i32>, now: i64) -> StateView {
        match first_index(self.running, id) {
            None => self,
            Some(r) => {
                let running = unregistered(self.running, id);
                match first_index(task_ids(self.db.tasks), id) {
                    Some(i) => {
                        let task = self.db.tasks[i];
                        let status = task.status.settled(exit_code);
                        StateView {
                            db: DbView {
                                tasks: self.db.tasks.update(
                                    i,
                                    TaskView { status, finished_at: Some(now), exit_code, ..task },
                                ),
                                threads: set_thread_status(
                                    self.db.threads,
                                    task.thread_id,
                                    status,
                                    now,
                                ),
                                ..self.db
                            },
                            running,
                            ..self
                        }
                    },
                    None => StateView { running, ..self },
                }
            },
        }
    }

    /// The record that opening a workspace hands back: that of the project
    /// with this path, stamped as accessed, or that of a new project.
    pub open spec fn opened_project(
        self,
        path: Seq<char>,
        name: Option<Seq<char>>,
        dir_name: Option<Seq<char>>,
        now: i64,
    ) -> ProjectView {
        match first_index(project_paths(self.db.projects), path) {
            Some(i) => ProjectView { last_accessed_at: now, ..self.db.projects[i] },
            None => ProjectView {
                id: id_text(
                    "proj"@,
                    now as int,
                    self.fresh_of(project_ids(self.db.projects), "proj"@, now) as nat,
                ),
                name: project_name(name, dir_name),
                path,
                last_accessed_at: now,
                created_at: now,
            },
        }
    }

    /// Opening a workspace: the first project with this path is stamped as
    /// accessed; where there is none, a new project is stored. A sequence
    /// number is used up either way.
    pub open spec fn open_project(
        self,
        path: Seq<char>,
        name: Option<Seq<char>>,
        dir_name: Option<Seq<char>>,
        now: i64,
    ) -> StateView {
        let project = self.opened_project(path, name, dir_name, now);
        StateView {
            db: DbView {
                projects: match first_index(project_paths(self.db.projects), path) {
                    Some(i) => self.db.projects.update(i, project),
                    None => self.db.projects.push(project),
                },
                ..self.db
            },
            next_seq: next_seq_after(self.fresh_of(project_ids(self.db.projects), "proj"@, now)),
            ..self
        }
    }

    /// The first project with the identifier is stamped as accessed.
    pub open spec fn touch_project(self, id: Seq<char>, now: i64) -> StateView {
        match first_index(project_ids(self.db.projects), id) {
            Some(i) => StateView {
                db: DbView {
                    projects: self.db.projects.update(
                        i,
                        ProjectView { last_accessed_at: now, ..self.db.projects[i] },
                    ),
                    ..self.db
                },
                ..self
            },
            None => self,
        }
    }

    /// Why a thread cannot be created, if it cannot.
    pub open spec fn thread_error(self, project_id: Seq<char>) -> Option<ThreadError> {
        if project_ids(self.db.projects).contains(project_id) {
            None
        } else {
            Some(ThreadError::ProjectNotFound)
        }
    }

    /// The record of a thread created now.
    pub open spec fn new_thread(
        self,
        project_id: Seq<char>,
        name: Seq<char>,
        description: Option<Seq<char>>,
        now: i64,
    ) -> ThreadView {
        ThreadView {
            id: id_text(
                "thread"@,
                now as int,
                self.fresh_of(thread_ids(self.db.threads), "thread"@, now) as nat,
            ),
            project_id,
            name: thread_name(name),
            description: match description {
                Some(d) => d,
                None => Seq::empty(),
            },
            status: TaskStatus::Idle,
            created_at: now,
            updated_at: now,
        }
    }

    /// A new thread is stored.
    pub open spec fn add_thread(
        self,
        project_id: Seq<char>,
        name: Seq<char>,
        description: Option<Seq<char>>,
        now: i64,
    ) -> StateView {
        StateView {
            db: DbView {
                threads: self.db.threads.push(self.new_thread(project_id, name, description, now)),
                ..self.db
            },
            next_seq: next_seq_after(self.fresh_of(thread_ids(self.db.threads), "thread"@, now)),
            ..self
        }
    }

    /// The record of a message added now.
    pub open spec fn new_message(
        self,
        thread_id: Seq<char>,
        role: Seq<char>,
        content: Seq<char>,
        now: i64,
    ) -> MessageView {
        MessageView {
            id: id_text(
                "msg"@,
                now as int,
                self.fresh_of(message_ids(self.db.messages), "msg"@, now) as nat,
            ),
            thread_id,
            role,
            content,
            created_at: now,
        }
    }

    /// A new message is stored, and its thread is stamped as updated.
    pub open spec fn add_message(
        self,
        thread_id: Seq<char>,
        role: Seq<char>,
        content: Seq<char>,
        now: i64,
    ) -> StateView {
        StateView {
            db: DbView {
                messages: self.db.messages.push(self.new_message(thread_id, role, content, now)),
                threads: touch_thread(self.db.threads, thread_id, now),
                ..self.db
            },
            next_seq: next_seq_after(self.fresh_of(message_ids(self.db.messages), "msg"@, now)),
            ..self
        }
    }

    /// The state after one input, taken at the time `now`. An input that
    /// is turned down leaves the state as it is.
    pub open spec fn step(self, input: Input, now: i64) -> StateView {
        match input {
            Input::Submit { thread_id, command, cwd, shell } => if self.task_error(
                thread_id,
                command,
                cwd,
            ) is None {
                self.enqueue(thread_id, command, cwd, shell, now).schedule(now)
            } else {
                self
            },
            Input::Cancel { task_id } => self.withdraw(task_id, now).schedule(now),
            Input::Exit { task_id, exit_code } => self.release(task_id, exit_code, now).schedule(
                now,
            ),
            Input::SpawnFailed { task_id, error } => self.append_log(
                task_id,
                LogStream::Stderr,
                error,
                now,
            ).release(task_id, None, now).schedule(now),
            Input::Output { task_id, stream, line } => self.append_log(task_id, stream, line, now),
            Input::SetCap { value } => if value == 0 {
                self
            } else {
                self.with_cap(value).schedule(now)
            },
            Input::Wake => self.schedule(now),
            Input::OpenProject { path, name, dir_name } => self.open_project(
                path,
                name,
                dir_name,
                now,
            ),
            Input::TouchProject { project_id } => self.touch_project(project_id, now),
            Input::CreateThread { project_id, name, description } => if self.thread_error(
                project_id,
            ) is None {
                self.add_thread(project_id, name, description, now)
            } else {
                self
            },
            Input::AddMessage { thread_id, role, content } => self.add_message(
                thread_id,
                role,
                content,
                now,
            ),
        }
    }

    /// The state after a run of inputs, each with the time at which it is
    /// taken.
    pub open spec fn run(self, inputs: Seq<(Input, i64)>) -> StateView
        decreases inputs.len(),
    {
        if inputs.len() == 0 {
            self
        } else {
            self.step(inputs[0].0, inputs[0].1).run(inputs.drop_first())
        }
    }

    /// The positions of the tasks that run.
    pub open spec fn running_tasks(self) -> Set<int> {
        Set::new(
            |i: int| 0 <= i < self.db.tasks.len() && self.db.tasks[i].status == TaskStatus::Running,
        )
    }

    /// The state with another cap.
    pub open spec fn with_cap(self, value: usize) -> StateView {
        StateView {
            db: DbView {
                settings: SettingsView { max_parallel_tasks: value, ..self.db.settings },
                ..self.db
            },
            ..self
        }
    }

    /// The record of a log line appended now.
    pub open spec fn new_log(
        self,
        task_id: Seq<char>,
        stream: LogStream,
        line: Seq<char>,
        now: i64,
    ) -> LogView {
        LogView {
            id: id_text(
                "log"@,
                now as int,
                self.fresh_of(log_ids(self.db.task_logs), "log"@, now) as nat,
            ),
            task_id,
            stream,
            line,
            created_at: now,
        }
    }

    /// One more line in the log of a task.
    pub open spec fn append_log(
        self,
        task_id: Seq<char>,
        stream: LogStream,
        line: Seq<char>,
        now: i64,
    ) -> StateView {
        StateView {
            db: DbView {
                task_logs: self.db.task_logs.push(self.new_log(task_id, stream, line, now)),
                ..self.db
            },
            next_seq: next_seq_after(self.fresh_of(log_ids(self.db.task_logs), "log"@, now)),
            ..self
        }
    }
}

/// A position found by searching from the front is the first index.
pub proof fn lemma_first_index_found(keys: Seq<Seq<char>>, i: int, key: Seq<char>)
    requires
        is_first(keys, i, key),
    ensures
        first_index(keys, key) == Some(i),
{
    let j = choose|j: int| is_first(keys, j, key);
    assert(is_first(keys, j, key));
    if j < i {
        assert(keys[j] != key);
    }
    if i < j {
        assert(keys[i] != key);
    }
}

/// The first index is the first position that holds the key; there is none
/// exactly when no position holds it.
pub proof fn lemma_first_index(keys: Seq<Seq<char>>, key: Seq<char>)
    ensures
        match first_index(keys, key) {
            Some(i) => is_first(keys, i, key),
            None => !keys.contains(key),
        },
{
    if first_index(keys, key) is None {
        if keys.contains(key) {
            let k = choose|k: int| 0 <= k < keys.len() && keys[k] == key;
            lemma_has_first(keys, k, key);
        }
    }
}

/// Below any position that holds the key there is a first one.
proof fn lemma_has_first(keys: Seq<Seq<char>>, k: int, key: Seq<char>)
    requires
        0 <= k < keys.len(),
        keys[k] == key,
    ensures
        exists|i: int| is_first(keys, i, key),
    decreases k,
{
    if forall|j: int| 0 <= j < k ==> #[trigger] keys[j] != key {
        assert(is_first(keys, k, key));
    } else {
        let j = choose|j: int| 0 <= j < k && #[trigger] keys[j] == key;
        lemma_has_first(keys, j, key);
    }
}

/// Where no position holds the key there is no first index.
pub proof fn lemma_first_index_absent(keys: Seq<Seq<char>>, key: Seq<char>)
    requires
        forall|k: int| 0 <= k < keys.len() ==> #[trigger] keys[k] != key,
    ensures
        first_index(keys, key) is None,
{
    if exists|i: int| is_first(keys, i, key) {
        let j = choose|j: int| is_first(keys, j, key);
        assert(keys[j] != key);
    }
}

} // verus!
