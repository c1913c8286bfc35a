//! The scheduler context: the state store, the job queue and the table of
//! occupied slots behind one value. Each operation changes the state as the
//! model says and hands back what the caller has to do: the tasks to start,
//! the events to send, whether a process is to be terminated.

use crate::errors::{RestoreError, SettingsError, TaskError, ThreadError};
use crate::upkeep::{
    lemma_admit_one_wf, lemma_enqueue_wf, lemma_head_takes_free_slot, lemma_release_wf,
    lemma_start_wf, lemma_store_only, lemma_store_wf, lemma_withdraw_wf,
};
use crate::listing::{list_by, lists_group};
use crate::lookup::{all_distinct, find_first, fresh_id, keys_of};
use crate::model::{
    first_index, lemma_first_index_absent, lemma_first_index_found, log_ids, message_ids,
    project_ids, project_paths, queue_ids, reconcile_task, reconcile_thread, resolve_shell,
    set_thread_status, snapshot_error, task_ids, tasks_have_threads, thread_ids,
    threads_have_projects, touch_thread, Input, StateView,
};
use crate::queue::JobQueue;
use crate::records::{
    opt_text, views, AppDb, AppSettings, DbView, LogEventView, ProjectRecord, QueuedTask,
    StatusEventView, TaskLogEvent, TaskLogRecord, TaskRecord, TaskStatusEvent, ThreadMessage,
    ThreadRecord,
};
use crate::slots::RunningTable;
use crate::status::{LogStream, TaskStatus};
use crate::text::{blank, trim_owned};
use vstd::prelude::*;

verus! {

/// Gives the first thread with the identifier a status and stamps it.
pub fn update_thread_status(
    threads: &mut Vec<ThreadRecord>,
    thread_id: &String,
    status: TaskStatus,
    now: i64,
)
    ensures
        views(final(threads)@) == set_thread_status(views(old(threads)@), thread_id@, status, now),
{
    assert(keys_of(threads@) =~= thread_ids(views(threads@)));
    match find_first(threads, thread_id) {
        Some(j) => {
            threads[j].status = status;
            threads[j].updated_at = now;
            assert(views(threads@) =~= set_thread_status(
                views(old(threads)@),
                thread_id@,
                status,
                now,
            ));
        },
        None => {},
    }
}

/// Stamps the first thread with the identifier as updated.
pub fn touch_thread_record(threads: &mut Vec<ThreadRecord>, thread_id: &String, now: i64)
    ensures
        views(final(threads)@) == touch_thread(views(old(threads)@), thread_id@, now),
{
    assert(keys_of(threads@) =~= thread_ids(views(threads@)));
    match find_first(threads, thread_id) {
        Some(j) => {
            threads[j].updated_at = now;
            assert(views(threads@) =~= touch_thread(views(old(threads)@), thread_id@, now));
        },
        None => {},
    }
}

/// The position of the first project with the given path.
fn find_path(projects: &Vec<ProjectRecord>, path: &String) -> (r: Option<usize>)
    ensures
        match r {
            Some(i) => first_index(project_paths(views(projects@)), path@) == Some(i as int) && i
                < projects.len(),
            None => first_index(project_paths(views(projects@)), path@) is None,
        },
{
    let mut i: usize = 0;
    while i < projects.len()
        invariant
            i <= projects.len(),
            forall|k: int| 0 <= k < i ==> #[trigger] project_paths(views(projects@))[k] != path@,
        decreases projects.len() - i,
    {
        if projects[i].path == *path {
            proof {
                assert(project_paths(views(projects@))[i as int] == path@);
                lemma_first_index_found(project_paths(views(projects@)), i as int, path@);
            }
            return Some(i);
        }
        i += 1;
    }
    proof {
        lemma_first_index_absent(project_paths(views(projects@)), path@);
    }
    None
}

/// Whether every thread names a stored project.
fn threads_know_projects(db: &AppDb) -> (r: bool)
    ensures
        r == threads_have_projects(db@),
{
    assert(keys_of(db.projects@) =~= project_ids(db@.projects));
    let mut j: usize = 0;
    while j < db.threads.len()
        invariant
            j <= db.threads.len(),
            keys_of(db.projects@) == project_ids(db@.projects),
            forall|k: int|
                0 <= k < j ==> project_ids(db@.projects).contains(
                    (#[trigger] db@.threads[k]).project_id,
                ),
        decreases db.threads.len() - j,
    {
        if find_first(&db.projects, &db.threads[j].project_id).is_none() {
            assert(!project_ids(db@.projects).contains(db@.threads[j as int].project_id));
            return false;
        }
        j += 1;
    }
    true
}

/// Whether every task names a stored thread.
fn tasks_know_threads(db: &AppDb) -> (r: bool)
    ensures
        r == tasks_have_threads(db@),
{
    assert(keys_of(db.threads@) =~= thread_ids(db@.threads));
    let mut i: usize = 0;
    while i < db.tasks.len()
        invariant
            i <= db.tasks.len(),
            keys_of(db.threads@) == thread_ids(db@.threads),
            forall|k: int|
                0 <= k < i ==> thread_ids(db@.threads).contains(
                    (#[trigger] db@.tasks[k]).thread_id,
                ),
        decreases db.tasks.len() - i,
    {
        if find_first(&db.threads, &db.tasks[i].thread_id).is_none() {
            assert(!thread_ids(db@.threads).contains(db@.tasks[i as int].thread_id));
            return false;
        }
        i += 1;
    }
    true
}

/// Settles every task that a loaded snapshot shows as waiting or running.
fn reconcile_tasks(tasks: &mut Vec<TaskRecord>, now: i64)
    ensures
        views(final(tasks)@) == Seq::new(
            old(tasks)@.len(),
            |i: int| reconcile_task(views(old(tasks)@)[i], now),
        ),
{
    let mut i: usize = 0;
    while i < tasks.len()
        invariant
            i <= tasks.len(),
            tasks.len() == old(tasks).len(),
            forall|k: int|
                0 <= k < i ==> (#[trigger] tasks@[k])@ == reconcile_task(old(tasks)@[k]@, now),
            forall|k: int| i <= k < tasks.len() ==> #[trigger] tasks@[k] == old(tasks)@[k],
        decreases tasks.len() - i,
    {
        if !tasks[i].status.terminal() {
            let status = tasks[i].status.reconcile();
            tasks[i].status = status;
            tasks[i].finished_at = Some(now);
        }
        i += 1;
    }
    assert(views(tasks@) =~= Seq::new(
        old(tasks)@.len(),
        |i: int| reconcile_task(views(old(tasks)@)[i], now),
    ));
}

/// Lets every thread follow that a loaded snapshot shows as waiting or
/// running.
fn reconcile_threads(threads: &mut Vec<ThreadRecord>, now: i64)
    ensures
        views(final(threads)@) == Seq::new(
            old(threads)@.len(),
            |i: int| reconcile_thread(views(old(threads)@)[i], now),
        ),
{
    let mut i: usize = 0;
    while i < threads.len()
        invariant
            i <= threads.len(),
            threads.len() == old(threads).len(),
            forall|k: int|
                0 <= k < i ==> (#[trigger] threads@[k])@ == reconcile_thread(old(threads)@[k]@, now),
            forall|k: int| i <= k < threads.len() ==> #[trigger] threads@[k] == old(threads)@[k],
        decreases threads.len() - i,
    {
        if threads[i].status.live() {
            let status = threads[i].status.reconcile();
            threads[i].status = status;
            threads[i].updated_at = now;
        }
        i += 1;
    }
    assert(views(threads@) =~= Seq::new(
        old(threads)@.len(),
        |i: int| reconcile_thread(views(old(threads)@)[i], now),
    ));
}

/// What a submission hands back: the new task as it was queued, the event
/// to send for it, and the tasks that the scheduler then admitted.
#[derive(Debug)]
pub struct Submission {
    pub task: TaskRecord,
    pub event: TaskStatusEvent,
    pub admitted: Vec<QueuedTask>,
}

/// What a cancellation hands back: whether the process of the task is to
/// be terminated, the event to send if the task was marked, and the tasks
/// that the scheduler then admitted.
#[derive(Debug)]
pub struct Cancellation {
    pub kill: bool,
    pub event: Option<TaskStatusEvent>,
    pub admitted: Vec<QueuedTask>,
}

/// What the end of a process hands back: the event to send if the task held
/// a slot, and the tasks that the scheduler then admitted.
#[derive(Debug)]
pub struct Completion {
    pub event: Option<TaskStatusEvent>,
    pub admitted: Vec<QueuedTask>,
}

/// What a failed start hands back: the event for the logged error text, and
/// what the end of a process hands back.
#[derive(Debug)]
pub struct SpawnFailure {
    pub log: TaskLogEvent,
    pub completion: Completion,
}

/// The scheduler context.
pub struct AppState {
    db: AppDb,
    queue: JobQueue,
    running: RunningTable,
    next_seq: u64,
}

impl View for AppState {
    type V = StateView;

    closed spec fn view(&self) -> StateView {
        StateView {
            db: self.db@,
            queue: self.queue@,
            running: self.running@,
            next_seq: self.next_seq,
        }
    }
}

impl AppState {
    /// A context with an empty store, the initial settings, and nothing
    /// queued or running.
    pub fn new() -> (state: Self)
        ensures
            state@ == StateView::initial(),
            state@.wf(),
    {
        let state = AppState {
            db: AppDb::default(),
            queue: JobQueue::new(),
            running: RunningTable::new(),
            next_seq: 1,
        };
        proof {
            lemma_start_wf(DbView::initial(), 0);
        }
        state
    }

    /// Admits queued tasks, first come first served, while a slot is free.
    /// Returns the admitted tasks in the order of their admission: for each
    /// of them a process is to be started.
    pub fn schedule_tasks(&mut self, now: i64) -> (admitted: Vec<QueuedTask>)
        requires
            old(self)@.wf(),
        ensures
            final(self)@.wf(),
            final(self)@ == old(self)@.schedule(now),
            views(admitted@) == old(self)@.admitted(),
            final(self)@ == old(self)@.step(Input::Wake, now),
    {
        let mut admitted: Vec<QueuedTask> = Vec::new();
        let cap: usize = if self.db.settings.max_parallel_tasks == 0 {
            1
        } else {
            self.db.settings.max_parallel_tasks
        };
        assert(views(admitted@) =~= old(self)@.queue.take(0));
        while self.queue.len() > 0 && self.running.count() < cap
            invariant
                self@.wf(),
                cap == self@.cap(),
                cap == old(self)@.cap(),
                self@.schedule(now) == old(self)@.schedule(now),
                admitted@.len() <= old(self)@.queue.len(),
                views(admitted@) == old(self)@.queue.take(admitted@.len() as int),
                self@.queue == old(self)@.queue.skip(admitted@.len() as int),
                self@.running.len() == old(self)@.running.len() + admitted@.len(),
                admitted@.len() == 0 || self@.running.len() <= cap,
            decreases self@.queue.len(),
        {
            let ghost before = self@;
            let head = self.queue.dequeue().unwrap();
            proof {
                assert(keys_of(self.db.tasks@) =~= task_ids(views(self.db.tasks@)));
            }
            match find_first(&self.db.tasks, &head.task_id) {
                Some(i) => {
                    self.db.tasks[i].status = TaskStatus::Running;
                    self.db.tasks[i].started_at = Some(now);
                },
                None => {},
            }
            update_thread_status(&mut self.db.threads, &head.thread_id, TaskStatus::Running, now);
            self.running.register(head.task_id.clone());
            proof {
                let after = before.admit_one(now);
                lemma_admit_one_wf(before, now);
                lemma_head_takes_free_slot(before, now);
                assert(self@.db.tasks =~= after.db.tasks);
                assert(self@.queue =~= after.queue);
                assert(self@.running =~= after.running);
                assert(self@ == after);
                assert(head@ == before.queue[0]);
                assert(self@.queue =~= old(self)@.queue.skip(admitted@.len() as int + 1));
                assert(old(self)@.queue.take(admitted@.len() as int + 1) =~= old(self)@.queue.take(
                    admitted@.len() as int,
                ).push(head@));
            }
            admitted.push(head);
            proof {
                assert(views(admitted@) =~= old(self)@.queue.take(admitted@.len() as int));
            }
        }
        admitted
    }

    /// Takes up a loaded snapshot. No process survives a restart, so no
    /// task of the snapshot is left waiting or running: what ran has failed
    /// and what waited is cancelled, and the threads follow. A snapshot
    /// whose records do not belong together is turned down: one in which
    /// two projects or two threads share an identifier, a thread names no
    /// stored project, or a task names no stored thread.
    pub fn restore(db: AppDb, now: i64) -> (r: Result<Self, RestoreError>)
        ensures
            match r {
                Ok(state) => snapshot_error(db@) is None && state@ == StateView::restored(
                    db@,
                    now,
                ) && state@.wf(),
                Err(e) => snapshot_error(db@) == Some(e),
            },
    {
        proof {
            assert(keys_of(db.projects@) =~= project_ids(db@.projects));
            assert(keys_of(db.threads@) =~= thread_ids(db@.threads));
        }
        if !all_distinct(&db.projects) {
            return Err(RestoreError::DuplicateProject);
        }
        if !threads_know_projects(&db) {
            return Err(RestoreError::UnknownProject);
        }
        if !all_distinct(&db.threads) {
            return Err(RestoreError::DuplicateThread);
        }
        if !tasks_know_threads(&db) {
            return Err(RestoreError::UnknownThread);
        }
        let mut db = db;
        let ghost loaded = db@;
        reconcile_tasks(&mut db.tasks, now);
        reconcile_threads(&mut db.threads, now);
        let state = AppState {
            db,
            queue: JobQueue::new(),
            running: RunningTable::new(),
            next_seq: 1,
        };
        proof {
            let want = StateView::restored(loaded, now);
            lemma_start_wf(loaded, now);
            assert(state@.db.tasks =~= want.db.tasks);
            assert(state@.db.threads =~= want.db.threads);
        }
        Ok(state)
    }

    /// The settings in force.
    pub fn settings(&self) -> (settings: AppSettings)
        ensures
            settings@ == self@.db.settings,
    {
        self.db.settings.clone()
    }

    /// The cap that admission goes by: the stored value, but at least one.
    pub fn max_parallel_tasks(&self) -> (cap: usize)
        ensures
            cap == self@.cap(),
    {
        if self.db.settings.max_parallel_tasks == 0 {
            1
        } else {
            self.db.settings.max_parallel_tasks
        }
    }

    /// The number of occupied slots.
    pub fn running_count(&self) -> (n: usize)
        ensures
            n == self@.running.len(),
    {
        self.running.count()
    }

    /// The number of tasks that wait.
    pub fn queued_count(&self) -> (n: usize)
        ensures
            n == self@.queue.len(),
    {
        self.queue.len()
    }

    /// Whether the task holds a slot.
    pub fn holds_slot(&self, task_id: &str) -> (r: bool)
        ensures
            r == self@.running.contains(task_id@),
    {
        self.running.lookup(task_id)
    }

    /// Whether the task waits in the queue.
    pub fn is_queued(&self, task_id: &str) -> (r: bool)
        ensures
            r == queue_ids(self@.queue).contains(task_id@),
    {
        self.queue.contains(task_id)
    }

    /// The first task with the identifier, if there is one.
    pub fn task(&self, task_id: &str) -> (r: Option<TaskRecord>)
        ensures
            match first_index(task_ids(self@.db.tasks), task_id@) {
                Some(i) => r is Some && r->0@ == self@.db.tasks[i],
                None => r is None,
            },
    {
        let key = task_id.to_owned();
        proof {
            assert(keys_of(self.db.tasks@) =~= task_ids(views(self.db.tasks@)));
        }
        match find_first(&self.db.tasks, &key) {
            Some(i) => Some(self.db.tasks[i].clone()),
            None => None,
        }
    }

    /// The first thread with the identifier, if there is one.
    pub fn thread(&self, thread_id: &str) -> (r: Option<ThreadRecord>)
        ensures
            match first_index(thread_ids(self@.db.threads), thread_id@) {
                Some(i) => r is Some && r->0@ == self@.db.threads[i],
                None => r is None,
            },
    {
        let key = thread_id.to_owned();
        proof {
            assert(keys_of(self.db.threads@) =~= thread_ids(views(self.db.threads@)));
        }
        match find_first(&self.db.threads, &key) {
            Some(i) => Some(self.db.threads[i].clone()),
            None => None,
        }
    }

    /// A copy of the store, to be persisted.
    pub fn snapshot(&self) -> (db: AppDb)
        ensures
            db@ == self@.db,
    {
        self.db.clone()
    }

    /// Submits a task: it is stored as queued and appended to the queue, its
    /// thread follows, and the scheduler runs. `cwd` is the canonical path of
    /// the working directory, which the caller has found to exist. A blank
    /// working directory, a blank command and a thread that is not stored
    /// are turned down, in this order, and nothing changes.
    pub fn run_task(
        &mut self,
        thread_id: String,
        command: String,
        cwd: String,
        shell: Option<String>,
        now: i64,
    ) -> (r: Result<Submission, TaskError>)
        requires
            old(self)@.wf(),
        ensures
            final(self)@.wf(),
            final(self)@ == old(self)@.step(
                (Input::Submit {
                    thread_id: thread_id@,
                    command: command@,
                    cwd: cwd@,
                    shell: opt_text(shell),
                }),
                now,
            ),
            match r {
                Ok(sub) => {
                    let queued = old(self)@.enqueue(
                        thread_id@,
                        command@,
                        cwd@,
                        opt_text(shell),
                        now,
                    );
                    &&& old(self)@.task_error(thread_id@, command@, cwd@) is None
                    &&& final(self)@ == queued.schedule(now)
                    &&& sub.task@ == old(self)@.new_task(
                        thread_id@,
                        command@,
                        cwd@,
                        opt_text(shell),
                        now,
                    )
                    &&& sub.event@ == (StatusEventView {
                        task_id: sub.task@.id,
                        thread_id: thread_id@,
                        status: TaskStatus::Queued,
                        exit_code: None,
                    })
                    &&& views(sub.admitted@) == queued.admitted()
                    &&& !task_ids(old(self)@.db.tasks).contains(sub.task@.id)
                },
                Err(e) => {
                    &&& old(self)@.task_error(thread_id@, command@, cwd@) == Some(e)
                    &&& final(self)@ == old(self)@
                },
            },
    {
        if blank(cwd.as_str()) {
            return Err(TaskError::CwdRequired);
        }
        if blank(command.as_str()) {
            return Err(TaskError::EmptyCommand);
        }
        proof {
            assert(keys_of(self.db.threads@) =~= thread_ids(views(self.db.threads@)));
            assert(keys_of(self.db.tasks@) =~= task_ids(views(self.db.tasks@)));
        }
        if find_first(&self.db.threads, &thread_id).is_none() {
            return Err(TaskError::ThreadNotFound);
        }
        let shell_name = match shell {
            Some(asked) => if blank(asked.as_str()) {
                self.db.settings.default_shell.clone()
            } else {
                asked
            },
            None => self.db.settings.default_shell.clone(),
        };
        assert(shell_name@ == resolve_shell(
            opt_text(shell),
            old(self)@.db.settings.default_shell,
        ));
        let id = fresh_id(&self.db.tasks, "task", now, &mut self.next_seq);
        let task = TaskRecord {
            id: id.clone(),
            thread_id: thread_id.clone(),
            command: command.clone(),
            cwd: cwd.clone(),
            shell: shell_name.clone(),
            status: TaskStatus::Queued,
            created_at: now,
            started_at: None,
            finished_at: None,
            exit_code: None,
        };
        self.db.tasks.push(task.clone());
        update_thread_status(&mut self.db.threads, &thread_id, TaskStatus::Queued, now);
        self.queue.enqueue(
            QueuedTask {
                task_id: id.clone(),
                thread_id: thread_id.clone(),
                command,
                cwd,
                shell: shell_name,
            },
        );
        let event = TaskStatusEvent {
            task_id: id,
            thread_id,
            status: TaskStatus::Queued,
            exit_code: None,
        };
        let stored = self.db.tasks.len();
        proof {
            let want = old(self)@.enqueue(thread_id@, command@, cwd@, opt_text(shell), now);
            assert(self@.db.tasks =~= want.db.tasks);
            assert(self@.queue =~= want.queue);
            assert(self@ == want);
            assert(old(self)@.db.tasks.len() + 1 == stored);
            lemma_enqueue_wf(old(self)@, thread_id@, command@, cwd@, opt_text(shell), now);
        }
        let admitted = self.schedule_tasks(now);
        Ok(Submission { task, event, admitted })
    }

    /// Cancels a task. A task that waits leaves the queue and never starts;
    /// for a task that holds a slot the caller is told to terminate its
    /// process, and the slot stays taken until that process has ended. In
    /// both cases the task is marked as cancelled at once. A task that has
    /// ended, or that is not known, is left alone. The scheduler runs after
    /// every cancellation.
    pub fn cancel_task(&mut self, task_id: &str, now: i64) -> (r: Cancellation)
        requires
            old(self)@.wf(),
        ensures
            final(self)@.wf(),
            final(self)@ == old(self)@.withdraw(task_id@, now).schedule(now),
            final(self)@ == old(self)@.step((Input::Cancel { task_id: task_id@ }), now),
            r.kill == old(self)@.must_kill(task_id@),
            opt_status_event(r.event) == old(self)@.cancel_event(task_id@),
            views(r.admitted@) == old(self)@.withdraw(task_id@, now).admitted(),
    {
        let key = task_id.to_owned();
        let mut kill = false;
        proof {
            assert(keys_of(self.db.tasks@) =~= task_ids(views(self.db.tasks@)));
        }
        match self.queue.remove(task_id) {
            Some(_) => {},
            None => {
                kill = self.running.lookup(task_id);
            },
        }
        let mut event: Option<TaskStatusEvent> = None;
        match find_first(&self.db.tasks, &key) {
            Some(i) => {
                if self.db.tasks[i].status.live() {
                    self.db.tasks[i].status = TaskStatus::Cancelled;
                    self.db.tasks[i].finished_at = Some(now);
                    let thread_id = self.db.tasks[i].thread_id.clone();
                    update_thread_status(
                        &mut self.db.threads,
                        &thread_id,
                        TaskStatus::Cancelled,
                        now,
                    );
                    event = Some(
                        TaskStatusEvent {
                            task_id: key,
                            thread_id,
                            status: TaskStatus::Cancelled,
                            exit_code: None,
                        },
                    );
                }
            },
            None => {},
        }
        proof {
            let want = old(self)@.withdraw(task_id@, now);
            assert(self@.db.tasks =~= want.db.tasks);
            assert(self@ == want);
            lemma_withdraw_wf(old(self)@, task_id@, now);
        }
        let admitted = self.schedule_tasks(now);
        Cancellation { kill, event, admitted }
    }

    /// Records that the process of a task has ended, with the exit code if
    /// one could be had. The task gives up its slot and is settled: a task
    /// that was cancelled stays cancelled, exit code zero is a success, and
    /// everything else is a failure. A task that holds no slot is left
    /// alone. The scheduler runs after every completion.
    pub fn finish_task(&mut self, task_id: &str, exit_code: Option<i32>, now: i64) -> (r:
        Completion)
        requires
            old(self)@.wf(),
        ensures
            final(self)@.wf(),
            final(self)@ == old(self)@.release(task_id@, exit_code, now).schedule(now),
            final(self)@ == old(self)@.step((Input::Exit { task_id: task_id@, exit_code }), now),
            opt_status_event(r.event) == old(self)@.release_event(task_id@, exit_code),
            views(r.admitted@) == old(self)@.release(task_id@, exit_code, now).admitted(),
    {
        let key = task_id.to_owned();
        let mut event: Option<TaskStatusEvent> = None;
        proof {
            assert(keys_of(self.db.tasks@) =~= task_ids(views(self.db.tasks@)));
        }
        match self.running.unregister(task_id) {
            false => {},
            true => {
                match find_first(&self.db.tasks, &key) {
                    Some(i) => {
                        let status = self.db.tasks[i].status.settle(exit_code);
                        self.db.tasks[i].status = status;
                        self.db.tasks[i].finished_at = Some(now);
                        self.db.tasks[i].exit_code = exit_code;
                        let thread_id = self.db.tasks[i].thread_id.clone();
                        update_thread_status(&mut self.db.threads, &thread_id, status, now);
                        event = Some(
                            TaskStatusEvent { task_id: key, thread_id, status, exit_code },
                        );
                    },
                    None => {},
                }
            },
        }
        proof {
            let want = old(self)@.release(task_id@, exit_code, now);
            assert(self@.db.tasks =~= want.db.tasks);
            assert(self@ == want);
            lemma_release_wf(old(self)@, task_id@, exit_code, now);
        }
        let admitted = self.schedule_tasks(now);
        Completion { event, admitted }
    }

    /// Records that no process could be started for an admitted task. The
    /// error text becomes a line of the task's error stream, and the task
    /// ends as one whose process ended without an exit code.
    pub fn fail_spawn(&mut self, task_id: &str, thread_id: &str, error: String, now: i64) -> (r:
        SpawnFailure)
        requires
            old(self)@.wf(),
        ensures
            final(self)@.wf(),
            final(self)@ == old(self)@.append_log(task_id@, LogStream::Stderr, error@, now).release(
                task_id@,
                None,
                now,
            ).schedule(now),
            final(self)@ == old(self)@.step(
                (Input::SpawnFailed { task_id: task_id@, error: error@ }),
                now,
            ),
            r.log@ == (LogEventView {
                task_id: task_id@,
                thread_id: thread_id@,
                stream: LogStream::Stderr,
                line: error@,
            }),
            opt_status_event(r.completion.event) == old(self)@.append_log(
                task_id@,
                LogStream::Stderr,
                error@,
                now,
            ).release_event(task_id@, None),
            views(r.completion.admitted@) == old(self)@.append_log(
                task_id@,
                LogStream::Stderr,
                error@,
                now,
            ).release(task_id@, None, now).admitted(),
    {
        let log = self.append_task_log(task_id, thread_id, LogStream::Stderr, error, now);
        let completion = self.finish_task(task_id, None, now);
        SpawnFailure { log, completion }
    }

    /// Appends one line of output to the log of a task and hands back the
    /// event to send for it.
    pub fn append_task_log(
        &mut self,
        task_id: &str,
        thread_id: &str,
        stream: LogStream,
        line: String,
        now: i64,
    ) -> (event: TaskLogEvent)
        requires
            old(self)@.wf(),
        ensures
            final(self)@.wf(),
            final(self)@ == old(self)@.append_log(task_id@, stream, line@, now),
            final(self)@ == old(self)@.step(
                (Input::Output { task_id: task_id@, stream, line: line@ }),
                now,
            ),
            event@ == (LogEventView {
                task_id: task_id@,
                thread_id: thread_id@,
                stream,
                line: line@,
            }),
            final(self)@.db.task_logs == old(self)@.db.task_logs.push(
                old(self)@.new_log(task_id@, stream, line@, now),
            ),
            !log_ids(old(self)@.db.task_logs).contains(
                old(self)@.new_log(task_id@, stream, line@, now).id,
            ),
    {
        proof {
            assert(keys_of(self.db.task_logs@) =~= log_ids(views(self.db.task_logs@)));
        }
        let id = fresh_id(&self.db.task_logs, "log", now, &mut self.next_seq);
        self.db.task_logs.push(
            TaskLogRecord {
                id,
                task_id: task_id.to_owned(),
                stream,
                line: line.clone(),
                created_at: now,
            },
        );
        proof {
            let want = old(self)@.append_log(task_id@, stream, line@, now);
            assert(self@.db.task_logs =~= want.db.task_logs);
            assert(self@ == want);
            lemma_store_only(old(self)@, want);
        }
        TaskLogEvent { task_id: task_id.to_owned(), thread_id: thread_id.to_owned(), stream, line }
    }

    /// Opens a workspace. `path` is the canonical path of the directory and
    /// `dir_name` its last component, if it has one. Where a project with
    /// this path is stored it is stamped as accessed and handed back; else a
    /// new project is stored under the given name, or under the name of the
    /// directory where none is given.
    pub fn create_project(
        &mut self,
        path: String,
        name: Option<String>,
        dir_name: Option<String>,
        now: i64,
    ) -> (project: ProjectRecord)
        requires
            old(self)@.wf(),
        ensures
            final(self)@.wf(),
            final(self)@ == old(self)@.open_project(
                path@,
                opt_text(name),
                opt_text(dir_name),
                now,
            ),
            project@ == old(self)@.opened_project(
                path@,
                opt_text(name),
                opt_text(dir_name),
                now,
            ),
            first_index(project_paths(old(self)@.db.projects), path@) is None ==> !project_ids(
                old(self)@.db.projects,
            ).contains(project@.id),
            final(self)@ == old(self)@.step(
                (Input::OpenProject {
                    path: path@,
                    name: opt_text(name),
                    dir_name: opt_text(dir_name),
                }),
                now,
            ),
    {
        // the lengths of the lists are machine numbers
        let stored_projects = self.db.projects.len();
        let stored_threads = self.db.threads.len();
        assert(self@.db.projects.len() == stored_projects);
        assert(self@.db.threads.len() == stored_threads);
        proof {
            assert(keys_of(self.db.projects@) =~= project_ids(views(self.db.projects@)));
        }
        let id = fresh_id(&self.db.projects, "proj", now, &mut self.next_seq);
        match find_path(&self.db.projects, &path) {
            Some(i) => {
                self.db.projects[i].last_accessed_at = now;
                let project = self.db.projects[i].clone();
                proof {
                    let want = old(self)@.open_project(
                        path@,
                        opt_text(name),
                        opt_text(dir_name),
                        now,
                    );
                    assert(self@.db.projects =~= want.db.projects);
                    assert(self@ == want);
                    lemma_store_wf(
                        old(self)@,
                        path@,
                        Seq::empty(),
                        opt_text(name),
                        opt_text(dir_name),
                        Seq::empty(),
                        now,
                    );
                }
                project
            },
            None => {
                let shown = match name {
                    Some(n) => trim_owned(n.as_str()),
                    None => match dir_name {
                        Some(d) => trim_owned(d.as_str()),
                        None => trim_owned("Workspace"),
                    },
                };
                let project = ProjectRecord {
                    id,
                    name: shown,
                    path,
                    last_accessed_at: now,
                    created_at: now,
                };
                self.db.projects.push(project.clone());
                proof {
                    let want = old(self)@.open_project(
                        path@,
                        opt_text(name),
                        opt_text(dir_name),
                        now,
                    );
                    assert(self@.db.projects =~= want.db.projects);
                    assert(self@ == want);
                    lemma_store_wf(
                        old(self)@,
                        path@,
                        Seq::empty(),
                        opt_text(name),
                        opt_text(dir_name),
                        Seq::empty(),
                        now,
                    );
                }
                project
            },
        }
    }

    /// Stamps the first project with the identifier as accessed. Without
    /// such a project nothing changes.
    pub fn touch_project(&mut self, project_id: &str, now: i64)
        requires
            old(self)@.wf(),
        ensures
            final(self)@.wf(),
            final(self)@ == old(self)@.touch_project(project_id@, now),
            final(self)@ == old(self)@.step(
                (Input::TouchProject { project_id: project_id@ }),
                now,
            ),
    {
        // the lengths of the lists are machine numbers
        let stored_projects = self.db.projects.len();
        let stored_threads = self.db.threads.len();
        assert(self@.db.projects.len() == stored_projects);
        assert(self@.db.threads.len() == stored_threads);
        let key = project_id.to_owned();
        proof {
            assert(keys_of(self.db.projects@) =~= project_ids(views(self.db.projects@)));
        }
        match find_first(&self.db.projects, &key) {
            Some(i) => {
                self.db.projects[i].last_accessed_at = now;
                proof {
                    let want = old(self)@.touch_project(project_id@, now);
                    assert(self@.db.projects =~= want.db.projects);
                    assert(self@ == want);
                    lemma_store_wf(
                        old(self)@,
                        project_id@,
                        Seq::empty(),
                        None,
                        None,
                        Seq::empty(),
                        now,
                    );
                }
            },
            None => {},
        }
    }

    /// Creates an idle thread under a project. Without a project of that
    /// identifier nothing changes and the thread is turned down.
    pub fn create_thread(
        &mut self,
        project_id: String,
        name: String,
        description: Option<String>,
        now: i64,
    ) -> (r: Result<ThreadRecord, ThreadError>)
        requires
            old(self)@.wf(),
        ensures
            final(self)@.wf(),
            final(self)@ == old(self)@.step(
                (Input::CreateThread {
                    project_id: project_id@,
                    name: name@,
                    description: opt_text(description),
                }),
                now,
            ),
            match r {
                Ok(thread) => {
                    &&& old(self)@.thread_error(project_id@) is None
                    &&& final(self)@ == old(self)@.add_thread(
                        project_id@,
                        name@,
                        opt_text(description),
                        now,
                    )
                    &&& thread@ == old(self)@.new_thread(
                        project_id@,
                        name@,
                        opt_text(description),
                        now,
                    )
                    &&& !thread_ids(old(self)@.db.threads).contains(thread@.id)
                },
                Err(e) => old(self)@.thread_error(project_id@) == Some(e) && final(self)@ == old(
                    self,
                )@,
            },
    {
        // the lengths of the lists are machine numbers
        let stored_projects = self.db.projects.len();
        let stored_threads = self.db.threads.len();
        assert(self@.db.projects.len() == stored_projects);
        assert(self@.db.threads.len() == stored_threads);
        proof {
            assert(keys_of(self.db.projects@) =~= project_ids(views(self.db.projects@)));
        }
        if find_first(&self.db.projects, &project_id).is_none() {
            return Err(ThreadError::ProjectNotFound);
        }
        let shown = if blank(name.as_str()) {
            "New thread".to_owned()
        } else {
            trim_owned(name.as_str())
        };
        proof {
            assert(keys_of(self.db.threads@) =~= thread_ids(views(self.db.threads@)));
        }
        let thread = ThreadRecord {
            id: fresh_id(&self.db.threads, "thread", now, &mut self.next_seq),
            project_id,
            name: shown,
            description: match description {
                Some(d) => d,
                None => String::new(),
            },
            status: TaskStatus::Idle,
            created_at: now,
            updated_at: now,
        };
        self.db.threads.push(thread.clone());
        proof {
            let want = old(self)@.add_thread(project_id@, name@, opt_text(description), now);
            assert(self@.db.threads =~= want.db.threads);
            assert(self@ == want);
            lemma_store_wf(
                old(self)@,
                project_id@,
                name@,
                opt_text(description),
                None,
                Seq::empty(),
                now,
            );
        }
        Ok(thread)
    }

    /// Adds a message to a thread and stamps the thread as updated.
    pub fn add_thread_message(&mut self, thread_id: String, role: String, content: String, now: i64)
        -> (message: ThreadMessage)
        requires
            old(self)@.wf(),
        ensures
            final(self)@.wf(),
            final(self)@ == old(self)@.add_message(thread_id@, role@, content@, now),
            final(self)@ == old(self)@.step(
                (Input::AddMessage { thread_id: thread_id@, role: role@, content: content@ }),
                now,
            ),
            message@ == old(self)@.new_message(thread_id@, role@, content@, now),
            !message_ids(old(self)@.db.messages).contains(message@.id),
    {
        // the lengths of the lists are machine numbers
        let stored_projects = self.db.projects.len();
        let stored_threads = self.db.threads.len();
        assert(self@.db.projects.len() == stored_projects);
        assert(self@.db.threads.len() == stored_threads);
        proof {
            assert(keys_of(self.db.messages@) =~= message_ids(views(self.db.messages@)));
        }
        let message = ThreadMessage {
            id: fresh_id(&self.db.messages, "msg", now, &mut self.next_seq),
            thread_id: thread_id.clone(),
            role,
            content,
            created_at: now,
        };
        self.db.messages.push(message.clone());
        touch_thread_record(&mut self.db.threads, &thread_id, now);
        proof {
            let want = old(self)@.add_message(thread_id@, role@, content@, now);
            assert(self@.db.messages =~= want.db.messages);
            assert(self@ == want);
            lemma_store_wf(old(self)@, thread_id@, role@, None, None, content@, now);
        }
        message
    }

    /// All projects, the one accessed last first.
    pub fn list_projects(&self) -> (out: Vec<ProjectRecord>)
        ensures
            lists_group::<ProjectRecord>(self@.db.projects, None, true, views(out@)),
    {
        list_by(&self.db.projects, None, true)
    }

    /// The threads of a project, the one updated last first.
    pub fn list_threads(&self, project_id: &str) -> (out: Vec<ThreadRecord>)
        ensures
            lists_group::<ThreadRecord>(self@.db.threads, Some(project_id@), true, views(out@)),
    {
        list_by(&self.db.threads, Some(project_id), true)
    }

    /// The messages of a thread, the oldest first.
    pub fn list_thread_messages(&self, thread_id: &str) -> (out: Vec<ThreadMessage>)
        ensures
            lists_group::<ThreadMessage>(self@.db.messages, Some(thread_id@), false, views(out@)),
    {
        list_by(&self.db.messages, Some(thread_id), false)
    }

    /// The tasks of a thread, the newest first.
    pub fn list_tasks(&self, thread_id: &str) -> (out: Vec<TaskRecord>)
        ensures
            lists_group::<TaskRecord>(self@.db.tasks, Some(thread_id@), true, views(out@)),
    {
        list_by(&self.db.tasks, Some(thread_id), true)
    }

    /// The log of a task, the oldest line first; lines with the same
    /// timestamp stay in the order in which they were appended.
    pub fn list_task_logs(&self, task_id: &str) -> (out: Vec<TaskLogRecord>)
        ensures
            lists_group::<TaskLogRecord>(self@.db.task_logs, Some(task_id@), false, views(out@)),
    {
        list_by(&self.db.task_logs, Some(task_id), false)
    }

    /// Sets the cap on parallel tasks and runs the scheduler, which admits
    /// queued tasks at once where the cap was raised. Zero is turned down
    /// and nothing changes. Lowering the cap ends no running task.
    pub fn set_max_parallel_tasks(&mut self, value: usize, now: i64) -> (r: Result<
        Vec<QueuedTask>,
        SettingsError,
    >)
        requires
            old(self)@.wf(),
        ensures
            final(self)@.wf(),
            final(self)@ == old(self)@.step((Input::SetCap { value }), now),
            match r {
                Ok(admitted) => {
                    &&& value != 0
                    &&& final(self)@ == old(self)@.with_cap(value).schedule(now)
                    &&& views(admitted@) == old(self)@.with_cap(value).admitted()
                },
                Err(e) => value == 0 && e == SettingsError::ZeroParallelism && final(self)@ == old(
                    self,
                )@,
            },
    {
        if value == 0 {
            return Err(SettingsError::ZeroParallelism);
        }
        self.db.settings.max_parallel_tasks = value;
        proof {
            assert(self@ == old(self)@.with_cap(value));
            lemma_store_only(old(self)@, self@);
        }
        Ok(self.schedule_tasks(now))
    }
}

/// The view of an optional status event.
pub open spec fn opt_status_event(event: Option<TaskStatusEvent>) -> Option<StatusEventView> {
    match event {
        Some(e) => Some(e@),
        None => None,
    }
}

} // verus!
