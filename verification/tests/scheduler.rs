use task_scheduler::errors::{SettingsError, TaskError};
use task_scheduler::records::{AppDb, ProjectRecord, QueuedTask, TaskRecord, ThreadRecord};
use task_scheduler::state::AppState;
use task_scheduler::status::{LogStream, TaskStatus};

/// A scheduler whose store holds one project and the thread `thread-1`.
fn ready() -> AppState {
    let mut db = AppDb::default();
    db.projects.push(ProjectRecord {
        id: "proj-1".to_string(),
        name: "Work".to_string(),
        path: "/work".to_string(),
        last_accessed_at: 0,
        created_at: 0,
    });
    db.threads.push(ThreadRecord {
        id: "thread-1".to_string(),
        project_id: "proj-1".to_string(),
        name: "Build".to_string(),
        description: String::new(),
        status: TaskStatus::Idle,
        created_at: 0,
        updated_at: 0,
    });
    AppState::restore(db, 0).expect("the records belong together")
}

fn submit(state: &mut AppState, command: &str, now: i64) -> (TaskRecord, Vec<QueuedTask>) {
    let done = state
        .run_task("thread-1".to_string(), command.to_string(), "/work".to_string(), None, now)
        .expect("a valid submission is accepted");
    (done.task, done.admitted)
}

fn status_of(state: &AppState, id: &str) -> TaskStatus {
    state.task(id).expect("the task is stored").status
}

fn ids(tasks: &[QueuedTask]) -> Vec<String> {
    tasks.iter().map(|t| t.task_id.clone()).collect()
}

#[test]
fn fresh_scheduler_is_empty_with_default_settings() {
    let state = AppState::new();
    assert_eq!(state.running_count(), 0);
    assert_eq!(state.queued_count(), 0);
    assert_eq!(state.max_parallel_tasks(), 2);
    let settings = state.settings();
    assert_eq!(settings.max_parallel_tasks, 2);
    assert_eq!(settings.default_shell, "powershell");
    let db = state.snapshot();
    assert!(db.projects.is_empty() && db.threads.is_empty() && db.messages.is_empty());
    assert!(db.tasks.is_empty() && db.task_logs.is_empty());
}

#[test]
fn submission_returns_queued_task_and_admits_it() {
    let mut state = ready();
    let done = state
        .run_task("thread-1".to_string(), "echo hi".to_string(), "/work".to_string(), None, 1000)
        .unwrap();
    assert_eq!(done.task.id, "task-1000-1");
    assert_eq!(done.task.thread_id, "thread-1");
    assert_eq!(done.task.command, "echo hi");
    assert_eq!(done.task.cwd, "/work");
    assert_eq!(done.task.shell, "powershell");
    assert_eq!(done.task.status, TaskStatus::Queued);
    assert_eq!(done.task.created_at, 1000);
    assert_eq!(done.task.started_at, None);
    assert_eq!(done.task.finished_at, None);
    assert_eq!(done.task.exit_code, None);
    assert_eq!(done.event.task_id, "task-1000-1");
    assert_eq!(done.event.thread_id, "thread-1");
    assert_eq!(done.event.status, TaskStatus::Queued);
    assert_eq!(done.event.exit_code, None);
    assert_eq!(done.admitted.len(), 1);
    assert_eq!(done.admitted[0].task_id, "task-1000-1");
    assert_eq!(done.admitted[0].command, "echo hi");
    assert_eq!(done.admitted[0].cwd, "/work");
    assert_eq!(done.admitted[0].shell, "powershell");
    let stored = state.task("task-1000-1").unwrap();
    assert_eq!(stored.status, TaskStatus::Running);
    assert_eq!(stored.started_at, Some(1000));
    assert!(state.holds_slot("task-1000-1"));
    assert!(!state.is_queued("task-1000-1"));
}

#[test]
fn submission_uses_the_shell_asked_for_unless_blank() {
    let mut state = ready();
    let a = state
        .run_task("thread-1".to_string(), "ls".to_string(), "/w".to_string(), Some("cmd".to_string()), 1)
        .unwrap();
    assert_eq!(a.task.shell, "cmd");
    let b = state
        .run_task("thread-1".to_string(), "ls".to_string(), "/w".to_string(), Some("   ".to_string()), 2)
        .unwrap();
    assert_eq!(b.task.shell, "powershell");
}

#[test]
fn blank_working_directory_is_rejected() {
    let mut state = ready();
    let before = state.snapshot();
    let r = state.run_task("thread-1".to_string(), "ls".to_string(), "  ".to_string(), None, 5);
    assert_eq!(r.unwrap_err(), TaskError::CwdRequired);
    assert_eq!(TaskError::CwdRequired.message(), "Task cwd is required");
    assert_eq!(state.snapshot(), before);
    assert_eq!(state.queued_count(), 0);
}

#[test]
fn blank_command_is_rejected() {
    let mut state = ready();
    let r = state.run_task("thread-1".to_string(), " \t".to_string(), "/w".to_string(), None, 5);
    assert_eq!(r.unwrap_err(), TaskError::EmptyCommand);
    let r = state.run_task("thread-1".to_string(), String::new(), "/w".to_string(), None, 5);
    assert_eq!(r.unwrap_err(), TaskError::EmptyCommand);
    assert_eq!(TaskError::EmptyCommand.message(), "Task command is required");
    assert!(state.snapshot().tasks.is_empty());
}

#[test]
fn unknown_thread_is_rejected() {
    let mut state = ready();
    let before = state.snapshot();
    let r = state.run_task("thread-9".to_string(), "ls".to_string(), "/w".to_string(), None, 5);
    assert_eq!(r.unwrap_err(), TaskError::ThreadNotFound);
    assert_eq!(TaskError::ThreadNotFound.message(), "Thread not found");
    assert_eq!(state.snapshot(), before);
    assert_eq!(state.queued_count(), 0);
    assert_eq!(state.running_count(), 0);
    let mut empty = AppState::new();
    let r = empty.run_task("thread-1".to_string(), "ls".to_string(), "/w".to_string(), None, 5);
    assert_eq!(r.unwrap_err(), TaskError::ThreadNotFound);
    // what is wrong with the texts comes first
    let r = state.run_task("thread-9".to_string(), " ".to_string(), "/w".to_string(), None, 5);
    assert_eq!(r.unwrap_err(), TaskError::EmptyCommand);
    let r = state.run_task("thread-9".to_string(), "ls".to_string(), String::new(), None, 5);
    assert_eq!(r.unwrap_err(), TaskError::CwdRequired);
}

#[test]
fn every_task_belongs_to_a_stored_thread() {
    let mut state = ready();
    let (a, _) = submit(&mut state, "a", 1);
    let (b, _) = submit(&mut state, "b", 2);
    state.cancel_task(&b.id, 3);
    state.finish_task(&a.id, Some(0), 4);
    let db = state.snapshot();
    for task in &db.tasks {
        assert_eq!(db.threads.iter().filter(|t| t.id == task.thread_id).count(), 1);
    }
    for thread in &db.threads {
        assert_eq!(db.projects.iter().filter(|p| p.id == thread.project_id).count(), 1);
    }
}

#[test]
fn blank_working_directory_comes_before_blank_command() {
    let mut state = ready();
    let r = state.run_task("thread-1".to_string(), String::new(), String::new(), None, 5);
    assert_eq!(r.unwrap_err(), TaskError::CwdRequired);
}

#[test]
fn never_more_tasks_running_than_the_cap() {
    let mut state = ready();
    let mut admitted_total = 0;
    for n in 0..5 {
        let (_, admitted) = submit(&mut state, "work", 100 + n);
        admitted_total += admitted.len();
        assert!(state.running_count() <= 2);
        let running = state
            .snapshot()
            .tasks
            .iter()
            .filter(|t| t.status == TaskStatus::Running)
            .count();
        assert!(running <= 2);
    }
    assert_eq!(admitted_total, 2);
    assert_eq!(state.running_count(), 2);
    assert_eq!(state.queued_count(), 3);
}

#[test]
fn with_cap_one_three_tasks_start_one_after_another_in_order() {
    let mut state = ready();
    state.set_max_parallel_tasks(1, 0).unwrap();
    let (a, first) = submit(&mut state, "a", 1);
    let (b, second) = submit(&mut state, "b", 2);
    let (c, third) = submit(&mut state, "c", 3);
    assert_eq!(ids(&first), vec![a.id.clone()]);
    assert!(second.is_empty());
    assert!(third.is_empty());
    assert_eq!(status_of(&state, &a.id), TaskStatus::Running);
    assert_eq!(status_of(&state, &b.id), TaskStatus::Queued);
    assert_eq!(status_of(&state, &c.id), TaskStatus::Queued);

    let after_a = state.finish_task(&a.id, Some(0), 10);
    assert_eq!(ids(&after_a.admitted), vec![b.id.clone()]);
    assert_eq!(status_of(&state, &a.id), TaskStatus::Success);
    assert_eq!(status_of(&state, &b.id), TaskStatus::Running);
    assert_eq!(status_of(&state, &c.id), TaskStatus::Queued);
    assert_eq!(state.running_count(), 1);

    let after_b = state.finish_task(&b.id, Some(0), 20);
    assert_eq!(ids(&after_b.admitted), vec![c.id.clone()]);
    assert_eq!(status_of(&state, &c.id), TaskStatus::Running);
    assert_eq!(state.running_count(), 1);

    let after_c = state.finish_task(&c.id, Some(0), 30);
    assert!(after_c.admitted.is_empty());
    assert_eq!(state.running_count(), 0);

    let a = state.task(&a.id).unwrap();
    let b = state.task(&b.id).unwrap();
    let c = state.task(&c.id).unwrap();
    assert_eq!((a.started_at, a.finished_at), (Some(1), Some(10)));
    assert_eq!((b.started_at, b.finished_at), (Some(10), Some(20)));
    assert_eq!((c.started_at, c.finished_at), (Some(20), Some(30)));
}

#[test]
fn raising_the_cap_admits_a_queued_task_at_once() {
    let mut state = ready();
    state.set_max_parallel_tasks(1, 0).unwrap();
    let (a, _) = submit(&mut state, "a", 1);
    let (b, _) = submit(&mut state, "b", 2);
    let (c, _) = submit(&mut state, "c", 3);
    assert_eq!(state.running_count(), 1);
    assert_eq!(state.queued_count(), 2);

    let admitted = state.set_max_parallel_tasks(2, 4).unwrap();
    assert_eq!(ids(&admitted), vec![b.id.clone()]);
    assert_eq!(state.max_parallel_tasks(), 2);
    assert_eq!(state.running_count(), 2);
    assert_eq!(state.queued_count(), 1);
    assert_eq!(status_of(&state, &a.id), TaskStatus::Running);
    assert_eq!(status_of(&state, &b.id), TaskStatus::Running);
    assert_eq!(state.task(&b.id).unwrap().started_at, Some(4));
    assert_eq!(status_of(&state, &c.id), TaskStatus::Queued);
}

#[test]
fn zero_parallelism_is_rejected() {
    let mut state = ready();
    let r = state.set_max_parallel_tasks(0, 1);
    assert_eq!(r.unwrap_err(), SettingsError::ZeroParallelism);
    assert_eq!(SettingsError::ZeroParallelism.message(), "max_parallel_tasks must be >= 1");
    assert_eq!(state.max_parallel_tasks(), 2);
}

#[test]
fn lowering_the_cap_ends_no_task_and_admits_none() {
    let mut state = ready();
    let (a, _) = submit(&mut state, "a", 1);
    let (b, _) = submit(&mut state, "b", 2);
    let (c, _) = submit(&mut state, "c", 3);
    let admitted = state.set_max_parallel_tasks(1, 4).unwrap();
    assert!(admitted.is_empty());
    assert_eq!(state.running_count(), 2);
    let done = state.finish_task(&a.id, Some(0), 5);
    assert!(done.admitted.is_empty());
    assert_eq!(state.running_count(), 1);
    assert_eq!(status_of(&state, &c.id), TaskStatus::Queued);
    let done = state.finish_task(&b.id, Some(0), 6);
    assert_eq!(ids(&done.admitted), vec![c.id.clone()]);
    assert_eq!(state.running_count(), 1);
}

#[test]
fn cancelled_queued_task_never_runs() {
    let mut state = ready();
    state.set_max_parallel_tasks(1, 0).unwrap();
    let (a, _) = submit(&mut state, "a", 1);
    let (b, _) = submit(&mut state, "b", 2);
    let (c, _) = submit(&mut state, "c", 3);

    let cancelled = state.cancel_task(&b.id, 4);
    assert!(!cancelled.kill);
    let event = cancelled.event.expect("the task was marked");
    assert_eq!(event.task_id, b.id);
    assert_eq!(event.thread_id, "thread-1");
    assert_eq!(event.status, TaskStatus::Cancelled);
    assert_eq!(event.exit_code, None);
    assert!(cancelled.admitted.is_empty());
    assert!(!state.is_queued(&b.id));
    assert!(!state.holds_slot(&b.id));
    let stored = state.task(&b.id).unwrap();
    assert_eq!(stored.status, TaskStatus::Cancelled);
    assert_eq!(stored.finished_at, Some(4));
    assert_eq!(stored.started_at, None);

    let done = state.finish_task(&a.id, Some(0), 5);
    assert_eq!(ids(&done.admitted), vec![c.id.clone()]);
    assert_eq!(status_of(&state, &b.id), TaskStatus::Cancelled);
    let done = state.finish_task(&c.id, Some(0), 6);
    assert!(done.admitted.is_empty());
    assert_eq!(status_of(&state, &b.id), TaskStatus::Cancelled);
    assert_eq!(state.task(&b.id).unwrap().started_at, None);
    assert!(state.schedule_tasks(7).is_empty());
}

#[test]
fn exit_code_decides_success_or_failure() {
    let mut state = ready();
    let (a, _) = submit(&mut state, "a", 1);
    let (b, _) = submit(&mut state, "b", 2);

    let ok = state.finish_task(&a.id, Some(0), 10);
    let event = ok.event.unwrap();
    assert_eq!(event.status, TaskStatus::Success);
    assert_eq!(event.exit_code, Some(0));
    let stored = state.task(&a.id).unwrap();
    assert_eq!(stored.status, TaskStatus::Success);
    assert_eq!(stored.exit_code, Some(0));
    assert_eq!(stored.finished_at, Some(10));

    let bad = state.finish_task(&b.id, Some(3), 11);
    let event = bad.event.unwrap();
    assert_eq!(event.status, TaskStatus::Failed);
    assert_eq!(event.exit_code, Some(3));
    let stored = state.task(&b.id).unwrap();
    assert_eq!(stored.status, TaskStatus::Failed);
    assert_eq!(stored.exit_code, Some(3));
}

#[test]
fn negative_exit_code_is_a_failure() {
    let mut state = ready();
    let (a, _) = submit(&mut state, "a", 1);
    state.finish_task(&a.id, Some(-1), 2);
    assert_eq!(status_of(&state, &a.id), TaskStatus::Failed);
}

#[test]
fn missing_exit_code_without_cancellation_is_a_failure() {
    let mut state = ready();
    let (a, _) = submit(&mut state, "a", 1);
    let done = state.finish_task(&a.id, None, 2);
    assert_eq!(done.event.unwrap().status, TaskStatus::Failed);
    let stored = state.task(&a.id).unwrap();
    assert_eq!(stored.status, TaskStatus::Failed);
    assert_eq!(stored.exit_code, None);
}

#[test]
fn cancelling_a_running_task_wins_over_its_exit_code() {
    let mut state = ready();
    state.set_max_parallel_tasks(1, 0).unwrap();
    let (a, _) = submit(&mut state, "slow", 1);
    let (b, _) = submit(&mut state, "next", 2);

    let cancelled = state.cancel_task(&a.id, 3);
    assert!(cancelled.kill);
    assert_eq!(cancelled.event.unwrap().status, TaskStatus::Cancelled);
    // the process has not ended yet: the slot stays taken
    assert!(cancelled.admitted.is_empty());
    assert!(state.holds_slot(&a.id));
    assert_eq!(state.running_count(), 1);
    assert_eq!(status_of(&state, &a.id), TaskStatus::Cancelled);
    assert_eq!(status_of(&state, &b.id), TaskStatus::Queued);

    let done = state.finish_task(&a.id, Some(137), 9);
    let event = done.event.unwrap();
    assert_eq!(event.status, TaskStatus::Cancelled);
    assert_eq!(event.exit_code, Some(137));
    let stored = state.task(&a.id).unwrap();
    assert_eq!(stored.status, TaskStatus::Cancelled);
    assert_eq!(stored.exit_code, Some(137));
    assert_eq!(stored.finished_at, Some(9));
    assert!(!state.holds_slot(&a.id));
    assert_eq!(ids(&done.admitted), vec![b.id.clone()]);
}

#[test]
fn cancelling_a_running_task_wins_over_a_zero_exit_code() {
    let mut state = ready();
    let (a, _) = submit(&mut state, "a", 1);
    state.cancel_task(&a.id, 2);
    state.finish_task(&a.id, Some(0), 3);
    assert_eq!(status_of(&state, &a.id), TaskStatus::Cancelled);
    state.finish_task(&a.id, None, 4);
    assert_eq!(status_of(&state, &a.id), TaskStatus::Cancelled);
}

#[test]
fn cancelling_twice_sends_one_event() {
    let mut state = ready();
    let (a, _) = submit(&mut state, "a", 1);
    let first = state.cancel_task(&a.id, 2);
    assert!(first.kill && first.event.is_some());
    let second = state.cancel_task(&a.id, 3);
    assert!(second.kill);
    assert!(second.event.is_none());
    assert_eq!(state.task(&a.id).unwrap().finished_at, Some(2));
}

#[test]
fn cancelling_an_ended_or_unknown_task_changes_nothing() {
    let mut state = ready();
    let (a, _) = submit(&mut state, "a", 1);
    state.finish_task(&a.id, Some(0), 2);
    let before = state.snapshot();
    let r = state.cancel_task(&a.id, 3);
    assert!(!r.kill && r.event.is_none() && r.admitted.is_empty());
    let r = state.cancel_task("task-0-0", 4);
    assert!(!r.kill && r.event.is_none() && r.admitted.is_empty());
    assert_eq!(state.snapshot(), before);
}

#[test]
fn finishing_a_task_without_a_slot_changes_nothing() {
    let mut state = ready();
    state.set_max_parallel_tasks(1, 0).unwrap();
    let (a, _) = submit(&mut state, "a", 1);
    let (b, _) = submit(&mut state, "b", 2);
    let before = state.snapshot();
    let r = state.finish_task(&b.id, Some(0), 3);
    assert!(r.event.is_none() && r.admitted.is_empty());
    let r = state.finish_task("nobody", Some(0), 3);
    assert!(r.event.is_none());
    assert_eq!(state.snapshot(), before);
    state.finish_task(&a.id, Some(0), 4);
    let again = state.finish_task(&a.id, Some(1), 5);
    assert!(again.event.is_none());
    assert_eq!(status_of(&state, &a.id), TaskStatus::Success);
}

#[test]
fn failed_start_marks_the_task_failed_and_logs_the_error() {
    let mut state = ready();
    state.set_max_parallel_tasks(1, 0).unwrap();
    let (a, _) = submit(&mut state, "a", 1);
    let (b, _) = submit(&mut state, "b", 2);
    let r = state.fail_spawn(&a.id, "thread-1", "Failed to spawn task process: no sh".to_string(), 3);
    assert_eq!(r.log.task_id, a.id);
    assert_eq!(r.log.thread_id, "thread-1");
    assert_eq!(r.log.stream, LogStream::Stderr);
    assert_eq!(r.log.line, "Failed to spawn task process: no sh");
    let event = r.completion.event.unwrap();
    assert_eq!(event.status, TaskStatus::Failed);
    assert_eq!(event.exit_code, None);
    assert_eq!(ids(&r.completion.admitted), vec![b.id.clone()]);
    let stored = state.task(&a.id).unwrap();
    assert_eq!(stored.status, TaskStatus::Failed);
    assert_eq!(stored.finished_at, Some(3));
    let logs = state.list_task_logs(&a.id);
    assert_eq!(logs.len(), 1);
    assert_eq!(logs[0].stream, LogStream::Stderr);
    assert_eq!(logs[0].line, "Failed to spawn task process: no sh");
    assert!(!state.holds_slot(&a.id));
}

#[test]
fn scheduling_with_nothing_queued_changes_nothing() {
    let mut state = ready();
    let (_a, _) = submit(&mut state, "a", 1);
    let before = state.snapshot();
    assert!(state.schedule_tasks(2).is_empty());
    assert!(state.schedule_tasks(3).is_empty());
    assert_eq!(state.snapshot(), before);
}

#[test]
fn task_identifiers_skip_those_in_use() {
    let mut state = ready();
    let (a, _) = submit(&mut state, "a", 7);
    assert_eq!(a.id, "task-7-1");
    let db = state.snapshot();
    // a restart begins the sequence anew; the stored identifier is passed over
    let mut state = AppState::restore(db, 7).unwrap();
    let (b, _) = submit(&mut state, "b", 7);
    assert_eq!(b.id, "task-7-2");
    let (c, _) = submit(&mut state, "c", 7);
    assert_eq!(c.id, "task-7-3");
}

#[test]
fn thread_follows_the_status_of_its_tasks() {
    let mut state = AppState::new();
    let project = state.create_project("/work".to_string(), None, Some("work".to_string()), 1);
    let thread = state.create_thread(project.id.clone(), "T".to_string(), None, 2).unwrap();
    assert_eq!(thread.status, TaskStatus::Idle);
    state.set_max_parallel_tasks(1, 2).unwrap();
    let a = state
        .run_task(thread.id.clone(), "a".to_string(), "/work".to_string(), None, 3)
        .unwrap()
        .task;
    assert_eq!(state.thread(&thread.id).unwrap().status, TaskStatus::Running);
    assert_eq!(state.thread(&thread.id).unwrap().updated_at, 3);
    let b = state
        .run_task(thread.id.clone(), "b".to_string(), "/work".to_string(), None, 4)
        .unwrap()
        .task;
    assert_eq!(state.thread(&thread.id).unwrap().status, TaskStatus::Queued);
    state.cancel_task(&b.id, 5);
    assert_eq!(state.thread(&thread.id).unwrap().status, TaskStatus::Cancelled);
    state.finish_task(&a.id, Some(2), 6);
    let after = state.thread(&thread.id).unwrap();
    assert_eq!(after.status, TaskStatus::Failed);
    assert_eq!(after.updated_at, 6);
}
