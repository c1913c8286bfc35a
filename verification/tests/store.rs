use task_scheduler::errors::{RestoreError, ThreadError};
use task_scheduler::records::{AppDb, AppSettings, ProjectRecord, TaskRecord, ThreadRecord};
use task_scheduler::state::AppState;
use task_scheduler::status::{LogStream, TaskStatus};

fn task(id: &str, status: TaskStatus, created_at: i64) -> TaskRecord {
    TaskRecord {
        id: id.to_string(),
        thread_id: "thread-1".to_string(),
        command: "make".to_string(),
        cwd: "/work".to_string(),
        shell: "sh".to_string(),
        status,
        created_at,
        started_at: None,
        finished_at: None,
        exit_code: None,
    }
}

fn thread(id: &str, status: TaskStatus) -> ThreadRecord {
    ThreadRecord {
        id: id.to_string(),
        project_id: "proj-1".to_string(),
        name: "T".to_string(),
        description: String::new(),
        status,
        created_at: 1,
        updated_at: 2,
    }
}

fn project(id: &str) -> ProjectRecord {
    ProjectRecord {
        id: id.to_string(),
        name: "Work".to_string(),
        path: format!("/work/{id}"),
        last_accessed_at: 1,
        created_at: 1,
    }
}

fn empty_db() -> AppDb {
    AppDb::default()
}

/// A store with the project `proj-1` and the threads `thread-1` and
/// `thread-2`, both idle.
fn linked_db() -> AppDb {
    let mut db = AppDb::default();
    db.projects.push(project("proj-1"));
    db.threads.push(thread("thread-1", TaskStatus::Idle));
    db.threads.push(thread("thread-2", TaskStatus::Idle));
    db
}

#[test]
fn default_settings_are_two_tasks_and_powershell() {
    let settings = AppSettings::default();
    assert_eq!(settings.max_parallel_tasks, 2);
    assert_eq!(settings.default_shell, "powershell");
    let db = AppDb::default();
    assert_eq!(db.settings, settings);
    assert!(db.tasks.is_empty());
}

#[test]
fn restore_leaves_no_task_waiting_or_running() {
    let mut db = empty_db();
    db.projects.push(project("proj-1"));
    db.tasks.push(task("task-1", TaskStatus::Running, 10));
    db.tasks.push(task("task-2", TaskStatus::Queued, 11));
    db.tasks.push(task("task-3", TaskStatus::Success, 12));
    db.tasks.push(task("task-4", TaskStatus::Failed, 13));
    db.tasks.push(task("task-5", TaskStatus::Cancelled, 14));
    db.threads.push(thread("thread-1", TaskStatus::Running));
    db.threads.push(thread("thread-2", TaskStatus::Queued));
    db.threads.push(thread("thread-3", TaskStatus::Idle));
    db.threads.push(thread("thread-4", TaskStatus::Success));
    let mut state = AppState::restore(db.clone(), 500).unwrap();
    let after = state.snapshot();
    let statuses: Vec<TaskStatus> = after.tasks.iter().map(|t| t.status).collect();
    assert_eq!(
        statuses,
        vec![
            TaskStatus::Failed,
            TaskStatus::Cancelled,
            TaskStatus::Success,
            TaskStatus::Failed,
            TaskStatus::Cancelled,
        ]
    );
    assert_eq!(after.tasks[0].finished_at, Some(500));
    assert_eq!(after.tasks[1].finished_at, Some(500));
    assert_eq!(after.tasks[2], db.tasks[2]);
    assert_eq!(after.tasks[3], db.tasks[3]);
    assert_eq!(after.tasks[4], db.tasks[4]);
    assert_eq!(after.tasks[0].command, "make");
    assert_eq!(after.tasks[0].created_at, 10);
    let thread_statuses: Vec<TaskStatus> = after.threads.iter().map(|t| t.status).collect();
    assert_eq!(
        thread_statuses,
        vec![TaskStatus::Failed, TaskStatus::Cancelled, TaskStatus::Idle, TaskStatus::Success]
    );
    assert_eq!(after.threads[0].updated_at, 500);
    assert_eq!(after.threads[2], db.threads[2]);
    assert_eq!(after.threads[3], db.threads[3]);
    assert_eq!(state.running_count(), 0);
    assert_eq!(state.queued_count(), 0);
    // nothing is resumed
    assert!(state.schedule_tasks(501).is_empty());
    assert_eq!(state.snapshot(), after);
}

#[test]
fn restore_turns_down_records_that_do_not_belong_together() {
    let mut db = linked_db();
    db.projects.push(project("proj-1"));
    assert_eq!(AppState::restore(db, 1).err(), Some(RestoreError::DuplicateProject));

    let mut db = linked_db();
    let mut stray = thread("thread-3", TaskStatus::Idle);
    stray.project_id = "proj-9".to_string();
    db.threads.push(stray);
    assert_eq!(AppState::restore(db, 1).err(), Some(RestoreError::UnknownProject));

    let mut db = linked_db();
    db.threads.push(thread("thread-2", TaskStatus::Success));
    assert_eq!(AppState::restore(db, 1).err(), Some(RestoreError::DuplicateThread));

    let mut db = linked_db();
    let mut stray = task("task-1", TaskStatus::Success, 5);
    stray.thread_id = "thread-9".to_string();
    db.tasks.push(stray);
    assert_eq!(AppState::restore(db, 1).err(), Some(RestoreError::UnknownThread));

    // the projects are looked at first, then the threads, then the tasks
    let mut db = linked_db();
    db.projects.push(project("proj-1"));
    db.threads.push(thread("thread-1", TaskStatus::Idle));
    assert_eq!(AppState::restore(db, 1).err(), Some(RestoreError::DuplicateProject));

    assert!(AppState::restore(linked_db(), 1).is_ok());
    assert!(AppState::restore(empty_db(), 1).is_ok());
    for error in [
        RestoreError::DuplicateProject,
        RestoreError::UnknownProject,
        RestoreError::DuplicateThread,
        RestoreError::UnknownThread,
    ] {
        assert!(error.message().starts_with("Invalid db: "));
    }
}

#[test]
fn every_snapshot_of_a_running_scheduler_is_taken_up_again() {
    let mut state = AppState::restore(linked_db(), 0).unwrap();
    state.set_max_parallel_tasks(1, 0).unwrap();
    let a = state
        .run_task("thread-1".to_string(), "a".to_string(), "/w".to_string(), None, 1)
        .unwrap()
        .task;
    let b = state
        .run_task("thread-2".to_string(), "b".to_string(), "/w".to_string(), None, 2)
        .unwrap()
        .task;
    let reloaded = AppState::restore(state.snapshot(), 9).unwrap();
    assert_eq!(reloaded.task(&a.id).unwrap().status, TaskStatus::Failed);
    assert_eq!(reloaded.task(&b.id).unwrap().status, TaskStatus::Cancelled);
    assert_eq!(reloaded.task(&b.id).unwrap().started_at, None);
    assert_eq!(reloaded.thread("thread-1").unwrap().status, TaskStatus::Failed);
    assert_eq!(reloaded.thread("thread-2").unwrap().status, TaskStatus::Cancelled);
    state.cancel_task(&b.id, 3);
    state.finish_task(&a.id, Some(0), 4);
    let settled = state.snapshot();
    let reloaded = AppState::restore(settled.clone(), 9).unwrap();
    assert_eq!(reloaded.snapshot(), settled);
}

#[test]
fn new_records_get_identifiers_that_are_not_in_use() {
    let mut state = AppState::new();
    let p = state.create_project("/a".to_string(), None, None, 5);
    let t = state.create_thread(p.id.clone(), "T".to_string(), None, 5).unwrap();
    state.add_thread_message(t.id.clone(), "user".to_string(), "m".to_string(), 5);
    state.append_task_log("task-x", &t.id, LogStream::Stdout, "l".to_string(), 5);
    assert_eq!((p.id.as_str(), t.id.as_str()), ("proj-5-1", "thread-5-2"));
    // after a restart the sequence begins anew; what is in use is passed over
    let mut state = AppState::restore(state.snapshot(), 5).unwrap();
    let q = state.create_project("/b".to_string(), None, None, 5);
    assert_eq!(q.id, "proj-5-2");
    let u = state.create_thread(q.id.clone(), "U".to_string(), None, 5).unwrap();
    assert_eq!(u.id, "thread-5-3");
    let m = state.add_thread_message(u.id.clone(), "user".to_string(), "n".to_string(), 5);
    assert_eq!(m.id, "msg-5-4");
    let first = state.append_task_log("task-x", &u.id, LogStream::Stdout, "a".to_string(), 5);
    assert_eq!(first.line, "a");
    let db = state.snapshot();
    let log_ids: Vec<&str> = db.task_logs.iter().map(|l| l.id.as_str()).collect();
    assert_eq!(log_ids, vec!["log-5-4", "log-5-5"]);
    let message_ids: Vec<&str> = db.messages.iter().map(|l| l.id.as_str()).collect();
    assert_eq!(message_ids, vec!["msg-5-3", "msg-5-4"]);
    let reopened = state.create_project("/b".to_string(), None, None, 6);
    assert_eq!(reopened.id, q.id);
}

#[test]
fn restore_keeps_a_settled_snapshot_as_it_is() {
    let mut state = AppState::new();
    let project = state.create_project("/work".to_string(), Some("Work".to_string()), None, 1);
    let thread = state.create_thread(project.id.clone(), "Build".to_string(), None, 2).unwrap();
    state.add_thread_message(thread.id.clone(), "user".to_string(), "hello".to_string(), 3);
    state.set_max_parallel_tasks(3, 4).unwrap();
    let a = state
        .run_task(thread.id.clone(), "make".to_string(), "/work".to_string(), None, 5)
        .unwrap()
        .task;
    state.append_task_log(&a.id, &thread.id, LogStream::Stdout, "ok".to_string(), 6);
    state.finish_task(&a.id, Some(0), 7);
    let persisted = state.snapshot();

    let reloaded = AppState::restore(persisted.clone(), 100).unwrap();
    assert_eq!(reloaded.snapshot(), persisted);
    assert_eq!(reloaded.max_parallel_tasks(), 3);
    assert_eq!(reloaded.list_task_logs(&a.id).len(), 1);
}

#[test]
fn restore_counts_a_stored_zero_cap_as_one() {
    let mut db = linked_db();
    db.settings.max_parallel_tasks = 0;
    let mut state = AppState::restore(db, 1).unwrap();
    assert_eq!(state.max_parallel_tasks(), 1);
    let first = state
        .run_task("thread-1".to_string(), "a".to_string(), "/w".to_string(), None, 2)
        .unwrap();
    assert_eq!(first.admitted.len(), 1);
    let second = state
        .run_task("thread-1".to_string(), "b".to_string(), "/w".to_string(), None, 3)
        .unwrap();
    assert!(second.admitted.is_empty());
}

#[test]
fn opening_a_workspace_twice_keeps_one_project() {
    let mut state = AppState::new();
    let first = state.create_project("/work/app".to_string(), None, Some("app".to_string()), 10);
    assert_eq!(first.id, "proj-10-1");
    assert_eq!(first.name, "app");
    assert_eq!(first.path, "/work/app");
    assert_eq!(first.created_at, 10);
    assert_eq!(first.last_accessed_at, 10);
    let again = state.create_project(
        "/work/app".to_string(),
        Some("Other name".to_string()),
        Some("app".to_string()),
        20,
    );
    assert_eq!(again.id, first.id);
    assert_eq!(again.name, "app");
    assert_eq!(again.created_at, 10);
    assert_eq!(again.last_accessed_at, 20);
    let projects = state.list_projects();
    assert_eq!(projects.len(), 1);
    assert_eq!(projects[0], again);
}

#[test]
fn project_name_is_trimmed_and_falls_back() {
    let mut state = AppState::new();
    let a = state.create_project("/a".to_string(), Some("  Named  ".to_string()), None, 1);
    assert_eq!(a.name, "Named");
    let b = state.create_project("/b".to_string(), None, Some(" dir ".to_string()), 2);
    assert_eq!(b.name, "dir");
    let c = state.create_project("/".to_string(), None, None, 3);
    assert_eq!(c.name, "Workspace");
    assert_eq!(c.id, "proj-3-3");
}

#[test]
fn projects_are_listed_by_last_access() {
    let mut state = AppState::new();
    let a = state.create_project("/a".to_string(), None, Some("a".to_string()), 1);
    let b = state.create_project("/b".to_string(), None, Some("b".to_string()), 2);
    let c = state.create_project("/c".to_string(), None, Some("c".to_string()), 2);
    let names: Vec<String> = state.list_projects().into_iter().map(|p| p.name).collect();
    assert_eq!(names, vec!["b", "c", "a"]);
    state.touch_project(&a.id, 9);
    let names: Vec<String> = state.list_projects().into_iter().map(|p| p.name).collect();
    assert_eq!(names, vec!["a", "b", "c"]);
    let before = state.snapshot();
    state.touch_project("proj-unknown", 10);
    assert_eq!(state.snapshot(), before);
    assert_eq!(b.last_accessed_at, 2);
    assert_eq!(c.last_accessed_at, 2);
}

#[test]
fn thread_needs_a_project() {
    let mut state = AppState::new();
    let r = state.create_thread("proj-none".to_string(), "T".to_string(), None, 1);
    assert_eq!(r.unwrap_err(), ThreadError::ProjectNotFound);
    assert_eq!(ThreadError::ProjectNotFound.message(), "Project not found");
    assert!(state.snapshot().threads.is_empty());
}

#[test]
fn thread_name_is_trimmed_or_stock() {
    let mut state = AppState::new();
    let p = state.create_project("/a".to_string(), None, None, 1);
    let t = state
        .create_thread(p.id.clone(), "  Build  ".to_string(), Some("desc".to_string()), 2)
        .unwrap();
    assert_eq!(t.id, "thread-2-2");
    assert_eq!(t.project_id, p.id);
    assert_eq!(t.name, "Build");
    assert_eq!(t.description, "desc");
    assert_eq!(t.status, TaskStatus::Idle);
    assert_eq!((t.created_at, t.updated_at), (2, 2));
    let u = state.create_thread(p.id.clone(), "   ".to_string(), None, 3).unwrap();
    assert_eq!(u.name, "New thread");
    assert_eq!(u.description, "");
}

#[test]
fn threads_are_listed_by_project_and_last_update() {
    let mut state = AppState::new();
    let p = state.create_project("/a".to_string(), None, None, 1);
    let q = state.create_project("/b".to_string(), None, None, 1);
    let t1 = state.create_thread(p.id.clone(), "one".to_string(), None, 10).unwrap();
    let t2 = state.create_thread(p.id.clone(), "two".to_string(), None, 20).unwrap();
    let _other = state.create_thread(q.id.clone(), "other".to_string(), None, 30).unwrap();
    let names: Vec<String> = state.list_threads(&p.id).into_iter().map(|t| t.name).collect();
    assert_eq!(names, vec!["two", "one"]);
    state.add_thread_message(t1.id.clone(), "user".to_string(), "hi".to_string(), 40);
    let listed = state.list_threads(&p.id);
    let names: Vec<String> = listed.iter().map(|t| t.name.clone()).collect();
    assert_eq!(names, vec!["one", "two"]);
    assert_eq!(listed[0].updated_at, 40);
    assert_eq!(listed[0].status, TaskStatus::Idle);
    assert_eq!(listed[1].id, t2.id);
    assert!(state.list_threads("proj-none").is_empty());
}

#[test]
fn messages_are_appended_and_listed_oldest_first() {
    let mut state = AppState::new();
    let m1 = state.add_thread_message("th".to_string(), "user".to_string(), "b".to_string(), 20);
    let m2 = state.add_thread_message("th".to_string(), "assistant".to_string(), "a".to_string(), 10);
    let m3 = state.add_thread_message("other".to_string(), "user".to_string(), "c".to_string(), 5);
    let m4 = state.add_thread_message("th".to_string(), "user".to_string(), "d".to_string(), 10);
    assert_eq!(m1.id, "msg-20-1");
    assert_eq!(m2.id, "msg-10-2");
    assert_eq!(m1.role, "user");
    assert_eq!(m1.content, "b");
    assert_eq!(m1.created_at, 20);
    let listed = state.list_thread_messages("th");
    let contents: Vec<String> = listed.iter().map(|m| m.content.clone()).collect();
    assert_eq!(contents, vec!["a", "d", "b"]);
    assert_eq!(state.list_thread_messages("other"), vec![m3]);
    assert_eq!(listed[1], m4);
    assert_eq!(state.snapshot().messages.len(), 4);
}

#[test]
fn tasks_are_listed_newest_first() {
    let mut db = linked_db();
    db.tasks.push(task("task-a", TaskStatus::Success, 10));
    db.tasks.push(task("task-b", TaskStatus::Success, 30));
    db.tasks.push(task("task-c", TaskStatus::Success, 20));
    db.tasks.push(task("task-d", TaskStatus::Success, 30));
    let mut elsewhere = task("task-e", TaskStatus::Success, 40);
    elsewhere.thread_id = "thread-2".to_string();
    db.tasks.push(elsewhere);
    let state = AppState::restore(db, 100).unwrap();
    let listed: Vec<String> = state.list_tasks("thread-1").into_iter().map(|t| t.id).collect();
    assert_eq!(listed, vec!["task-b", "task-d", "task-c", "task-a"]);
    let listed: Vec<String> = state.list_tasks("thread-2").into_iter().map(|t| t.id).collect();
    assert_eq!(listed, vec!["task-e"]);
    assert!(state.list_tasks("thread-3").is_empty());
}

#[test]
fn log_lines_keep_the_order_in_which_they_were_written() {
    let mut state = AppState::new();
    let e = state.append_task_log("task-1", "thread-1", LogStream::Stdout, "one".to_string(), 10);
    assert_eq!(e.task_id, "task-1");
    assert_eq!(e.thread_id, "thread-1");
    assert_eq!(e.stream, LogStream::Stdout);
    assert_eq!(e.line, "one");
    state.append_task_log("task-1", "thread-1", LogStream::Stderr, "warn".to_string(), 10);
    state.append_task_log("task-2", "thread-1", LogStream::Stdout, "other".to_string(), 10);
    state.append_task_log("task-1", "thread-1", LogStream::Stdout, "two".to_string(), 10);
    state.append_task_log("task-1", "thread-1", LogStream::Stdout, "three".to_string(), 11);
    state.append_task_log("task-1", "thread-1", LogStream::Stderr, "fail".to_string(), 12);
    let logs = state.list_task_logs("task-1");
    let lines: Vec<String> = logs.iter().map(|l| l.line.clone()).collect();
    assert_eq!(lines, vec!["one", "warn", "two", "three", "fail"]);
    assert_eq!(logs[0].id, "log-10-1");
    assert_eq!(logs[0].task_id, "task-1");
    assert_eq!(logs[0].created_at, 10);
    let out: Vec<String> =
        logs.iter().filter(|l| l.stream == LogStream::Stdout).map(|l| l.line.clone()).collect();
    assert_eq!(out, vec!["one", "two", "three"]);
    let err: Vec<String> =
        logs.iter().filter(|l| l.stream == LogStream::Stderr).map(|l| l.line.clone()).collect();
    assert_eq!(err, vec!["warn", "fail"]);
    let times: Vec<i64> = logs.iter().map(|l| l.created_at).collect();
    assert!(times.windows(2).all(|w| w[0] <= w[1]));
    assert_eq!(state.list_task_logs("task-2").len(), 1);
    assert!(state.list_task_logs("task-3").is_empty());
}

#[test]
fn log_listing_is_ordered_by_time_even_if_the_clock_went_back() {
    let mut state = AppState::new();
    state.append_task_log("t", "th", LogStream::Stdout, "late".to_string(), 30);
    state.append_task_log("t", "th", LogStream::Stdout, "early".to_string(), 10);
    state.append_task_log("t", "th", LogStream::Stdout, "middle".to_string(), 20);
    let lines: Vec<String> = state.list_task_logs("t").into_iter().map(|l| l.line).collect();
    assert_eq!(lines, vec!["early", "middle", "late"]);
}
