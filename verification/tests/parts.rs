use task_scheduler::clock::{now_ms, timestamp_from};
use task_scheduler::ids::next_id;
use task_scheduler::listing::stable_order;
use task_scheduler::paths::ComponentKind::{CurDir, Normal, ParentDir, Prefix, RootDir};
use task_scheduler::paths::{
    check_relative_path, check_target, ensure_safe_relative_path, resolve_workspace_target,
    PathError,
};
use task_scheduler::queue::JobQueue;
use task_scheduler::records::QueuedTask;
use task_scheduler::shell::{shell_invocation, terminal_command};
use task_scheduler::slots::RunningTable;
use task_scheduler::status::{LogStream, TaskStatus};
use task_scheduler::text::{blank, trim_owned, white_space};

fn entry(id: &str) -> QueuedTask {
    QueuedTask {
        task_id: id.to_string(),
        thread_id: "thread".to_string(),
        command: "c".to_string(),
        cwd: "/".to_string(),
        shell: "sh".to_string(),
    }
}

#[test]
fn identifier_is_prefix_time_and_sequence() {
    let mut seq = 5u64;
    assert_eq!(next_id("task", 1700000000123, &mut seq), "task-1700000000123-5");
    assert_eq!(seq, 6);
    assert_eq!(next_id("log", 0, &mut seq), "log-0-6");
    assert_eq!(next_id("", 10, &mut seq), "-10-7");
    assert_eq!(seq, 8);
}

#[test]
fn identifier_with_a_time_before_the_epoch() {
    let mut seq = 0u64;
    assert_eq!(next_id("msg", -42, &mut seq), "msg--42-0");
    assert_eq!(next_id("msg", i64::MIN, &mut seq), "msg--9223372036854775808-1");
    assert_eq!(next_id("msg", i64::MAX, &mut seq), "msg-9223372036854775807-2");
}

#[test]
fn sequence_number_starts_over_after_the_largest() {
    let mut seq = u64::MAX;
    assert_eq!(next_id("x", 1, &mut seq), "x-1-18446744073709551615");
    assert_eq!(seq, 0);
    assert_eq!(next_id("x", 1, &mut seq), "x-1-0");
    assert_eq!(seq, 1);
}

#[test]
fn timestamp_of_elapsed_milliseconds() {
    assert_eq!(timestamp_from(Some(0)), 0);
    assert_eq!(timestamp_from(Some(1_700_000_000_123)), 1_700_000_000_123);
    assert_eq!(timestamp_from(Some(i64::MAX as u128)), i64::MAX);
    assert_eq!(timestamp_from(Some(i64::MAX as u128 + 1)), i64::MIN);
    assert_eq!(timestamp_from(Some(1u128 << 64)), 0);
    assert_eq!(timestamp_from(None), 0);
}

#[test]
fn clock_reads_a_time_after_the_epoch() {
    let a = now_ms();
    let b = now_ms();
    assert!(a > 1_600_000_000_000);
    assert!(b >= a - 60_000);
}

#[test]
fn status_labels_and_classes() {
    assert_eq!(TaskStatus::Idle.as_str(), "idle");
    assert_eq!(TaskStatus::Queued.as_str(), "queued");
    assert_eq!(TaskStatus::Running.as_str(), "running");
    assert_eq!(TaskStatus::Success.as_str(), "success");
    assert_eq!(TaskStatus::Failed.as_str(), "failed");
    assert_eq!(TaskStatus::Cancelled.as_str(), "cancelled");
    assert!(TaskStatus::Success.terminal());
    assert!(TaskStatus::Failed.terminal());
    assert!(TaskStatus::Cancelled.terminal());
    assert!(!TaskStatus::Idle.terminal());
    assert!(!TaskStatus::Queued.terminal());
    assert!(!TaskStatus::Running.terminal());
    assert!(TaskStatus::Queued.live() && TaskStatus::Running.live());
    assert!(!TaskStatus::Idle.live() && !TaskStatus::Cancelled.live());
}

#[test]
fn status_is_parsed_from_its_label() {
    for status in [
        TaskStatus::Idle,
        TaskStatus::Queued,
        TaskStatus::Running,
        TaskStatus::Success,
        TaskStatus::Failed,
        TaskStatus::Cancelled,
    ] {
        assert_eq!(TaskStatus::parse(status.as_str()), Some(status));
    }
    assert_eq!(TaskStatus::parse("Queued"), None);
    assert_eq!(TaskStatus::parse(""), None);
    assert_eq!(LogStream::parse("stdout"), Some(LogStream::Stdout));
    assert_eq!(LogStream::parse("stderr"), Some(LogStream::Stderr));
    assert_eq!(LogStream::parse("stdin"), None);
    assert_eq!(LogStream::Stdout.as_str(), "stdout");
    assert_eq!(LogStream::Stderr.as_str(), "stderr");
    assert_eq!(LogStream::Stdout.channel(), "task:stdout");
    assert_eq!(LogStream::Stderr.channel(), "task:stderr");
}

#[test]
fn settling_a_status() {
    assert_eq!(TaskStatus::Running.settle(Some(0)), TaskStatus::Success);
    assert_eq!(TaskStatus::Running.settle(Some(1)), TaskStatus::Failed);
    assert_eq!(TaskStatus::Running.settle(Some(-7)), TaskStatus::Failed);
    assert_eq!(TaskStatus::Running.settle(None), TaskStatus::Failed);
    assert_eq!(TaskStatus::Cancelled.settle(Some(0)), TaskStatus::Cancelled);
    assert_eq!(TaskStatus::Cancelled.settle(Some(9)), TaskStatus::Cancelled);
    assert_eq!(TaskStatus::Cancelled.settle(None), TaskStatus::Cancelled);
    assert_eq!(TaskStatus::Success.settle(Some(1)), TaskStatus::Success);
    assert_eq!(TaskStatus::Failed.settle(Some(0)), TaskStatus::Failed);
    assert_eq!(TaskStatus::Running.reconcile(), TaskStatus::Failed);
    assert_eq!(TaskStatus::Queued.reconcile(), TaskStatus::Cancelled);
    assert_eq!(TaskStatus::Success.reconcile(), TaskStatus::Success);
}

#[test]
fn blank_and_trimmed_text() {
    assert!(blank(""));
    assert!(blank("  \t\n"));
    assert!(!blank(" x "));
    assert_eq!(trim_owned("  two words \n"), "two words");
    assert_eq!(trim_owned("same"), "same");
    assert_eq!(trim_owned("   "), "");
}

#[test]
fn whitespace_is_what_the_standard_library_takes_for_it() {
    let mut spaces = 0;
    for code in 0u32..=0x10FFFF {
        if let Some(c) = char::from_u32(code) {
            assert_eq!(white_space(c), c.is_whitespace(), "code point {code:#x}");
            if white_space(c) {
                spaces += 1;
            }
        }
    }
    assert_eq!(spaces, 25);
    assert!(blank("\u{a0}\u{2003}\u{3000}\t"));
    assert!(!blank("\u{200b}"));
    assert_eq!(trim_owned("\u{2028}x\u{85}"), "x");
}

#[test]
fn shell_for_a_task() {
    let unix = shell_invocation("powershell", "echo hi", false);
    assert_eq!(unix.program, "sh");
    assert_eq!(unix.args, vec!["-lc", "echo hi"]);
    let unix_cmd = shell_invocation("cmd", "dir", false);
    assert_eq!(unix_cmd.program, "sh");
    let cmd = shell_invocation("CMD.exe", "dir", true);
    assert_eq!(cmd.program, "cmd");
    assert_eq!(cmd.args, vec!["/C", "dir"]);
    let ps = shell_invocation("PowerShell", "Get-Item .", true);
    assert_eq!(ps.program, "powershell");
    assert_eq!(ps.args, vec!["-NoProfile", "-Command", "Get-Item ."]);
    let other = shell_invocation("", "x", true);
    assert_eq!(other.program, "powershell");
}

#[test]
fn shell_for_the_terminal() {
    let unix = terminal_command("ls -l", false);
    assert_eq!(unix.program, "sh");
    assert_eq!(unix.args, vec!["-lc", "ls -l"]);
    let windows = terminal_command("dir", true);
    assert_eq!(windows.program, "cmd");
    assert_eq!(windows.args, vec!["/C", "dir"]);
}

#[test]
fn relative_path_rules() {
    assert_eq!(check_relative_path(false, &vec![Normal, CurDir, Normal]), Ok(()));
    assert_eq!(check_relative_path(false, &vec![]), Ok(()));
    assert_eq!(check_relative_path(true, &vec![Normal]), Err(PathError::AbsolutePath));
    assert_eq!(check_relative_path(true, &vec![ParentDir]), Err(PathError::AbsolutePath));
    assert_eq!(check_relative_path(false, &vec![Normal, ParentDir]), Err(PathError::Traversal));
    assert_eq!(check_relative_path(false, &vec![RootDir, Normal]), Err(PathError::Traversal));
    assert_eq!(check_relative_path(false, &vec![Prefix, Normal]), Err(PathError::Traversal));
    assert_eq!(check_target(false, &vec![Normal], true), Ok(()));
    assert_eq!(check_target(false, &vec![Normal], false), Err(PathError::OutsideWorkspace));
    assert_eq!(check_target(false, &vec![ParentDir], false), Err(PathError::Traversal));
    assert_eq!(check_target(true, &vec![Normal], true), Err(PathError::AbsolutePath));
}

#[test]
fn safe_relative_paths_are_handed_back() {
    assert_eq!(ensure_safe_relative_path("src/main.rs"), Ok("src/main.rs".to_string()));
    assert_eq!(ensure_safe_relative_path(""), Ok(String::new()));
    assert_eq!(ensure_safe_relative_path("./a/b"), Ok("./a/b".to_string()));
}

#[test]
fn unsafe_relative_paths_are_rejected() {
    assert_eq!(ensure_safe_relative_path("/etc/passwd"), Err(PathError::AbsolutePath));
    assert_eq!(ensure_safe_relative_path("../secret"), Err(PathError::Traversal));
    assert_eq!(ensure_safe_relative_path("a/../../b"), Err(PathError::Traversal));
    assert_eq!(PathError::AbsolutePath.message(), "Relative path expected.");
    assert_eq!(PathError::Traversal.message(), "Path traversal is not allowed.");
    assert_eq!(PathError::OutsideWorkspace.message(), "Target path is outside workspace.");
}

#[test]
fn an_absolute_path_is_turned_down_as_such_whatever_its_components() {
    assert_eq!(ensure_safe_relative_path("/a/../b"), Err(PathError::AbsolutePath));
    assert_eq!(resolve_workspace_target("/work/app", "/a/../b"), Err(PathError::AbsolutePath));
    assert_eq!(resolve_workspace_target("/work/app", "a/./b"), Ok("/work/app/a/./b".to_string()));
}

#[test]
fn targets_are_resolved_under_the_workspace() {
    assert_eq!(
        resolve_workspace_target("/work/app", "src/lib.rs"),
        Ok("/work/app/src/lib.rs".to_string())
    );
    assert_eq!(resolve_workspace_target("/work/app", ""), Ok("/work/app/".to_string()));
    assert_eq!(resolve_workspace_target("/work/app", "../x"), Err(PathError::Traversal));
    assert_eq!(resolve_workspace_target("/work/app", "/x"), Err(PathError::AbsolutePath));
}

#[test]
fn stable_order_by_timestamp() {
    assert_eq!(stable_order(&vec![30, 10, 20, 10], false), vec![1, 3, 2, 0]);
    assert_eq!(stable_order(&vec![30, 10, 20, 10, 30], true), vec![0, 4, 2, 1, 3]);
    assert_eq!(stable_order(&vec![], false), Vec::<usize>::new());
    assert_eq!(stable_order(&vec![5, 5, 5], true), vec![0, 1, 2]);
    assert_eq!(stable_order(&vec![i64::MIN, i64::MAX, 0], false), vec![0, 2, 1]);
}

#[test]
fn job_queue_is_first_in_first_out() {
    let mut queue = JobQueue::new();
    assert!(queue.is_empty());
    assert!(queue.dequeue().is_none());
    queue.enqueue(entry("a"));
    queue.enqueue(entry("b"));
    queue.enqueue(entry("c"));
    assert_eq!(queue.len(), 3);
    assert!(queue.contains("b"));
    assert!(!queue.contains("z"));
    assert_eq!(queue.remove("b"), Some(entry("b")));
    assert_eq!(queue.remove("b"), None);
    assert_eq!(queue.len(), 2);
    assert_eq!(queue.dequeue(), Some(entry("a")));
    assert_eq!(queue.dequeue(), Some(entry("c")));
    assert_eq!(queue.dequeue(), None);
    assert!(queue.is_empty());
}

#[test]
fn running_table_registers_each_task_once() {
    let mut table = RunningTable::new();
    assert_eq!(table.count(), 0);
    assert!(!table.lookup("a"));
    table.register("a".to_string());
    table.register("b".to_string());
    table.register("a".to_string());
    assert_eq!(table.count(), 2);
    assert!(table.lookup("a") && table.lookup("b"));
    assert!(table.unregister("a"));
    assert!(!table.unregister("a"));
    assert_eq!(table.count(), 1);
    assert!(!table.lookup("a"));
    assert!(table.lookup("b"));
}
