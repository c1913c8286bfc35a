//! What holds of the scheduler in every state that it can reach.

use crate::listing::is_group_listing;
use crate::model::{
    first_index, lemma_first_index, log_ids, message_ids, project_ids, project_paths, queue_ids,
    set_thread_status, shown_by, snapshot_error, task_ids, thread_ids, touch_thread, Input,
    StateView,
};
use crate::records::{DbView, LogView, MessageView, ProjectView, TaskLogRecord, TaskView};
use crate::status::{LogStream, TaskStatus};
use crate::upkeep::{
    lemma_admit_one_wf, lemma_enqueue_wf, lemma_fresh_seq, lemma_head_takes_free_slot,
    lemma_queued_task, lemma_release_wf, lemma_settings_and_logs_wf, lemma_slot_task,
    lemma_start_wf, lemma_store_only, lemma_store_wf, lemma_withdraw_wf,
};
use vstd::prelude::*;

verus! {

/// Whether the tasks of `s` are still there in `t`, each at its place,
/// under its identifier and in its thread, and those that had ended in `s`
/// with the status they ended in and the start stamp they had.
pub open spec fn keeps_history(s: StateView, t: StateView) -> bool {
    &&& t.db.tasks.len() >= s.db.tasks.len()
    &&& forall|i: int|
        0 <= i < s.db.tasks.len() ==> {
            let before = s.db.tasks[i];
            let after = #[trigger] t.db.tasks[i];
            &&& after.id == before.id
            &&& after.thread_id == before.thread_id
            &&& before.status.is_terminal() ==> after.status == before.status && after.started_at
                == before.started_at
        }
}

/// Whether each list of records has room for `more` records: the length
/// of a list is a machine number.
pub open spec fn has_room(s: StateView, more: nat) -> bool {
    &&& s.db.projects.len() + more < 0x1_0000_0000_0000_0000
    &&& s.db.threads.len() + more < 0x1_0000_0000_0000_0000
    &&& s.db.messages.len() + more < 0x1_0000_0000_0000_0000
    &&& s.db.tasks.len() + more < 0x1_0000_0000_0000_0000
    &&& s.db.task_logs.len() + more < 0x1_0000_0000_0000_0000
}

/// The log line that an input appends, if it appends one: a line that a
/// process has written, or the error text of a start that failed.
pub open spec fn logged(s: StateView, input: Input, now: i64) -> Option<LogView> {
    match input {
        Input::Output { task_id, stream, line } => Some(s.new_log(task_id, stream, line, now)),
        Input::SpawnFailed { task_id, error } => Some(
            s.new_log(task_id, LogStream::Stderr, error, now),
        ),
        _ => None,
    }
}

/// The message that an input appends, if it appends one.
pub open spec fn noted(s: StateView, input: Input, now: i64) -> Option<MessageView> {
    match input {
        Input::AddMessage { thread_id, role, content } => Some(
            s.new_message(thread_id, role, content, now),
        ),
        _ => None,
    }
}

/// The projects after an input: only opening a workspace and stamping a
/// project touch them.
pub open spec fn projects_after(s: StateView, input: Input, now: i64) -> Seq<ProjectView> {
    match input {
        Input::OpenProject { path, name, dir_name } => s.open_project(
            path,
            name,
            dir_name,
            now,
        ).db.projects,
        Input::TouchProject { project_id } => s.touch_project(project_id, now).db.projects,
        _ => s.db.projects,
    }
}

/// Whether no slot was taken from `s` to `t` beyond the cap of `t`.
pub open spec fn never_overfills(s: StateView, t: StateView) -> bool {
    t.running.len() <= s.running.len() || t.running.len() <= t.cap()
}

proof fn lemma_admit_one_history(s: StateView, now: i64)
    requires
        s.wf(),
        s.queue.len() > 0,
    ensures
        keeps_history(s, s.admit_one(now)),
{
    let i0 = lemma_queued_task(s, 0);
}

/// What the scheduler does: it keeps the invariant and the history; it
/// admits the head of the queue as often as `admit_count` says, so that the
/// queue loses that many entries at its head and the slots gain their
/// identifiers in the same order; it takes no slot beyond the cap; and when
/// it is done, the queue is empty or no slot is free. Settings, projects,
/// messages and logs are left alone.
pub proof fn lemma_schedule(s: StateView, now: i64)
    requires
        s.wf(),
    ensures
        s.schedule(now).wf(),
        keeps_history(s, s.schedule(now)),
        s.schedule(now).db.tasks.len() == s.db.tasks.len(),
        s.schedule(now).queue == s.queue.skip(s.admit_count()),
        s.schedule(now).running == s.running + queue_ids(s.queue.take(s.admit_count())),
        s.schedule(now).db.settings == s.db.settings,
        s.schedule(now).db.projects == s.db.projects,
        s.schedule(now).db.messages == s.db.messages,
        s.schedule(now).db.task_logs == s.db.task_logs,
        s.schedule(now).db.threads.len() == s.db.threads.len(),
        s.schedule(now).next_seq == s.next_seq,
        s.schedule(now).queue.len() == 0 || s.schedule(now).running.len() >= s.cap(),
        s.within_cap() ==> s.schedule(now).within_cap(),
        never_overfills(s, s.schedule(now)),
    decreases s.queue.len(),
{
    if s.queue.len() > 0 && s.running.len() < s.cap() {
        let t = s.admit_one(now);
        lemma_admit_one_wf(s, now);
        lemma_admit_one_history(s, now);
        lemma_head_takes_free_slot(s, now);
        lemma_schedule(t, now);
        let k = t.admit_count();
        assert(s.admit_count() == k + 1);
        assert(t.queue.skip(k) =~= s.queue.skip(k + 1));
        assert(t.running + queue_ids(t.queue.take(k)) =~= s.running + queue_ids(
            s.queue.take(k + 1),
        ));
    } else {
        assert(s.admit_count() == 0);
        assert(s.queue.skip(0) =~= s.queue);
        assert(s.running + queue_ids(s.queue.take(0)) =~= s.running);
    }
}

proof fn lemma_withdraw_history(s: StateView, id: Seq<char>, now: i64)
    requires
        s.wf(),
    ensures
        keeps_history(s, s.withdraw(id, now)),
        s.withdraw(id, now).running == s.running,
        s.withdraw(id, now).db.settings == s.db.settings,
{
}

proof fn lemma_release_history(s: StateView, id: Seq<char>, exit_code: Option<i32>, now: i64)
    requires
        s.wf(),
    ensures
        keeps_history(s, s.release(id, exit_code, now)),
        s.release(id, exit_code, now).running.len() <= s.running.len(),
        s.release(id, exit_code, now).db.settings == s.db.settings,
{
    lemma_first_index(s.running, id);
    match first_index(s.running, id) {
        None => {},
        Some(r) => {
            let i = lemma_slot_task(s, r);
            s.running.remove_ensures(r);
        },
    }
}

/// One input, whatever it is, keeps the invariant and the history, and
/// takes no slot beyond the cap. It appends one log line, or one message,
/// or neither, and touches no stored line and no stored message; and it
/// adds one record to a list at most.
pub proof fn lemma_step(s: StateView, input: Input, now: i64)
    requires
        s.wf(),
        has_room(s, 1),
    ensures
        s.step(input, now).wf(),
        keeps_history(s, s.step(input, now)),
        never_overfills(s, s.step(input, now)),
        s.step(input, now).cap() == s.cap() || (input matches Input::SetCap { value } && value
            != 0 && s.step(input, now).cap() == value),
        s.step(input, now).db.task_logs == match logged(s, input, now) {
            Some(line) => s.db.task_logs.push(line),
            None => s.db.task_logs,
        },
        s.step(input, now).db.messages == match noted(s, input, now) {
            Some(message) => s.db.messages.push(message),
            None => s.db.messages,
        },
        s.step(input, now).db.projects == projects_after(s, input, now),
        s.step(input, now).db.projects.len() <= s.db.projects.len() + 1,
        s.step(input, now).db.threads.len() <= s.db.threads.len() + 1,
        s.step(input, now).db.tasks.len() <= s.db.tasks.len() + 1,
        forall|more: nat| has_room(s, more + 1) ==> #[trigger] has_room(s.step(input, now), more),
{
    let t = s.step(input, now);
    match input {
        Input::Submit { thread_id, command, cwd, shell } => {
            if s.task_error(thread_id, command, cwd) is None {
                let m = s.enqueue(thread_id, command, cwd, shell, now);
                lemma_enqueue_wf(s, thread_id, command, cwd, shell, now);
                lemma_set_status_keeps_count(s, thread_id, TaskStatus::Queued, now);
                lemma_schedule(m, now);
                assert(keeps_history(s, m));
            }
        },
        Input::Cancel { task_id } => {
            let m = s.withdraw(task_id, now);
            lemma_withdraw_wf(s, task_id, now);
            lemma_withdraw_history(s, task_id, now);
            lemma_schedule(m, now);
        },
        Input::Exit { task_id, exit_code } => {
            let m = s.release(task_id, exit_code, now);
            lemma_release_wf(s, task_id, exit_code, now);
            lemma_release_history(s, task_id, exit_code, now);
            lemma_schedule(m, now);
        },
        Input::SpawnFailed { task_id, error } => {
            let l = s.append_log(task_id, LogStream::Stderr, error, now);
            lemma_settings_and_logs_wf(s, 1, task_id, LogStream::Stderr, error, now);
            let m = l.release(task_id, None, now);
            lemma_release_wf(l, task_id, None, now);
            lemma_release_history(l, task_id, None, now);
            lemma_schedule(m, now);
        },
        Input::Output { task_id, stream, line } => {
            lemma_settings_and_logs_wf(s, 1, task_id, stream, line, now);
        },
        Input::SetCap { value } => {
            if value != 0 {
                let m = s.with_cap(value);
                lemma_store_only(s, m);
                lemma_schedule(m, now);
            }
        },
        Input::Wake => {
            lemma_schedule(s, now);
        },
        Input::OpenProject { path, name, dir_name } => {
            lemma_store_wf(s, path, Seq::empty(), name, dir_name, Seq::empty(), now);
        },
        Input::TouchProject { project_id } => {
            lemma_store_wf(s, project_id, Seq::empty(), None, None, Seq::empty(), now);
        },
        Input::CreateThread { project_id, name, description } => {
            lemma_store_wf(s, project_id, name, description, None, Seq::empty(), now);
        },
        Input::AddMessage { thread_id, role, content } => {
            lemma_store_wf(s, thread_id, role, None, None, content, now);
            lemma_set_status_keeps_count(s, thread_id, TaskStatus::Idle, now);
        },
    }
}

/// Giving a thread a status, or stamping it, adds no thread and takes none
/// away.
proof fn lemma_set_status_keeps_count(s: StateView, id: Seq<char>, status: TaskStatus, now: i64)
    ensures
        set_thread_status(s.db.threads, id, status, now).len() == s.db.threads.len(),
        touch_thread(s.db.threads, id, now).len() == s.db.threads.len(),
{
    lemma_first_index(thread_ids(s.db.threads), id);
}

/// Whether a run of inputs never sets the cap below the cap in force.
pub open spec fn never_lowers_cap(s: StateView, inputs: Seq<(Input, i64)>) -> bool
    decreases inputs.len(),
{
    if inputs.len() == 0 {
        true
    } else {
        &&& (inputs[0].0 matches Input::SetCap { value } ==> value == 0 || value >= s.cap())
        &&& never_lowers_cap(s.step(inputs[0].0, inputs[0].1), inputs.drop_first())
    }
}

/// Any run of inputs keeps the invariant and the history.
pub proof fn lemma_run(s: StateView, inputs: Seq<(Input, i64)>)
    requires
        s.wf(),
        has_room(s, inputs.len()),
    ensures
        s.run(inputs).wf(),
        keeps_history(s, s.run(inputs)),
        s.run(inputs).db.tasks.len() <= s.db.tasks.len() + inputs.len(),
    decreases inputs.len(),
{
    if inputs.len() > 0 {
        let t = s.step(inputs[0].0, inputs[0].1);
        lemma_step(s, inputs[0].0, inputs[0].1);
        lemma_run(t, inputs.drop_first());
    }
}

/// No more tasks run than slots are taken: every task that runs holds a
/// slot, and no two of them hold the same.
pub proof fn lemma_running_tasks_hold_slots(s: StateView)
    requires
        s.wf(),
    ensures
        s.running_tasks().finite(),
        s.running_tasks().len() <= s.running.len(),
{
    let all = s.running_tasks();
    vstd::set_lib::lemma_int_range(0, s.db.tasks.len() as int);
    let range = vstd::set_lib::set_int_range(0, s.db.tasks.len() as int);
    assert(all.subset_of(range));
    vstd::set_lib::lemma_len_subset(all, range);
    assert forall|i: int, j: int|
        all.contains(i) && all.contains(j) && i != j implies s.db.tasks[i].id
        != s.db.tasks[j].id by {
        if s.db.tasks[i].id == s.db.tasks[j].id {
            assert(s.db.tasks[i].status.is_terminal());
        }
    }
    lemma_distinct_holders(s.db.tasks, all, s.running);
}

/// A finite set of tasks with pairwise distinct identifiers, each of which
/// is among `slots`, has at most as many members as there are slots.
proof fn lemma_distinct_holders(tasks: Seq<TaskView>, members: Set<int>, slots: Seq<Seq<char>>)
    requires
        members.finite(),
        forall|i: int|
            members.contains(i) ==> 0 <= i < tasks.len() && slots.contains(
                (#[trigger] tasks[i]).id,
            ),
        forall|i: int, j: int|
            members.contains(i) && members.contains(j) && i != j ==> (#[trigger] tasks[i]).id != (
            #[trigger] tasks[j]).id,
    ensures
        members.len() <= slots.len(),
    decreases slots.len(),
{
    if slots.len() == 0 {
        if members.len() > 0 {
            let i = members.choose();
            assert(slots.contains(tasks[i].id));
        }
    } else {
        let last = slots.last();
        let rest = slots.drop_last();
        let others = if exists|i: int| members.contains(i) && (#[trigger] tasks[i]).id == last {
            members.remove(choose|i: int| members.contains(i) && (#[trigger] tasks[i]).id == last)
        } else {
            members
        };
        assert forall|i: int| others.contains(i) implies 0 <= i < tasks.len() && rest.contains(
            (#[trigger] tasks[i]).id,
        ) by {
            assert(members.contains(i));
            assert(slots.contains(tasks[i].id));
            let p = choose|p: int| 0 <= p < slots.len() && slots[p] == tasks[i].id;
            assert(tasks[i].id != last);
            assert(rest[p] == tasks[i].id);
        }
        lemma_distinct_holders(tasks, others, rest);
    }
}

/// However tasks are submitted, cancelled and ended, and whatever else
/// happens: as long as the cap is not lowered, no more slots are taken than
/// the cap allows, and so no more tasks run at once.
pub proof fn lemma_running_within_cap(s: StateView, inputs: Seq<(Input, i64)>)
    requires
        s.wf(),
        s.within_cap(),
        never_lowers_cap(s, inputs),
        has_room(s, inputs.len()),
    ensures
        s.run(inputs).within_cap(),
        s.run(inputs).running_tasks().finite(),
        s.run(inputs).running_tasks().len() <= s.run(inputs).cap(),
    decreases inputs.len(),
{
    if inputs.len() > 0 {
        let t = s.step(inputs[0].0, inputs[0].1);
        lemma_step(s, inputs[0].0, inputs[0].1);
        lemma_running_within_cap(t, inputs.drop_first());
    } else {
        lemma_running_tasks_hold_slots(s);
    }
}

/// Lowering the cap ends no task, so more slots may be taken than the new
/// cap allows; but no input ever takes a slot beyond the cap in force, and
/// once the slots are within the cap again they stay there.
pub proof fn lemma_no_admission_beyond_cap(s: StateView, input: Input, now: i64)
    requires
        s.wf(),
        has_room(s, 1),
    ensures
        s.step(input, now).running.len() <= s.running.len() || s.step(input, now).within_cap(),
{
    lemma_step(s, input, now);
}

/// A task that is cancelled while it waits leaves the queue, takes no slot
/// and is marked as cancelled and stamped as finished; and whatever happens
/// afterwards, it stays cancelled and without a start stamp, so it never
/// runs.
pub proof fn lemma_cancelled_never_runs(
    s: StateView,
    i: int,
    now: i64,
    later: Seq<(Input, i64)>,
)
    requires
        s.wf(),
        0 <= i < s.db.tasks.len(),
        s.db.tasks[i].status == TaskStatus::Queued,
        has_room(s, later.len() + 1),
    ensures
        ({
            let id = s.db.tasks[i].id;
            let cancelled = s.step(Input::Cancel { task_id: id }, now);
            &&& cancelled.db.tasks[i].status == TaskStatus::Cancelled
            &&& cancelled.db.tasks[i].started_at is None
            &&& cancelled.db.tasks[i].finished_at == Some(now)
            &&& !queue_ids(cancelled.queue).contains(id)
            &&& !cancelled.running.contains(id)
            &&& cancelled.run(later).db.tasks[i].id == id
            &&& cancelled.run(later).db.tasks[i].status == TaskStatus::Cancelled
            &&& cancelled.run(later).db.tasks[i].started_at is None
        }),
{
    let id = s.db.tasks[i].id;
    let input = Input::Cancel { task_id: id };
    let m = s.withdraw(id, now);
    let cancelled = s.step(input, now);
    let ids = task_ids(s.db.tasks);
    assert(ids[i] == id);
    lemma_first_index(ids, id);
    let f = first_index(ids, id)->0;
    if f != i {
        assert(s.db.tasks[f].id == s.db.tasks[i].id);
    }
    assert(s.cancel_target(id) == Some(i));
    assert(m.db.tasks[i].status == TaskStatus::Cancelled);
    assert(m.db.tasks[i].started_at is None);
    lemma_withdraw_wf(s, id, now);
    lemma_step(s, input, now);
    lemma_schedule(m, now);
    lemma_schedule_keeps_ended(m, now, i);
    assert(cancelled.db.tasks[i].status == TaskStatus::Cancelled);
    if queue_ids(cancelled.queue).contains(id) {
        let q = choose|q: int|
            0 <= q < queue_ids(cancelled.queue).len() && queue_ids(cancelled.queue)[q] == id;
        let j = lemma_queued_task(cancelled, q);
        if j != i {
            assert(cancelled.db.tasks[j].id == cancelled.db.tasks[i].id);
        }
    }
    if cancelled.running.contains(id) {
        // the task held no slot while it waited, and the scheduler has
        // given slots to waiting tasks only
        let r = choose|r: int| 0 <= r < cancelled.running.len() && cancelled.running[r] == id;
        if r < m.running.len() {
            assert(s.running[r] == id);
            let h = lemma_slot_task(s, r);
        } else {
            let k = m.admit_count();
            let q = r - m.running.len();
            assert(queue_ids(m.queue.take(k))[q] == id);
            assert(m.queue[q].task_id == id);
            let j = lemma_queued_task(m, q);
            if j != i {
                assert(m.db.tasks[j].id == m.db.tasks[i].id);
            }
        }
    }
    lemma_run(cancelled, later);
}

/// When the process of a task that holds a slot ends, the task ends too: as
/// cancelled if it was cancelled before, whatever the exit code; else as a
/// success for exit code zero and as a failure for any other exit code or
/// none. The exit code is recorded as it came.
pub proof fn lemma_exit_settles(s: StateView, i: int, exit_code: Option<i32>, now: i64)
    requires
        s.wf(),
        0 <= i < s.db.tasks.len(),
        s.running.contains(s.db.tasks[i].id),
    ensures
        ({
            let before = s.db.tasks[i].status;
            let after = s.step(
                Input::Exit { task_id: s.db.tasks[i].id, exit_code },
                now,
            ).db.tasks[i];
            &&& before == TaskStatus::Running || before == TaskStatus::Cancelled
            &&& before == TaskStatus::Cancelled ==> after.status == TaskStatus::Cancelled
            &&& before == TaskStatus::Running && exit_code == Some(0i32) ==> after.status
                == TaskStatus::Success
            &&& before == TaskStatus::Running && exit_code != Some(0i32) ==> after.status
                == TaskStatus::Failed
            &&& after.exit_code == exit_code
            &&& after.finished_at == Some(now)
        }),
{
    let id = s.db.tasks[i].id;
    let r = choose|r: int| 0 <= r < s.running.len() && s.running[r] == id;
    let h = lemma_slot_task(s, r);
    assert(h == i);
    lemma_first_index(s.running, id);
    let m = s.release(id, exit_code, now);
    lemma_release_wf(s, id, exit_code, now);
    lemma_schedule(m, now);
    assert(m.db.tasks[i].status.is_terminal());
    assert(m.schedule(now).db.tasks[i].status == m.db.tasks[i].status);
    lemma_schedule_keeps_ended(m, now, i);
}

/// The scheduler changes nothing of a task that has ended.
proof fn lemma_schedule_keeps_ended(s: StateView, now: i64, i: int)
    requires
        s.wf(),
        0 <= i < s.db.tasks.len(),
        s.db.tasks[i].status.is_terminal(),
    ensures
        s.schedule(now).db.tasks[i] == s.db.tasks[i],
    decreases s.queue.len(),
{
    if s.queue.len() > 0 && s.running.len() < s.cap() {
        let i0 = lemma_queued_task(s, 0);
        lemma_admit_one_wf(s, now);
        lemma_schedule_keeps_ended(s.admit_one(now), now, i);
    }
}

/// Taking up a snapshot whose records belong together keeps projects,
/// messages, logs and settings as they are, and every task and thread as
/// it is but for the status, and the stamp that goes with it, of those
/// that waited or ran: after it no task and no thread waits or runs. A
/// snapshot in which none did is kept entirely.
pub proof fn lemma_restore_keeps_snapshot(db: DbView, now: i64)
    requires
        snapshot_error(db) is None,
    ensures
        ({
            let t = StateView::restored(db, now);
            &&& t.wf()
            &&& t.db.projects == db.projects
            &&& t.db.messages == db.messages
            &&& t.db.task_logs == db.task_logs
            &&& t.db.settings == db.settings
            &&& t.db.tasks.len() == db.tasks.len()
            &&& t.db.threads.len() == db.threads.len()
            &&& forall|i: int|
                0 <= i < db.tasks.len() ==> {
                    let before = #[trigger] db.tasks[i];
                    let after = t.db.tasks[i];
                    &&& after.status.is_terminal()
                    &&& before.status.is_terminal() ==> after == before
                    &&& before.status == TaskStatus::Running ==> after.status
                        == TaskStatus::Failed
                    &&& before.status == TaskStatus::Queued ==> after.status
                        == TaskStatus::Cancelled
                    &&& after == (TaskView {
                        status: after.status,
                        finished_at: after.finished_at,
                        ..before
                    })
                }
            &&& forall|j: int|
                0 <= j < db.threads.len() ==> {
                    let before = #[trigger] db.threads[j];
                    let after = t.db.threads[j];
                    &&& !after.status.is_live()
                    &&& !before.status.is_live() ==> after == before
                }
            &&& (forall|i: int| 0 <= i < db.tasks.len() ==> (#[trigger] db.tasks[i]).status.is_terminal())
                && (forall|j: int|
                0 <= j < db.threads.len() ==> !(#[trigger] db.threads[j]).status.is_live()) ==> t.db
                == db
        }),
{
    let t = StateView::restored(db, now);
    lemma_start_wf(db, now);
    if (forall|i: int| 0 <= i < db.tasks.len() ==> (#[trigger] db.tasks[i]).status.is_terminal())
        && (forall|j: int| 0 <= j < db.threads.len() ==> !(#[trigger] db.threads[j]).status.is_live()) {
        assert(t.db.tasks =~= db.tasks);
        assert(t.db.threads =~= db.threads);
    }
}

/// The store of a state that meets the invariant can be taken up again:
/// its records belong together.
pub proof fn lemma_snapshot_is_accepted(s: StateView)
    requires
        s.wf(),
    ensures
        snapshot_error(s.db) is None,
{
}

/// A store in which no task waits or runs comes back from a restart as it
/// was, record for record: projects, threads, messages, tasks, log lines
/// and settings. In such a store no thread shows a task as waiting or
/// running, and no task is idle.
pub proof fn lemma_reload_is_exact(s: StateView, now: i64)
    requires
        s.wf(),
        forall|i: int| 0 <= i < s.db.tasks.len() ==> !(#[trigger] s.db.tasks[i]).status.is_live(),
    ensures
        snapshot_error(s.db) is None,
        StateView::restored(s.db, now).db == s.db,
        StateView::restored(s.db, now).wf(),
{
    let t = StateView::restored(s.db, now);
    lemma_start_wf(s.db, now);
    assert forall|j: int| 0 <= j < s.db.threads.len() implies !(#[trigger] s.db.threads[j]).status.is_live() by {
        if s.db.threads[j].status.is_live() {
            assert(shown_by(s.db.tasks, s.db.threads[j]));
        }
    }
    assert forall|i: int| 0 <= i < s.db.tasks.len() implies (#[trigger] s.db.tasks[i]).status.is_terminal() by {
        assert(s.db.tasks[i].status != TaskStatus::Idle);
    }
    assert(t.db.tasks =~= s.db.tasks);
    assert(t.db.threads =~= s.db.threads);
}


/// Whether the lines of the log were appended in the order of their
/// timestamps, none of which lies after `now`.
pub open spec fn logs_follow_clock(s: StateView, now: i64) -> bool {
    &&& forall|i: int|
        0 <= i < s.db.task_logs.len() ==> (#[trigger] s.db.task_logs[i]).created_at <= now
    &&& forall|i: int, j: int|
        0 <= i < j < s.db.task_logs.len() ==> (#[trigger] s.db.task_logs[i]).created_at <= (
        #[trigger] s.db.task_logs[j]).created_at
}

/// No input touches a line of the log, and a line is appended at its end.
/// So where the clock does not go back, the lines stay in the order of
/// their timestamps.
pub proof fn lemma_logs_follow_clock(s: StateView, input: Input, before: i64, now: i64)
    requires
        s.wf(),
        has_room(s, 1),
        logs_follow_clock(s, before),
        before <= now,
    ensures
        logs_follow_clock(s.step(input, now), now),
        s.db.task_logs.len() <= s.step(input, now).db.task_logs.len(),
        forall|i: int|
            0 <= i < s.db.task_logs.len() ==> #[trigger] s.step(input, now).db.task_logs[i]
                == s.db.task_logs[i],
{
    lemma_step(s, input, now);
}

/// In the listing of the log of a task, a line with an earlier timestamp
/// comes first, and lines with the same timestamp stay in the order in
/// which they were appended. This holds of any two lines of the listing,
/// and so of any two lines of one stream. Where the lines of the task were
/// appended in the order of their timestamps, as they are while the clock
/// does not go back, the listing shows them in the order in which they were
/// appended, which for each stream is the order in which they were written.
pub proof fn lemma_log_listing_order(
    logs: Seq<LogView>,
    task_id: Seq<char>,
    src: Seq<int>,
    out: Seq<LogView>,
    a: int,
    b: int,
)
    requires
        is_group_listing::<TaskLogRecord>(logs, Some(task_id), false, src, out),
        0 <= a < b < out.len(),
    ensures
        out[a] == logs[src[a]] && out[b] == logs[src[b]],
        out[a].task_id == task_id && out[b].task_id == task_id,
        out[a].created_at <= out[b].created_at,
        out[a].created_at == out[b].created_at ==> src[a] < src[b],
        (forall|i: int, j: int|
            0 <= i < j < logs.len() && (#[trigger] logs[i]).task_id == task_id && (
            #[trigger] logs[j]).task_id == task_id ==> logs[i].created_at <= logs[j].created_at)
            ==> src[a] < src[b],
{
    assert(0 <= src[a] < logs.len() && 0 <= src[b] < logs.len());
    let x = logs[src[a]];
    let y = logs[src[b]];
    if src[b] < src[a] {
        assert(x.task_id == task_id && y.task_id == task_id);
    }
}


/// Running the scheduler again right after it has run changes nothing: it
/// is safe to run it whenever something has happened.
pub proof fn lemma_schedule_twice(s: StateView, now: i64, later: i64)
    requires
        s.wf(),
    ensures
        s.schedule(now).schedule(later) == s.schedule(now),
{
    lemma_schedule(s, now);
}

/// In a state that meets the invariant, a task waits exactly if the queue
/// holds its identifier, and a task that runs holds a slot. A slot is held
/// only by a task that runs, or by one that was cancelled and whose
/// process has not ended yet.
pub proof fn lemma_queue_and_slots(s: StateView, i: int)
    requires
        s.wf(),
        0 <= i < s.db.tasks.len(),
    ensures
        s.db.tasks[i].status == TaskStatus::Queued <==> queue_ids(s.queue).contains(
            s.db.tasks[i].id,
        ),
        s.db.tasks[i].status == TaskStatus::Running ==> s.running.contains(s.db.tasks[i].id),
        s.running.contains(s.db.tasks[i].id) ==> s.db.tasks[i].status == TaskStatus::Running
            || s.db.tasks[i].status == TaskStatus::Cancelled,
        !(queue_ids(s.queue).contains(s.db.tasks[i].id) && s.running.contains(s.db.tasks[i].id)),
{
    let id = s.db.tasks[i].id;
    if queue_ids(s.queue).contains(id) {
        let q = choose|q: int| 0 <= q < queue_ids(s.queue).len() && queue_ids(s.queue)[q] == id;
        let j = lemma_queued_task(s, q);
        if j != i {
            assert(s.db.tasks[j].id == s.db.tasks[i].id);
        }
    }
    if s.running.contains(id) {
        let r = choose|r: int| 0 <= r < s.running.len() && s.running[r] == id;
        let h = lemma_slot_task(s, r);
    }
}


/// Whether a task that has the status `before` may have the status `after`
/// one input later: it keeps its status, or it goes from waiting to running
/// or cancelled, or from running to an end. A task that has ended stays as
/// it ended.
pub open spec fn may_follow(before: TaskStatus, after: TaskStatus) -> bool {
    ||| after == before
    ||| before == TaskStatus::Queued && (after == TaskStatus::Running || after
        == TaskStatus::Cancelled)
    ||| before == TaskStatus::Running && after.is_terminal()
}

/// The scheduler lets waiting tasks run and changes the status of no task
/// otherwise.
proof fn lemma_schedule_transitions(s: StateView, now: i64)
    requires
        s.wf(),
    ensures
        forall|i: int|
            0 <= i < s.db.tasks.len() ==> {
                let before = (#[trigger] s.db.tasks[i]).status;
                let after = s.schedule(now).db.tasks[i].status;
                after == before || (before == TaskStatus::Queued && after == TaskStatus::Running)
            },
    decreases s.queue.len(),
{
    if s.queue.len() > 0 && s.running.len() < s.cap() {
        let t = s.admit_one(now);
        let i0 = lemma_queued_task(s, 0);
        lemma_admit_one_wf(s, now);
        lemma_schedule(t, now);
        lemma_schedule_transitions(t, now);
        assert forall|i: int| 0 <= i < s.db.tasks.len() implies {
            let before = (#[trigger] s.db.tasks[i]).status;
            let after = s.schedule(now).db.tasks[i].status;
            after == before || (before == TaskStatus::Queued && after == TaskStatus::Running)
        } by {
            let mid = t.db.tasks[i].status;
            assert(mid == s.db.tasks[i].status || (i == i0 && mid == TaskStatus::Running));
        }
    }
}

/// A task goes through its life in one direction: it waits, then it runs,
/// then it has ended; or it is cancelled while it waits. With one input a
/// task takes at most one of these steps, and a task that is new with the
/// input waits or runs.
pub proof fn lemma_step_transitions(s: StateView, input: Input, now: i64)
    requires
        s.wf(),
        has_room(s, 1),
    ensures
        forall|i: int|
            0 <= i < s.db.tasks.len() ==> may_follow(
                (#[trigger] s.db.tasks[i]).status,
                s.step(input, now).db.tasks[i].status,
            ),
        forall|i: int|
            s.db.tasks.len() <= i < s.step(input, now).db.tasks.len() ==> (#[trigger] s.step(
                input,
                now,
            ).db.tasks[i]).status.is_live(),
{
    let t = s.step(input, now);
    lemma_step(s, input, now);
    match input {
        Input::Submit { thread_id, command, cwd, shell } => {
            if s.task_error(thread_id, command, cwd) is None {
                let m = s.enqueue(thread_id, command, cwd, shell, now);
                lemma_enqueue_wf(s, thread_id, command, cwd, shell, now);
                lemma_schedule(m, now);
                lemma_schedule_transitions(m, now);
                assert forall|i: int| 0 <= i < s.db.tasks.len() implies may_follow(
                    (#[trigger] s.db.tasks[i]).status,
                    t.db.tasks[i].status,
                ) by {
                    assert(m.db.tasks[i] == s.db.tasks[i]);
                }
                assert forall|i: int| s.db.tasks.len() <= i < t.db.tasks.len() implies (
                #[trigger] t.db.tasks[i]).status.is_live() by {
                    assert(m.db.tasks[i].status == TaskStatus::Queued);
                }
            }
        },
        Input::Cancel { task_id } => {
            let m = s.withdraw(task_id, now);
            lemma_withdraw_wf(s, task_id, now);
            lemma_schedule(m, now);
            lemma_schedule_transitions(m, now);
            assert forall|i: int| 0 <= i < s.db.tasks.len() implies may_follow(
                (#[trigger] s.db.tasks[i]).status,
                t.db.tasks[i].status,
            ) by {
                let mid = m.db.tasks[i].status;
                assert(mid == s.db.tasks[i].status || (s.db.tasks[i].status.is_live() && mid
                    == TaskStatus::Cancelled));
            }
        },
        Input::Exit { task_id, exit_code } => {
            lemma_release_transitions(s, task_id, exit_code, now);
        },
        Input::SpawnFailed { task_id, error } => {
            let l = s.append_log(task_id, LogStream::Stderr, error, now);
            lemma_settings_and_logs_wf(s, 1, task_id, LogStream::Stderr, error, now);
            lemma_release_transitions(l, task_id, None, now);
        },
        Input::Output { task_id, stream, line } => {},
        Input::SetCap { value } => {
            if value != 0 {
                let m = s.with_cap(value);
                lemma_store_only(s, m);
                lemma_schedule(m, now);
                lemma_schedule_transitions(m, now);
            }
        },
        Input::Wake => {
            lemma_schedule(s, now);
            lemma_schedule_transitions(s, now);
        },
        Input::OpenProject { path, name, dir_name } => {},
        Input::TouchProject { project_id } => {},
        Input::CreateThread { project_id, name, description } => {},
        Input::AddMessage { thread_id, role, content } => {},
    }
}

proof fn lemma_release_transitions(s: StateView, id: Seq<char>, exit_code: Option<i32>, now: i64)
    requires
        s.wf(),
    ensures
        s.release(id, exit_code, now).schedule(now).db.tasks.len() == s.db.tasks.len(),
        forall|i: int|
            0 <= i < s.db.tasks.len() ==> may_follow(
                (#[trigger] s.db.tasks[i]).status,
                s.release(id, exit_code, now).schedule(now).db.tasks[i].status,
            ),
{
    let m = s.release(id, exit_code, now);
    lemma_release_wf(s, id, exit_code, now);
    lemma_schedule(m, now);
    lemma_schedule_transitions(m, now);
    lemma_first_index(s.running, id);
    match first_index(s.running, id) {
        None => {},
        Some(r) => {
            let h = lemma_slot_task(s, r);
            assert forall|i: int| 0 <= i < s.db.tasks.len() implies may_follow(
                (#[trigger] s.db.tasks[i]).status,
                m.schedule(now).db.tasks[i].status,
            ) by {
                let mid = m.db.tasks[i].status;
                if i == h {
                    assert(mid == s.db.tasks[h].status.settled(exit_code));
                    assert(mid.is_terminal());
                } else {
                    assert(mid == s.db.tasks[i].status);
                }
            }
        },
    }
}

/// Messages and log lines are only ever appended: what is stored of them
/// stays as it is and where it is, whatever happens.
pub proof fn lemma_append_only(s: StateView, input: Input, now: i64)
    requires
        s.wf(),
        has_room(s, 1),
    ensures
        s.db.messages.len() <= s.step(input, now).db.messages.len(),
        s.step(input, now).db.messages.take(s.db.messages.len() as int) == s.db.messages,
        s.db.task_logs.len() <= s.step(input, now).db.task_logs.len(),
        s.step(input, now).db.task_logs.take(s.db.task_logs.len() as int) == s.db.task_logs,
{
    let t = s.step(input, now);
    lemma_step(s, input, now);
    assert(t.db.messages.take(s.db.messages.len() as int) =~= s.db.messages);
    assert(t.db.task_logs.take(s.db.task_logs.len() as int) =~= s.db.task_logs);
}

/// Whether no two projects have the same path.
pub open spec fn paths_differ(s: StateView) -> bool {
    forall|a: int, b: int|
        0 <= a < b < s.db.projects.len() ==> (#[trigger] s.db.projects[a]).path != (
        #[trigger] s.db.projects[b]).path
}

/// Opening a workspace again makes no second project of it: where no two
/// projects have the same path, none have after any input.
pub proof fn lemma_one_project_per_path(s: StateView, input: Input, now: i64)
    requires
        s.wf(),
        has_room(s, 1),
        paths_differ(s),
    ensures
        paths_differ(s.step(input, now)),
{
    let t = s.step(input, now);
    lemma_step(s, input, now);
    match input {
        Input::OpenProject { path, name, dir_name } => {
            let paths = project_paths(s.db.projects);
            lemma_first_index(paths, path);
            assert forall|a: int, b: int| 0 <= a < b < t.db.projects.len() implies (
            #[trigger] t.db.projects[a]).path != (#[trigger] t.db.projects[b]).path by {
                if first_index(paths, path) is None {
                    if b == s.db.projects.len() {
                        assert(paths[a] == s.db.projects[a].path);
                    } else {
                        assert(s.db.projects[a].path != s.db.projects[b].path);
                    }
                } else {
                    assert(t.db.projects[a].path == s.db.projects[a].path);
                    assert(t.db.projects[b].path == s.db.projects[b].path);
                }
            }
        },
        Input::TouchProject { project_id } => {
            assert forall|a: int, b: int| 0 <= a < b < t.db.projects.len() implies (
            #[trigger] t.db.projects[a]).path != (#[trigger] t.db.projects[b]).path by {
                assert(t.db.projects[a].path == s.db.projects[a].path);
                assert(t.db.projects[b].path == s.db.projects[b].path);
            }
        },
        _ => {},
    }
}

/// Whether the scheduler admits the task with this identifier from this
/// state: it is among the first entries of the queue, as many as slots are
/// free.
pub open spec fn admits(s: StateView, id: Seq<char>) -> bool {
    exists|q: int| 0 <= q < s.admit_count() && (#[trigger] s.queue[q]).task_id == id
}

/// What the scheduler does to the tasks, task by task: a task that it
/// admits runs from now on and is stamped as started; every other task
/// stays as it is.
pub proof fn lemma_schedule_by_task(s: StateView, now: i64, i: int)
    requires
        s.wf(),
        0 <= i < s.db.tasks.len(),
    ensures
        s.schedule(now).db.tasks[i] == if admits(s, s.db.tasks[i].id) {
            TaskView { status: TaskStatus::Running, started_at: Some(now), ..s.db.tasks[i] }
        } else {
            s.db.tasks[i]
        },
        admits(s, s.db.tasks[i].id) ==> s.db.tasks[i].status == TaskStatus::Queued,
    decreases s.queue.len(),
{
    let id = s.db.tasks[i].id;
    if s.queue.len() > 0 && s.running.len() < s.cap() {
        let t = s.admit_one(now);
        let i0 = lemma_queued_task(s, 0);
        lemma_admit_one_wf(s, now);
        lemma_head_takes_free_slot(s, now);
        lemma_schedule_by_task(t, now, i);
        let k = t.admit_count();
        assert(s.admit_count() == k + 1);
        assert(t.db.tasks[i].id == id);
        if admits(t, id) {
            let q = choose|q: int| 0 <= q < k && (#[trigger] t.queue[q]).task_id == id;
            assert(s.queue[q + 1].task_id == id);
            assert(admits(s, id));
            assert(s.queue[0].task_id != s.queue[q + 1].task_id);
            assert(i != i0);
        } else if i == i0 {
            assert(s.queue[0].task_id == id);
            assert(admits(s, id));
        } else {
            if admits(s, id) {
                let q = choose|q: int| 0 <= q < k + 1 && (#[trigger] s.queue[q]).task_id == id;
                if q == 0 {
                    assert(s.db.tasks[i0].id == s.db.tasks[i].id);
                } else {
                    assert(t.queue[q - 1].task_id == id);
                }
            }
        }
    } else {
        assert(s.admit_count() == 0);
    }
}


/// A new record gets an identifier that no stored record of its kind has:
/// a task, a thread, a project, a message and a log line alike.
pub proof fn lemma_new_identifiers(
    s: StateView,
    key: Seq<char>,
    text: Seq<char>,
    more: Seq<char>,
    other: Option<Seq<char>>,
    stream: LogStream,
    now: i64,
)
    requires
        has_room(s, 1),
    ensures
        !task_ids(s.db.tasks).contains(s.new_task(key, text, more, other, now).id),
        !thread_ids(s.db.threads).contains(s.new_thread(key, text, other, now).id),
        first_index(project_paths(s.db.projects), key) is None ==> !project_ids(
            s.db.projects,
        ).contains(s.opened_project(key, other, other, now).id),
        !message_ids(s.db.messages).contains(s.new_message(key, text, more, now).id),
        !log_ids(s.db.task_logs).contains(s.new_log(key, stream, text, now).id),
{
    lemma_fresh_seq(task_ids(s.db.tasks), "task"@, now as int, s.next_seq);
    lemma_fresh_seq(thread_ids(s.db.threads), "thread"@, now as int, s.next_seq);
    lemma_fresh_seq(project_ids(s.db.projects), "proj"@, now as int, s.next_seq);
    lemma_fresh_seq(message_ids(s.db.messages), "msg"@, now as int, s.next_seq);
    lemma_fresh_seq(log_ids(s.db.task_logs), "log"@, now as int, s.next_seq);
}

/// The lines of one stream of one task, in the order in which they are
/// stored.
pub open spec fn stream_lines(logs: Seq<LogView>, task_id: Seq<char>, stream: LogStream) -> Seq<
    Seq<char>,
>
    decreases logs.len(),
{
    if logs.len() == 0 {
        Seq::empty()
    } else if logs.last().task_id == task_id && logs.last().stream == stream {
        stream_lines(logs.drop_last(), task_id, stream).push(logs.last().line)
    } else {
        stream_lines(logs.drop_last(), task_id, stream)
    }
}

/// The line that an input brings to one stream of one task, if it brings
/// one: a line that the process has written to the stream, or, for the
/// error stream, the error text of a start that failed.
pub open spec fn line_for(input: Input, task_id: Seq<char>, stream: LogStream) -> Option<
    Seq<char>,
> {
    match input {
        Input::Output { task_id: of, stream: to, line } => if of == task_id && to == stream {
            Some(line)
        } else {
            None
        },
        Input::SpawnFailed { task_id: of, error } => if of == task_id && stream
            == LogStream::Stderr {
            Some(error)
        } else {
            None
        },
        _ => None,
    }
}

/// The lines that a run of inputs brings to one stream of one task, in the
/// order of the inputs.
pub open spec fn written(inputs: Seq<(Input, i64)>, task_id: Seq<char>, stream: LogStream) -> Seq<
    Seq<char>,
>
    decreases inputs.len(),
{
    if inputs.len() == 0 {
        Seq::empty()
    } else {
        let rest = written(inputs.drop_first(), task_id, stream);
        match line_for(inputs[0].0, task_id, stream) {
            Some(line) => seq![line] + rest,
            None => rest,
        }
    }
}

/// Whether the times of a run of inputs never go back, starting at `from`.
pub open spec fn clock_runs_on(from: i64, inputs: Seq<(Input, i64)>) -> bool
    decreases inputs.len(),
{
    inputs.len() == 0 || (from <= inputs[0].1 && clock_runs_on(inputs[0].1, inputs.drop_first()))
}

/// The time of the last input of a run, or `from` for the empty run.
pub open spec fn clock_after(from: i64, inputs: Seq<(Input, i64)>) -> i64 {
    if inputs.len() == 0 {
        from
    } else {
        inputs.last().1
    }
}

/// Whatever happens in between, the lines that a process writes to one of
/// its streams are stored all of them, once each and in the order in which
/// they come: after a run of inputs the stored lines of the stream are
/// those that were stored before, followed by those that the run brought.
/// So when the end of the process is reported after its last line, every
/// line is stored before the task ends.
pub proof fn lemma_lines_are_kept(
    s: StateView,
    inputs: Seq<(Input, i64)>,
    task_id: Seq<char>,
    stream: LogStream,
)
    requires
        s.wf(),
        has_room(s, inputs.len()),
    ensures
        stream_lines(s.run(inputs).db.task_logs, task_id, stream) == stream_lines(
            s.db.task_logs,
            task_id,
            stream,
        ) + written(inputs, task_id, stream),
    decreases inputs.len(),
{
    let before = stream_lines(s.db.task_logs, task_id, stream);
    if inputs.len() > 0 {
        let input = inputs[0].0;
        let now = inputs[0].1;
        let t = s.step(input, now);
        let rest = inputs.drop_first();
        lemma_step(s, input, now);
        lemma_lines_are_kept(t, rest, task_id, stream);
        let middle = stream_lines(t.db.task_logs, task_id, stream);
        match logged(s, input, now) {
            Some(line) => {
                assert(t.db.task_logs.drop_last() =~= s.db.task_logs);
                assert(t.db.task_logs.last() == line);
            },
            None => {},
        }
        match line_for(input, task_id, stream) {
            Some(line) => {
                assert(middle == before.push(line));
                assert(before.push(line) + written(rest, task_id, stream) =~= before + (seq![line]
                    + written(rest, task_id, stream)));
            },
            None => {
                assert(middle == before);
            },
        }
    } else {
        assert(before + Seq::<Seq<char>>::empty() =~= before);
    }
}

/// Where the clock does not go back during a run of inputs, the log lines
/// are stored in the order of their timestamps after it as before.
pub proof fn lemma_run_follows_clock(s: StateView, inputs: Seq<(Input, i64)>, from: i64)
    requires
        s.wf(),
        has_room(s, inputs.len()),
        logs_follow_clock(s, from),
        clock_runs_on(from, inputs),
    ensures
        logs_follow_clock(s.run(inputs), clock_after(from, inputs)),
    decreases inputs.len(),
{
    if inputs.len() > 0 {
        let t = s.step(inputs[0].0, inputs[0].1);
        let rest = inputs.drop_first();
        lemma_step(s, inputs[0].0, inputs[0].1);
        lemma_logs_follow_clock(s, inputs[0].0, from, inputs[0].1);
        lemma_run_follows_clock(t, rest, inputs[0].1);
        if rest.len() > 0 {
            assert(rest.last() == inputs.last());
        }
    }
}


/// Every task belongs to exactly one thread, and every thread to exactly
/// one project: one stored thread has the identifier that the task names,
/// and no other has; one stored project has the identifier that the thread
/// names, and no other has.
pub proof fn lemma_belongs_to_one(s: StateView, i: int) -> (at: (int, int))
    requires
        s.wf(),
        0 <= i < s.db.tasks.len(),
    ensures
        0 <= at.0 < s.db.threads.len(),
        s.db.threads[at.0].id == s.db.tasks[i].thread_id,
        forall|j: int|
            0 <= j < s.db.threads.len() && (#[trigger] s.db.threads[j]).id
                == s.db.tasks[i].thread_id ==> j == at.0,
        0 <= at.1 < s.db.projects.len(),
        s.db.projects[at.1].id == s.db.threads[at.0].project_id,
        forall|k: int|
            0 <= k < s.db.projects.len() && (#[trigger] s.db.projects[k]).id
                == s.db.threads[at.0].project_id ==> k == at.1,
{
    let threads = thread_ids(s.db.threads);
    let projects = project_ids(s.db.projects);
    assert(threads.contains(s.db.tasks[i].thread_id));
    let j = choose|j: int| 0 <= j < threads.len() && threads[j] == s.db.tasks[i].thread_id;
    assert(projects.contains(s.db.threads[j].project_id));
    let k = choose|k: int| 0 <= k < projects.len() && projects[k] == s.db.threads[j].project_id;
    assert forall|x: int|
        0 <= x < s.db.threads.len() && (#[trigger] s.db.threads[x]).id
            == s.db.tasks[i].thread_id implies x == j by {
        assert(threads[x] == threads[j]);
        if x < j {
            assert(threads[x] != threads[j]);
        }
        if j < x {
            assert(threads[j] != threads[x]);
        }
    }
    assert forall|y: int|
        0 <= y < s.db.projects.len() && (#[trigger] s.db.projects[y]).id
            == s.db.threads[j].project_id implies y == k by {
        assert(projects[y] == projects[k]);
        if y < k {
            assert(projects[y] != projects[k]);
        }
        if k < y {
            assert(projects[k] != projects[y]);
        }
    }
    (j, k)
}

} // verus!
