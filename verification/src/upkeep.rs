//! The invariant of the scheduler holds at the start and is kept by every
//! operation.

use crate::ids::{id_text, lemma_id_text_injective};
use crate::model::{
    distinct, first_index, fresh_seq, is_first, lemma_first_index, linked, next_seq_after,
    project_ids, queue_ids, set_thread_status, shown_by, snapshot_error, task_ids, thread_ids,
    StateView,
};
use crate::records::{DbView, TaskView, ThreadView};
use crate::status::{LogStream, TaskStatus};
use vstd::prelude::*;

verus! {


/// In a state that meets the invariant, the first task with the identifier
/// of a queue entry is the task that waits under it.
pub proof fn lemma_queued_task(s: StateView, q: int) -> (i: int)
    requires
        s.scheduling_ok(),
        0 <= q < s.queue.len(),
    ensures
        first_index(task_ids(s.db.tasks), s.queue[q].task_id) == Some(i),
        0 <= i < s.db.tasks.len(),
        s.db.tasks[i].status == TaskStatus::Queued,
        s.db.tasks[i].descriptor() == s.queue[q],
{
    let entry = s.queue[q];
    assert(s.backed(entry));
    let i = choose|i: int|
        0 <= i < s.db.tasks.len() && (#[trigger] s.db.tasks[i]).status == TaskStatus::Queued
            && s.db.tasks[i].descriptor() == entry;
    let ids = task_ids(s.db.tasks);
    assert(ids[i] == entry.task_id);
    lemma_first_index(ids, entry.task_id);
    let f = first_index(ids, entry.task_id)->0;
    assert(is_first(ids, f, entry.task_id));
    if f != i {
        assert(s.db.tasks[f].id == s.db.tasks[i].id);
    }
    i
}

/// In a state that meets the invariant, the first task with the identifier
/// of an occupied slot is the one task that has it.
pub proof fn lemma_slot_task(s: StateView, r: int) -> (i: int)
    requires
        s.scheduling_ok(),
        0 <= r < s.running.len(),
    ensures
        first_index(task_ids(s.db.tasks), s.running[r]) == Some(i),
        0 <= i < s.db.tasks.len(),
        s.db.tasks[i].status == TaskStatus::Running || s.db.tasks[i].status
            == TaskStatus::Cancelled,
        forall|j: int|
            0 <= j < s.db.tasks.len() && (#[trigger] s.db.tasks[j]).id == s.running[r] ==> j == i,
{
    let id = s.running[r];
    assert(s.holder(id));
    let i = choose|i: int|
        0 <= i < s.db.tasks.len() && (#[trigger] s.db.tasks[i]).id == id && (s.db.tasks[i].status
            == TaskStatus::Running || s.db.tasks[i].status == TaskStatus::Cancelled);
    let ids = task_ids(s.db.tasks);
    assert(ids[i] == id);
    lemma_first_index(ids, id);
    let f = first_index(ids, id)->0;
    assert(is_first(ids, f, id));
    assert(s.running.contains(id));
    if f != i {
        assert(s.db.tasks[f].id == s.db.tasks[i].id);
    }
    assert forall|j: int| 0 <= j < s.db.tasks.len() && (#[trigger] s.db.tasks[j]).id == id implies j
        == i by {
        if j != i {
            assert(s.db.tasks[j].id == s.db.tasks[i].id);
        }
    }
    i
}

/// In a state that meets the invariant, the task at the head of the queue
/// holds no slot, so its admission takes one more.
pub proof fn lemma_head_takes_free_slot(s: StateView, now: i64)
    requires
        s.scheduling_ok(),
        s.queue.len() > 0,
    ensures
        !s.running.contains(s.queue[0].task_id),
        s.admit_one(now).running == s.running.push(s.queue[0].task_id),
{
    let head = s.queue[0];
    let i0 = lemma_queued_task(s, 0);
    if s.running.contains(head.task_id) {
        let r = choose|r: int| 0 <= r < s.running.len() && s.running[r] == head.task_id;
        let h = lemma_slot_task(s, r);
        assert(s.db.tasks[h].id == s.db.tasks[i0].id);
    }
}

/// Admitting the head of the queue keeps the invariant.
pub proof fn lemma_admit_one_slots(s: StateView, now: i64)
    requires
        s.scheduling_ok(),
        s.queue.len() > 0,
    ensures
        s.admit_one(now).scheduling_ok(),
{
    let head = s.queue[0];
    let i0 = lemma_queued_task(s, 0);
    let t = s.admit_one(now);
    let tasks = s.db.tasks;
    lemma_head_takes_free_slot(s, now);
    assert(t.db.tasks == tasks.update(
        i0,
        TaskView { status: TaskStatus::Running, started_at: Some(now), ..tasks[i0] },
    ));
    assert(t.db.tasks.len() == tasks.len());
    assert(forall|i: int| 0 <= i < tasks.len() ==> (#[trigger] t.db.tasks[i]).id == tasks[i].id);
    // the head's identifier is held by no other task and by no slot
    assert forall|i: int| 0 <= i < tasks.len() && i != i0 implies (#[trigger] tasks[i]).id
        != head.task_id by {
        if tasks[i].id == head.task_id {
            assert(tasks[i0].id == tasks[i].id);
        }
    }
    if s.running.contains(head.task_id) {
        let r = choose|r: int| 0 <= r < s.running.len() && s.running[r] == head.task_id;
        let h = lemma_slot_task(s, r);
        assert(tasks[h].id == head.task_id);
    }
    assert forall|i: int, j: int|
        0 <= i < t.db.tasks.len() && 0 <= j < t.db.tasks.len() && i != j && (
        #[trigger] t.db.tasks[i]).id == (#[trigger] t.db.tasks[j]).id implies t.db.tasks[i].status.is_terminal()
        && !t.running.contains(t.db.tasks[i].id) by {
        assert(tasks[i].id == tasks[j].id);
        assert(tasks[i].status.is_terminal());
        assert(i != i0);
        assert(!s.running.contains(tasks[i].id));
    }
    assert forall|q: int| 0 <= q < t.queue.len() implies t.backed(#[trigger] t.queue[q]) by {
        let i = lemma_queued_task(s, q + 1);
        assert(s.queue[0].task_id != s.queue[q + 1].task_id);
        assert(i != i0);
        assert(t.db.tasks[i].status == TaskStatus::Queued && t.db.tasks[i].descriptor()
            == t.queue[q]);
    }
    assert forall|a: int, b: int| 0 <= a < b < t.queue.len() implies (#[trigger] t.queue[a]).task_id
        != (#[trigger] t.queue[b]).task_id by {
        assert(s.queue[a + 1].task_id != s.queue[b + 1].task_id);
    }
    assert forall|i: int|
        0 <= i < t.db.tasks.len() && (#[trigger] t.db.tasks[i]).status
            == TaskStatus::Queued implies queue_ids(t.queue).contains(t.db.tasks[i].id) by {
        assert(i != i0);
        assert(tasks[i].status == TaskStatus::Queued);
        assert(queue_ids(s.queue).contains(tasks[i].id));
        let q = choose|q: int|
            0 <= q < queue_ids(s.queue).len() && queue_ids(s.queue)[q] == tasks[i].id;
        assert(q != 0);
        assert(queue_ids(t.queue)[q - 1] == tasks[i].id);
    }
    assert forall|a: int, b: int| 0 <= a < b < t.running.len() implies #[trigger] t.running[a]
        != #[trigger] t.running[b] by {
        if b == s.running.len() {
            assert(s.running[a] != head.task_id);
        }
    }
    assert forall|r: int| 0 <= r < t.running.len() implies t.holder(#[trigger] t.running[r]) by {
        if r < s.running.len() {
            let h = lemma_slot_task(s, r);
            assert(h != i0);
            assert(t.db.tasks[h].id == t.running[r]);
        } else {
            assert(t.db.tasks[i0].id == t.running[r]);
        }
    }
    assert forall|i: int|
        0 <= i < t.db.tasks.len() && (#[trigger] t.db.tasks[i]).status
            == TaskStatus::Running implies t.running.contains(t.db.tasks[i].id) by {
        if i == i0 {
            assert(t.running[s.running.len() as int] == head.task_id);
        } else {
            assert(s.running.contains(tasks[i].id));
            let r = choose|r: int| 0 <= r < s.running.len() && s.running[r] == tasks[i].id;
            assert(t.running[r] == tasks[i].id);
        }
    }
}


/// The sequence number that lies `k` steps after `start`.
pub open spec fn seq_plus(start: u64, k: nat) -> u64 {
    ((start as nat + k) % 0x1_0000_0000_0000_0000) as u64
}

proof fn lemma_fresh_seq_general(
    ids: Seq<Seq<char>>,
    prefix: Seq<char>,
    now: int,
    start: u64,
    tries: nat,
    tried: Set<Seq<char>>,
)
    requires
        tried.finite(),
        tried.subset_of(ids.to_set()),
        tried.len() + tries >= ids.to_set().len(),
        tries < 0x1_0000_0000_0000_0000,
        forall|k: nat|
            k <= tries ==> !tried.contains(
                #[trigger] id_text(prefix, now, seq_plus(start, k) as nat),
            ),
    ensures
        !ids.contains(id_text(prefix, now, fresh_seq(ids, prefix, now, start, tries) as nat)),
    decreases tries,
{
    let candidate = id_text(prefix, now, start as nat);
    assert(seq_plus(start, 0) == start);
    assert(!tried.contains(id_text(prefix, now, seq_plus(start, 0) as nat)));
    ids.lemma_cardinality_of_set();
    if ids.contains(candidate) {
        let more = tried.insert(candidate);
        assert(ids.to_set().contains(candidate));
        assert(more.subset_of(ids.to_set()));
        vstd::set_lib::lemma_len_subset(more, ids.to_set());
        if tries > 0 {
            let next = next_seq_after(start);
            assert forall|k: nat| k <= tries - 1 implies !more.contains(
                #[trigger] id_text(prefix, now, seq_plus(next, k) as nat),
            ) by {
                assert(seq_plus(next, k) == seq_plus(start, k + 1));
                assert(!tried.contains(id_text(prefix, now, seq_plus(start, k + 1) as nat)));
                if id_text(prefix, now, seq_plus(start, k + 1) as nat) == candidate {
                    lemma_id_text_injective(
                        prefix,
                        now,
                        seq_plus(start, k + 1) as nat,
                        start as nat,
                    );
                }
            }
            lemma_fresh_seq_general(ids, prefix, now, next, (tries - 1) as nat, more);
        }
    }
}

/// The sequence number that a new identifier is made with gives an
/// identifier that is not among those in use: of any run of sequence
/// numbers that is longer than the list, one is free.
pub proof fn lemma_fresh_seq(ids: Seq<Seq<char>>, prefix: Seq<char>, now: int, start: u64)
    requires
        ids.len() < 0x1_0000_0000_0000_0000,
    ensures
        !ids.contains(id_text(prefix, now, fresh_seq(ids, prefix, now, start, ids.len()) as nat)),
{
    ids.lemma_cardinality_of_set();
    lemma_fresh_seq_general(ids, prefix, now, start, ids.len(), Set::empty());
}

/// Storing and queueing a new task keeps the invariant.
pub proof fn lemma_enqueue_slots(
    s: StateView,
    thread_id: Seq<char>,
    command: Seq<char>,
    cwd: Seq<char>,
    shell: Option<Seq<char>>,
    now: i64,
)
    requires
        s.scheduling_ok(),
        s.db.tasks.len() < 0x1_0000_0000_0000_0000,
    ensures
        s.enqueue(thread_id, command, cwd, shell, now).scheduling_ok(),
        !task_ids(s.db.tasks).contains(s.new_task(thread_id, command, cwd, shell, now).id),
{
    let t = s.enqueue(thread_id, command, cwd, shell, now);
    let task = s.new_task(thread_id, command, cwd, shell, now);
    let tasks = s.db.tasks;
    let n = tasks.len() as int;
    lemma_fresh_seq(task_ids(tasks), "task"@, now as int, s.next_seq);
    assert(!task_ids(tasks).contains(task.id));
    assert forall|i: int| 0 <= i < n implies (#[trigger] tasks[i]).id != task.id by {
        assert(task_ids(tasks)[i] == tasks[i].id);
    }
    assert(t.db.tasks == tasks.push(task));
    assert(forall|i: int| 0 <= i < n ==> #[trigger] t.db.tasks[i] == tasks[i]);
    assert(t.db.tasks[n] == task);
    assert forall|i: int, j: int|
        0 <= i < t.db.tasks.len() && 0 <= j < t.db.tasks.len() && i != j && (
        #[trigger] t.db.tasks[i]).id == (#[trigger] t.db.tasks[j]).id implies t.db.tasks[i].status.is_terminal()
        && !t.running.contains(t.db.tasks[i].id) by {
        if i < n && j < n {
            assert(tasks[i].id == tasks[j].id);
        }
    }
    assert forall|q: int| 0 <= q < t.queue.len() implies t.backed(#[trigger] t.queue[q]) by {
        if q < s.queue.len() {
            let i = lemma_queued_task(s, q);
            assert(t.db.tasks[i].status == TaskStatus::Queued && t.db.tasks[i].descriptor()
                == t.queue[q]);
        } else {
            assert(t.db.tasks[n].status == TaskStatus::Queued && t.db.tasks[n].descriptor()
                == t.queue[q]);
        }
    }
    assert forall|a: int, b: int| 0 <= a < b < t.queue.len() implies (#[trigger] t.queue[a]).task_id
        != (#[trigger] t.queue[b]).task_id by {
        if b == s.queue.len() {
            let i = lemma_queued_task(s, a);
        }
    }
    assert forall|i: int|
        0 <= i < t.db.tasks.len() && (#[trigger] t.db.tasks[i]).status
            == TaskStatus::Queued implies queue_ids(t.queue).contains(t.db.tasks[i].id) by {
        if i < n {
            assert(queue_ids(s.queue).contains(tasks[i].id));
            let q = choose|q: int|
                0 <= q < queue_ids(s.queue).len() && queue_ids(s.queue)[q] == tasks[i].id;
            assert(queue_ids(t.queue)[q] == tasks[i].id);
        } else {
            assert(queue_ids(t.queue)[s.queue.len() as int] == task.id);
        }
    }
    assert forall|r: int| 0 <= r < t.running.len() implies t.holder(#[trigger] t.running[r]) by {
        let h = lemma_slot_task(s, r);
        assert(t.db.tasks[h].id == t.running[r]);
    }
    assert forall|i: int|
        0 <= i < t.db.tasks.len() && (#[trigger] t.db.tasks[i]).status
            == TaskStatus::Running implies t.running.contains(t.db.tasks[i].id) by {
        assert(i < n);
        assert(tasks[i].status == TaskStatus::Running);
    }
}

/// A cancellation keeps the invariant.
pub proof fn lemma_withdraw_slots(s: StateView, id: Seq<char>, now: i64)
    requires
        s.scheduling_ok(),
    ensures
        s.withdraw(id, now).scheduling_ok(),
{
    let t = s.withdraw(id, now);
    let tasks = s.db.tasks;
    let ids = task_ids(tasks);
    lemma_first_index(ids, id);
    lemma_first_index(queue_ids(s.queue), id);
    match first_index(queue_ids(s.queue), id) {
        Some(q) => {
            let i = lemma_queued_task(s, q);
            assert(queue_ids(s.queue)[q] == id);
            assert(s.queue[q].task_id == id);
            assert(s.cancel_target(id) == Some(i));
            s.queue.remove_ensures(q);
            assert(t.queue == s.queue.remove(q));
            assert(t.db.tasks == tasks.update(
                i,
                TaskView { status: TaskStatus::Cancelled, finished_at: Some(now), ..tasks[i] },
            ));
            assert(forall|k: int|
                0 <= k < tasks.len() ==> (#[trigger] t.db.tasks[k]).id == tasks[k].id);
            assert forall|a: int, b: int|
                0 <= a < t.db.tasks.len() && 0 <= b < t.db.tasks.len() && a != b && (
                #[trigger] t.db.tasks[a]).id == (#[trigger] t.db.tasks[b]).id implies t.db.tasks[a].status.is_terminal()
                && !t.running.contains(t.db.tasks[a].id) by {
                assert(tasks[a].id == tasks[b].id);
            }
            assert forall|k: int| 0 <= k < t.queue.len() implies t.backed(
                #[trigger] t.queue[k],
            ) by {
                let from = if k < q {
                    k
                } else {
                    k + 1
                };
                assert(t.queue[k] == s.queue[from]);
                let j = lemma_queued_task(s, from);
                if from < q {
                    assert(s.queue[from].task_id != s.queue[q].task_id);
                } else {
                    assert(s.queue[q].task_id != s.queue[from].task_id);
                }
                assert(j != i);
                assert(t.db.tasks[j].status == TaskStatus::Queued && t.db.tasks[j].descriptor()
                    == t.queue[k]);
            }
            assert forall|a: int, b: int| 0 <= a < b < t.queue.len() implies (
            #[trigger] t.queue[a]).task_id != (#[trigger] t.queue[b]).task_id by {
                let fa = if a < q {
                    a
                } else {
                    a + 1
                };
                let fb = if b < q {
                    b
                } else {
                    b + 1
                };
                assert(t.queue[a] == s.queue[fa]);
                assert(t.queue[b] == s.queue[fb]);
                assert(s.queue[fa].task_id != s.queue[fb].task_id);
            }
            assert forall|j: int|
                0 <= j < t.db.tasks.len() && (#[trigger] t.db.tasks[j]).status
                    == TaskStatus::Queued implies queue_ids(t.queue).contains(
                t.db.tasks[j].id,
            ) by {
                assert(j != i);
                assert(tasks[j].status == TaskStatus::Queued);
                assert(queue_ids(s.queue).contains(tasks[j].id));
                let p = choose|p: int|
                    0 <= p < queue_ids(s.queue).len() && queue_ids(s.queue)[p] == tasks[j].id;
                if p == q {
                    assert(tasks[j].id == tasks[i].id);
                }
                if p < q {
                    assert(t.queue[p] == s.queue[p]);
                    assert(queue_ids(t.queue)[p] == tasks[j].id);
                } else {
                    assert(t.queue[p - 1] == s.queue[p]);
                    assert(queue_ids(t.queue)[p - 1] == tasks[j].id);
                }
            }
            assert forall|r: int| 0 <= r < t.running.len() implies t.holder(
                #[trigger] t.running[r],
            ) by {
                let h = lemma_slot_task(s, r);
                assert(h != i);
                assert(t.db.tasks[h].id == t.running[r]);
            }
            assert forall|j: int|
                0 <= j < t.db.tasks.len() && (#[trigger] t.db.tasks[j]).status
                    == TaskStatus::Running implies t.running.contains(t.db.tasks[j].id) by {
                assert(j != i);
                assert(tasks[j].status == TaskStatus::Running);
            }
        },
        None => {
            assert(t.queue == s.queue);
            match first_index(ids, id) {
                Some(f) => {
                    if tasks[f].status.is_live() {
                        assert(ids[f] == id);
                        if tasks[f].status == TaskStatus::Queued {
                            assert(queue_ids(s.queue).contains(tasks[f].id));
                        }
                        assert(tasks[f].status == TaskStatus::Running);
                        assert(t.db.tasks == tasks.update(
                            f,
                            TaskView {
                                status: TaskStatus::Cancelled,
                                finished_at: Some(now),
                                ..tasks[f]
                            },
                        ));
                        assert(forall|k: int|
                            0 <= k < tasks.len() ==> (#[trigger] t.db.tasks[k]).id == tasks[k].id);
                        assert forall|a: int, b: int|
                            0 <= a < t.db.tasks.len() && 0 <= b < t.db.tasks.len() && a != b && (
                            #[trigger] t.db.tasks[a]).id == (
                            #[trigger] t.db.tasks[b]).id implies t.db.tasks[a].status.is_terminal()
                            && !t.running.contains(t.db.tasks[a].id) by {
                            assert(tasks[a].id == tasks[b].id);
                        }
                        assert forall|k: int| 0 <= k < t.queue.len() implies t.backed(
                            #[trigger] t.queue[k],
                        ) by {
                            let j = lemma_queued_task(s, k);
                            assert(j != f);
                            assert(t.db.tasks[j].status == TaskStatus::Queued
                                && t.db.tasks[j].descriptor() == t.queue[k]);
                        }
                        assert forall|j: int|
                            0 <= j < t.db.tasks.len() && (#[trigger] t.db.tasks[j]).status
                                == TaskStatus::Queued implies queue_ids(t.queue).contains(
                            t.db.tasks[j].id,
                        ) by {
                            assert(j != f);
                            assert(tasks[j].status == TaskStatus::Queued);
                        }
                        assert forall|r: int| 0 <= r < t.running.len() implies t.holder(
                            #[trigger] t.running[r],
                        ) by {
                            let h = lemma_slot_task(s, r);
                            assert(t.db.tasks[h].id == t.running[r]);
                        }
                        assert forall|j: int|
                            0 <= j < t.db.tasks.len() && (#[trigger] t.db.tasks[j]).status
                                == TaskStatus::Running implies t.running.contains(
                            t.db.tasks[j].id,
                        ) by {
                            assert(j != f);
                            assert(tasks[j].status == TaskStatus::Running);
                        }
                    } else {
                        assert(t == s);
                    }
                },
                None => {
                    assert(t == s);
                },
            }
        },
    }
}

/// The end of a process keeps the invariant.
pub proof fn lemma_release_slots(s: StateView, id: Seq<char>, exit_code: Option<i32>, now: i64)
    requires
        s.scheduling_ok(),
    ensures
        s.release(id, exit_code, now).scheduling_ok(),
{
    let t = s.release(id, exit_code, now);
    let tasks = s.db.tasks;
    lemma_first_index(s.running, id);
    match first_index(s.running, id) {
        None => {},
        Some(r) => {
            let i = lemma_slot_task(s, r);
            assert(s.running[r] == id);
            s.running.remove_ensures(r);
            let status = tasks[i].status.settled(exit_code);
            assert(t.running == s.running.remove(r));
            assert(t.db.tasks == tasks.update(
                i,
                TaskView { status, finished_at: Some(now), exit_code, ..tasks[i] },
            ));
            assert(forall|k: int|
                0 <= k < tasks.len() ==> (#[trigger] t.db.tasks[k]).id == tasks[k].id);
            assert forall|x: Seq<char>| t.running.contains(x) implies s.running.contains(x) by {
                let p = choose|p: int| 0 <= p < t.running.len() && t.running[p] == x;
                let from = if p < r {
                    p
                } else {
                    p + 1
                };
                assert(s.running[from] == x);
            }
            assert forall|a: int, b: int|
                0 <= a < t.db.tasks.len() && 0 <= b < t.db.tasks.len() && a != b && (
                #[trigger] t.db.tasks[a]).id == (#[trigger] t.db.tasks[b]).id implies t.db.tasks[a].status.is_terminal()
                && !t.running.contains(t.db.tasks[a].id) by {
                assert(tasks[a].id == tasks[b].id);
                assert(!s.running.contains(tasks[a].id));
            }
            assert forall|k: int| 0 <= k < t.queue.len() implies t.backed(
                #[trigger] t.queue[k],
            ) by {
                let j = lemma_queued_task(s, k);
                assert(j != i);
                assert(t.db.tasks[j].status == TaskStatus::Queued && t.db.tasks[j].descriptor()
                    == t.queue[k]);
            }
            assert forall|j: int|
                0 <= j < t.db.tasks.len() && (#[trigger] t.db.tasks[j]).status
                    == TaskStatus::Queued implies queue_ids(t.queue).contains(
                t.db.tasks[j].id,
            ) by {
                assert(j != i);
                assert(tasks[j].status == TaskStatus::Queued);
            }
            assert forall|a: int, b: int| 0 <= a < b < t.running.len() implies #[trigger] t.running[a]
                != #[trigger] t.running[b] by {
                let fa = if a < r {
                    a
                } else {
                    a + 1
                };
                let fb = if b < r {
                    b
                } else {
                    b + 1
                };
                assert(t.running[a] == s.running[fa]);
                assert(t.running[b] == s.running[fb]);
            }
            assert forall|p: int| 0 <= p < t.running.len() implies t.holder(
                #[trigger] t.running[p],
            ) by {
                let from = if p < r {
                    p
                } else {
                    p + 1
                };
                assert(t.running[p] == s.running[from]);
                let h = lemma_slot_task(s, from);
                if from < r {
                    assert(s.running[from] != s.running[r]);
                } else {
                    assert(s.running[r] != s.running[from]);
                }
                assert(h != i);
                assert(t.db.tasks[h].id == t.running[p]);
            }
            assert forall|j: int|
                0 <= j < t.db.tasks.len() && (#[trigger] t.db.tasks[j]).status
                    == TaskStatus::Running implies t.running.contains(t.db.tasks[j].id) by {
                assert(status.is_terminal());
                assert(j != i);
                assert(tasks[j].status == TaskStatus::Running);
                assert(s.running.contains(tasks[j].id));
                let p = choose|p: int| 0 <= p < s.running.len() && s.running[p] == tasks[j].id;
                assert(p != r);
                if p < r {
                    assert(t.running[p] == tasks[j].id);
                } else {
                    assert(t.running[p - 1] == tasks[j].id);
                }
            }
        },
    }
}

/// The initial state meets the invariant, and so does the state that any
/// snapshot is taken up in; in the latter no task waits or runs.
pub proof fn lemma_start_slots(db: DbView, now: i64)
    ensures
        StateView::initial().scheduling_ok(),
        StateView::restored(db, now).scheduling_ok(),
        forall|i: int|
            0 <= i < db.tasks.len() ==> (#[trigger] StateView::restored(
                db,
                now,
            ).db.tasks[i]).status.is_terminal(),
{
    let t = StateView::restored(db, now);
    assert forall|i: int| 0 <= i < db.tasks.len() implies (#[trigger] t.db.tasks[i]).status.is_terminal() by {
        let before = db.tasks[i].status;
        assert(before.is_terminal() || before.reconciled().is_terminal());
    }
}

/// A state that differs from one that meets the invariant in neither
/// tasks, queue nor slots meets it too.
pub proof fn lemma_store_only_slots(s: StateView, t: StateView)
    requires
        s.scheduling_ok(),
        t.db.tasks == s.db.tasks,
        t.queue == s.queue,
        t.running == s.running,
    ensures
        t.scheduling_ok(),
{
    assert forall|q: int| 0 <= q < t.queue.len() implies t.backed(#[trigger] t.queue[q]) by {
        let i = lemma_queued_task(s, q);
    }
    assert forall|r: int| 0 <= r < t.running.len() implies t.holder(#[trigger] t.running[r]) by {
        let h = lemma_slot_task(s, r);
    }
}


/// Giving a thread a status changes neither which threads there are nor
/// what they belong to; and it changes the status of one thread at most,
/// the first with the identifier.
pub proof fn lemma_set_thread_status(
    threads: Seq<ThreadView>,
    id: Seq<char>,
    status: TaskStatus,
    now: i64,
)
    ensures
        set_thread_status(threads, id, status, now).len() == threads.len(),
        thread_ids(set_thread_status(threads, id, status, now)) == thread_ids(threads),
        forall|j: int|
            0 <= j < threads.len() ==> {
                let after = #[trigger] set_thread_status(threads, id, status, now)[j];
                &&& after.id == threads[j].id
                &&& after.project_id == threads[j].project_id
                &&& after == threads[j] || (after.id == id && after.status == status)
                &&& distinct(thread_ids(threads)) && threads[j].id == id ==> after.status
                    == status
            },
{
    let after = set_thread_status(threads, id, status, now);
    let ids = thread_ids(threads);
    lemma_first_index(ids, id);
    assert(thread_ids(after) =~= ids);
    assert forall|j: int| 0 <= j < threads.len() implies {
        let a = #[trigger] after[j];
        distinct(ids) && threads[j].id == id ==> a.status == status
    } by {
        if distinct(ids) && threads[j].id == id {
            assert(ids[j] == id);
            let f = first_index(ids, id)->0;
            assert(ids[f] == id);
            if f < j {
                assert(ids[f] != ids[j]);
            }
            if j < f {
                assert(ids[j] != ids[f]);
            }
        }
    }
}

/// Where one task takes on a status and its thread is given the same, and
/// no other task changes its status or its thread, the threads still
/// follow their tasks and the records still belong together. The task may
/// be a new one at the end of the list, of a thread that is stored.
pub proof fn lemma_thread_follows_task(s: StateView, t: StateView, c: int, now: i64)
    requires
        linked(s.db),
        s.threads_follow(),
        t.db.projects == s.db.projects,
        0 <= c < t.db.tasks.len(),
        t.db.tasks.len() == s.db.tasks.len() || (t.db.tasks.len() == s.db.tasks.len() + 1 && c
            == s.db.tasks.len()),
        forall|i: int|
            0 <= i < s.db.tasks.len() ==> (#[trigger] t.db.tasks[i]).thread_id
                == s.db.tasks[i].thread_id,
        forall|i: int|
            0 <= i < s.db.tasks.len() && i != c ==> (#[trigger] t.db.tasks[i]).status
                == s.db.tasks[i].status,
        thread_ids(s.db.threads).contains(t.db.tasks[c].thread_id),
        t.db.threads == set_thread_status(
            s.db.threads,
            t.db.tasks[c].thread_id,
            t.db.tasks[c].status,
            now,
        ),
    ensures
        linked(t.db),
        t.threads_follow(),
{
    let thread_id = t.db.tasks[c].thread_id;
    let status = t.db.tasks[c].status;
    lemma_set_thread_status(s.db.threads, thread_id, status, now);
    assert forall|j: int| 0 <= j < t.db.threads.len() implies project_ids(t.db.projects).contains(
        (#[trigger] t.db.threads[j]).project_id,
    ) by {
        assert(t.db.threads[j].project_id == s.db.threads[j].project_id);
    }
    assert forall|i: int| 0 <= i < t.db.tasks.len() implies thread_ids(t.db.threads).contains(
        (#[trigger] t.db.tasks[i]).thread_id,
    ) by {
        if i < s.db.tasks.len() {
            assert(thread_ids(s.db.threads).contains(s.db.tasks[i].thread_id));
        }
    }
    assert forall|j: int|
        0 <= j < t.db.threads.len() && (#[trigger] t.db.threads[j]).status.is_live() implies shown_by(
        t.db.tasks,
        t.db.threads[j],
    ) by {
        let after = t.db.threads[j];
        if s.db.threads[j].id == thread_id {
            assert(after.status == status);
            assert(t.db.tasks[c].thread_id == after.id && t.db.tasks[c].status == after.status);
        } else {
            assert(after == s.db.threads[j]);
            assert(shown_by(s.db.tasks, s.db.threads[j]));
            let w = choose|w: int|
                0 <= w < s.db.tasks.len() && (#[trigger] s.db.tasks[w]).thread_id
                    == s.db.threads[j].id && s.db.tasks[w].status == s.db.threads[j].status;
            assert(t.db.tasks[w].thread_id == s.db.tasks[w].thread_id);
            assert(w != c);
            assert(t.db.tasks[w].thread_id == after.id && t.db.tasks[w].status == after.status);
        }
    }
}

/// A state that differs from one that meets the invariant in neither
/// tasks, threads, projects, queue nor slots meets it too.
pub proof fn lemma_store_only(s: StateView, t: StateView)
    requires
        s.wf(),
        t.db.tasks == s.db.tasks,
        t.db.threads == s.db.threads,
        t.db.projects == s.db.projects,
        t.queue == s.queue,
        t.running == s.running,
    ensures
        t.wf(),
{
    lemma_store_only_slots(s, t);
}

/// Neither another cap nor one more log line touches the invariant.
pub proof fn lemma_settings_and_logs_wf(
    s: StateView,
    value: usize,
    task_id: Seq<char>,
    stream: LogStream,
    line: Seq<char>,
    now: i64,
)
    requires
        s.wf(),
    ensures
        s.with_cap(value).wf(),
        s.append_log(task_id, stream, line, now).wf(),
{
    lemma_store_only(s, s.with_cap(value));
    lemma_store_only(s, s.append_log(task_id, stream, line, now));
}

/// The initial state meets the invariant, and so does the state that a
/// snapshot is taken up in whose records belong together; in the latter no
/// task and no thread waits or runs.
pub proof fn lemma_start_wf(db: DbView, now: i64)
    ensures
        StateView::initial().wf(),
        snapshot_error(db) is None <==> linked(db),
        linked(db) ==> StateView::restored(db, now).wf(),
        forall|i: int|
            0 <= i < db.tasks.len() ==> (#[trigger] StateView::restored(
                db,
                now,
            ).db.tasks[i]).status.is_terminal(),
        forall|j: int|
            0 <= j < db.threads.len() ==> !(#[trigger] StateView::restored(
                db,
                now,
            ).db.threads[j]).status.is_live(),
{
    lemma_start_slots(db, now);
    let t = StateView::restored(db, now);
    assert(thread_ids(t.db.threads) =~= thread_ids(db.threads));
    assert forall|j: int| 0 <= j < db.threads.len() implies !(#[trigger] t.db.threads[j]).status.is_live() by {
        let before = db.threads[j].status;
        assert(!before.is_live() || !before.reconciled().is_live());
    }
    if linked(db) {
        assert forall|j: int| 0 <= j < t.db.threads.len() implies project_ids(
            t.db.projects,
        ).contains((#[trigger] t.db.threads[j]).project_id) by {
            assert(t.db.threads[j].project_id == db.threads[j].project_id);
        }
        assert forall|i: int| 0 <= i < t.db.tasks.len() implies thread_ids(t.db.threads).contains(
            (#[trigger] t.db.tasks[i]).thread_id,
        ) by {
            assert(t.db.tasks[i].thread_id == db.tasks[i].thread_id);
        }
    }
}

/// Admitting the head of the queue keeps the invariant.
pub proof fn lemma_admit_one_wf(s: StateView, now: i64)
    requires
        s.wf(),
        s.queue.len() > 0,
    ensures
        s.admit_one(now).wf(),
{
    let t = s.admit_one(now);
    let i0 = lemma_queued_task(s, 0);
    lemma_admit_one_slots(s, now);
    assert(thread_ids(s.db.threads).contains(s.db.tasks[i0].thread_id));
    lemma_thread_follows_task(s, t, i0, now);
}

/// Storing and queueing a new task of a stored thread keeps the invariant,
/// and the identifier of the new task is not in use.
pub proof fn lemma_enqueue_wf(
    s: StateView,
    thread_id: Seq<char>,
    command: Seq<char>,
    cwd: Seq<char>,
    shell: Option<Seq<char>>,
    now: i64,
)
    requires
        s.wf(),
        s.db.tasks.len() < 0x1_0000_0000_0000_0000,
        thread_ids(s.db.threads).contains(thread_id),
    ensures
        s.enqueue(thread_id, command, cwd, shell, now).wf(),
        !task_ids(s.db.tasks).contains(s.new_task(thread_id, command, cwd, shell, now).id),
{
    let t = s.enqueue(thread_id, command, cwd, shell, now);
    lemma_enqueue_slots(s, thread_id, command, cwd, shell, now);
    assert(forall|i: int|
        0 <= i < s.db.tasks.len() ==> #[trigger] t.db.tasks[i] == s.db.tasks[i]);
    lemma_thread_follows_task(s, t, s.db.tasks.len() as int, now);
}

/// A cancellation keeps the invariant.
pub proof fn lemma_withdraw_wf(s: StateView, id: Seq<char>, now: i64)
    requires
        s.wf(),
    ensures
        s.withdraw(id, now).wf(),
{
    let t = s.withdraw(id, now);
    lemma_withdraw_slots(s, id, now);
    match s.cancel_target(id) {
        Some(c) => {
            assert(thread_ids(s.db.threads).contains(s.db.tasks[c].thread_id));
            lemma_thread_follows_task(s, t, c, now);
        },
        None => {},
    }
}

/// The end of a process keeps the invariant.
pub proof fn lemma_release_wf(s: StateView, id: Seq<char>, exit_code: Option<i32>, now: i64)
    requires
        s.wf(),
    ensures
        s.release(id, exit_code, now).wf(),
{
    let t = s.release(id, exit_code, now);
    lemma_release_slots(s, id, exit_code, now);
    lemma_first_index(s.running, id);
    match first_index(s.running, id) {
        None => {},
        Some(r) => {
            let c = lemma_slot_task(s, r);
            assert(thread_ids(s.db.threads).contains(s.db.tasks[c].thread_id));
            assert(t.db.tasks[c].status.is_terminal());
            lemma_thread_follows_task(s, t, c, now);
        },
    }
}

/// Opening a workspace, stamping a project, creating a thread under a
/// stored project and adding a message keep the invariant.
pub proof fn lemma_store_wf(
    s: StateView,
    key: Seq<char>,
    name: Seq<char>,
    other: Option<Seq<char>>,
    dir_name: Option<Seq<char>>,
    content: Seq<char>,
    now: i64,
)
    requires
        s.wf(),
        s.db.projects.len() < 0x1_0000_0000_0000_0000,
        s.db.threads.len() < 0x1_0000_0000_0000_0000,
    ensures
        s.open_project(key, other, dir_name, now).wf(),
        s.touch_project(key, now).wf(),
        project_ids(s.db.projects).contains(key) ==> s.add_thread(key, name, other, now).wf(),
        s.add_message(key, name, content, now).wf(),
        !thread_ids(s.db.threads).contains(s.new_thread(key, name, other, now).id),
{
    // projects
    let p = s.open_project(key, other, dir_name, now);
    let ids = project_ids(s.db.projects);
    lemma_fresh_seq(ids, "proj"@, now as int, s.next_seq);
    lemma_store_only_slots(s, p);
    assert forall|a: int, b: int| 0 <= a < b < p.db.projects.len() implies #[trigger] project_ids(
        p.db.projects,
    )[a] != #[trigger] project_ids(p.db.projects)[b] by {
        if b < ids.len() {
            assert(ids[a] != ids[b]);
            assert(p.db.projects[a].id == s.db.projects[a].id);
            assert(p.db.projects[b].id == s.db.projects[b].id);
        } else {
            assert(ids[a] == s.db.projects[a].id);
            assert(p.db.projects[a].id == s.db.projects[a].id);
        }
    }
    assert forall|j: int| 0 <= j < p.db.threads.len() implies project_ids(p.db.projects).contains(
        (#[trigger] p.db.threads[j]).project_id,
    ) by {
        let at = choose|at: int| 0 <= at < ids.len() && ids[at] == s.db.threads[j].project_id;
        assert(ids.contains(s.db.threads[j].project_id));
        assert(project_ids(p.db.projects)[at] == p.db.projects[at].id);
        assert(p.db.projects[at].id == s.db.projects[at].id);
    }
    let q = s.touch_project(key, now);
    lemma_store_only_slots(s, q);
    assert(project_ids(q.db.projects) =~= ids);
    // threads
    let tids = thread_ids(s.db.threads);
    lemma_fresh_seq(tids, "thread"@, now as int, s.next_seq);
    if ids.contains(key) {
        let u = s.add_thread(key, name, other, now);
        let thread = s.new_thread(key, name, other, now);
        lemma_store_only_slots(s, u);
        assert forall|a: int, b: int| 0 <= a < b < u.db.threads.len() implies #[trigger] thread_ids(
            u.db.threads,
        )[a] != #[trigger] thread_ids(u.db.threads)[b] by {
            if b < tids.len() {
                assert(tids[a] != tids[b]);
            } else {
                assert(tids[a] == s.db.threads[a].id);
            }
        }
        assert forall|j: int| 0 <= j < u.db.threads.len() implies project_ids(
            u.db.projects,
        ).contains((#[trigger] u.db.threads[j]).project_id) by {
            if j < tids.len() {
                assert(u.db.threads[j] == s.db.threads[j]);
            }
        }
        assert forall|i: int| 0 <= i < u.db.tasks.len() implies thread_ids(u.db.threads).contains(
            (#[trigger] u.db.tasks[i]).thread_id,
        ) by {
            assert(tids.contains(s.db.tasks[i].thread_id));
            let at = choose|at: int| 0 <= at < tids.len() && tids[at] == s.db.tasks[i].thread_id;
            assert(thread_ids(u.db.threads)[at] == tids[at]);
        }
        assert forall|j: int|
            0 <= j < u.db.threads.len() && (#[trigger] u.db.threads[j]).status.is_live() implies shown_by(
            u.db.tasks,
            u.db.threads[j],
        ) by {
            assert(j < tids.len());
            assert(u.db.threads[j] == s.db.threads[j]);
            assert(shown_by(s.db.tasks, s.db.threads[j]));
        }
    }
    // messages
    let m = s.add_message(key, name, content, now);
    lemma_store_only_slots(s, m);
    lemma_first_index(tids, key);
    assert(thread_ids(m.db.threads) =~= tids);
    assert forall|j: int| 0 <= j < m.db.threads.len() implies project_ids(m.db.projects).contains(
        (#[trigger] m.db.threads[j]).project_id,
    ) by {
        assert(m.db.threads[j].project_id == s.db.threads[j].project_id);
    }
    assert forall|j: int|
        0 <= j < m.db.threads.len() && (#[trigger] m.db.threads[j]).status.is_live() implies shown_by(
        m.db.tasks,
        m.db.threads[j],
    ) by {
        assert(m.db.threads[j].status == s.db.threads[j].status);
        assert(m.db.threads[j].id == s.db.threads[j].id);
        assert(shown_by(s.db.tasks, s.db.threads[j]));
    }
}

} // verus!
