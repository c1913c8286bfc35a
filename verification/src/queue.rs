//! The job queue: the tasks that wait, first come first served. It has no
//! bound and turns nothing away.

use crate::model::{first_index, lemma_first_index_absent, lemma_first_index_found, queue_ids};
use crate::records::{views, QueuedTask, QueuedView};
use std::collections::VecDeque;
use vstd::prelude::*;

verus! {

/// The tasks that wait, in the order in which they were submitted.
pub struct JobQueue {
    items: VecDeque<QueuedTask>,
}

impl View for JobQueue {
    type V = Seq<QueuedView>;

    closed spec fn view(&self) -> Seq<QueuedView> {
        views(self.items@)
    }
}

impl JobQueue {
    pub fn new() -> (queue: Self)
        ensures
            queue@ == Seq::<QueuedView>::empty(),
    {
        let queue = JobQueue { items: VecDeque::new() };
        assert(queue@ =~= Seq::<QueuedView>::empty());
        queue
    }

    pub fn len(&self) -> (n: usize)
        ensures
            n == self@.len(),
    {
        self.items.len()
    }

    pub fn is_empty(&self) -> (r: bool)
        ensures
            r == (self@.len() == 0),
    {
        self.items.len() == 0
    }

    /// Appends a task at the tail.
    pub fn enqueue(&mut self, task: QueuedTask)
        ensures
            final(self)@ == old(self)@.push(task@),
    {
        self.items.push_back(task);
        assert(self@ =~= old(self)@.push(task@));
    }

    /// Removes the task at the head and hands it back; nothing where the
    /// queue is empty.
    pub fn dequeue(&mut self) -> (head: Option<QueuedTask>)
        ensures
            match head {
                Some(task) => old(self)@.len() > 0 && task@ == old(self)@[0] && final(self)@ == old(
                    self,
                )@.drop_first(),
                None => old(self)@.len() == 0 && final(self)@ == old(self)@,
            },
    {
        let head = self.items.pop_front();
        assert(head is Some ==> self@ =~= old(self)@.drop_first());
        head
    }

    /// The position of the first entry for the given task.
    fn position(&self, task_id: &String) -> (r: Option<usize>)
        ensures
            match r {
                Some(i) => first_index(queue_ids(self@), task_id@) == Some(i as int) && i
                    < self.items.len(),
                None => first_index(queue_ids(self@), task_id@) is None,
            },
            r is Some <==> queue_ids(self@).contains(task_id@),
    {
        let mut i: usize = 0;
        while i < self.items.len()
            invariant
                i <= self.items.len(),
                forall|k: int| 0 <= k < i ==> #[trigger] queue_ids(self@)[k] != task_id@,
            decreases self.items.len() - i,
        {
            if self.items[i].task_id == *task_id {
                proof {
                    assert(queue_ids(self@)[i as int] == task_id@);
                    lemma_first_index_found(queue_ids(self@), i as int, task_id@);
                }
                return Some(i);
            }
            i += 1;
        }
        proof {
            lemma_first_index_absent(queue_ids(self@), task_id@);
        }
        None
    }

    /// Whether the task waits in the queue.
    pub fn contains(&self, task_id: &str) -> (r: bool)
        ensures
            r == queue_ids(self@).contains(task_id@),
    {
        let key = task_id.to_owned();
        self.position(&key).is_some()
    }

    /// Removes the first entry for the given task and hands it back;
    /// nothing where the task does not wait.
    pub fn remove(&mut self, task_id: &str) -> (removed: Option<QueuedTask>)
        ensures
            match first_index(queue_ids(old(self)@), task_id@) {
                Some(q) => removed is Some && removed->0@ == old(self)@[q] && final(self)@ == old(
                    self,
                )@.remove(q),
                None => removed is None && final(self)@ == old(self)@,
            },
            removed is Some <==> queue_ids(old(self)@).contains(task_id@),
    {
        let key = task_id.to_owned();
        match self.position(&key) {
            Some(q) => {
                let removed = self.items.remove(q);
                assert(self@ =~= old(self)@.remove(q as int));
                removed
            },
            None => None,
        }
    }
}

} // verus!
