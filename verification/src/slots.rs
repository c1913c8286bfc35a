//! The table of occupied slots: the identifiers of the tasks for which a
//! process was started, or is about to be, and has not ended.

use crate::lookup::{find_first, keys_of};
use crate::model::{first_index, registered, unregistered};
use crate::records::views;
use vstd::prelude::*;

verus! {

/// The identifiers of the tasks that hold a slot, in the order in which
/// they were admitted. The table is a list in which no identifier occurs
/// twice; a task is looked up by going through it, which takes as many
/// steps as slots are taken, and these are few.
pub struct RunningTable {
    ids: Vec<String>,
}

impl View for RunningTable {
    type V = Seq<Seq<char>>;

    closed spec fn view(&self) -> Seq<Seq<char>> {
        views(self.ids@)
    }
}

impl RunningTable {
    pub fn new() -> (table: Self)
        ensures
            table@ == Seq::<Seq<char>>::empty(),
    {
        let table = RunningTable { ids: Vec::new() };
        assert(table@ =~= Seq::<Seq<char>>::empty());
        table
    }

    /// The number of occupied slots.
    pub fn count(&self) -> (n: usize)
        ensures
            n == self@.len(),
    {
        self.ids.len()
    }

    /// Whether the task holds a slot.
    pub fn lookup(&self, task_id: &str) -> (r: bool)
        ensures
            r == self@.contains(task_id@),
            r == (first_index(self@, task_id@) is Some),
    {
        let key = task_id.to_owned();
        assert(keys_of(self.ids@) =~= self@);
        find_first(&self.ids, &key).is_some()
    }

    /// Gives the task a slot. A task that holds one keeps it and gets no
    /// second one.
    pub fn register(&mut self, task_id: String)
        ensures
            final(self)@ == registered(old(self)@, task_id@),
    {
        assert(keys_of(self.ids@) =~= self@);
        if find_first(&self.ids, &task_id).is_none() {
            self.ids.push(task_id);
            assert(self@ =~= old(self)@.push(task_id@));
        }
    }

    /// Takes the slot from the task. Says whether it held one; where it
    /// held none, nothing changes.
    pub fn unregister(&mut self, task_id: &str) -> (found: bool)
        ensures
            final(self)@ == unregistered(old(self)@, task_id@),
            found == old(self)@.contains(task_id@),
            found == (first_index(old(self)@, task_id@) is Some),
    {
        let key = task_id.to_owned();
        assert(keys_of(self.ids@) =~= self@);
        match find_first(&self.ids, &key) {
            Some(r) => {
                self.ids.remove(r);
                assert(self@ =~= old(self)@.remove(r as int));
                true
            },
            None => false,
        }
    }
}

} // verus!
