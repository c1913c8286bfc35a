//! Finding a record by a text that it carries.

use crate::ids::{id_text, next_id};
use crate::model::{
    distinct, first_index, fresh_seq, lemma_first_index, lemma_first_index_absent,
    lemma_first_index_found, next_seq_after,
};
use crate::records::{ProjectRecord, TaskLogRecord, TaskRecord, ThreadMessage, ThreadRecord};
use crate::upkeep::lemma_fresh_seq;
use vstd::prelude::*;

verus! {

/// A record that is found by a text.
pub trait Keyed {
    spec fn key_text(&self) -> Seq<char>;

    fn key(&self) -> (k: &String)
        ensures
            k@ == self.key_text(),
    ;
}

impl Keyed for TaskRecord {
    open spec fn key_text(&self) -> Seq<char> {
        self.id@
    }

    fn key(&self) -> (k: &String) {
        &self.id
    }
}

impl Keyed for ThreadRecord {
    open spec fn key_text(&self) -> Seq<char> {
        self.id@
    }

    fn key(&self) -> (k: &String) {
        &self.id
    }
}

impl Keyed for ProjectRecord {
    open spec fn key_text(&self) -> Seq<char> {
        self.id@
    }

    fn key(&self) -> (k: &String) {
        &self.id
    }
}

impl Keyed for ThreadMessage {
    open spec fn key_text(&self) -> Seq<char> {
        self.id@
    }

    fn key(&self) -> (k: &String) {
        &self.id
    }
}

impl Keyed for TaskLogRecord {
    open spec fn key_text(&self) -> Seq<char> {
        self.id@
    }

    fn key(&self) -> (k: &String) {
        &self.id
    }
}

impl Keyed for String {
    open spec fn key_text(&self) -> Seq<char> {
        self@
    }

    fn key(&self) -> (k: &String) {
        self
    }
}

/// The keys of a sequence of records, in the same order.
pub open spec fn keys_of<T: Keyed>(s: Seq<T>) -> Seq<Seq<char>> {
    Seq::new(s.len(), |i: int| s[i].key_text())
}

/// The position of the first record with the given key.
pub fn find_first<T: Keyed>(records: &Vec<T>, key: &String) -> (r: Option<usize>)
    ensures
        match r {
            Some(i) => first_index(keys_of(records@), key@) == Some(i as int) && i < records.len()
                && keys_of(records@)[i as int] == key@,
            None => first_index(keys_of(records@), key@) is None,
        },
        r is Some <==> keys_of(records@).contains(key@),
{
    let mut i: usize = 0;
    while i < records.len()
        invariant
            i <= records.len(),
            forall|k: int| 0 <= k < i ==> #[trigger] keys_of(records@)[k] != key@,
        decreases records.len() - i,
    {
        if *records[i].key() == *key {
            proof {
                assert(keys_of(records@)[i as int] == key@);
                lemma_first_index_found(keys_of(records@), i as int, key@);
            }
            return Some(i);
        }
        i += 1;
    }
    proof {
        lemma_first_index_absent(keys_of(records@), key@);
    }
    None
}


/// Whether no two records have the same key.
pub fn all_distinct<T: Keyed>(records: &Vec<T>) -> (r: bool)
    ensures
        r == distinct(keys_of(records@)),
{
    let ghost keys = keys_of(records@);
    let mut b: usize = 0;
    while b < records.len()
        invariant
            b <= records.len(),
            keys == keys_of(records@),
            forall|x: int, y: int| 0 <= x < y < b ==> #[trigger] keys[x] != #[trigger] keys[y],
        decreases records.len() - b,
    {
        proof {
            lemma_first_index(keys, keys[b as int]);
        }
        match find_first(records, records[b].key()) {
            Some(f) => {
                if f != b {
                    assert(keys[f as int] == keys[b as int]);
                    return false;
                }
            },
            None => {
                assert(keys[b as int] == keys[b as int]);
                return false;
            },
        }
        b += 1;
    }
    true
}

/// The identifier for a new record: the first one, counting on from the
/// next sequence number, that none of the stored records has. The sequence
/// number moves past the one that was used.
pub fn fresh_id<T: Keyed>(records: &Vec<T>, prefix: &str, now: i64, seq: &mut u64) -> (id: String)
    ensures
        id@ == id_text(
            prefix@,
            now as int,
            fresh_seq(keys_of(records@), prefix@, now as int, *old(seq), records@.len()) as nat,
        ),
        *final(seq) == next_seq_after(
            fresh_seq(keys_of(records@), prefix@, now as int, *old(seq), records@.len()),
        ),
        !keys_of(records@).contains(id@),
{
    let mut tries: usize = records.len();
    proof {
        lemma_fresh_seq(keys_of(records@), prefix@, now as int, *old(seq));
    }
    loop
        invariant
            fresh_seq(keys_of(records@), prefix@, now as int, *seq, tries as nat) == fresh_seq(
                keys_of(records@),
                prefix@,
                now as int,
                *old(seq),
                records@.len(),
            ),
            !keys_of(records@).contains(
                id_text(
                    prefix@,
                    now as int,
                    fresh_seq(keys_of(records@), prefix@, now as int, *old(seq), records@.len())
                        as nat,
                ),
            ),
        decreases tries,
    {
        let id = next_id(prefix, now, seq);
        if tries == 0 {
            return id;
        }
        match find_first(records, &id) {
            None => {
                return id;
            },
            Some(_) => {
                tries -= 1;
            },
        }
    }
}

} // verus!
