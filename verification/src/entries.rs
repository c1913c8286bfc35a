//! The entries of a workspace directory, and the order they are shown in:
//! directories first, then by name without regard to case.

use crate::listing::{lists, positions};
use crate::records::views;
use crate::text::{chars_of, lowercase_text, text_from};
use vstd::prelude::*;

verus! {

/// One entry of a directory inside a workspace.
#[derive(Debug, PartialEq, Eq)]
pub struct WorkspaceEntry {
    pub name: String,
    /// The path from the workspace root, with forward slashes.
    pub relative_path: String,
    pub is_dir: bool,
    /// The size of a file; zero for anything else.
    pub size: u64,
}

pub struct EntryView {
    pub name: Seq<char>,
    pub relative_path: Seq<char>,
    pub is_dir: bool,
    pub size: u64,
}

impl View for WorkspaceEntry {
    type V = EntryView;

    open spec fn view(&self) -> EntryView {
        EntryView {
            name: self.name@,
            relative_path: self.relative_path@,
            is_dir: self.is_dir,
            size: self.size,
        }
    }
}

impl Clone for WorkspaceEntry {
    fn clone(&self) -> (r: Self)
        ensures
            r == *self,
    {
        WorkspaceEntry {
            name: self.name.clone(),
            relative_path: self.relative_path.clone(),
            is_dir: self.is_dir,
            size: self.size,
        }
    }
}

/// A path with every backslash turned into a forward slash.
pub open spec fn forward_slashes(path: Seq<char>) -> Seq<char> {
    Seq::new(
        path.len(),
        |i: int|
            if path[i] == '\\' {
                '/'
            } else {
                path[i]
            },
    )
}

/// The entry for what was found in a directory.
pub fn workspace_entry(name: String, relative_path: &str, is_dir: bool, is_file: bool, len: u64)
    -> (entry: WorkspaceEntry)
    ensures
        entry@ == (EntryView {
            name: name@,
            relative_path: forward_slashes(relative_path@),
            is_dir,
            size: if is_file {
                len
            } else {
                0
            },
        }),
{
    let chars = chars_of(relative_path);
    let mut turned: Vec<char> = Vec::new();
    let mut i: usize = 0;
    while i < chars.len()
        invariant
            i <= chars@.len(),
            chars@ == relative_path@,
            turned@ == forward_slashes(chars@).take(i as int),
        decreases chars@.len() - i,
    {
        let c = chars[i];
        turned.push(
            if c == '\\' {
                '/'
            } else {
                c
            },
        );
        assert(turned@ =~= forward_slashes(chars@).take(i + 1));
        i += 1;
    }
    let path = text_from(&turned, 0, turned.len());
    assert(path@ =~= forward_slashes(relative_path@));
    WorkspaceEntry {
        name,
        relative_path: path,
        is_dir,
        size: if is_file {
            len
        } else {
            0
        },
    }
}

/// Whether text `a` comes before text `b` in the dictionary, looking only
/// at the characters from position `i` on: at the first position where
/// they differ `a` has the smaller character, or `a` ends there and `b`
/// does not.
pub open spec fn text_before_from(a: Seq<char>, b: Seq<char>, i: int) -> bool
    decreases a.len() - i,
{
    if i < 0 || i >= b.len() {
        false
    } else if i >= a.len() {
        true
    } else if a[i] != b[i] {
        (a[i] as u32) < (b[i] as u32)
    } else {
        text_before_from(a, b, i + 1)
    }
}

/// Whether text `a` comes before text `b` in the dictionary.
pub open spec fn text_before(a: Seq<char>, b: Seq<char>) -> bool {
    text_before_from(a, b, 0)
}

/// What an entry is ordered by: whether it is a directory, and its name in
/// lower case.
pub struct EntryKey {
    pub is_dir: bool,
    pub name: Seq<char>,
}

/// The key of an entry.
pub open spec fn key_of(entry: EntryView) -> EntryKey {
    EntryKey { is_dir: entry.is_dir, name: lowercase_text(entry.name) }
}

/// Whether the entry with key `a` is shown before that with key `b`
/// whatever their places: a directory before anything else, and among
/// directories, as among the rest, the name that comes first in the
/// dictionary.
pub open spec fn key_before(a: EntryKey, b: EntryKey) -> bool {
    (a.is_dir && !b.is_dir) || (a.is_dir == b.is_dir && text_before(a.name, b.name))
}

/// Whether the entry at place `ia` is shown before the entry at place
/// `ib`: entries that their keys do not tell apart keep their order.
pub open spec fn key_precedes(a: EntryKey, ia: int, b: EntryKey, ib: int) -> bool {
    key_before(a, b) || (!key_before(b, a) && ia < ib)
}

/// Characters with the same code are the same character.
proof fn lemma_char_code(c: char, d: char)
    ensures
        c as u32 == d as u32 ==> c == d,
{
}

proof fn lemma_text_order(a: Seq<char>, b: Seq<char>, c: Seq<char>, i: int)
    requires
        0 <= i,
    ensures
        !(text_before_from(a, b, i) && text_before_from(b, a, i)),
        text_before_from(a, b, i) && text_before_from(b, c, i) ==> text_before_from(a, c, i),
        !text_before_from(a, b, i) && !text_before_from(b, a, i) ==> a.len() == b.len() || (i
            >= a.len() && i >= b.len()),
        !text_before_from(a, b, i) && !text_before_from(b, a, i) ==> forall|k: int|
            i <= k < a.len() && k < b.len() ==> a[k] == b[k],
    decreases a.len() - i,
{
    if i < a.len() && i < b.len() {
        lemma_text_order(a, b, c, i + 1);
        lemma_char_code(a[i], b[i]);
        if i < c.len() {
            lemma_char_code(b[i], c[i]);
            lemma_char_code(a[i], c[i]);
        }
    }
}

/// The order of keys is a strict order that tells apart any two keys that
/// differ.
pub proof fn lemma_key_order(a: EntryKey, b: EntryKey, c: EntryKey)
    ensures
        !(key_before(a, b) && key_before(b, a)),
        key_before(a, b) && key_before(b, c) ==> key_before(a, c),
        !key_before(a, b) && !key_before(b, a) ==> a == b,
{
    lemma_text_order(a.name, b.name, c.name, 0);
    if !key_before(a, b) && !key_before(b, a) {
        assert(a.name =~= b.name);
    }
}

/// Whether `order` lists every place of `keys` once, as the entries are
/// shown.
pub open spec fn is_entry_order(keys: Seq<EntryKey>, order: Seq<int>) -> bool {
    &&& order.len() == keys.len()
    &&& forall|i: int| 0 <= i < order.len() ==> 0 <= #[trigger] order[i] < keys.len()
    &&& forall|x: int| 0 <= x < keys.len() ==> #[trigger] order.contains(x)
    &&& forall|i: int, j: int|
        0 <= i < j < order.len() ==> key_precedes(
            keys[#[trigger] order[i]],
            order[i],
            keys[#[trigger] order[j]],
            order[j],
        )
}

/// Whether `out` holds the entries of `all` as they are shown, and `src`
/// gives the place that each had in `all`.
pub open spec fn is_entry_listing(all: Seq<EntryView>, src: Seq<int>, out: Seq<EntryView>) -> bool {
    &&& src.len() == all.len()
    &&& out.len() == all.len()
    &&& forall|k: int|
        0 <= k < src.len() ==> 0 <= #[trigger] src[k] < all.len() && out[k] == all[src[k]]
    &&& forall|x: int| 0 <= x < all.len() ==> #[trigger] src.contains(x)
    &&& forall|a: int, b: int|
        0 <= a < b < src.len() ==> key_precedes(
            key_of(all[#[trigger] src[a]]),
            src[a],
            key_of(all[#[trigger] src[b]]),
            src[b],
        )
}

/// The key of an entry, as the code holds it.
pub struct SortKey {
    pub is_dir: bool,
    pub name: Vec<char>,
}

impl View for SortKey {
    type V = EntryKey;

    open spec fn view(&self) -> EntryKey {
        EntryKey { is_dir: self.is_dir, name: self.name@ }
    }
}

fn name_before(a: &Vec<char>, b: &Vec<char>) -> (r: bool)
    ensures
        r == text_before(a@, b@),
{
    let mut i: usize = 0;
    loop
        invariant
            i <= a@.len(),
            i <= b@.len(),
            text_before_from(a@, b@, i as int) == text_before(a@, b@),
        decreases a@.len() - i,
    {
        if i >= b.len() {
            return false;
        }
        if i >= a.len() {
            return true;
        }
        let x = a[i] as u32;
        let y = b[i] as u32;
        proof {
            lemma_char_code(a@[i as int], b@[i as int]);
        }
        if x != y {
            return x < y;
        }
        i += 1;
    }
}

fn shown_before(a: &SortKey, ia: usize, b: &SortKey, ib: usize) -> (r: bool)
    ensures
        r == key_precedes(a@, ia as int, b@, ib as int),
{
    let forward = (a.is_dir && !b.is_dir) || (a.is_dir == b.is_dir && name_before(&a.name, &b.name));
    if forward {
        true
    } else {
        let backward = (b.is_dir && !a.is_dir) || (a.is_dir == b.is_dir && name_before(
            &b.name,
            &a.name,
        ));
        !backward && ia < ib
    }
}

/// The places of `keys` in the order in which their entries are shown.
pub fn entry_order(keys: &Vec<SortKey>) -> (order: Vec<usize>)
    ensures
        is_entry_order(views(keys@), positions(order@)),
{
    let ghost ks = views(keys@);
    let mut order: Vec<usize> = Vec::new();
    let mut i: usize = 0;
    while i < keys.len()
        invariant
            i <= keys.len(),
            ks == views(keys@),
            order@.len() == i,
            forall|k: int| 0 <= k < order@.len() ==> (#[trigger] order@[k]) < i,
            forall|x: int| 0 <= x < i ==> #[trigger] lists(order@, x),
            forall|a: int, b: int|
                0 <= a < b < order@.len() ==> key_precedes(
                    ks[(#[trigger] order@[a]) as int],
                    order@[a] as int,
                    ks[(#[trigger] order@[b]) as int],
                    order@[b] as int,
                ),
        decreases keys.len() - i,
    {
        let mut p: usize = 0;
        while p < order.len() && !shown_before(&keys[i], i, &keys[order[p]], order[p])
            invariant
                p <= order@.len(),
                i < keys.len(),
                ks == views(keys@),
                forall|k: int| 0 <= k < order@.len() ==> (#[trigger] order@[k]) < i,
                forall|k: int|
                    0 <= k < p ==> !key_precedes(
                        ks[i as int],
                        i as int,
                        ks[(#[trigger] order@[k]) as int],
                        order@[k] as int,
                    ),
            decreases order@.len() - p,
        {
            p += 1;
        }
        let ghost prior = order@;
        order.insert(p, i);
        proof {
            assert forall|x: int| 0 <= x < i + 1 implies #[trigger] lists(order@, x) by {
                if x < i {
                    assert(lists(prior, x));
                    let k0 = choose|k: int| 0 <= k < prior.len() && #[trigger] prior[k] == x;
                    if k0 < p {
                        assert(order@[k0] == x);
                    } else {
                        assert(order@[k0 + 1] == x);
                    }
                } else {
                    assert(order@[p as int] == x);
                }
            }
            assert forall|a: int, b: int| 0 <= a < b < order@.len() implies key_precedes(
                ks[(#[trigger] order@[a]) as int],
                order@[a] as int,
                ks[(#[trigger] order@[b]) as int],
                order@[b] as int,
            ) by {
                let fa = if a < p {
                    a
                } else {
                    a - 1
                };
                let fb = if b < p {
                    b
                } else {
                    b - 1
                };
                if a != p && b != p {
                    assert(order@[a] == prior[fa]);
                    assert(order@[b] == prior[fb]);
                } else if a == p {
                    assert(order@[b] == prior[fb]);
                    assert(order@[a] == i);
                    let here = ks[i as int];
                    let next = ks[prior[p as int] as int];
                    let that = ks[prior[fb] as int];
                    assert(key_precedes(here, i as int, next, prior[p as int] as int));
                    if fb > p {
                        assert(key_precedes(
                            next,
                            prior[p as int] as int,
                            that,
                            prior[fb] as int,
                        ));
                        lemma_key_order(here, next, that);
                        lemma_key_order(that, next, here);
                        lemma_key_order(next, here, that);
                        lemma_key_order(here, that, next);
                    }
                } else {
                    assert(order@[a] == prior[fa]);
                    assert(order@[b] == i);
                    assert(prior[fa] < i);
                    assert(!key_precedes(
                        ks[i as int],
                        i as int,
                        ks[prior[fa] as int],
                        prior[fa] as int,
                    ));
                }
            }
        }
        i += 1;
    }
    proof {
        let pos = positions(order@);
        assert forall|x: int| 0 <= x < ks.len() implies #[trigger] pos.contains(x) by {
            assert(lists(order@, x));
            let k = choose|k: int| 0 <= k < order@.len() && #[trigger] order@[k] == x;
            assert(pos[k] == x);
        }
        assert forall|a: int, b: int| 0 <= a < b < pos.len() implies key_precedes(
            ks[#[trigger] pos[a]],
            pos[a],
            ks[#[trigger] pos[b]],
            pos[b],
        ) by {
            assert(pos[a] == order@[a] as int && pos[b] == order@[b] as int);
        }
    }
    order
}

/// The entries as they are shown: directories first, then by name without
/// regard to case; entries that this does not tell apart keep their order.
pub fn sort_entries(entries: &Vec<WorkspaceEntry>) -> (out: Vec<WorkspaceEntry>)
    ensures
        exists|src: Seq<int>| is_entry_listing(views(entries@), src, views(out@)),
{
    let ghost all = views(entries@);
    let mut keys: Vec<SortKey> = Vec::new();
    let mut i: usize = 0;
    while i < entries.len()
        invariant
            i <= entries@.len(),
            all == views(entries@),
            keys@.len() == i,
            forall|k: int| 0 <= k < i ==> (#[trigger] keys@[k])@ == key_of(all[k]),
        decreases entries@.len() - i,
    {
        let lowered = entries[i].name.as_str().to_lowercase();
        keys.push(SortKey { is_dir: entries[i].is_dir, name: chars_of(lowered.as_str()) });
        i += 1;
    }
    let order = entry_order(&keys);
    let ghost src = positions(order@);
    let mut out: Vec<WorkspaceEntry> = Vec::new();
    let mut k: usize = 0;
    while k < order.len()
        invariant
            k <= order@.len(),
            order@.len() == entries@.len(),
            keys@.len() == entries@.len(),
            all == views(entries@),
            src == positions(order@),
            is_entry_order(views(keys@), src),
            out@.len() == k,
            forall|j: int| 0 <= j < k ==> (#[trigger] out@[j])@ == all[src[j]],
        decreases order@.len() - k,
    {
        assert(0 <= src[k as int] < keys@.len());
        out.push(entries[order[k]].clone());
        k += 1;
    }
    proof {
        let found = views(out@);
        assert forall|a: int, b: int| 0 <= a < b < src.len() implies key_precedes(
            key_of(all[#[trigger] src[a]]),
            src[a],
            key_of(all[#[trigger] src[b]]),
            src[b],
        ) by {
            assert(0 <= src[a] < keys@.len() && 0 <= src[b] < keys@.len());
            assert(views(keys@)[src[a]] == key_of(all[src[a]]));
            assert(views(keys@)[src[b]] == key_of(all[src[b]]));
        }
        assert(is_entry_listing(all, src, found));
    }
    out
}

} // verus!
