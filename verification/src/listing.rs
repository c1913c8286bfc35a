//! Listings: the records that meet a condition, ordered by a timestamp. Among
//! records with equal timestamps the one stored first comes first.

use crate::records::{
    opt_text, views, LogView, MessageView, ProjectRecord, ProjectView, TaskLogRecord, TaskRecord, TaskView,
    ThreadMessage, ThreadRecord, ThreadView,
};
use vstd::prelude::*;

verus! {

/// Whether the item at position `a`, with timestamp `ka`, comes before the
/// item at position `b`, with timestamp `kb`.
pub open spec fn precedes(ka: i64, a: int, kb: i64, b: int, descending: bool) -> bool {
    if ka == kb {
        a < b
    } else if descending {
        ka > kb
    } else {
        ka < kb
    }
}

/// Whether `order` lists every position of `keys` once, by timestamp and,
/// among equal timestamps, by position.
pub open spec fn is_stable_order(keys: Seq<i64>, descending: bool, order: Seq<int>) -> bool {
    &&& order.len() == keys.len()
    &&& forall|i: int| 0 <= i < order.len() ==> 0 <= #[trigger] order[i] < keys.len()
    &&& forall|x: int| 0 <= x < keys.len() ==> #[trigger] order.contains(x)
    &&& forall|i: int, j: int|
        0 <= i < j < order.len() ==> precedes(
            keys[#[trigger] order[i]],
            order[i],
            keys[#[trigger] order[j]],
            order[j],
            descending,
        )
}

/// Whether `out` is the listing of the items of `all` that `pick` accepts,
/// ordered by `key`, and `src` gives for each place of the listing the
/// position that its item has in `all`.
pub open spec fn is_listing<T>(
    all: Seq<T>,
    pick: spec_fn(T) -> bool,
    key: spec_fn(T) -> i64,
    descending: bool,
    src: Seq<int>,
    out: Seq<T>,
) -> bool {
    &&& src.len() == out.len()
    &&& forall|k: int|
        0 <= k < src.len() ==> 0 <= #[trigger] src[k] < all.len() && pick(all[src[k]]) && out[k]
            == all[src[k]]
    &&& forall|i: int| 0 <= i < all.len() && pick(#[trigger] all[i]) ==> src.contains(i)
    &&& forall|a: int, b: int|
        0 <= a < b < src.len() ==> precedes(
            key(all[#[trigger] src[a]]),
            src[a],
            key(all[#[trigger] src[b]]),
            src[b],
            descending,
        )
}

/// Whether `x` is one of the positions in `order`.
pub open spec fn lists(order: Seq<usize>, x: int) -> bool {
    exists|k: int| 0 <= k < order.len() && #[trigger] order[k] == x
}

/// The positions in `order` as integers.
pub open spec fn positions(order: Seq<usize>) -> Seq<int> {
    Seq::new(order.len(), |i: int| order[i] as int)
}

fn comes_before(ka: i64, a: usize, kb: i64, b: usize, descending: bool) -> (r: bool)
    ensures
        r == precedes(ka, a as int, kb, b as int, descending),
{
    if ka == kb {
        a < b
    } else if descending {
        ka > kb
    } else {
        ka < kb
    }
}

/// The positions of `keys` ordered by timestamp, rising or falling; equal
/// timestamps keep the order of their positions.
pub fn stable_order(keys: &Vec<i64>, descending: bool) -> (order: Vec<usize>)
    ensures
        is_stable_order(keys@, descending, positions(order@)),
{
    let mut order: Vec<usize> = Vec::new();
    let mut i: usize = 0;
    while i < keys.len()
        invariant
            i <= keys.len(),
            order@.len() == i,
            forall|k: int| 0 <= k < order@.len() ==> (#[trigger] order@[k]) < i,
            forall|x: int| 0 <= x < i ==> #[trigger] lists(order@, x),
            forall|a: int, b: int|
                0 <= a < b < order@.len() ==> precedes(
                    keys@[(#[trigger] order@[a]) as int],
                    order@[a] as int,
                    keys@[(#[trigger] order@[b]) as int],
                    order@[b] as int,
                    descending,
                ),
        decreases keys.len() - i,
    {
        let mut p: usize = 0;
        while p < order.len() && !comes_before(keys[i], i, keys[order[p]], order[p], descending)
            invariant
                p <= order@.len(),
                i < keys.len(),
                forall|k: int| 0 <= k < order@.len() ==> (#[trigger] order@[k]) < i,
                forall|k: int|
                    0 <= k < p ==> !precedes(
                        keys@[i as int],
                        i as int,
                        keys@[(#[trigger] order@[k]) as int],
                        order@[k] as int,
                        descending,
                    ),
            decreases order@.len() - p,
        {
            p += 1;
        }
        let ghost prior = order@;
        order.insert(p, i);
        proof {
            assert forall|x: int| 0 <= x < i + 1 implies #[trigger] lists(order@, x) by {
                if x < i {
                    assert(lists(prior, x));
                    let k0 = choose|k: int| 0 <= k < prior.len() && #[trigger] prior[k] == x;
                    if k0 < p {
                        assert(order@[k0] == x);
                    } else {
                        assert(order@[k0 + 1] == x);
                    }
                } else {
                    assert(order@[p as int] == x);
                }
            }
            assert forall|a: int, b: int| 0 <= a < b < order@.len() implies precedes(
                keys@[(#[trigger] order@[a]) as int],
                order@[a] as int,
                keys@[(#[trigger] order@[b]) as int],
                order@[b] as int,
                descending,
            ) by {
                let fa = if a < p {
                    a
                } else {
                    a - 1
                };
                let fb = if b < p {
                    b
                } else {
                    b - 1
                };
                if a != p && b != p {
                    assert(order@[a] == prior[fa]);
                    assert(order@[b] == prior[fb]);
                } else if a == p {
                    assert(order@[b] == prior[fb]);
                    assert(order@[a] == i);
                    if p < prior.len() {
                        assert(precedes(
                            keys@[i as int],
                            i as int,
                            keys@[prior[p as int] as int],
                            prior[p as int] as int,
                            descending,
                        ));
                        if fb > p {
                            assert(precedes(
                                keys@[prior[p as int] as int],
                                prior[p as int] as int,
                                keys@[prior[fb] as int],
                                prior[fb] as int,
                                descending,
                            ));
                        }
                    }
                } else {
                    assert(order@[a] == prior[fa]);
                    assert(order@[b] == i);
                    assert(prior[fa] < i);
                }
            }
        }
        i += 1;
    }
    proof {
        let pos = positions(order@);
        assert forall|x: int| 0 <= x < keys@.len() implies #[trigger] pos.contains(x) by {
            assert(lists(order@, x));
            let k = choose|k: int| 0 <= k < order@.len() && #[trigger] order@[k] == x;
            assert(pos[k] == x);
        }
        assert forall|a: int, b: int| 0 <= a < b < pos.len() implies precedes(
            keys@[#[trigger] pos[a]],
            pos[a],
            keys@[#[trigger] pos[b]],
            pos[b],
            descending,
        ) by {
            assert(pos[a] == order@[a] as int && pos[b] == order@[b] as int);
        }
    }
    order
}

/// Two listings of the same items agree up to any place that both have.
proof fn lemma_listings_agree<T>(
    all: Seq<T>,
    pick: spec_fn(T) -> bool,
    key: spec_fn(T) -> i64,
    descending: bool,
    src1: Seq<int>,
    out1: Seq<T>,
    src2: Seq<int>,
    out2: Seq<T>,
    k: int,
)
    requires
        is_listing(all, pick, key, descending, src1, out1),
        is_listing(all, pick, key, descending, src2, out2),
        0 <= k <= src1.len(),
        k <= src2.len(),
    ensures
        forall|j: int| 0 <= j < k ==> src1[j] == src2[j],
    decreases k,
{
    if k > 0 {
        lemma_listings_agree(all, pick, key, descending, src1, out1, src2, out2, k - 1);
        let a = src1[k - 1];
        let b = src2[k - 1];
        if a != b {
            // each of the two is listed by the other listing, and not before
            // this place, where the listings agree
            assert(pick(all[a]) && pick(all[b]));
            assert(src2.contains(a));
            let m = choose|m: int| 0 <= m < src2.len() && src2[m] == a;
            assert(src1.contains(b));
            let n = choose|n: int| 0 <= n < src1.len() && src1[n] == b;
            if m < k - 1 {
                assert(src1[m] == src2[m]);
                assert(precedes(
                    key(all[src1[m]]),
                    src1[m],
                    key(all[src1[k - 1]]),
                    src1[k - 1],
                    descending,
                ));
            }
            if n < k - 1 {
                assert(src1[n] == src2[n]);
                assert(precedes(
                    key(all[src2[n]]),
                    src2[n],
                    key(all[src2[k - 1]]),
                    src2[k - 1],
                    descending,
                ));
            }
            assert(precedes(
                key(all[src2[k - 1]]),
                src2[k - 1],
                key(all[src2[m]]),
                src2[m],
                descending,
            ));
            assert(precedes(
                key(all[src1[k - 1]]),
                src1[k - 1],
                key(all[src1[n]]),
                src1[n],
                descending,
            ));
        }
    }
}

/// The items determine their listing: two listings of the same items are
/// the same.
pub proof fn lemma_listing_unique<T>(
    all: Seq<T>,
    pick: spec_fn(T) -> bool,
    key: spec_fn(T) -> i64,
    descending: bool,
    src1: Seq<int>,
    out1: Seq<T>,
    src2: Seq<int>,
    out2: Seq<T>,
)
    requires
        is_listing(all, pick, key, descending, src1, out1),
        is_listing(all, pick, key, descending, src2, out2),
    ensures
        src1 == src2,
        out1 == out2,
{
    let n = if src1.len() <= src2.len() {
        src1.len() as int
    } else {
        src2.len() as int
    };
    lemma_listings_agree(all, pick, key, descending, src1, out1, src2, out2, n);
    if src1.len() > n {
        // what the longer listing has at the next place is listed by the
        // shorter one too, at a place where the two agree
        let a = src1[n];
        assert(pick(all[a]));
        assert(src2.contains(a));
        let m = choose|m: int| 0 <= m < src2.len() && src2[m] == a;
        assert(src1[m] == src2[m]);
        assert(precedes(key(all[src1[m]]), src1[m], key(all[src1[n]]), src1[n], descending));
    }
    if src2.len() > n {
        let a = src2[n];
        assert(pick(all[a]));
        assert(src1.contains(a));
        let m = choose|m: int| 0 <= m < src1.len() && src1[m] == a;
        assert(src1[m] == src2[m]);
        assert(precedes(key(all[src2[m]]), src2[m], key(all[src2[n]]), src2[n], descending));
    }
    assert(src1 =~= src2);
    assert forall|k: int| 0 <= k < out1.len() implies out1[k] == out2[k] by {
        assert(out1[k] == all[src1[k]]);
        assert(out2[k] == all[src2[k]]);
    }
    assert(out1 =~= out2);
}

/// A record that can be listed: it belongs to a group, it carries the
/// timestamp that it is ordered by, and it can be copied.
pub trait Listed: View + Sized {
    /// The identifier of the group that the record belongs to.
    spec fn group_text(v: Self::V) -> Seq<char>;

    /// The timestamp that the record is ordered by.
    spec fn stamp_of(v: Self::V) -> i64;

    fn group(&self) -> (g: &String)
        ensures
            g@ == Self::group_text(self@),
    ;

    fn stamp(&self) -> (t: i64)
        ensures
            t == Self::stamp_of(self@),
    ;

    fn copy(&self) -> (r: Self)
        ensures
            r@ == self@,
    ;
}

/// Whether a record belongs to the group asked for; without a group every
/// record does.
pub open spec fn in_group<T: Listed>(group: Option<Seq<char>>, v: T::V) -> bool {
    match group {
        Some(g) => T::group_text(v) == g,
        None => true,
    }
}

/// Whether `out` is the listing of the records of a group, ordered by their
/// timestamps, and `src` gives the position of each in `all`.
pub open spec fn is_group_listing<T: Listed>(
    all: Seq<T::V>,
    group: Option<Seq<char>>,
    descending: bool,
    src: Seq<int>,
    out: Seq<T::V>,
) -> bool {
    is_listing(
        all,
        |v: T::V| in_group::<T>(group, v),
        |v: T::V| T::stamp_of(v),
        descending,
        src,
        out,
    )
}

/// Whether `out` is the listing of the records of a group, ordered by their
/// timestamps: whether there are positions for which it is.
pub open spec fn lists_group<T: Listed>(
    all: Seq<T::V>,
    group: Option<Seq<char>>,
    descending: bool,
    out: Seq<T::V>,
) -> bool {
    exists|src: Seq<int>| is_group_listing::<T>(all, group, descending, src, out)
}

/// The identifier of the group asked for, if one is.
pub open spec fn group_asked(group: Option<&str>) -> Option<Seq<char>> {
    match group {
        Some(g) => Some(g@),
        None => None,
    }
}

/// The records of a group, or all records where no group is given, ordered
/// by their timestamps; records with equal timestamps stay in the order in
/// which they are stored.
pub fn list_by<T: Listed>(all: &Vec<T>, group: Option<&str>, descending: bool) -> (out: Vec<T>)
    ensures
        lists_group::<T>(views(all@), group_asked(group), descending, views(out@)),
{
    let ghost want: Option<Seq<char>> = group_asked(group);
    let key: Option<String> = match group {
        Some(g) => Some(g.to_owned()),
        None => None,
    };
    let ghost items = views(all@);
    let mut picked: Vec<usize> = Vec::new();
    let mut keys: Vec<i64> = Vec::new();
    let mut i: usize = 0;
    while i < all.len()
        invariant
            i <= all.len(),
            items == views(all@),
            want == opt_text(key),
            picked@.len() == keys@.len(),
            forall|k: int|
                0 <= k < picked@.len() ==> (#[trigger] picked@[k]) < i && in_group::<T>(
                    want,
                    items[picked@[k] as int],
                ) && keys@[k] == T::stamp_of(items[picked@[k] as int]),
            forall|a: int, b: int|
                0 <= a < b < picked@.len() ==> #[trigger] picked@[a] < #[trigger] picked@[b],
            forall|j: int|
                0 <= j < i && in_group::<T>(want, items[j]) ==> #[trigger] lists(picked@, j),
        decreases all.len() - i,
    {
        let wanted = match &key {
            Some(k) => *all[i].group() == *k,
            None => true,
        };
        assert(wanted == in_group::<T>(want, items[i as int]));
        let ghost prior = picked@;
        if wanted {
            picked.push(i);
            keys.push(all[i].stamp());
        }
        proof {
            assert forall|j: int| 0 <= j < i + 1 && in_group::<T>(want, items[j]) implies #[trigger] lists(
                picked@,
                j,
            ) by {
                if j < i {
                    assert(lists(prior, j));
                    let k = choose|k: int| 0 <= k < prior.len() && #[trigger] prior[k] == j;
                    assert(picked@[k] == j);
                } else {
                    assert(picked@[prior.len() as int] == j);
                }
            }
        }
        i += 1;
    }
    let order = stable_order(&keys, descending);
    let ghost src = Seq::new(picked@.len(), |k: int| picked@[positions(order@)[k]] as int);
    let mut out: Vec<T> = Vec::new();
    let mut k: usize = 0;
    while k < order.len()
        invariant
            k <= order@.len(),
            order@.len() == picked@.len(),
            picked@.len() == keys@.len(),
            out@.len() == k,
            items == views(all@),
            is_stable_order(keys@, descending, positions(order@)),
            src == Seq::new(picked@.len(), |k: int| picked@[positions(order@)[k]] as int),
            forall|j: int| 0 <= j < picked@.len() ==> (#[trigger] picked@[j]) < all@.len(),
            forall|j: int| 0 <= j < k ==> (#[trigger] out@[j])@ == items[src[j]],
        decreases order@.len() - k,
    {
        assert(0 <= positions(order@)[k as int] < keys@.len());
        let at = picked[order[k]];
        out.push(all[at].copy());
        k += 1;
    }
    proof {
        let pos = positions(order@);
        let found = views(out@);
        assert forall|n: int| 0 <= n < src.len() implies 0 <= #[trigger] src[n] < items.len()
            && in_group::<T>(want, items[src[n]]) && found[n] == items[src[n]] by {
            assert(0 <= pos[n] < keys@.len());
        }
        assert forall|j: int| 0 <= j < items.len() && in_group::<T>(want, #[trigger] items[j]) implies src.contains(
            j,
        ) by {
            assert(lists(picked@, j));
            let k0 = choose|k0: int| 0 <= k0 < picked@.len() && #[trigger] picked@[k0] == j;
            assert(pos.contains(k0));
            let m = choose|m: int| 0 <= m < pos.len() && pos[m] == k0;
            assert(src[m] == j);
        }
        assert forall|a: int, b: int| 0 <= a < b < src.len() implies precedes(
            T::stamp_of(items[#[trigger] src[a]]),
            src[a],
            T::stamp_of(items[#[trigger] src[b]]),
            src[b],
            descending,
        ) by {
            assert(0 <= pos[a] < keys@.len());
            assert(0 <= pos[b] < keys@.len());
            assert(precedes(keys@[pos[a]], pos[a], keys@[pos[b]], pos[b], descending));
            if pos[a] < pos[b] {
                assert(picked@[pos[a]] < picked@[pos[b]]);
            }
            if pos[b] < pos[a] {
                assert(picked@[pos[b]] < picked@[pos[a]]);
            }
        }
    }
    assert(is_group_listing::<T>(items, want, descending, src, views(out@)));
    out
}


impl Listed for ProjectRecord {
    /// Projects form no groups; each is its own.
    open spec fn group_text(v: ProjectView) -> Seq<char> {
        v.id
    }

    open spec fn stamp_of(v: ProjectView) -> i64 {
        v.last_accessed_at
    }

    fn group(&self) -> (g: &String) {
        &self.id
    }

    fn stamp(&self) -> (t: i64) {
        self.last_accessed_at
    }

    fn copy(&self) -> (r: Self) {
        self.clone()
    }
}

impl Listed for ThreadRecord {
    open spec fn group_text(v: ThreadView) -> Seq<char> {
        v.project_id
    }

    open spec fn stamp_of(v: ThreadView) -> i64 {
        v.updated_at
    }

    fn group(&self) -> (g: &String) {
        &self.project_id
    }

    fn stamp(&self) -> (t: i64) {
        self.updated_at
    }

    fn copy(&self) -> (r: Self) {
        self.clone()
    }
}

impl Listed for ThreadMessage {
    open spec fn group_text(v: MessageView) -> Seq<char> {
        v.thread_id
    }

    open spec fn stamp_of(v: MessageView) -> i64 {
        v.created_at
    }

    fn group(&self) -> (g: &String) {
        &self.thread_id
    }

    fn stamp(&self) -> (t: i64) {
        self.created_at
    }

    fn copy(&self) -> (r: Self) {
        self.clone()
    }
}

impl Listed for TaskRecord {
    open spec fn group_text(v: TaskView) -> Seq<char> {
        v.thread_id
    }

    open spec fn stamp_of(v: TaskView) -> i64 {
        v.created_at
    }

    fn group(&self) -> (g: &String) {
        &self.thread_id
    }

    fn stamp(&self) -> (t: i64) {
        self.created_at
    }

    fn copy(&self) -> (r: Self) {
        self.clone()
    }
}

impl Listed for TaskLogRecord {
    open spec fn group_text(v: LogView) -> Seq<char> {
        v.task_id
    }

    open spec fn stamp_of(v: LogView) -> i64 {
        v.created_at
    }

    fn group(&self) -> (g: &String) {
        &self.task_id
    }

    fn stamp(&self) -> (t: i64) {
        self.created_at
    }

    fn copy(&self) -> (r: Self) {
        self.clone()
    }
}

} // verus!
