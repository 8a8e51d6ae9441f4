//! Partitioning a list of buckets by a key.
//!
//! [`partition_by`] groups a slice in place: it computes every element's key
//! once, sorts the keys together with the elements' positions, and moves
//! the elements along. [`Partitions`] then walks the sorted keys and yields
//! one [`Partition`] per run of equal keys. [`partition`] does the same for
//! an owned list and hands out the runs as views into one shared buffer.

use crate::order::{
    key_eq, key_le, key_lt, lemma_key_eq_reflexive, lemma_key_eq_symmetric, lemma_key_lt_then_eq,
    lemma_key_lt_transitive, lemma_trichotomy, same_key, total_order,
};
use crate::permutation::{apply_permutation, is_permutation};
use crate::view::BucketsView;
use std::sync::Arc;
use vstd::prelude::*;

verus! {

/// A single partition returned by [`Partitions`].
#[derive(Debug, Clone, Copy, PartialEq, Eq, PartialOrd, Ord)]
pub struct Partition<K> {
    /// The start index of the partition in the backing slice.
    pub start: usize,
    /// The end index of the partition in the backing slice.
    pub end: usize,
    /// The partition key of the slice.
    pub partition: K,
}

/// No key sorts after a later one.
pub open spec fn keys_sorted<K: Ord>(keys: Seq<K>) -> bool {
    forall|i: int, j: int| 0 <= i < j < keys.len() ==> key_le(#[trigger] keys[i], #[trigger] keys[j])
}

/// The first position at or after `pos` whose key does not equal `key`, or
/// the length of `keys` if there is none.
pub open spec fn run_end<K: Ord>(keys: Seq<K>, key: K, pos: int) -> int
    decreases keys.len() - pos,
{
    if 0 <= pos < keys.len() && key_eq(keys[pos], key) {
        run_end(keys, key, pos + 1)
    } else {
        pos
    }
}

/// The run of equal keys that starts at `start`, as far as it reaches.
pub open spec fn run_at<K: Ord>(keys: Seq<K>, start: int) -> Partition<K> {
    Partition {
        start: start as usize,
        end: run_end(keys, keys[start], start + 1) as usize,
        partition: keys[start],
    }
}

/// The runs of equal keys from `start` to the end of `keys`, in order.
pub open spec fn runs_from<K: Ord>(keys: Seq<K>, start: int) -> Seq<Partition<K>>
    decreases keys.len() - start,
{
    if 0 <= start < keys.len() {
        let end = run_end(keys, keys[start], start + 1);
        if start < end <= keys.len() {
            seq![run_at(keys, start)].add(runs_from(keys, end))
        } else {
            Seq::empty()
        }
    } else {
        Seq::empty()
    }
}

/// `run_end` stops inside `keys`, after a stretch of keys equal to `key`, and
/// in front of a key that is not.
pub proof fn lemma_run_end<K: Ord>(keys: Seq<K>, key: K, pos: int)
    requires
        0 <= pos <= keys.len(),
    ensures
        pos <= run_end(keys, key, pos) <= keys.len(),
        forall|i: int| pos <= i < run_end(keys, key, pos) ==> key_eq(#[trigger] keys[i], key),
        run_end(keys, key, pos) < keys.len() ==> !key_eq(keys[run_end(keys, key, pos)], key),
    decreases keys.len() - pos,
{
    if pos < keys.len() && key_eq(keys[pos], key) {
        lemma_run_end(keys, key, pos + 1);
    }
}

/// The order in which index pairs are sorted: by key, and among equal keys
/// by position.
pub open spec fn pair_le<K: Ord>(a: (K, usize), b: (K, usize)) -> bool {
    key_lt(a.0, b.0) || (key_eq(a.0, b.0) && a.1 <= b.1)
}

/// No pair sorts after a later one.
pub open spec fn pairs_sorted<K: Ord>(pairs: Seq<(K, usize)>) -> bool {
    forall|i: int, j: int|
        0 <= i < j < pairs.len() ==> pair_le(#[trigger] pairs[i], #[trigger] pairs[j])
}

/// Calls `sort_unstable` of std on the index pairs. It keeps the pairs and
/// puts them in ascending order; a tuple is ordered by its first field, then
/// by its second. It may panic where the order of `K` is not total, which
/// `requires` rules out.
#[verifier::external_body]
fn sort_pairs<K: Ord>(pairs: &mut Vec<(K, usize)>)
    requires
        total_order::<K>(),
    ensures
        final(pairs)@.to_multiset() == old(pairs)@.to_multiset(),
        pairs_sorted(final(pairs)@),
{
    pairs.sort_unstable();
}

/// Pairs that were numbered by position are, in whatever order they come
/// back, still one pair for each position.
proof fn lemma_reordered_pairs<K>(before: Seq<(K, usize)>, after: Seq<(K, usize)>)
    requires
        before.to_multiset() == after.to_multiset(),
        forall|i: int| 0 <= i < before.len() ==> (#[trigger] before[i]).1 == i,
    ensures
        after.len() == before.len(),
        is_permutation(after),
        forall|p: int| 0 <= p < after.len() ==> #[trigger] after[p] == before[after[p].1 as int],
{
    broadcast use vstd::seq_lib::group_to_multiset_ensures;

    vstd::seq_lib::to_multiset_len(before);
    vstd::seq_lib::to_multiset_len(after);
    assert forall|p: int| 0 <= p < after.len() implies (#[trigger] after[p]).1 < after.len()
        && after[p] == before[after[p].1 as int] by {
        assert(after.contains(after[p]));
        assert(after.to_multiset().count(after[p]) > 0);
        assert(before.contains(after[p]));
        let j = choose|j: int| 0 <= j < before.len() && before[j] == after[p];
        assert(before[j].1 == j);
    }
    assert(before.no_duplicates()) by {
        assert forall|i: int, j: int| 0 <= i < before.len() && 0 <= j < before.len() && i
            != j implies before[i] != before[j] by {
            assert(before[i].1 != before[j].1);
        }
    }
    before.lemma_multiset_has_no_duplicates();
    after.lemma_multiset_has_no_duplicates_conv();
    assert forall|i: int, j: int| 0 <= i < j < after.len() implies (#[trigger] after[i]).1 != (
    #[trigger] after[j]).1 by {
        if after[i].1 == after[j].1 {
            assert(after[i] == before[after[i].1 as int]);
            assert(after[j] == before[after[j].1 as int]);
            assert(after[i] == after[j]);
        }
    }
}

/// `after` holds the elements of `before`, the one at `p` taken from
/// `from[p]`, grouped under `keys` so that elements with equal keys stand in
/// the order they had.
pub open spec fn stable_rearrangement<T, K: Ord>(
    before: Seq<T>,
    after: Seq<T>,
    keys: Seq<K>,
    from: Seq<int>,
) -> bool {
    &&& after.len() == before.len()
    &&& keys.len() == before.len()
    &&& from.len() == before.len()
    &&& forall|p: int|
        0 <= p < before.len() ==> 0 <= #[trigger] from[p] < before.len() && after[p]
            == before[from[p]]
    &&& forall|p: int, q: int|
        0 <= p < q < before.len() ==> #[trigger] from[p] != #[trigger] from[q]
    &&& forall|p: int, q: int|
        0 <= p < q < before.len() && key_eq(keys[p], keys[q]) ==> #[trigger] from[p]
            < #[trigger] from[q]
}

/// Sorts the passed slice by key and returns an iterator yielding continous slices of the
/// resulting partitions.
///
/// `f` is called once for each element, in the order of the slice. The
/// elements are then grouped by the keys it returned: the slice keeps its
/// elements, the keys of [`Partitions::keys`] stand in ascending order, and
/// the key at each position is the one that `f` returned for the element
/// that now lies there. Elements with equal keys keep their order.
pub fn partition_by<T, K, F>(slice: &mut [T], f: F) -> (partitions: Partitions<K>) where
    K: Ord + Copy,
    F: Fn(&T) -> K,

    requires
        total_order::<K>(),
        forall|i: int| 0 <= i < old(slice)@.len() ==> call_requires(f, (&#[trigger] old(slice)@[i],)),
    ensures
        partitions.wf(),
        partitions.cursor() == 0,
        partitions.keys().len() == old(slice)@.len(),
        keys_sorted(partitions.keys()),
        final(slice)@.len() == old(slice)@.len(),
        final(slice)@.to_multiset() == old(slice)@.to_multiset(),
        forall|p: int|
            0 <= p < old(slice)@.len() ==> call_ensures(
                f,
                (&#[trigger] final(slice)@[p],),
                partitions.keys()[p],
            ),
        exists|from: Seq<int>|
            stable_rearrangement(old(slice)@, final(slice)@, partitions.keys(), from),
        old(slice)@.len() == 0 ==> partitions.remaining().len() == 0,
{
    let n = slice.len();
    let mut indices: Vec<(K, usize)> = Vec::with_capacity(n);
    let mut i: usize = 0;
    while i < n
        invariant
            i <= n,
            n == slice@.len(),
            slice@ == old(slice)@,
            indices@.len() == i,
            forall|j: int| 0 <= j < n ==> call_requires(f, (&#[trigger] slice@[j],)),
            forall|j: int|
                0 <= j < i ==> (#[trigger] indices@[j]).1 == j && call_ensures(
                    f,
                    (&slice@[j],),
                    indices@[j].0,
                ),
        decreases n - i,
    {
        let key = f(&slice[i]);
        indices.push((key, i));
        i += 1;
    }
    let ghost numbered = indices@;
    sort_pairs(&mut indices);
    let ghost sorted = indices@;
    proof {
        lemma_reordered_pairs(numbered, sorted);
    }
    apply_permutation(slice, &mut indices);
    let partitions = Partitions::new(indices);
    proof {
        let keys = partitions.keys();
        let from = Seq::new(n as nat, |p: int| sorted[p].1 as int);
        assert forall|p: int| 0 <= p < n implies call_ensures(
            f,
            (&#[trigger] slice@[p],),
            keys[p],
        ) by {
            assert(sorted[p] == numbered[sorted[p].1 as int]);
            assert(keys[p] == sorted[p].0);
        }
        assert forall|p: int, q: int| 0 <= p < q < n implies key_le(
            #[trigger] keys[p],
            #[trigger] keys[q],
        ) by {
            assert(pair_le(sorted[p], sorted[q]));
            assert(keys[p] == sorted[p].0);
            assert(keys[q] == sorted[q].0);
        }
        assert forall|p: int, q: int|
            0 <= p < q < n && key_eq(keys[p], keys[q]) implies #[trigger] from[p]
            < #[trigger] from[q] by {
            assert(pair_le(sorted[p], sorted[q]));
            assert(keys[p] == sorted[p].0);
            assert(keys[q] == sorted[q].0);
            lemma_trichotomy(keys[p], keys[q]);
            assert(sorted[p].1 != sorted[q].1);
        }
        assert forall|p: int, q: int| 0 <= p < q < n implies #[trigger] from[p]
            != #[trigger] from[q] by {
            assert(sorted[p].1 != sorted[q].1);
        }
        assert forall|p: int| 0 <= p < n implies 0 <= #[trigger] from[p] < n && slice@[p]
            == old(slice)@[from[p]] by {
            assert(sorted[p].1 < n);
        }
        assert(stable_rearrangement(old(slice)@, slice@, keys, from));
    }
    partitions
}

/// The runs from `start` are the run at `start` and then the runs from its
/// end.
pub proof fn lemma_runs_from<K: Ord>(keys: Seq<K>, start: int)
    requires
        0 <= start < keys.len(),
    ensures
        start < run_end(keys, keys[start], start + 1) <= keys.len(),
        runs_from(keys, start).len() > 0,
        runs_from(keys, start)[0] == run_at(keys, start),
        runs_from(keys, start).drop_first() == runs_from(
            keys,
            run_end(keys, keys[start], start + 1),
        ),
{
    lemma_run_end(keys, keys[start], start + 1);
    let end = run_end(keys, keys[start], start + 1);
    assert(runs_from(keys, start) == seq![run_at(keys, start)].add(runs_from(keys, end)));
    assert(runs_from(keys, start).drop_first() =~= runs_from(keys, end));
}

/// The runs lie one behind the other: the first starts at `start`, each
/// ends where the next starts, the last ends with the keys, and none is
/// empty.
pub proof fn lemma_runs_tile<K: Ord>(keys: Seq<K>, start: int)
    requires
        0 <= start <= keys.len() <= usize::MAX,
    ensures
        runs_from(keys, start).len() == 0 <==> start == keys.len(),
        forall|k: int|
            0 <= k < runs_from(keys, start).len() ==> {
                let run = #[trigger] runs_from(keys, start)[k];
                &&& start <= run.start < run.end <= keys.len()
                &&& run == run_at(keys, run.start as int)
            },
        runs_from(keys, start).len() > 0 ==> runs_from(keys, start)[0].start == start
            && runs_from(keys, start).last().end == keys.len(),
        forall|k: int|
            0 <= k < runs_from(keys, start).len() - 1 ==> (#[trigger] runs_from(
                keys,
                start,
            )[k]).end == runs_from(keys, start)[k + 1].start,
    decreases keys.len() - start,
{
    if start < keys.len() {
        lemma_runs_from(keys, start);
        let end = run_end(keys, keys[start], start + 1);
        lemma_runs_tile(keys, end);
        let runs = runs_from(keys, start);
        let rest = runs_from(keys, end);
        assert(rest == runs.drop_first());
        assert forall|k: int| 1 <= k < runs.len() implies #[trigger] runs[k] == rest[k - 1] by {}
        assert forall|k: int| 0 <= k < runs.len() implies {
            let run = #[trigger] runs[k];
            &&& start <= run.start < run.end <= keys.len()
            &&& run == run_at(keys, run.start as int)
        } by {
            if k > 0 {
                assert(runs[k] == rest[k - 1]);
            }
        }
        assert forall|k: int| 0 <= k < runs.len() - 1 implies (#[trigger] runs[k]).end == runs[k
            + 1].start by {
            assert(runs[k + 1] == rest[k]);
            if k > 0 {
                assert(runs[k] == rest[k - 1]);
            }
        }
        if rest.len() > 0 {
            assert(runs.last() == rest.last());
        }
    }
}

/// Every key inside a run compares as equal to the run's key.
pub proof fn lemma_runs_homogeneous<K: Ord>(keys: Seq<K>, start: int)
    requires
        total_order::<K>(),
        0 <= start <= keys.len() <= usize::MAX,
    ensures
        forall|k: int, i: int|
            0 <= k < runs_from(keys, start).len() && runs_from(keys, start)[k].start <= i
                < runs_from(keys, start)[k].end ==> key_eq(
                #[trigger] keys[i],
                (#[trigger] runs_from(keys, start)[k]).partition,
            ),
{
    lemma_runs_tile(keys, start);
    let runs = runs_from(keys, start);
    assert forall|k: int, i: int| 0 <= k < runs.len() && runs[k].start <= i < runs[k].end implies key_eq(
        #[trigger] keys[i],
        (#[trigger] runs[k]).partition,
    ) by {
        let first = runs[k].start as int;
        assert(runs[k] == run_at(keys, first));
        lemma_run_end(keys, keys[first], first + 1);
        lemma_key_eq_reflexive(keys[first]);
    }
}

/// Where the keys are sorted, the keys of the runs ascend strictly: each run
/// has a key that sorts before the keys of all later runs, so no key comes
/// twice.
pub proof fn lemma_runs_ascending<K: Ord>(keys: Seq<K>, start: int)
    requires
        total_order::<K>(),
        keys_sorted(keys),
        0 <= start <= keys.len() <= usize::MAX,
    ensures
        forall|a: int, b: int|
            0 <= a < b < runs_from(keys, start).len() ==> key_lt(
                (#[trigger] runs_from(keys, start)[a]).partition,
                (#[trigger] runs_from(keys, start)[b]).partition,
            ),
    decreases keys.len() - start,
{
    if start < keys.len() {
        lemma_runs_from(keys, start);
        lemma_run_end(keys, keys[start], start + 1);
        let end = run_end(keys, keys[start], start + 1);
        lemma_runs_ascending(keys, end);
        lemma_runs_tile(keys, end);
        let runs = runs_from(keys, start);
        let rest = runs_from(keys, end);
        assert(rest == runs.drop_first());
        assert forall|a: int, b: int| 0 <= a < b < runs.len() implies key_lt(
            (#[trigger] runs[a]).partition,
            (#[trigger] runs[b]).partition,
        ) by {
            assert(runs[b] == rest[b - 1]);
            if a > 0 {
                assert(runs[a] == rest[a - 1]);
            } else {
                // the first run ends in front of a key that is not equal
                // to its own, and every later run starts at or after it
                let later = rest[b - 1].start as int;
                assert(rest[b - 1] == run_at(keys, later));
                assert(end <= later < keys.len());
                assert(key_le(keys[start], keys[end]));
                if key_eq(keys[start], keys[end]) {
                    lemma_key_eq_symmetric(keys[start], keys[end]);
                }
                assert(key_lt(keys[start], keys[end]));
                if end < later {
                    assert(key_le(keys[end], keys[later]));
                    if key_lt(keys[end], keys[later]) {
                        lemma_key_lt_transitive(keys[start], keys[end], keys[later]);
                    } else {
                        lemma_key_lt_then_eq(keys[start], keys[end], keys[later]);
                    }
                }
            }
        }
    }
}

/// Where no two keys compare as equal, every run holds one key: there are
/// as many runs as keys, and the run at `i` covers position `i` alone.
pub proof fn lemma_distinct_keys_singletons<K: Ord>(keys: Seq<K>, start: int)
    requires
        total_order::<K>(),
        0 <= start <= keys.len() <= usize::MAX,
        forall|i: int, j: int|
            0 <= i < j < keys.len() ==> !key_eq(#[trigger] keys[i], #[trigger] keys[j]),
    ensures
        runs_from(keys, start).len() == keys.len() - start,
        forall|k: int|
            0 <= k < keys.len() - start ==> #[trigger] runs_from(keys, start)[k] == (Partition {
                start: (start + k) as usize,
                end: (start + k + 1) as usize,
                partition: keys[start + k],
            }),
    decreases keys.len() - start,
{
    if start < keys.len() {
        lemma_runs_from(keys, start);
        let end = run_end(keys, keys[start], start + 1);
        assert(end == start + 1) by {
            if start + 1 < keys.len() {
                assert(!key_eq(keys[start], keys[start + 1]));
                if key_eq(keys[start + 1], keys[start]) {
                    lemma_key_eq_symmetric(keys[start + 1], keys[start]);
                }
            }
        }
        lemma_distinct_keys_singletons(keys, start + 1);
        let runs = runs_from(keys, start);
        let rest = runs_from(keys, start + 1);
        assert(rest == runs.drop_first());
        assert(runs.len() == rest.len() + 1);
        assert forall|k: int| 0 <= k < keys.len() - start implies #[trigger] runs[k] == (Partition {
            start: (start + k) as usize,
            end: (start + k + 1) as usize,
            partition: keys[start + k],
        }) by {
            if k > 0 {
                assert(runs[k] == rest[k - 1]);
            }
        }
    }
}

/// Iterator over all continous partitions in a sorted slice.
///
/// Returned from [`partition_by`]. It is drained with [`Partitions::next`].
pub struct Partitions<K> {
    indices: Vec<(K, usize)>,
    length: usize,
    current: Option<K>,
    index: usize,
}

impl<K> Partitions<K> {
    /// The recorded length is the number of index pairs.
    #[verifier::type_invariant]
    spec fn inv(&self) -> bool {
        self.length == self.indices@.len()
    }

    /// The keys that the partitions are cut from, in their order.
    pub closed spec fn keys(&self) -> Seq<K> {
        Seq::new(self.indices@.len(), |i: int| self.indices@[i].0)
    }

    /// The position where the next partition starts: the length of the keys
    /// once all partitions were handed out.
    pub closed spec fn cursor(&self) -> int {
        self.index as int
    }

    /// The cursor lies inside the keys or at their end, and the key that is
    /// kept aside is the one at the cursor. [`Partitions::new`] and
    /// [`partition_by`] return such an iterator, and [`Partitions::next`]
    /// keeps it so.
    pub closed spec fn wf(&self) -> bool {
        &&& self.index <= self.length
        &&& self.length == self.indices@.len()
        &&& self.current == if self.index < self.length {
            Some(self.indices@[self.index as int].0)
        } else {
            None
        }
    }
}

impl<K: Ord + Copy> Partitions<K> {
    /// The partitions that are still to come.
    pub open spec fn remaining(&self) -> Seq<Partition<K>> {
        runs_from(self.keys(), self.cursor())
    }

    /// Starts at the first key of `indices`.
    pub fn new(indices: Vec<(K, usize)>) -> (partitions: Self)
        ensures
            partitions.wf(),
            partitions.cursor() == 0,
            partitions.keys().len() == indices@.len(),
            forall|i: int|
                0 <= i < indices@.len() ==> #[trigger] partitions.keys()[i] == indices@[i].0,
    {
        let length = indices.len();
        let current = if length > 0 {
            Some(indices[0].0)
        } else {
            None
        };
        Self { indices, length, current, index: 0 }
    }

    /// Moves on by one position and returns the key there. At the end of
    /// the keys and beyond it returns `None`, and still moves on.
    ///
    /// Called again and again on a new iterator it yields the keys from the
    /// second on, one per call and in their order, whatever key is kept
    /// aside.
    fn next_from_indices(&mut self) -> (key: Option<K>)
        requires
            old(self).index < usize::MAX,
        ensures
            final(self).index == old(self).index + 1,
            final(self).indices == old(self).indices,
            final(self).length == old(self).length,
            final(self).current == old(self).current,
            key == if old(self).index + 1 < old(self).length {
                Some(old(self).indices@[old(self).index + 1].0)
            } else {
                None
            },
            final(self).keys() == old(self).keys(),
            final(self).cursor() == old(self).cursor() + 1,
            key == if old(self).cursor() + 1 < old(self).keys().len() {
                Some(old(self).keys()[old(self).cursor() + 1])
            } else {
                None
            },
    {
        proof {
            use_type_invariant(&*self);
        }
        self.index += 1;
        if self.index < self.length {
            Some(self.indices[self.index].0)
        } else {
            None
        }
    }

    /// Returns the next partition: the run of equal keys at the cursor. Once
    /// the keys are used up it returns `None`, and goes on doing so.
    pub fn next(&mut self) -> (partition: Option<Partition<K>>)
        requires
            old(self).wf(),
            total_order::<K>(),
        ensures
            final(self).wf(),
            final(self).keys() == old(self).keys(),
            match partition {
                Some(p) => {
                    &&& old(self).cursor() < old(self).keys().len()
                    &&& p == run_at(old(self).keys(), old(self).cursor())
                    &&& p.start == old(self).cursor()
                    &&& p.start < p.end <= old(self).keys().len()
                    &&& final(self).cursor() == p.end
                    &&& old(self).remaining().len() > 0
                    &&& p == old(self).remaining()[0]
                    &&& final(self).remaining() == old(self).remaining().drop_first()
                },
                None => {
                    &&& old(self).cursor() == old(self).keys().len()
                    &&& final(self).cursor() == old(self).cursor()
                    &&& old(self).remaining().len() == 0
                },
            },
    {
        let start_index = self.index;

        let current = self.current?;
        self.current = None;

        let ghost keys = self.keys();
        assert(keys == old(self).keys());
        proof {
            lemma_run_end(keys, current, start_index + 1);
            lemma_runs_from(keys, start_index as int);
        }
        loop
            invariant_except_break
                start_index <= self.index < self.length,
                run_end(keys, current, self.index + 1) == run_end(keys, current, start_index + 1),
            invariant
                total_order::<K>(),
                self.indices == old(self).indices,
                self.length == old(self).length,
                self.length == self.indices@.len(),
                self.current.is_none(),
                keys == self.keys(),
                start_index == old(self).index,
                start_index == old(self).cursor(),
                current == keys[start_index as int],
            ensures
                self.index == self.length,
                run_end(keys, current, start_index + 1) == self.length,
            decreases self.length - self.index,
        {
            match self.next_from_indices() {
                Some(k) => {
                    assert(k == keys[self.index as int]);
                    if !same_key(&k, &current) {
                        self.current = Some(k);
                        assert(run_end(keys, current, self.index as int) == self.index);
                        return Some(
                            Partition { partition: current, start: start_index, end: self.index },
                        );
                    }
                    assert(run_end(keys, current, self.index as int) == run_end(
                        keys,
                        current,
                        self.index + 1,
                    ));
                },
                None => {
                    assert(run_end(keys, current, self.index as int) == self.index);
                    break ;
                },
            }
        }

        Some(Partition { partition: current, start: start_index, end: self.length })
    }
}

/// Iterator over the partitions of a shared list of buckets, each with a
/// view of its buckets.
///
/// Returned from [`partition`]. It is drained with [`BucketPartitions::next`].
pub struct BucketPartitions<T, K> {
    partitions: Partitions<K>,
    view: BucketsView<T>,
}

/// The part of `buffer` that each of `runs` covers, beside the run's key.
pub open spec fn keyed_views<T, K>(buffer: Seq<T>, runs: Seq<Partition<K>>) -> Seq<(K, Seq<T>)> {
    Seq::new(
        runs.len(),
        |i: int| (runs[i].partition, buffer.subrange(runs[i].start as int, runs[i].end as int)),
    )
}

impl<T, K: Ord + Copy> BucketPartitions<T, K> {
    /// There is one key for each bucket, and the view that the partitions
    /// are cut from covers all buckets. [`partition`] returns such an
    /// iterator, and [`BucketPartitions::next`] keeps it so.
    pub closed spec fn wf(&self) -> bool {
        &&& self.partitions.wf()
        &&& self.view.start_index() == 0
        &&& self.view.end_index() == self.view.buffer().len()
        &&& self.partitions.keys().len() == self.view.buffer().len()
    }

    /// The shared buffer: the buckets, grouped by key.
    pub closed spec fn buffer(&self) -> Seq<T> {
        self.view.buffer()
    }

    /// The keys of the buckets, each at the position of its bucket.
    pub closed spec fn keys(&self) -> Seq<K> {
        self.partitions.keys()
    }

    /// The position where the next partition starts: the length of the keys
    /// once all partitions were handed out.
    pub closed spec fn cursor(&self) -> int {
        self.partitions.cursor()
    }

    /// The keys and views that are still to come.
    pub open spec fn remaining(&self) -> Seq<(K, Seq<T>)> {
        keyed_views(self.buffer(), runs_from(self.keys(), self.cursor()))
    }

    /// Returns the next key with a view of the buckets that have it. Once
    /// all partitions were handed out it returns `None`, and goes on doing
    /// so.
    pub fn next(&mut self) -> (item: Option<(K, BucketsView<T>)>)
        requires
            old(self).wf(),
            total_order::<K>(),
        ensures
            final(self).wf(),
            final(self).keys() == old(self).keys(),
            final(self).buffer() == old(self).buffer(),
            match item {
                Some((key, view)) => {
                    let run = run_at(old(self).keys(), old(self).cursor());
                    &&& old(self).cursor() < old(self).keys().len()
                    &&& final(self).cursor() == run.end
                    &&& key == run.partition
                    &&& view.buffer() == old(self).buffer()
                    &&& view.start_index() == run.start
                    &&& view.end_index() == run.end
                    &&& old(self).remaining().len() > 0
                    &&& (key, view@) == old(self).remaining()[0]
                    &&& final(self).remaining() == old(self).remaining().drop_first()
                },
                None => {
                    &&& old(self).cursor() == old(self).keys().len()
                    &&& final(self).cursor() == old(self).cursor()
                    &&& old(self).remaining().len() == 0
                },
            },
    {
        match self.partitions.next() {
            Some(partition) => {
                proof {
                    lemma_runs_from(old(self).keys(), old(self).cursor());
                    self.view.lemma_view();
                }
                let view = self.view.clone().select(partition.start, partition.end);
                assert(self.remaining() =~= old(self).remaining().drop_first());
                Some((partition.partition, view))
            },
            None => None,
        }
    }
}

/// The elements of all `views`, one view after the other.
pub open spec fn concat_views<T, K>(views: Seq<(K, Seq<T>)>) -> Seq<T>
    decreases views.len(),
{
    if views.len() == 0 {
        Seq::empty()
    } else {
        views[0].1 + concat_views(views.drop_first())
    }
}

/// The views from `start` on hold, one after the other, the buffer from
/// `start` on: every element once, none left out.
pub proof fn lemma_views_cover_buffer<T, K: Ord>(buffer: Seq<T>, keys: Seq<K>, start: int)
    requires
        buffer.len() == keys.len(),
        0 <= start <= keys.len() <= usize::MAX,
    ensures
        concat_views(keyed_views(buffer, runs_from(keys, start))) == buffer.subrange(
            start,
            buffer.len() as int,
        ),
    decreases keys.len() - start,
{
    let views = keyed_views(buffer, runs_from(keys, start));
    if start < keys.len() {
        lemma_runs_from(keys, start);
        let end = run_end(keys, keys[start], start + 1);
        lemma_views_cover_buffer(buffer, keys, end);
        assert(views.drop_first() =~= keyed_views(buffer, runs_from(keys, end)));
        assert(views[0].1 == buffer.subrange(start, end));
        assert(buffer.subrange(start, end) + buffer.subrange(end, buffer.len() as int)
            =~= buffer.subrange(start, buffer.len() as int));
    } else {
        assert(views.len() == 0);
        assert(buffer.subrange(start, buffer.len() as int) =~= Seq::<T>::empty());
    }
}

/// Partitioning keeps the buckets: all views together hold, as a multiset,
/// the buckets that came in.
pub proof fn lemma_partition_preserves_buckets<T, K: Ord>(
    buckets: Seq<T>,
    buffer: Seq<T>,
    keys: Seq<K>,
)
    requires
        buffer.to_multiset() == buckets.to_multiset(),
        buffer.len() == keys.len(),
        keys.len() <= usize::MAX,
    ensures
        concat_views(keyed_views(buffer, runs_from(keys, 0))).to_multiset()
            == buckets.to_multiset(),
{
    lemma_views_cover_buffer(buffer, keys, 0);
    assert(buffer.subrange(0, buffer.len() as int) =~= buffer);
}

/// Every bucket in a view has the view's key: the key that the partition
/// function returned for it compares as equal to the key of the view.
pub proof fn lemma_views_homogeneous<T, K: Ord, F: Fn(&T) -> K>(
    f: F,
    buffer: Seq<T>,
    keys: Seq<K>,
)
    requires
        total_order::<K>(),
        buffer.len() == keys.len(),
        keys.len() <= usize::MAX,
        forall|p: int|
            0 <= p < buffer.len() ==> call_ensures(f, (&#[trigger] buffer[p],), keys[p]),
    ensures
        forall|k: int, j: int|
            #![trigger keyed_views(buffer, runs_from(keys, 0))[k].1[j]]
            0 <= k < runs_from(keys, 0).len() && 0 <= j < runs_from(keys, 0)[k].end - runs_from(
                keys,
                0,
            )[k].start ==> {
                let (key, view) = keyed_views(buffer, runs_from(keys, 0))[k];
                let p = runs_from(keys, 0)[k].start + j;
                &&& view[j] == buffer[p]
                &&& call_ensures(f, (&view[j],), keys[p])
                &&& key_eq(keys[p], key)
            },
{
    lemma_runs_tile(keys, 0);
    lemma_runs_homogeneous(keys, 0);
    let runs = runs_from(keys, 0);
    assert forall|k: int, j: int|
        #![trigger keyed_views(buffer, runs)[k].1[j]]
        0 <= k < runs.len() && 0 <= j < runs[k].end - runs[k].start implies {
        let (key, view) = keyed_views(buffer, runs)[k];
        let p = runs[k].start + j;
        &&& view[j] == buffer[p]
        &&& call_ensures(f, (&view[j],), keys[p])
        &&& key_eq(keys[p], key)
    } by {
        let p = runs[k].start + j;
        assert(call_ensures(f, (&buffer[p],), keys[p]));
        assert(key_eq(keys[p], runs[k].partition));
    }
}

/// Where the partition function gives no two buckets keys that compare as
/// equal, every bucket gets a partition of its own: there are as many
/// partitions as buckets, the partition at `i` covers position `i` alone,
/// and the keys ascend strictly.
pub proof fn lemma_distinct_buckets_singletons<T, K: Ord, F: Fn(&T) -> K>(
    f: F,
    buckets: Seq<T>,
    buffer: Seq<T>,
    keys: Seq<K>,
)
    requires
        total_order::<K>(),
        keys.len() <= usize::MAX,
        keys_sorted(keys),
        exists|from: Seq<int>| stable_rearrangement(buckets, buffer, keys, from),
        forall|p: int|
            0 <= p < buffer.len() ==> call_ensures(f, (&#[trigger] buffer[p],), keys[p]),
        forall|i: int, j: int, a: K, b: K|
            0 <= i < j < buckets.len() && #[trigger] call_ensures(f, (&buckets[i],), a)
                && #[trigger] call_ensures(f, (&buckets[j],), b) ==> !key_eq(a, b) && !key_eq(
                b,
                a,
            ),
    ensures
        runs_from(keys, 0).len() == buckets.len(),
        forall|k: int|
            0 <= k < buckets.len() ==> #[trigger] runs_from(keys, 0)[k] == (Partition {
                start: k as usize,
                end: (k + 1) as usize,
                partition: keys[k],
            }),
        forall|a: int, b: int|
            0 <= a < b < buckets.len() ==> key_lt(#[trigger] keys[a], #[trigger] keys[b]),
{
    let from = choose|from: Seq<int>| stable_rearrangement(buckets, buffer, keys, from);
    assert forall|p: int, q: int| 0 <= p < q < keys.len() implies !key_eq(
        #[trigger] keys[p],
        #[trigger] keys[q],
    ) by {
        assert(from[p] != from[q]);
        assert(buffer[p] == buckets[from[p]]);
        assert(buffer[q] == buckets[from[q]]);
        assert(call_ensures(f, (&buffer[p],), keys[p]));
        assert(call_ensures(f, (&buffer[q],), keys[q]));
        if from[p] < from[q] {
            assert(call_ensures(f, (&buckets[from[p]],), keys[p]));
            assert(call_ensures(f, (&buckets[from[q]],), keys[q]));
        } else {
            assert(call_ensures(f, (&buckets[from[q]],), keys[q]));
            assert(call_ensures(f, (&buckets[from[p]],), keys[p]));
        }
    }
    lemma_distinct_keys_singletons(keys, 0);
    assert forall|a: int, b: int| 0 <= a < b < buckets.len() implies key_lt(
        #[trigger] keys[a],
        #[trigger] keys[b],
    ) by {
        assert(key_le(keys[a], keys[b]));
        assert(!key_eq(keys[a], keys[b]));
    }
}

/// Partitions a list of buckets using the provided partition function.
///
/// This returns an iterator of bucket views all sharing one allocation.
///
/// `f` is called once for each bucket. The buckets are grouped by the keys
/// it returned and then shared: the buffer holds the buckets that came in,
/// the keys stand in ascending order, and the key at each position is the
/// one that `f` returned for the bucket there. Buckets with equal keys keep
/// their order.
pub fn partition<T, K, F>(buckets: Vec<T>, f: F) -> (partitions: BucketPartitions<T, K>) where
    K: Ord + Copy,
    F: Fn(&T) -> K,

    requires
        total_order::<K>(),
        forall|i: int| 0 <= i < buckets@.len() ==> call_requires(f, (&#[trigger] buckets@[i],)),
    ensures
        partitions.wf(),
        partitions.cursor() == 0,
        partitions.keys().len() == buckets@.len(),
        keys_sorted(partitions.keys()),
        partitions.buffer().len() == buckets@.len(),
        partitions.buffer().to_multiset() == buckets@.to_multiset(),
        forall|p: int|
            0 <= p < buckets@.len() ==> call_ensures(
                f,
                (&#[trigger] partitions.buffer()[p],),
                partitions.keys()[p],
            ),
        exists|from: Seq<int>|
            stable_rearrangement(buckets@, partitions.buffer(), partitions.keys(), from),
        buckets@.len() == 0 ==> partitions.remaining().len() == 0,
{
    let ghost before = buckets@;
    let mut buckets = buckets;
    let partitions = partition_by(buckets.as_mut_slice(), f);
    let ghost from = choose|from: Seq<int>|
        stable_rearrangement(before, buckets@, partitions.keys(), from);

    let view = BucketsView::new(Arc::new(buckets));
    let partitions = BucketPartitions { partitions, view };
    assert(stable_rearrangement(before, partitions.buffer(), partitions.keys(), from));
    partitions
}

} // verus!
