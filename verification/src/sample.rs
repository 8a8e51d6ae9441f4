//! Sample profiles: the checks a profile has to pass and the clean-up it
//! gets before it is forwarded.
//!
//! A profile arrives with its samples, stacks and frames. Samples outside of
//! the transaction, idle samples at either end and samples that are alone on
//! their thread are dropped. What is left has to refer to stacks and frames
//! that exist, and metadata of threads and queues without samples is removed.

use crate::permutation::swap_elements;
use crate::text::{decimal, decimal_string, same_text};
use std::collections::HashMap;
use vstd::prelude::*;

verus! {

/// The reasons for which a profile is refused.
#[derive(Debug, Clone, Copy, PartialEq, Eq)]
pub enum ProfileError {
    /// The payload is not valid JSON, or not a profile.
    InvalidJson,
    /// Metadata that the platform requires is missing.
    MissingProfileMetadata,
    /// The profile belongs to no transaction.
    NoTransactionAssociated,
    /// The transaction of the profile is not valid.
    InvalidTransactionMetadata,
    /// No sample is left after the clean-up.
    NotEnoughSamples,
    /// A sample refers to a stack that does not exist.
    MalformedSamples,
    /// A stack refers to a frame that does not exist.
    MalformedStacks,
    /// The cleaned profile cannot be written out.
    CannotSerializePayload,
}

/// A frame of a stack.
#[derive(Debug, Clone, PartialEq, Eq)]
pub struct Frame {
    pub abs_path: Option<String>,
    pub colno: Option<u32>,
    pub filename: Option<String>,
    pub function: Option<String>,
    pub in_app: Option<bool>,
    pub instruction_addr: Option<u64>,
    pub lineno: Option<u32>,
    pub module: Option<String>,
}

impl Frame {
    /// Clears the bits of the instruction address that `pac_code` does not
    /// hold.
    pub fn strip_pointer_authentication_code(&mut self, pac_code: u64)
        ensures
            *final(self) == old(self).stripped(pac_code),
    {
        if let Some(address) = self.instruction_addr {
            self.instruction_addr = Some(address & pac_code);
        }
    }

    /// This frame with the instruction address masked by `pac_code`.
    pub open spec fn stripped(self, pac_code: u64) -> Frame {
        Frame {
            instruction_addr: match self.instruction_addr {
                Some(address) => Some(address & pac_code),
                None => None,
            },
            ..self
        }
    }
}

/// A stack sampled on a thread at a point in time.
#[derive(Debug, Clone, PartialEq, Eq)]
pub struct Sample {
    pub stack_id: usize,
    pub thread_id: u64,
    pub elapsed_since_start_ns: u64,
    /// The address of the dispatch queue; cocoa only.
    pub queue_address: Option<String>,
}

/// What is known about a thread.
#[derive(Debug, Clone, PartialEq, Eq)]
pub struct ThreadMetadata {
    pub name: Option<String>,
    pub priority: Option<u32>,
}

/// What is known about a dispatch queue.
#[derive(Debug, Clone, PartialEq, Eq)]
pub struct QueueMetadata {
    pub label: String,
}

/// The bits of an instruction address on 64-bit ARM that are the address
/// itself; the others may hold a pointer authentication code.
pub const ARM64_ADDRESS_BITS: u64 = 0x0000000FFFFFFFFF;

/// Samples with the stacks and frames they refer to.
///
/// Thread and queue metadata are lists of entries, each under the key it
/// has in the payload: the thread id in decimal digits, and the address of
/// the queue. A payload holds no key twice;
/// [`Profile::metadata_keys_distinct`] says so of a profile, and the
/// clean-up keeps it.
#[derive(Debug, Clone, PartialEq, Eq)]
pub struct Profile {
    pub samples: Vec<Sample>,
    pub stacks: Vec<Vec<usize>>,
    pub frames: Vec<Frame>,
    pub thread_metadata: Option<Vec<(String, ThreadMetadata)>>,
    /// Cocoa only.
    pub queue_metadata: Option<Vec<(String, QueueMetadata)>>,
}

/// Pointer authentication codes are stripped on this platform and
/// architecture.
pub open spec fn has_authentication_codes(platform: Seq<char>, architecture: Seq<char>) -> bool {
    platform == "cocoa"@ && (architecture == "arm64"@ || architecture == "arm64e"@)
}

impl Profile {
    /// Strips pointer authentication codes from the instruction addresses
    /// of all frames, on the platforms that use them.
    pub fn strip_pointer_authentication_code(&mut self, platform: &str, architecture: &str)
        ensures
            final(self).samples == old(self).samples,
            final(self).stacks == old(self).stacks,
            final(self).thread_metadata == old(self).thread_metadata,
            final(self).queue_metadata == old(self).queue_metadata,
            final(self).frames@.len() == old(self).frames@.len(),
            forall|i: int|
                0 <= i < old(self).frames@.len() ==> #[trigger] final(self).frames@[i] == (
                if has_authentication_codes(platform@, architecture@) {
                    old(self).frames@[i].stripped(ARM64_ADDRESS_BITS)
                } else {
                    old(self).frames@[i]
                }),
    {
        let addr: u64 = if same_text(platform, "cocoa") && (same_text(architecture, "arm64")
            || same_text(architecture, "arm64e")) {
            ARM64_ADDRESS_BITS
        } else {
            return ;
        };
        let mut i: usize = 0;
        while i < self.frames.len()
            invariant
                addr == ARM64_ADDRESS_BITS,
                self.samples == old(self).samples,
                self.stacks == old(self).stacks,
                self.thread_metadata == old(self).thread_metadata,
                self.queue_metadata == old(self).queue_metadata,
                self.frames@.len() == old(self).frames@.len(),
                i <= self.frames@.len(),
                forall|j: int|
                    0 <= j < i ==> #[trigger] self.frames@[j] == old(self).frames@[j].stripped(
                        addr,
                    ),
                forall|j: int|
                    i <= j < self.frames@.len() ==> #[trigger] self.frames@[j] == old(self).frames@[j],
            decreases self.frames@.len() - i,
        {
            self.frames[i].strip_pointer_authentication_code(addr);
            i += 1;
        }
    }
}

/// The elements of `items` whose mark in `keep` is set, in their order.
pub open spec fn marked<T>(items: Seq<T>, keep: Seq<bool>) -> Seq<T>
    decreases items.len(),
{
    if items.len() == 0 {
        Seq::empty()
    } else {
        let rest = marked(items.drop_last(), keep.drop_last());
        if keep.last() {
            rest.push(items.last())
        } else {
            rest
        }
    }
}

/// The marked elements are the elements of `items` at the marked
/// positions, each once and in ascending order of position. The lemma
/// returns the position that each of them comes from.
pub proof fn lemma_marked<T>(items: Seq<T>, keep: Seq<bool>) -> (at: Seq<int>)
    requires
        keep.len() == items.len(),
    ensures
        at.len() == marked(items, keep).len(),
        forall|k: int|
            0 <= k < at.len() ==> 0 <= #[trigger] at[k] < items.len() && keep[at[k]] && marked(
                items,
                keep,
            )[k] == items[at[k]],
        forall|k: int, l: int| 0 <= k < l < at.len() ==> #[trigger] at[k] < #[trigger] at[l],
        forall|i: int|
            0 <= i < items.len() && #[trigger] keep[i] ==> exists|k: int|
                0 <= k < at.len() && #[trigger] at[k] == i,
    decreases items.len(),
{
    if items.len() == 0 {
        Seq::empty()
    } else {
        let shorter = lemma_marked(items.drop_last(), keep.drop_last());
        let last = items.len() - 1;
        let at = if keep.last() {
            shorter.push(last)
        } else {
            shorter
        };
        assert forall|k: int| 0 <= k < at.len() implies 0 <= #[trigger] at[k] < items.len()
            && keep[at[k]] && marked(items, keep)[k] == items[at[k]] by {
            if k < shorter.len() {
                assert(at[k] == shorter[k]);
                assert(keep.drop_last()[shorter[k]] == keep[shorter[k]]);
                assert(items.drop_last()[shorter[k]] == items[shorter[k]]);
            }
        }
        assert forall|k: int, l: int| 0 <= k < l < at.len() implies #[trigger] at[k]
            < #[trigger] at[l] by {
            assert(at[k] == shorter[k]);
            if l < shorter.len() {
                assert(at[l] == shorter[l]);
            }
        }
        assert forall|i: int| 0 <= i < items.len() && #[trigger] keep[i] implies exists|k: int|
            0 <= k < at.len() && #[trigger] at[k] == i by {
            if i < last {
                assert(keep.drop_last()[i]);
                let k = choose|k: int| 0 <= k < shorter.len() && #[trigger] shorter[k] == i;
                assert(at[k] == i);
            } else {
                assert(at[at.len() - 1] == i);
            }
        }
        at
    }
}

/// No key occurs in two entries.
pub open spec fn keys_distinct<V>(entries: Seq<(String, V)>) -> bool {
    forall|i: int, j: int|
        0 <= i < j < entries.len() ==> (#[trigger] entries[i]).0@ != (#[trigger] entries[j]).0@
}

/// Dropping entries leaves no key twice where none was there twice.
pub proof fn lemma_marked_keys_distinct<V>(entries: Seq<(String, V)>, keep: Seq<bool>)
    requires
        keep.len() == entries.len(),
        keys_distinct(entries),
    ensures
        keys_distinct(marked(entries, keep)),
{
    let at = lemma_marked(entries, keep);
    let kept = marked(entries, keep);
    assert forall|i: int, j: int| 0 <= i < j < kept.len() implies (#[trigger] kept[i]).0@ != (
    #[trigger] kept[j]).0@ by {
        assert(at[i] < at[j]);
        assert(kept[i] == entries[at[i]]);
        assert(kept[j] == entries[at[j]]);
    }
}

/// Drops the elements of `items` whose mark in `keep` is not set. The
/// others move up and keep their order.
pub fn retain_marked<T>(items: &mut Vec<T>, keep: &Vec<bool>)
    requires
        keep@.len() == old(items)@.len(),
    ensures
        final(items)@ == marked(old(items)@, keep@),
{
    let n = items.len();
    let mut kept: usize = 0;
    let mut i: usize = 0;
    while i < n
        invariant
            n == old(items)@.len(),
            items@.len() == n,
            keep@.len() == n,
            kept <= i <= n,
            items@.take(kept as int) == marked(old(items)@.take(i as int), keep@.take(i as int)),
            forall|j: int| i <= j < n ==> items@[j] == old(items)@[j],
        decreases n - i,
    {
        let ghost before = items@;
        proof {
            assert(old(items)@.take(i + 1).drop_last() =~= old(items)@.take(i as int));
            assert(keep@.take(i + 1).drop_last() =~= keep@.take(i as int));
        }
        if keep[i] {
            swap_elements(items.as_mut_slice(), kept, i);
            assert(items@.take(kept + 1) =~= before.take(kept as int).push(old(items)@[i as int]));
            kept += 1;
        } else {
            assert(items@.take(kept as int) =~= before.take(kept as int));
        }
        i += 1;
    }
    items.truncate(kept);
    proof {
        assert(old(items)@.take(n as int) =~= old(items)@);
        assert(keep@.take(n as int) =~= keep@);
        assert(items@ =~= marked(old(items)@, keep@));
    }
}

/// The number of samples in `samples` that were taken on thread `thread_id`.
pub open spec fn thread_count(samples: Seq<Sample>, thread_id: u64) -> nat
    decreases samples.len(),
{
    if samples.len() == 0 {
        0
    } else {
        thread_count(samples.drop_last(), thread_id) + if samples.last().thread_id == thread_id {
            1nat
        } else {
            0nat
        }
    }
}

/// A thread has no more samples than there are.
proof fn lemma_thread_count_bound(samples: Seq<Sample>, thread_id: u64)
    ensures
        thread_count(samples, thread_id) <= samples.len(),
    decreases samples.len(),
{
    if samples.len() > 0 {
        lemma_thread_count_bound(samples.drop_last(), thread_id);
    }
}

/// The samples that share their thread with another sample.
pub open spec fn without_single_samples(samples: Seq<Sample>) -> Seq<Sample> {
    marked(
        samples,
        Seq::new(samples.len(), |i: int| thread_count(samples, samples[i].thread_id) > 1),
    )
}

/// The sample refers to a stack that exists and has frames.
pub open spec fn is_active(sample: Sample, stacks: Seq<Vec<usize>>) -> bool {
    sample.stack_id < stacks.len() && stacks[sample.stack_id as int]@.len() > 0
}

/// No sample among the first `end` of `samples` is active.
pub open spec fn idle_before(samples: Seq<Sample>, stacks: Seq<Vec<usize>>, end: int) -> bool {
    forall|i: int| 0 <= i < end && i < samples.len() ==> !is_active(#[trigger] samples[i], stacks)
}

/// No sample of `samples` from `start` on is active.
pub open spec fn idle_from(samples: Seq<Sample>, stacks: Seq<Vec<usize>>, start: int) -> bool {
    forall|i: int| start <= i < samples.len() ==> !is_active(#[trigger] samples[i], stacks)
}

/// `after` is `before` without the idle samples at its two ends: it runs
/// from the first active sample to the last. Where no sample is active,
/// `after` is all of `before`.
pub open spec fn is_trimmed(before: Seq<Sample>, stacks: Seq<Vec<usize>>, after: Seq<Sample>) -> bool {
    if idle_from(before, stacks, 0) {
        after == before
    } else {
        exists|first: int, last: int|
            {
                &&& 0 <= first <= last < before.len()
                &&& is_active(before[first], stacks)
                &&& is_active(before[last], stacks)
                &&& idle_before(before, stacks, first)
                &&& idle_from(before, stacks, last + 1)
                &&& #[trigger] before.subrange(first, last + 1) == after
            }
    }
}

/// The position of the first active sample, if there is one.
fn first_active(samples: &Vec<Sample>, stacks: &Vec<Vec<usize>>) -> (position: Option<usize>)
    ensures
        match position {
            Some(first) => first < samples@.len() && is_active(samples@[first as int], stacks@)
                && idle_before(samples@, stacks@, first as int),
            None => idle_from(samples@, stacks@, 0),
        },
{
    let mut i: usize = 0;
    while i < samples.len()
        invariant
            i <= samples@.len(),
            idle_before(samples@, stacks@, i as int),
        decreases samples@.len() - i,
    {
        let stack_id = samples[i].stack_id;
        if stack_id < stacks.len() && !stacks[stack_id].is_empty() {
            return Some(i);
        }
        i += 1;
    }
    None
}

/// The position of the last active sample, if there is one.
fn last_active(samples: &Vec<Sample>, stacks: &Vec<Vec<usize>>) -> (position: Option<usize>)
    ensures
        match position {
            Some(last) => last < samples@.len() && is_active(samples@[last as int], stacks@)
                && idle_from(samples@, stacks@, last + 1),
            None => idle_from(samples@, stacks@, 0),
        },
{
    let mut i: usize = samples.len();
    while i > 0
        invariant
            i <= samples@.len(),
            idle_from(samples@, stacks@, i as int),
        decreases i,
    {
        let stack_id = samples[i - 1].stack_id;
        if stack_id < stacks.len() && !stacks[stack_id].is_empty() {
            return Some(i - 1);
        }
        i -= 1;
    }
    None
}

/// A sample was taken on the thread that `key` names in decimal digits.
pub open spec fn thread_has_samples(samples: Seq<Sample>, key: Seq<char>) -> bool {
    exists|i: int| 0 <= i < samples.len() && decimal((#[trigger] samples[i]).thread_id as nat) == key
}

/// A sample was taken on the queue with the address `key`.
pub open spec fn queue_has_samples(samples: Seq<Sample>, key: Seq<char>) -> bool {
    exists|i: int|
        0 <= i < samples.len() && (#[trigger] samples[i]).queue_address.is_some()
            && samples[i].queue_address.unwrap()@ == key
}

/// The thread metadata of the threads that have samples.
pub open spec fn used_thread_metadata(
    entries: Seq<(String, ThreadMetadata)>,
    samples: Seq<Sample>,
) -> Seq<(String, ThreadMetadata)> {
    marked(entries, Seq::new(entries.len(), |j: int| thread_has_samples(samples, entries[j].0@)))
}

/// The queue metadata of the queues that have samples.
pub open spec fn used_queue_metadata(
    entries: Seq<(String, QueueMetadata)>,
    samples: Seq<Sample>,
) -> Seq<(String, QueueMetadata)> {
    marked(entries, Seq::new(entries.len(), |j: int| queue_has_samples(samples, entries[j].0@)))
}

/// Tells whether one of `ids` is `key`.
fn contains_text(ids: &Vec<String>, key: &String) -> (found: bool)
    ensures
        found == exists|i: int| 0 <= i < ids@.len() && (#[trigger] ids@[i])@ == key@,
{
    let mut i: usize = 0;
    while i < ids.len()
        invariant
            i <= ids@.len(),
            forall|j: int| 0 <= j < i ==> (#[trigger] ids@[j])@ != key@,
        decreases ids@.len() - i,
    {
        if ids[i] == *key {
            return true;
        }
        i += 1;
    }
    false
}

/// Tells whether a sample was taken on the queue with the address `key`.
fn queue_in_samples(samples: &Vec<Sample>, key: &String) -> (found: bool)
    ensures
        found == queue_has_samples(samples@, key@),
{
    let mut i: usize = 0;
    while i < samples.len()
        invariant
            i <= samples@.len(),
            forall|j: int|
                0 <= j < i ==> !((#[trigger] samples@[j]).queue_address.is_some()
                    && samples@[j].queue_address.unwrap()@ == key@),
        decreases samples@.len() - i,
    {
        if let Some(queue_address) = &samples[i].queue_address {
            if *queue_address == *key {
                return true;
            }
        }
        i += 1;
    }
    false
}

impl Profile {
    /// No thread and no queue has two entries of metadata.
    pub open spec fn metadata_keys_distinct(&self) -> bool {
        &&& self.thread_metadata matches Some(entries) ==> keys_distinct(entries@)
        &&& self.queue_metadata matches Some(entries) ==> keys_distinct(entries@)
    }

    /// Removes a sample when it's the only sample on its thread
    pub fn remove_single_samples_per_thread(&mut self)
        ensures
            final(self).samples@ == without_single_samples(old(self).samples@),
            final(self).stacks == old(self).stacks,
            final(self).frames == old(self).frames,
            final(self).thread_metadata == old(self).thread_metadata,
            final(self).queue_metadata == old(self).queue_metadata,
    {
        broadcast use vstd::std_specs::hash::group_hash_axioms;

        let n = self.samples.len();
        let mut sample_count_by_thread_id: HashMap<u64, usize> = HashMap::new();
        let mut i: usize = 0;
        while i < n
            invariant
                i <= n,
                n == self.samples@.len(),
                *self == *old(self),
                forall|thread_id: u64|
                    sample_count_by_thread_id@.contains_key(thread_id)
                        ==> #[trigger] sample_count_by_thread_id@[thread_id]
                        == thread_count(self.samples@.take(i as int), thread_id),
                forall|thread_id: u64|
                    !sample_count_by_thread_id@.contains_key(thread_id) ==> #[trigger] thread_count(
                        self.samples@.take(i as int),
                        thread_id,
                    ) == 0,
            decreases n - i,
        {
            let thread_id = self.samples[i].thread_id;
            let count = match sample_count_by_thread_id.get(&thread_id) {
                Some(count) => *count,
                None => 0,
            };
            proof {
                lemma_thread_count_bound(self.samples@.take(i as int), thread_id);
                assert(self.samples@.take(i + 1).drop_last() =~= self.samples@.take(i as int));
                assert forall|other: u64| #[trigger]
                    thread_count(self.samples@.take(i + 1), other) == thread_count(
                        self.samples@.take(i as int),
                        other,
                    ) + if other == thread_id {
                        1nat
                    } else {
                        0nat
                    } by {}
            }
            sample_count_by_thread_id.insert(thread_id, count + 1);
            i += 1;
        }
        assert(self.samples@.take(n as int) =~= self.samples@);

        // Only keep data from threads with more than 1 sample so we can calculate a duration
        let mut keep: Vec<bool> = Vec::with_capacity(n);
        let mut i: usize = 0;
        while i < n
            invariant
                i <= n,
                n == self.samples@.len(),
                *self == *old(self),
                keep@.len() == i,
                forall|thread_id: u64|
                    sample_count_by_thread_id@.contains_key(thread_id)
                        ==> #[trigger] sample_count_by_thread_id@[thread_id]
                        == thread_count(self.samples@, thread_id),
                forall|thread_id: u64|
                    !sample_count_by_thread_id@.contains_key(thread_id) ==> #[trigger] thread_count(
                        self.samples@,
                        thread_id,
                    ) == 0,
                forall|j: int|
                    0 <= j < i ==> #[trigger] keep@[j] == (thread_count(
                        self.samples@,
                        self.samples@[j].thread_id,
                    ) > 1),
            decreases n - i,
        {
            let thread_id = self.samples[i].thread_id;
            let count = match sample_count_by_thread_id.get(&thread_id) {
                Some(count) => *count,
                None => 0,
            };
            keep.push(count > 1);
            i += 1;
        }
        assert(keep@ =~= Seq::new(
            self.samples@.len(),
            |i: int| thread_count(self.samples@, self.samples@[i].thread_id) > 1,
        ));
        retain_marked(&mut self.samples, &keep);
    }

    /// Removes the samples without frames in front of the first sample that
    /// has frames and behind the last one. Where no sample has frames, all
    /// samples stay.
    pub fn remove_idle_samples_at_the_edge(&mut self)
        ensures
            is_trimmed(old(self).samples@, old(self).stacks@, final(self).samples@),
            final(self).stacks == old(self).stacks,
            final(self).frames == old(self).frames,
            final(self).thread_metadata == old(self).thread_metadata,
            final(self).queue_metadata == old(self).queue_metadata,
    {
        let ghost before = self.samples@;
        let ghost stacks = self.stacks@;
        if let Some(start) = first_active(&self.samples, &self.stacks) {
            let tail = self.samples.split_off(start);
            self.samples = tail;
            proof {
                assert forall|i: int| 0 <= i < self.samples@.len() implies #[trigger] self.samples@[i]
                    == before[start + i] by {}
            }
            match last_active(&self.samples, &self.stacks) {
                Some(end) => {
                    assert(end < self.samples.len());
                    self.samples.truncate(end + 1);
                    proof {
                        let first = start as int;
                        let last = start + end;
                        assert(self.samples@ =~= before.subrange(first, last + 1));
                        assert(is_active(before[first], stacks));
                        assert(is_active(before[last], stacks));
                        assert forall|i: int| last + 1 <= i < before.len() implies !is_active(
                            #[trigger] before[i],
                            stacks,
                        ) by {
                            assert(before[i] == before.subrange(first, before.len() as int)[i
                                - first]);
                        }
                        assert(!idle_from(before, stacks, 0));
                    }
                },
                None => {
                    proof {
                        assert(is_active(self.samples@[0], stacks));
                        assert(false);
                    }
                },
            }
        }
    }

    /// Removes the metadata of threads that have no sample.
    pub fn cleanup_thread_metadata(&mut self)
        ensures
            final(self).samples == old(self).samples,
            final(self).stacks == old(self).stacks,
            final(self).frames == old(self).frames,
            final(self).queue_metadata == old(self).queue_metadata,
            match old(self).thread_metadata {
                Some(entries) => final(self).thread_metadata.is_some()
                    && final(self).thread_metadata.unwrap()@ == used_thread_metadata(
                    entries@,
                    old(self).samples@,
                ),
                None => final(self).thread_metadata.is_none(),
            },
            old(self).metadata_keys_distinct() ==> final(self).metadata_keys_distinct(),
    {
        if let Some(thread_metadata) = &mut self.thread_metadata {
            let mut thread_ids: Vec<String> = Vec::new();
            let mut i: usize = 0;
            while i < self.samples.len()
                invariant
                    i <= self.samples@.len(),
                    self.samples == old(self).samples,
                    thread_ids@.len() == i,
                    forall|j: int|
                        0 <= j < i ==> (#[trigger] thread_ids@[j])@ == decimal(
                            self.samples@[j].thread_id as nat,
                        ),
                decreases self.samples@.len() - i,
            {
                thread_ids.push(decimal_string(self.samples[i].thread_id));
                i += 1;
            }
            let ghost entries = thread_metadata@;
            let mut keep: Vec<bool> = Vec::new();
            let mut j: usize = 0;
            while j < thread_metadata.len()
                invariant
                    j <= thread_metadata@.len(),
                    thread_metadata@ == entries,
                    self.samples == old(self).samples,
                    thread_ids@.len() == self.samples@.len(),
                    forall|k: int|
                        0 <= k < thread_ids@.len() ==> (#[trigger] thread_ids@[k])@ == decimal(
                            self.samples@[k].thread_id as nat,
                        ),
                    keep@.len() == j,
                    forall|k: int|
                        0 <= k < j ==> #[trigger] keep@[k] == thread_has_samples(
                            self.samples@,
                            entries[k].0@,
                        ),
                decreases thread_metadata@.len() - j,
            {
                let found = contains_text(&thread_ids, &thread_metadata[j].0);
                proof {
                    let key = entries[j as int].0@;
                    if found {
                        let k = choose|k: int|
                            0 <= k < thread_ids@.len() && (#[trigger] thread_ids@[k])@ == key;
                        assert(decimal(self.samples@[k].thread_id as nat) == key);
                    }
                    if thread_has_samples(self.samples@, key) {
                        let k = choose|k: int|
                            0 <= k < self.samples@.len() && decimal(
                                (#[trigger] self.samples@[k]).thread_id as nat,
                            ) == key;
                        assert(thread_ids@[k]@ == key);
                    }
                }
                keep.push(found);
                j += 1;
            }
            assert(keep@ =~= Seq::new(
                entries.len(),
                |j: int| thread_has_samples(self.samples@, entries[j].0@),
            ));
            proof {
                if keys_distinct(entries) {
                    lemma_marked_keys_distinct(entries, keep@);
                }
            }
            retain_marked(thread_metadata, &keep);
        }
    }

    /// Removes the metadata of queues that have no sample.
    pub fn cleanup_queue_metadata(&mut self)
        ensures
            final(self).samples == old(self).samples,
            final(self).stacks == old(self).stacks,
            final(self).frames == old(self).frames,
            final(self).thread_metadata == old(self).thread_metadata,
            match old(self).queue_metadata {
                Some(entries) => final(self).queue_metadata.is_some()
                    && final(self).queue_metadata.unwrap()@ == used_queue_metadata(
                    entries@,
                    old(self).samples@,
                ),
                None => final(self).queue_metadata.is_none(),
            },
            old(self).metadata_keys_distinct() ==> final(self).metadata_keys_distinct(),
    {
        if let Some(queue_metadata) = &mut self.queue_metadata {
            let ghost entries = queue_metadata@;
            let mut keep: Vec<bool> = Vec::new();
            let mut j: usize = 0;
            while j < queue_metadata.len()
                invariant
                    j <= queue_metadata@.len(),
                    queue_metadata@ == entries,
                    self.samples == old(self).samples,
                    keep@.len() == j,
                    forall|k: int|
                        0 <= k < j ==> #[trigger] keep@[k] == queue_has_samples(
                            self.samples@,
                            entries[k].0@,
                        ),
                decreases queue_metadata@.len() - j,
            {
                keep.push(queue_in_samples(&self.samples, &queue_metadata[j].0));
                j += 1;
            }
            assert(keep@ =~= Seq::new(
                entries.len(),
                |j: int| queue_has_samples(self.samples@, entries[j].0@),
            ));
            proof {
                if keys_distinct(entries) {
                    lemma_marked_keys_distinct(entries, keep@);
                }
            }
            retain_marked(queue_metadata, &keep);
        }
    }
}

/// What is known about the operating system.
#[derive(Debug, Clone, PartialEq, Eq)]
pub struct OSMetadata {
    pub name: String,
    pub version: String,
    pub build_number: Option<String>,
}

/// What is known about the runtime.
#[derive(Debug, Clone, PartialEq, Eq)]
pub struct RuntimeMetadata {
    pub name: String,
    pub version: String,
}

/// What is known about the device.
#[derive(Debug, Clone, PartialEq, Eq)]
pub struct DeviceMetadata {
    pub architecture: String,
    pub is_emulator: Option<bool>,
    pub locale: Option<String>,
    pub manufacturer: Option<String>,
    pub model: Option<String>,
}

/// The version of the profile format.
#[derive(Debug, Clone, Copy, PartialEq, Eq)]
pub enum Version {
    Unknown,
    V1,
}

impl Default for Version {
    fn default() -> (version: Self)
        ensures
            version == Version::Unknown,
    {
        Version::Unknown
    }
}

/// The identifier of an event or a trace: 128 bits, written as a UUID.
#[derive(Debug, Clone, Copy, PartialEq, Eq)]
pub struct EventId(pub u128);

impl EventId {
    /// Returns whether this is the nil identifier, the one with all bits
    /// set to zero.
    pub fn is_nil(&self) -> (nil: bool)
        ensures
            nil == (self.0 == 0),
    {
        self.0 == 0
    }
}

/// The transaction that a profile was taken during.
#[derive(Debug, Clone, PartialEq, Eq)]
pub struct TransactionMetadata {
    pub id: EventId,
    pub name: String,
    pub trace_id: EventId,
    pub relative_start_ns: u64,
    pub relative_end_ns: u64,
    pub relative_cpu_start_ms: u64,
    pub relative_cpu_end_ms: u64,
    pub active_thread_id: u64,
}

impl TransactionMetadata {
    /// The transaction is identified and named, and it ends after it
    /// starts.
    pub open spec fn is_valid(&self) -> bool {
        &&& self.id.0 != 0
        &&& self.trace_id.0 != 0
        &&& self.name@.len() > 0
        &&& self.relative_start_ns < self.relative_end_ns
        &&& self.relative_cpu_start_ms <= self.relative_cpu_end_ms
    }

    /// Returns whether the transaction is identified and named and ends
    /// after it starts.
    pub fn valid(&self) -> (valid: bool)
        ensures
            valid == self.is_valid(),
    {
        !self.id.is_nil() && !self.trace_id.is_nil() && self.name.as_str().unicode_len() > 0
            && self.relative_start_ns < self.relative_end_ns && self.relative_cpu_start_ms
            <= self.relative_cpu_end_ms
    }

    /// The sample was taken while the transaction ran, its two ends
    /// included. A transaction that ends at zero has no known end and takes
    /// every sample.
    pub open spec fn covers(&self, sample: Sample) -> bool {
        self.relative_end_ns > 0 ==> self.relative_start_ns <= sample.elapsed_since_start_ns
            <= self.relative_end_ns
    }
}

/// The samples that were taken while `transaction` ran.
pub open spec fn within_transaction(
    samples: Seq<Sample>,
    transaction: TransactionMetadata,
) -> Seq<Sample> {
    marked(samples, Seq::new(samples.len(), |i: int| transaction.covers(samples[i])))
}

/// A point in time: seconds and nanoseconds since the Unix epoch.
#[derive(Debug, Clone, Copy, PartialEq, Eq)]
pub struct Timestamp {
    pub secs: i64,
    pub nanos: u32,
}

/// A profile of samples with the transaction and the device it was taken
/// on.
#[derive(Debug, Clone, PartialEq, Eq)]
pub struct SampleProfile {
    pub version: Version,
    pub device: DeviceMetadata,
    pub os: OSMetadata,
    pub runtime: Option<RuntimeMetadata>,
    pub environment: String,
    pub event_id: EventId,
    pub platform: String,
    pub profile: Profile,
    pub release: String,
    pub timestamp: Timestamp,
    pub transactions: Vec<TransactionMetadata>,
    pub transaction: Option<TransactionMetadata>,
}

/// Every sample refers to a stack that exists.
pub open spec fn samples_well_formed(samples: Seq<Sample>, stacks: Seq<Vec<usize>>) -> bool {
    forall|i: int| 0 <= i < samples.len() ==> (#[trigger] samples[i]).stack_id < stacks.len()
}

/// Every stack refers to frames that exist.
pub open spec fn stacks_well_formed(stacks: Seq<Vec<usize>>, frames: int) -> bool {
    forall|i: int, j: int|
        0 <= i < stacks.len() && 0 <= j < stacks[i]@.len() ==> #[trigger] stacks[i]@[j] < frames
}

impl SampleProfile {
    /// The profile has the metadata that its platform requires. On cocoa
    /// these are the build number of the system and the emulator flag,
    /// locale, manufacturer and model of the device; elsewhere nothing.
    pub open spec fn has_required_metadata(&self) -> bool {
        self.platform@ == "cocoa"@ ==> {
            &&& self.os.build_number.is_some()
            &&& self.device.is_emulator.is_some()
            &&& self.device.locale.is_some()
            &&& self.device.manufacturer.is_some()
            &&& self.device.model.is_some()
        }
    }

    /// Returns whether the profile has the metadata that its platform
    /// requires.
    pub fn valid(&self) -> (valid: bool)
        ensures
            valid == self.has_required_metadata(),
    {
        if same_text(self.platform.as_str(), "cocoa") {
            self.os.build_number.is_some() && self.device.is_emulator.is_some()
                && self.device.locale.is_some() && self.device.manufacturer.is_some()
                && self.device.model.is_some()
        } else {
            true
        }
    }

    /// Returns whether every sample refers to a stack that exists.
    pub fn check_samples(&self) -> (well_formed: bool)
        ensures
            well_formed == samples_well_formed(self.profile.samples@, self.profile.stacks@),
    {
        let mut i: usize = 0;
        while i < self.profile.samples.len()
            invariant
                i <= self.profile.samples@.len(),
                forall|k: int|
                    0 <= k < i ==> (#[trigger] self.profile.samples@[k]).stack_id
                        < self.profile.stacks@.len(),
            decreases self.profile.samples@.len() - i,
        {
            if self.profile.samples[i].stack_id >= self.profile.stacks.len() {
                return false;
            }
            i += 1;
        }
        true
    }

    /// Returns whether every stack refers to frames that exist.
    pub fn check_stacks(&self) -> (well_formed: bool)
        ensures
            well_formed == stacks_well_formed(
                self.profile.stacks@,
                self.profile.frames@.len() as int,
            ),
    {
        let frames = self.profile.frames.len();
        let mut i: usize = 0;
        while i < self.profile.stacks.len()
            invariant
                i <= self.profile.stacks@.len(),
                frames == self.profile.frames@.len(),
                forall|k: int, j: int|
                    0 <= k < i && 0 <= j < self.profile.stacks@[k]@.len()
                        ==> #[trigger] self.profile.stacks@[k]@[j] < frames,
            decreases self.profile.stacks@.len() - i,
        {
            let stack = &self.profile.stacks[i];
            let mut j: usize = 0;
            while j < stack.len()
                invariant
                    i < self.profile.stacks@.len(),
                    frames == self.profile.frames@.len(),
                    *stack == self.profile.stacks@[i as int],
                    j <= stack@.len(),
                    forall|k: int| 0 <= k < j ==> #[trigger] stack@[k] < frames,
                decreases stack@.len() - j,
            {
                if stack[j] >= frames {
                    assert(self.profile.stacks@[i as int]@[j as int] >= frames);
                    return false;
                }
                j += 1;
            }
            i += 1;
        }
        true
    }

    /// Removes a sample when it's the only sample on its thread
    pub fn remove_single_samples_per_thread(&mut self)
        ensures
            final(self).profile.samples@ == without_single_samples(old(self).profile.samples@),
            *final(self) == (SampleProfile {
                profile: Profile { samples: final(self).profile.samples, ..old(self).profile },
                ..*old(self)
            }),
    {
        self.profile.remove_single_samples_per_thread();
    }

    /// Strips pointer authentication codes from the instruction addresses of
    /// all frames, where the platform and the architecture of the device use
    /// them.
    pub fn strip_pointer_authentication_code(&mut self)
        ensures
            final(self).profile.frames@.len() == old(self).profile.frames@.len(),
            forall|i: int|
                0 <= i < old(self).profile.frames@.len()
                    ==> #[trigger] final(self).profile.frames@[i] == (if has_authentication_codes(
                    old(self).platform@,
                    old(self).device.architecture@,
                ) {
                    old(self).profile.frames@[i].stripped(ARM64_ADDRESS_BITS)
                } else {
                    old(self).profile.frames@[i]
                }),
            *final(self) == (SampleProfile {
                profile: Profile { frames: final(self).profile.frames, ..old(self).profile },
                ..*old(self)
            }),
    {
        self.profile.strip_pointer_authentication_code(
            self.platform.as_str(),
            self.device.architecture.as_str(),
        );
    }

    /// Removes the samples without frames at the two ends of the profile.
    pub fn remove_idle_samples_at_the_edge(&mut self)
        ensures
            is_trimmed(
                old(self).profile.samples@,
                old(self).profile.stacks@,
                final(self).profile.samples@,
            ),
            *final(self) == (SampleProfile {
                profile: Profile { samples: final(self).profile.samples, ..old(self).profile },
                ..*old(self)
            }),
    {
        self.profile.remove_idle_samples_at_the_edge();
    }

    /// Removes the metadata of threads that have no sample.
    pub fn cleanup_thread_metadata(&mut self)
        ensures
            match old(self).profile.thread_metadata {
                Some(entries) => final(self).profile.thread_metadata.is_some()
                    && final(self).profile.thread_metadata.unwrap()@ == used_thread_metadata(
                    entries@,
                    old(self).profile.samples@,
                ),
                None => final(self).profile.thread_metadata.is_none(),
            },
            old(self).profile.metadata_keys_distinct()
                ==> final(self).profile.metadata_keys_distinct(),
            *final(self) == (SampleProfile {
                profile: Profile {
                    thread_metadata: final(self).profile.thread_metadata,
                    ..old(self).profile
                },
                ..*old(self)
            }),
    {
        self.profile.cleanup_thread_metadata();
    }

    /// Removes the metadata of queues that have no sample.
    pub fn cleanup_queue_metadata(&mut self)
        ensures
            match old(self).profile.queue_metadata {
                Some(entries) => final(self).profile.queue_metadata.is_some()
                    && final(self).profile.queue_metadata.unwrap()@ == used_queue_metadata(
                    entries@,
                    old(self).profile.samples@,
                ),
                None => final(self).profile.queue_metadata.is_none(),
            },
            old(self).profile.metadata_keys_distinct()
                ==> final(self).profile.metadata_keys_distinct(),
            *final(self) == (SampleProfile {
                profile: Profile {
                    queue_metadata: final(self).profile.queue_metadata,
                    ..old(self).profile
                },
                ..*old(self)
            }),
    {
        self.profile.cleanup_queue_metadata();
    }
}

impl SampleProfile {
    /// The transaction that the profile is checked against: its own, or
    /// else the first of its list of transactions.
    pub open spec fn transaction_of(&self) -> Option<TransactionMetadata> {
        match self.transaction {
            Some(transaction) => Some(transaction),
            None => if self.transactions@.len() > 0 {
                Some(self.transactions@[0])
            } else {
                None
            },
        }
    }
}

/// `cleaned` is what is left of `samples` once the samples outside of
/// `transaction` are gone, then the idle samples at the two ends, then the
/// samples that are alone on their thread.
pub open spec fn is_cleaned(
    samples: Seq<Sample>,
    stacks: Seq<Vec<usize>>,
    transaction: TransactionMetadata,
    cleaned: Seq<Sample>,
) -> bool {
    exists|trimmed: Seq<Sample>|
        #![trigger without_single_samples(trimmed)]
        is_trimmed(within_transaction(samples, transaction), stacks, trimmed) && cleaned
            == without_single_samples(trimmed)
}

/// The fault for which a profile with the cleaned samples `samples` is
/// refused, if it has one: no sample left, a sample without its stack, or a
/// stack without its frames, whichever comes first.
pub open spec fn verdict(samples: Seq<Sample>, stacks: Seq<Vec<usize>>, frames: int) -> Option<
    ProfileError,
> {
    if samples.len() == 0 {
        Some(ProfileError::NotEnoughSamples)
    } else if !samples_well_formed(samples, stacks) {
        Some(ProfileError::MalformedSamples)
    } else if !stacks_well_formed(stacks, frames) {
        Some(ProfileError::MalformedStacks)
    } else {
        None
    }
}

/// `after` is `before` as it is forwarded with the cleaned samples
/// `samples`: it has its transaction set and no list of transactions beside
/// it, pointer authentication codes are stripped, and the metadata is that
/// of the threads and queues of `samples`. All else is as it was.
pub open spec fn is_forwarded(before: SampleProfile, samples: Seq<Sample>, after: SampleProfile) -> bool {
    &&& after.version == before.version
    &&& after.device == before.device
    &&& after.os == before.os
    &&& after.runtime == before.runtime
    &&& after.environment == before.environment
    &&& after.event_id == before.event_id
    &&& after.platform == before.platform
    &&& after.release == before.release
    &&& after.timestamp == before.timestamp
    &&& after.transaction == before.transaction_of()
    &&& after.transactions@ == if before.transaction.is_some() {
        before.transactions@
    } else {
        Seq::empty()
    }
    &&& after.profile.samples@ == samples
    &&& after.profile.stacks == before.profile.stacks
    &&& after.profile.frames@.len() == before.profile.frames@.len()
    &&& forall|i: int|
        0 <= i < before.profile.frames@.len() ==> #[trigger] after.profile.frames@[i] == (
        if has_authentication_codes(before.platform@, before.device.architecture@) {
            before.profile.frames@[i].stripped(ARM64_ADDRESS_BITS)
        } else {
            before.profile.frames@[i]
        })
    &&& match before.profile.thread_metadata {
        Some(entries) => after.profile.thread_metadata.is_some()
            && after.profile.thread_metadata.unwrap()@ == used_thread_metadata(entries@, samples),
        None => after.profile.thread_metadata.is_none(),
    }
    &&& match before.profile.queue_metadata {
        Some(entries) => after.profile.queue_metadata.is_some()
            && after.profile.queue_metadata.unwrap()@ == used_queue_metadata(entries@, samples),
        None => after.profile.queue_metadata.is_none(),
    }
    &&& before.profile.metadata_keys_distinct() ==> after.profile.metadata_keys_distinct()
}

/// Drops the samples that were not taken while the transaction between
/// `start` and `end` ran.
fn retain_within(samples: &mut Vec<Sample>, transaction: &TransactionMetadata)
    ensures
        final(samples)@ == within_transaction(old(samples)@, *transaction),
{
    let n = samples.len();
    let mut keep: Vec<bool> = Vec::with_capacity(n);
    let mut i: usize = 0;
    while i < n
        invariant
            i <= n,
            n == samples@.len(),
            samples@ == old(samples)@,
            keep@.len() == i,
            forall|j: int| 0 <= j < i ==> #[trigger] keep@[j] == transaction.covers(samples@[j]),
        decreases n - i,
    {
        let elapsed = samples[i].elapsed_since_start_ns;
        // This is to be compatible with older SDKs
        keep.push(
            !(transaction.relative_end_ns > 0) || (transaction.relative_start_ns <= elapsed
                && elapsed <= transaction.relative_end_ns),
        );
        i += 1;
    }
    assert(keep@ =~= Seq::new(samples@.len(), |i: int| transaction.covers(samples@[i])));
    retain_marked(samples, &keep);
}

/// Checks a decoded profile and cleans it for forwarding.
///
/// The profile is refused if it lacks metadata that its platform requires,
/// if it has no transaction, or if its transaction is not valid. Its samples
/// are then cleaned: those outside of the transaction go, then the idle ones
/// at the two ends, then those that are alone on their thread. The profile
/// is refused if no sample is left, if a sample refers to a stack that does
/// not exist, or a stack to a frame that does not exist. Otherwise it is
/// returned with pointer authentication codes stripped and without the
/// metadata of threads and queues that have no sample.
pub fn parse_profile(profile: SampleProfile) -> (result: Result<SampleProfile, ProfileError>)
    ensures
        !profile.has_required_metadata() ==> result == Err::<SampleProfile, ProfileError>(
            ProfileError::MissingProfileMetadata,
        ),
        profile.has_required_metadata() && profile.transaction_of().is_none() ==> result
            == Err::<SampleProfile, ProfileError>(ProfileError::NoTransactionAssociated),
        profile.has_required_metadata() && profile.transaction_of().is_some()
            && !profile.transaction_of().unwrap().is_valid() ==> result == Err::<
            SampleProfile,
            ProfileError,
        >(ProfileError::InvalidTransactionMetadata),
        profile.has_required_metadata() && profile.transaction_of().is_some()
            && profile.transaction_of().unwrap().is_valid() ==> exists|samples: Seq<Sample>|
            {
                &&& #[trigger] is_cleaned(
                    profile.profile.samples@,
                    profile.profile.stacks@,
                    profile.transaction_of().unwrap(),
                    samples,
                )
                &&& match verdict(
                    samples,
                    profile.profile.stacks@,
                    profile.profile.frames@.len() as int,
                ) {
                    Some(error) => result == Err::<SampleProfile, ProfileError>(error),
                    None => result.is_ok() && is_forwarded(profile, samples, result.unwrap()),
                }
            },
{
    let ghost before = profile;
    let mut profile = profile;

    if !profile.valid() {
        return Err(ProfileError::MissingProfileMetadata);
    }
    if profile.transaction.is_none() {
        profile.transactions.truncate(1);
        profile.transaction = profile.transactions.pop();
    }
    assert(profile.transaction == before.transaction_of());
    assert(profile.transactions@ =~= if before.transaction.is_some() {
        before.transactions@
    } else {
        Seq::empty()
    });

    match &profile.transaction {
        None => {
            return Err(ProfileError::NoTransactionAssociated);
        },
        Some(transaction) => {
            if !transaction.valid() {
                return Err(ProfileError::InvalidTransactionMetadata);
            }
            retain_within(&mut profile.profile.samples, transaction);
        },
    }
    let ghost within = profile.profile.samples@;

    // Clean samples before running the checks.
    profile.remove_idle_samples_at_the_edge();
    let ghost trimmed = profile.profile.samples@;
    profile.remove_single_samples_per_thread();
    let ghost samples = profile.profile.samples@;
    assert(samples == without_single_samples(trimmed));
    assert(is_cleaned(
        before.profile.samples@,
        before.profile.stacks@,
        before.transaction_of().unwrap(),
        samples,
    ));

    if profile.profile.samples.is_empty() {
        return Err(ProfileError::NotEnoughSamples);
    }
    if !profile.check_samples() {
        return Err(ProfileError::MalformedSamples);
    }
    if !profile.check_stacks() {
        return Err(ProfileError::MalformedStacks);
    }
    profile.strip_pointer_authentication_code();
    profile.cleanup_thread_metadata();
    profile.cleanup_queue_metadata();

    assert(is_forwarded(before, samples, profile));
    Ok(profile)
}

} // verus!
