//! Ready-made tasks: one that bumps a counter shared under a lock, and one
//! that sums a range of a shared array, with the function that cuts an
//! array into such ranges.

use crate::chunks::{chunk_bound, chunk_count, lemma_chunks_partition, ChunkSplitter};
use crate::pool::Task;
use std::sync::atomic::AtomicU64;
use std::sync::atomic::Ordering;
use std::sync::{Arc, Mutex, MutexGuard};
use vstd::prelude::*;

verus! {

#[verifier::external_type_specification]
#[verifier::external_body]
#[verifier::reject_recursive_types(T)]
pub struct ExMutex<T: ?Sized>(Mutex<T>);

#[verifier::external_type_specification]
#[verifier::external_body]
#[verifier::reject_recursive_types(T)]
pub struct ExMutexGuard<'a, T: ?Sized + 'a>(MutexGuard<'a, T>);

/// Calls `Arc::clone`, which hands out another pointer to the same value:
/// the contract claims that the result points to a value equal to the
/// argument's.
#[verifier::external_body]
fn share<T>(a: &Arc<T>) -> (r: Arc<T>)
    ensures
        r == *a,
{
    Arc::clone(a)
}

/// Calls `Mutex::lock`; a lock poisoned by a panic elsewhere is taken over
/// all the same (`PoisonError::into_inner`). The contract claims nothing:
/// the value under the lock is not modelled.
#[verifier::external_body]
fn lock_counter(m: &Mutex<u32>) -> MutexGuard<'_, u32> {
    match m.lock() {
        Ok(guard) => guard,
        Err(poisoned) => poisoned.into_inner(),
    }
}

/// Reads the value under a held lock (`Deref` of `MutexGuard`). Nothing is
/// claimed of the value.
#[verifier::external_body]
fn read_guarded(g: &MutexGuard<'_, u32>) -> u32 {
    **g
}

/// Writes `v` under a held lock (`DerefMut` of `MutexGuard`). Nothing is
/// claimed: the value under the lock is not modelled.
#[verifier::external_body]
fn write_guarded(g: &mut MutexGuard<'_, u32>, v: u32) {
    **g = v;
}

/// Task that increments a counter shared under a lock.
pub struct SharedCounterTask {
    counter: Arc<Mutex<u32>>,
}

impl SharedCounterTask {
    /// The counter that the task increments.
    pub closed spec fn counter(self) -> Arc<Mutex<u32>> {
        self.counter
    }

    /// Creates a task that increments `counter`.
    pub fn new(counter: Arc<Mutex<u32>>) -> (t: Self)
        ensures
            t.counter() == counter,
    {
        SharedCounterTask { counter }
    }
}

/// The counter's value after one more increment: one more, wrapping to 0
/// at `u32::MAX`.
pub fn next_count(v: u32) -> (r: u32)
    ensures
        r == (if v == u32::MAX {
            0u32
        } else {
            (v + 1) as u32
        }),
{
    if v == u32::MAX {
        0
    } else {
        v + 1
    }
}

impl Task for SharedCounterTask {
    /// Replaces the counter's value `v`, under its lock, by `next_count(v)`.
    fn execute(&self) {
        let mut guard = lock_counter(&self.counter);
        let v = read_guarded(&guard);
        write_guarded(&mut guard, next_count(v));
    }
}

/// The sum of `s[start..end]`.
pub open spec fn range_sum(s: Seq<u32>, start: int, end: int) -> int
    decreases end - start,
{
    if end <= start {
        0
    } else {
        range_sum(s, start, end - 1) + s[end - 1]
    }
}

/// A range sum splits at any point in between, and is never negative.
pub proof fn lemma_range_sum_split(s: Seq<u32>, a: int, b: int, c: int)
    requires
        a <= b <= c,
    ensures
        range_sum(s, a, c) == range_sum(s, a, b) + range_sum(s, b, c),
        range_sum(s, b, c) >= 0,
    decreases c - b,
{
    if c > b {
        lemma_range_sum_split(s, a, b, c - 1);
    }
}

/// The sums of the ranges that `num_chunks` chunks cut `s` into, added up
/// over the first `k` chunks.
pub open spec fn chunk_sums(s: Seq<u32>, num_chunks: nat, k: nat) -> int
    decreases k,
{
    if k == 0 {
        0
    } else {
        chunk_sums(s, num_chunks, (k - 1) as nat) + range_sum(
            s,
            chunk_bound(s.len(), num_chunks, (k - 1) as nat) as int,
            chunk_bound(s.len(), num_chunks, k) as int,
        )
    }
}

/// Cutting an array into chunks loses nothing and counts nothing twice:
/// the sums of the chunks add up to the sum of the whole array.
pub proof fn lemma_chunk_sums_total(s: Seq<u32>, num_chunks: nat)
    requires
        num_chunks > 0,
    ensures
        chunk_sums(s, num_chunks, chunk_count(s.len(), num_chunks)) == range_sum(
            s,
            0,
            s.len() as int,
        ),
{
    lemma_chunks_partition(s.len(), num_chunks);
    lemma_chunk_sums_prefix(s, num_chunks, chunk_count(s.len(), num_chunks));
}

proof fn lemma_chunk_sums_prefix(s: Seq<u32>, n: nat, k: nat)
    requires
        n > 0,
        k <= chunk_count(s.len(), n),
    ensures
        chunk_sums(s, n, k) == range_sum(s, 0, chunk_bound(s.len(), n, k) as int),
    decreases k,
{
    lemma_chunks_partition(s.len(), n);
    if k > 0 {
        let j = (k - 1) as nat;
        lemma_chunk_sums_prefix(s, n, j);
        assert(chunk_bound(s.len(), n, j + 1) == chunk_bound(s.len(), n, j) + crate::chunks::chunk_size(
            s.len(),
            n,
            j,
        ));
        lemma_range_sum_split(
            s,
            0,
            chunk_bound(s.len(), n, j) as int,
            chunk_bound(s.len(), n, k) as int,
        );
    }
}

/// Chunk `k` is a range of the items.
proof fn lemma_chunk_in_bounds(total: nat, n: nat, k: nat)
    requires
        n > 0,
        k < chunk_count(total, n),
    ensures
        chunk_bound(total, n, k) <= chunk_bound(total, n, k + 1) <= total,
{
    lemma_chunks_partition(total, n);
    assert(chunk_bound(total, n, k + 1) <= total);
    assert(crate::chunks::chunk_size(total, n, k) > 0);
}

/// Task that sums `input_array[slice_start..slice_end]` and stores the sum
/// in `subslice_sum`, where it can be read once the task has run.
pub struct SubsliceSumTask {
    input_array: Arc<Vec<u32>>,
    slice_start: usize,
    slice_end: usize,
    pub subslice_sum: AtomicU64,
}

impl SubsliceSumTask {
    /// The array that the task reads.
    pub closed spec fn input(self) -> Seq<u32> {
        self.input_array@
    }

    /// Where the summed range starts.
    pub closed spec fn start(self) -> nat {
        self.slice_start as nat
    }

    /// Where the summed range ends (exclusive).
    pub closed spec fn end(self) -> nat {
        self.slice_end as nat
    }

    /// Whether the task's range lies in its array and its sum fits in a
    /// `u32`: the ranges that can be summed.
    pub open spec fn summable(self) -> bool {
        &&& self.start() <= self.end() <= self.input().len()
        &&& range_sum(self.input(), self.start() as int, self.end() as int) <= u32::MAX
    }

    /// Creates a task that sums `input_array[slice_start..slice_end]`; its
    /// stored sum starts at 0. The range is not checked here.
    pub fn new(input_array: Arc<Vec<u32>>, slice_start: usize, slice_end: usize) -> (t: Self)
        ensures
            t.input() == input_array@,
            t.start() == slice_start,
            t.end() == slice_end,
    {
        SubsliceSumTask {
            input_array,
            slice_start,
            slice_end,
            subslice_sum: AtomicU64::new(0u64),
        }
    }

    /// The sum of the task's range, which `execute` stores: `None` when the
    /// range does not lie in the array or its sum overflows a `u32`.
    pub fn compute_sum(&self) -> (r: Option<u64>)
        ensures
            r is Some <==> self.summable(),
            r matches Some(v) ==> v == range_sum(
                self.input(),
                self.start() as int,
                self.end() as int,
            ),
    {
        let data: &Vec<u32> = &*self.input_array;
        if !(self.slice_start <= self.slice_end && self.slice_end <= data.len()) {
            return None;
        }
        let mut acc: u32 = 0;
        let mut i: usize = self.slice_start;
        while i < self.slice_end
            invariant
                self.slice_start <= i <= self.slice_end <= data@.len(),
                data@ == self.input(),
                self.start() == self.slice_start,
                self.end() == self.slice_end,
                acc == range_sum(data@, self.slice_start as int, i as int),
            decreases self.slice_end - i,
        {
            proof {
                lemma_range_sum_split(
                    data@,
                    self.slice_start as int,
                    i + 1,
                    self.slice_end as int,
                );
            }
            match acc.checked_add(data[i]) {
                Some(next) => {
                    acc = next;
                },
                None => {
                    return None;
                },
            }
            i = i + 1;
        }
        Some(acc as u64)
    }
}

impl Task for SubsliceSumTask {
    /// Stores the sum of the task's range; a task whose range cannot be
    /// summed (see `summable`) stores nothing.
    fn execute(&self) {
        match self.compute_sum() {
            Some(sum) => self.subslice_sum.store(sum, Ordering::SeqCst),
            None => {},
        }
    }
}

/// Cuts `input_array` into `num_tasks` chunks (as `ChunkSplitter` does) and
/// makes one summing task per chunk, in order.
pub fn get_subslice_sum_tasks(input_array: Arc<Vec<u32>>, num_tasks: usize) -> (tasks: Vec<
    Arc<SubsliceSumTask>,
>)
    requires
        num_tasks > 0,
    ensures
        tasks@.len() == chunk_count(input_array@.len(), num_tasks as nat),
        forall|i: int|
            0 <= i < tasks@.len() ==> {
                &&& (*tasks@[i]).input() == input_array@
                &&& (*tasks@[i]).start() == chunk_bound(input_array@.len(), num_tasks as nat, i as nat)
                &&& (*tasks@[i]).end() == chunk_bound(
                    input_array@.len(),
                    num_tasks as nat,
                    (i + 1) as nat,
                )
            },
{
    let ghost total = input_array@.len();
    let ghost n = num_tasks as nat;
    let mut sum_tasks: Vec<Arc<SubsliceSumTask>> = Vec::with_capacity(num_tasks);
    let mut chunk_splitter = ChunkSplitter::new(input_array.len(), num_tasks);
    loop
        invariant
            total == input_array@.len(),
            total <= usize::MAX,
            n == num_tasks,
            n > 0,
            chunk_splitter.total() == total,
            chunk_splitter.chunks() == n,
            chunk_splitter.index() <= chunk_count(total, n),
            sum_tasks@.len() == chunk_splitter.index(),
            forall|i: int|
                0 <= i < sum_tasks@.len() ==> {
                    &&& (*sum_tasks@[i]).input() == input_array@
                    &&& (*sum_tasks@[i]).start() == chunk_bound(total, n, i as nat)
                    &&& (*sum_tasks@[i]).end() == chunk_bound(total, n, (i + 1) as nat)
                },
        ensures
            sum_tasks@.len() == chunk_count(total, n),
            forall|i: int|
                0 <= i < sum_tasks@.len() ==> {
                    &&& (*sum_tasks@[i]).input() == input_array@
                    &&& (*sum_tasks@[i]).start() == chunk_bound(total, n, i as nat)
                    &&& (*sum_tasks@[i]).end() == chunk_bound(total, n, (i + 1) as nat)
                },
        decreases chunk_count(total, n) - chunk_splitter.index(),
    {
        let ghost k = chunk_splitter.index();
        match chunk_splitter.next() {
            Some((start, end)) => {
                proof {
                    lemma_chunk_in_bounds(total, n, k);
                }
                let task = SubsliceSumTask::new(share(&input_array), start, end);
                sum_tasks.push(Arc::new(task));
            },
            None => {
                break ;
            },
        }
    }
    sum_tasks
}

} // verus!
