//! Sharing state between threads: a thread-safe counter, and the split of a sum into one
//! contiguous chunk per thread.
use vstd::prelude::*;
use std::sync::atomic::{AtomicI32, Ordering};

verus! {

/// A counter that several threads can increment through a shared reference.
pub struct Counter {
    value: AtomicI32,
}

impl Counter {
    /// A counter at zero.
    pub fn new() -> (r: Self) {
        Counter { value: AtomicI32::new(0) }
    }

    /// Adds one, atomically.
    pub fn increment(&self) {
        self.value.fetch_add(1, Ordering::SeqCst);
    }

    /// The current value.
    pub fn get(&self) -> (r: i32) {
        self.value.load(Ordering::SeqCst)
    }
}

/// The chunk of a sequence of `len` elements that thread `i` of `n` sums: equal chunks of
/// `len / n` elements, the last thread also taking what remains.
pub open spec fn chunk_of(len: nat, n: nat, i: nat) -> (int, int) {
    let size = len / n;
    let start = i * size;
    (start as int, if i == n - 1 { len as int } else { (start + size) as int })
}

/// Where the chunk of thread `i` of `num_threads` starts and ends.
pub fn chunk_bounds(len: usize, num_threads: usize, i: usize) -> (r: (usize, usize))
    requires
        num_threads >= 1,
        i < num_threads,
    ensures
        (r.0 as int, r.1 as int) == chunk_of(len as nat, num_threads as nat, i as nat),
        r.0 <= r.1 <= len,
{
    let size = len / num_threads;
    proof {
        assert(i * size <= (num_threads - 1) * size) by (nonlinear_arith)
            requires i <= num_threads - 1;
        assert((num_threads - 1) * size + size <= len) by (nonlinear_arith)
            requires size == len / num_threads, num_threads >= 1;
        assert(i * size + size <= len) by (nonlinear_arith)
            requires i <= num_threads - 1, (num_threads - 1) * size + size <= len;
    }
    let start = i * size;
    let end = if i == num_threads - 1 { len } else { start + size };
    (start, end)
}

/// The chunks of consecutive threads meet, the first starts at 0 and the last ends at the
/// end: together they cover every element once.
pub proof fn lemma_chunks_tile(len: nat, n: nat, i: nat)
    requires
        n >= 1,
        i + 1 < n,
    ensures
        chunk_of(len, n, i).1 == chunk_of(len, n, i + 1).0,
        chunk_of(len, n, 0).0 == 0,
        chunk_of(len, n, (n - 1) as nat).1 == len,
{
    let size = len / n;
    assert((i + 1) * size == i * size + size) by (nonlinear_arith);
}

/// The sum of a run of numbers.
pub open spec fn seq_sum(s: Seq<i32>) -> int
    decreases s.len(),
{
    if s.len() == 0 {
        0
    } else {
        seq_sum(s.drop_last()) + s.last()
    }
}

/// Every running sum of the elements from `start`, up to `end`, fits in an `i32`.
pub open spec fn running_sums_fit(s: Seq<i32>, start: int, end: int) -> bool {
    forall|k: int| start <= k <= end ==> i32::MIN <= #[trigger] seq_sum(s.subrange(start, k)) <= i32::MAX
}

/// Sums the elements from `start` up to `end`; None when a running sum leaves the `i32` range.
pub fn chunk_sum(numbers: &[i32], start: usize, end: usize) -> (r: Option<i32>)
    requires
        start <= end <= numbers@.len(),
    ensures
        r is Some <==> running_sums_fit(numbers@, start as int, end as int),
        r matches Some(v) ==> v == seq_sum(numbers@.subrange(start as int, end as int)),
{
    let mut total: i32 = 0;
    let mut i: usize = start;
    assert(numbers@.subrange(start as int, start as int) =~= Seq::<i32>::empty());
    while i < end
        invariant
            start <= i <= end <= numbers@.len(),
            total == seq_sum(numbers@.subrange(start as int, i as int)),
            running_sums_fit(numbers@, start as int, i as int),
        decreases end - i,
    {
        assert(numbers@.subrange(start as int, i + 1).drop_last() =~= numbers@.subrange(start as int, i as int));
        match total.checked_add(numbers[i]) {
            Some(t) => {
                total = t;
            },
            None => {
                assert(!(i32::MIN <= seq_sum(numbers@.subrange(start as int, i + 1)) <= i32::MAX));
                return None;
            },
        }
        i += 1;
        assert forall|k: int| start <= k <= i implies i32::MIN <= #[trigger] seq_sum(numbers@.subrange(start as int, k)) <= i32::MAX by {
            if k < i {
                assert(running_sums_fit(numbers@, start as int, (i - 1) as int));
            }
        }
    }
    Some(total)
}

} // verus!
