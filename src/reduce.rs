//! Divide-and-conquer reduction of a sequence with an associative operator.
//!
//! A range longer than the threshold is split at its midpoint and the two halves are reduced
//! on their own, the left one possibly on another thread; a range no longer than the
//! threshold is folded left to right. Whatever the threshold, the result is the left-to-right
//! fold of the whole sequence.
use vstd::prelude::*;
use vstd::arithmetic::div_mod::{lemma_add_mod_noop, lemma_mul_mod_noop_left, lemma_mul_mod_noop_right};
use vstd::arithmetic::mul::lemma_mul_is_associative;

verus! {

/// The associative operators a reduction can combine with; sums and products wrap around
/// modulo 2^64.
#[derive(PartialEq, Eq, Structural, Debug, Clone, Copy)]
pub enum Combine {
    Sum,
    Product,
    Max,
    Min,
}

/// 2^64.
pub open spec fn word() -> int {
    0x1_0000_0000_0000_0000
}

/// The value of `a` combined with `b`.
pub open spec fn apply(op: Combine, a: u64, b: u64) -> u64 {
    match op {
        Combine::Sum => ((a + b) % word()) as u64,
        Combine::Product => ((a * b) % word()) as u64,
        Combine::Max => if a >= b { a } else { b },
        Combine::Min => if a <= b { a } else { b },
    }
}

/// The left-to-right fold of a non-empty sequence.
pub open spec fn fold(op: Combine, s: Seq<u64>) -> u64
    recommends
        s.len() > 0,
    decreases s.len(),
{
    if s.len() <= 1 {
        s[0]
    } else {
        apply(op, fold(op, s.drop_last()), s.last())
    }
}

/// Each operator is associative.
pub proof fn lemma_apply_associative(op: Combine, a: u64, b: u64, c: u64)
    ensures
        apply(op, apply(op, a, b), c) == apply(op, a, apply(op, b, c)),
{
    match op {
        Combine::Sum => {
            lemma_add_mod_noop(a + b, c as int, word());
            lemma_add_mod_noop(a as int, b + c, word());
            assert(((a + b) % word()) % word() == (a + b) % word()) by {
                vstd::arithmetic::div_mod::lemma_mod_twice(a + b, word());
            }
            assert(((b + c) % word()) % word() == (b + c) % word()) by {
                vstd::arithmetic::div_mod::lemma_mod_twice(b + c, word());
            }
            assert((c as int) % word() == c);
            assert((a as int) % word() == a);
            assert((a + b + c) == (a + (b + c)));
        },
        Combine::Product => {
            lemma_mul_mod_noop_left(a * b, c as int, word());
            lemma_mul_mod_noop_right(a as int, b * c, word());
            lemma_mul_is_associative(a as int, b as int, c as int);
            assert(0 <= (a * b) % word() < word()) by {
                vstd::arithmetic::div_mod::lemma_mod_bound(a * b, word());
            }
            assert(0 <= (b * c) % word() < word()) by {
                vstd::arithmetic::div_mod::lemma_mod_bound(b * c, word());
            }
            assert(0 <= a * b) by (nonlinear_arith);
            assert(0 <= b * c) by (nonlinear_arith);
        },
        Combine::Max => {},
        Combine::Min => {},
    }
}

/// The fold of two non-empty sequences put end to end is their folds combined.
pub proof fn lemma_fold_concat(op: Combine, a: Seq<u64>, b: Seq<u64>)
    requires
        a.len() > 0,
        b.len() > 0,
    ensures
        fold(op, a + b) == apply(op, fold(op, a), fold(op, b)),
    decreases b.len(),
{
    if b.len() == 1 {
        assert((a + b).drop_last() =~= a);
    } else {
        lemma_fold_concat(op, a, b.drop_last());
        assert((a + b).drop_last() =~= a + b.drop_last());
        lemma_apply_associative(op, fold(op, a), fold(op, b.drop_last()), b.last());
    }
}

/// `a` combined with `b`.
pub fn combine(op: Combine, a: u64, b: u64) -> (r: u64)
    ensures
        r == apply(op, a, b),
{
    match op {
        Combine::Sum => a.wrapping_add(b),
        Combine::Product => a.wrapping_mul(b),
        Combine::Max => if a >= b { a } else { b },
        Combine::Min => if a <= b { a } else { b },
    }
}

/// Where a range of `len` elements is split: at its midpoint when it is longer than the
/// threshold, else nowhere.
pub fn split_point(len: usize, threshold: usize) -> (r: Option<usize>)
    requires
        threshold >= 1,
    ensures
        len > threshold ==> r == Some(len / 2),
        len <= threshold ==> r is None,
        r matches Some(m) ==> 0 < m < len,
{
    if len > threshold { Some(len / 2) } else { None }
}

/// The left-to-right fold of a non-empty slice, in one thread.
pub fn fold_slice(op: Combine, data: &[u64]) -> (r: u64)
    requires
        data@.len() > 0,
    ensures
        r == fold(op, data@),
{
    let mut acc = data[0];
    let mut i: usize = 1;
    while i < data.len()
        invariant
            1 <= i <= data@.len(),
            acc == fold(op, data@.subrange(0, i as int)),
        decreases data@.len() - i,
    {
        assert(data@.subrange(0, i + 1).drop_last() =~= data@.subrange(0, i as int));
        acc = combine(op, acc, data[i]);
        i += 1;
    }
    assert(data@.subrange(0, data@.len() as int) =~= data@);
    acc
}

fn reduce_range(data: &[u64], lo: usize, hi: usize, threshold: usize, op: Combine) -> (r: u64)
    requires
        lo < hi <= data@.len(),
        threshold >= 1,
    ensures
        r == fold(op, data@.subrange(lo as int, hi as int)),
    decreases hi - lo,
{
    match split_point(hi - lo, threshold) {
        None => {
            let mut acc = data[lo];
            let mut i: usize = lo + 1;
            while i < hi
                invariant
                    lo < i <= hi <= data@.len(),
                    acc == fold(op, data@.subrange(lo as int, i as int)),
                decreases hi - i,
            {
                assert(data@.subrange(lo as int, i + 1).drop_last() =~= data@.subrange(lo as int, i as int));
                acc = combine(op, acc, data[i]);
                i += 1;
            }
            acc
        },
        Some(m) => {
            let mid = lo + m;
            let left = reduce_range(data, lo, mid, threshold, op);
            let right = reduce_range(data, mid, hi, threshold, op);
            proof {
                lemma_fold_concat(op, data@.subrange(lo as int, mid as int), data@.subrange(mid as int, hi as int));
                assert(data@.subrange(lo as int, mid as int) + data@.subrange(mid as int, hi as int)
                    =~= data@.subrange(lo as int, hi as int));
            }
            combine(op, left, right)
        },
    }
}

/// Reduces a non-empty slice by splitting it at the midpoint while it is longer than
/// `threshold` and folding the pieces; the result is the left-to-right fold of the slice.
pub fn reduce(data: &[u64], threshold: usize, op: Combine) -> (r: u64)
    requires
        data@.len() > 0,
        threshold >= 1,
    ensures
        r == fold(op, data@),
{
    let r = reduce_range(data, 0, data.len(), threshold, op);
    assert(data@.subrange(0, data@.len() as int) =~= data@);
    r
}

/// Splitting a range anywhere and combining the folds of the two parts gives the fold of the
/// whole range, so where the split points fall never changes a reduction's result.
pub proof fn lemma_split_anywhere(op: Combine, s: Seq<u64>, m: int)
    requires
        0 < m < s.len(),
    ensures
        apply(op, fold(op, s.subrange(0, m)), fold(op, s.subrange(m, s.len() as int))) == fold(op, s),
{
    lemma_fold_concat(op, s.subrange(0, m), s.subrange(m, s.len() as int));
    assert(s.subrange(0, m) + s.subrange(m, s.len() as int) =~= s);
}

} // verus!
