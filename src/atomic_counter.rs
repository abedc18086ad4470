//! A lock-free counter shared between threads.
//!
//! `increment` is a single fetch-and-add, so the increments of all threads are ordered one
//! after another and each returns the value it replaced. What one call returns depends on the
//! other threads, so no contract here fixes it.
use vstd::prelude::*;
use std::sync::atomic::{AtomicUsize, Ordering};

verus! {

/// A counter that starts at zero and that threads increment without a lock.
pub struct AtomicCounter {
    count: AtomicUsize,
}

impl AtomicCounter {
    /// A counter at zero.
    pub fn new() -> (r: Self) {
        AtomicCounter { count: AtomicUsize::new(0) }
    }

    /// Adds one, atomically, and returns the value before the addition.
    pub fn increment(&self) -> (r: usize) {
        self.count.fetch_add(1, Ordering::SeqCst)
    }

    /// The current value, as every completed increment left it.
    pub fn get(&self) -> (r: usize) {
        self.count.load(Ordering::SeqCst)
    }
}

} // verus!
