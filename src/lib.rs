//! Small verified building blocks: the lesson exercises of a Rust course and a toolkit of
//! concurrency coordination pieces (job queue, mailbox, cache, counter, divide-and-conquer
//! reduction) whose sequential decisions are proved here.
use vstd::prelude::*;

pub mod text;
pub mod basics;
pub mod ownership;
pub mod structs_enums;
pub mod collections;
pub mod error_handling;
pub mod generics;
pub mod lifetimes;
pub mod traits;
pub mod closures;
pub mod concurrency;
pub mod smart_pointers;
pub mod advanced;
pub mod todo;
pub mod web;
pub mod job_queue;
pub mod mailbox;
pub mod reduce;
pub mod cache;
pub mod atomic_counter;

verus! {

} // verus!
