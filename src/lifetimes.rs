//! Lifetimes: returning and storing borrowed text.
use vstd::prelude::*;
use crate::ownership::first_word_end;

verus! {

/// The longer of two texts by length in bytes; the first on a tie.
pub fn longest<'a>(x: &'a str, y: &'a str) -> (r: &'a str)
    ensures
        x.len() >= y.len() ==> r == x,
        x.len() < y.len() ==> r == y,
{
    if x.len() >= y.len() {
        x
    } else {
        y
    }
}

/// A part of a longer text, borrowed from it.
#[derive(Debug)]
pub struct Excerpt<'a> {
    pub part: &'a str,
}

impl<'a> Excerpt<'a> {
    /// An excerpt holding `part`.
    pub fn new(part: &'a str) -> (r: Self)
        ensures
            r.part@ == part@,
    {
        Excerpt { part }
    }

    /// The borrowed part.
    pub fn get_part(&self) -> (r: &str)
        ensures
            r@ == self.part@,
    {
        self.part
    }
}

/// The first word of `s`: everything up to its first space, or all of it when it has none.
pub fn first_word(s: &str) -> (r: &str)
    ensures
        exists|i: int| first_word_end(s@, i) && r@ == s@.subrange(0, i),
{
    crate::ownership::first_word(s)
}

} // verus!
