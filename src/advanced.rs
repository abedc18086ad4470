//! Type aliases.
use vstd::prelude::*;

verus! {

/// A distance in kilometres.
pub type Kilometers = i32;

} // verus!
