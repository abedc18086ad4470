//! Generic functions and types.
use vstd::prelude::*;
use vstd::laws_cmp::obeys_partial_cmp_spec_properties;
use vstd::std_specs::cmp::PartialOrdSpec;
use core::cmp::Ordering;

verus! {

/// The two values exchanged.
pub fn swap<T>(a: T, b: T) -> (r: (T, T))
    ensures
        r == (b, a),
{
    (b, a)
}

/// No element of `list` compares greater than `x`.
pub open spec fn none_greater<T: PartialOrd>(list: Seq<T>, x: T) -> bool {
    forall|i: int| 0 <= i < list.len() ==> (#[trigger] list[i]).partial_cmp_spec(&x) != Some(Ordering::Greater)
}

/// A largest element: the first one that no later element exceeds; None when the slice is
/// empty. For a type whose comparison is consistent, no element is greater than the result.
pub fn largest<T: PartialOrd>(list: &[T]) -> (r: Option<&T>)
    ensures
        list@.len() == 0 <==> r is None,
        r matches Some(x) ==> list@.contains(*x),
        T::obeys_partial_cmp_spec() && obeys_partial_cmp_spec_properties::<T>() ==>
            (r matches Some(x) ==> none_greater(list@, *x)),
{
    if list.len() == 0 {
        return None;
    }
    let mut best: &T = &list[0];
    let mut i: usize = 1;
    proof {
        reveal(obeys_partial_cmp_spec_properties);
    }
    while i < list.len()
        invariant
            1 <= i <= list@.len(),
            list@.contains(*best),
            T::obeys_partial_cmp_spec() && obeys_partial_cmp_spec_properties::<T>() ==> {
                &&& forall|j: int| 0 <= j < i ==> (#[trigger] list@[j]).partial_cmp_spec(best) != Some(Ordering::Greater)
                &&& best.partial_cmp_spec(best) != Some(Ordering::Greater)
            },
        decreases list@.len() - i,
    {
        let item = &list[i];
        if item > best {
            proof {
                if T::obeys_partial_cmp_spec() && obeys_partial_cmp_spec_properties::<T>() {
                    reveal(obeys_partial_cmp_spec_properties);
                    assert(item.partial_cmp_spec(best) == Some(Ordering::Greater));
                    assert(best.partial_cmp_spec(item) == Some(Ordering::Less));
                    assert forall|j: int| 0 <= j < i + 1 implies (#[trigger] list@[j]).partial_cmp_spec(item) != Some(Ordering::Greater) by {
                        if j < i && list@[j].partial_cmp_spec(item) == Some(Ordering::Greater) {
                            assert(list@[j].partial_cmp_spec(best) == Some(Ordering::Greater));
                        }
                        if j == i && list@[j].partial_cmp_spec(item) == Some(Ordering::Greater) {
                            assert(item.partial_cmp_spec(item) == Some(Ordering::Less));
                        }
                    }
                }
            }
            best = item;
        } else {
            proof {
                if T::obeys_partial_cmp_spec() && obeys_partial_cmp_spec_properties::<T>() {
                    assert(list@[i as int].partial_cmp_spec(best) != Some(Ordering::Greater));
                }
            }
        }
        i += 1;
    }
    Some(best)
}

/// A point with both coordinates of one type.
#[derive(Debug, PartialEq)]
pub struct Point<T> {
    pub x: T,
    pub y: T,
}

impl<T> Point<T> {
    /// The point (x, y).
    pub fn new(x: T, y: T) -> (r: Self)
        ensures
            r.x == x,
            r.y == y,
    {
        Point { x, y }
    }
}

} // verus!
