//! Smart pointers: a recursive list in boxes, and a value shared through `Rc<RefCell<_>>`.
use vstd::prelude::*;
use std::cell::RefCell;
use std::rc::Rc;

verus! {

/// A singly linked list of integers.
#[derive(Debug)]
pub enum List {
    Cons(i32, Box<List>),
    Nil,
}

/// The elements of a list, front first.
pub open spec fn list_items(l: List) -> Seq<i32>
    decreases l,
{
    match l {
        List::Cons(head, tail) => seq![head] + list_items(*tail),
        List::Nil => Seq::empty(),
    }
}

/// The sum of the elements of a list.
pub open spec fn list_sum(l: List) -> int
    decreases l,
{
    match l {
        List::Cons(head, tail) => head + list_sum(*tail),
        List::Nil => 0,
    }
}

/// The sum of every tail of the list fits in an `i32`.
pub open spec fn tail_sums_fit(l: List) -> bool
    decreases l,
{
    i32::MIN <= list_sum(l) <= i32::MAX && match l {
        List::Cons(_, tail) => tail_sums_fit(*tail),
        List::Nil => true,
    }
}

impl List {
    /// The empty list.
    pub fn new() -> (r: Self)
        ensures
            list_items(r) == Seq::<i32>::empty(),
    {
        List::Nil
    }

    /// The list with `elem` in front.
    pub fn prepend(self, elem: i32) -> (r: Self)
        ensures
            list_items(r) == seq![elem] + list_items(self),
    {
        List::Cons(elem, Box::new(self))
    }

    /// The sum of the elements, for the lists whose partial sums from the back fit in an `i32`.
    pub fn sum(&self) -> (r: i32)
        requires
            tail_sums_fit(*self),
        ensures
            r == list_sum(*self),
        decreases *self,
    {
        match self {
            List::Cons(head, tail) => *head + tail.sum(),
            List::Nil => 0,
        }
    }
}

#[verifier::external_type_specification]
#[verifier::external_body]
#[verifier::reject_recursive_types(T)]
pub struct ExRefCell<T: ?Sized>(RefCell<T>);

/// Relies on `RefCell::new`: wraps a value in a cell; nothing is claimed of the cell.
pub assume_specification<T>[ RefCell::<T>::new ](value: T) -> RefCell<T>;

/// A value that several owners share and may change.
pub struct SharedData {
    pub value: Rc<RefCell<i32>>,
}

impl SharedData {
    /// A shared cell holding `value`.
    pub fn new(value: i32) -> (r: Self) {
        SharedData { value: Rc::new(RefCell::new(value)) }
    }

    /// Another owner of the same cell.
    pub fn clone_rc(&self) -> (r: Rc<RefCell<i32>>)
        ensures
            r == self.value,
    {
        Rc::clone(&self.value)
    }
}

} // verus!
