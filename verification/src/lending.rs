//! A lending iterator: one whose items borrow from the iterator itself.
use vstd::prelude::*;

verus! {

/// An iterator whose items may borrow from the iterator.
pub trait LendingIterator {
    type Item<'a> where Self: 'a;
}

/// Mutable windows over a slice.
pub struct WindowsMut<'x, T> {
    slice: &'x mut [T],
}

/// Takes an iterator whose items can be debug-printed, and prints none of them.
pub fn print_item<I>(iter: I) where
    I: LendingIterator,
    for<'a> I::Item<'a>: std::fmt::Debug,
{
}

} // verus!
