//! Values that are shared between threads and written often.

use std::ops::Deref;
use vstd::prelude::*;

verus! {

/// A value that should have a cache line to itself.
#[derive(Debug, Clone, Copy, Hash, PartialEq, Eq)]
pub struct CachePadded<T> {
    pub value: T,
}

impl<T> CachePadded<T> {
    pub fn new(t: T) -> (padded: Self)
        ensures
            padded.value == t,
    {
        CachePadded { value: t }
    }
}

impl<T> Deref for CachePadded<T> {
    type Target = T;

    fn deref(&self) -> (value: &T)
        ensures
            *value == self.value,
    {
        &self.value
    }
}

} // verus!
