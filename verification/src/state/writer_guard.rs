//! A value that only one writer changes.

use vstd::prelude::*;

verus! {

/// A value that only one writer changes: whoever holds the guard exclusively.
#[derive(Clone, Debug, PartialEq, Eq)]
pub struct WriterGuard<T> {
    inner: T,
}

impl<T> WriterGuard<T> {
    /// The guarded value.
    pub closed spec fn value(&self) -> T {
        self.inner
    }

    /// Creates a guard of the value.
    pub fn new(value: T) -> (r: Self)
        ensures
            r.value() == value,
    {
        WriterGuard { inner: value }
    }

    /// Returns the value for changing it.
    pub fn as_mut(&mut self) -> (r: &mut T)
        ensures
            *r == old(self).value(),
            final(self).value() == *final(r),
    {
        &mut self.inner
    }
}

} // verus!
