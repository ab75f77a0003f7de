//! A cell whose contents one holder at a time may change.
use vstd::prelude::*;

verus! {

/// Shareable mutable data for a uniprocessor: access is exclusive, handed
/// out through `exclusive_access`.
pub struct UPSafeCell<T> {
    inner: T,
}

impl<T> View for UPSafeCell<T> {
    type V = T;

    closed spec fn view(&self) -> T {
        self.inner
    }
}

impl<T> UPSafeCell<T> {
    /// A cell holding `value`.
    pub fn new(value: T) -> (r: Self)
        ensures
            r@ == value,
    {
        UPSafeCell { inner: value }
    }

    /// Exclusive access to the contents: what is written through the
    /// returned reference is what the cell holds afterwards.
    pub fn exclusive_access(&mut self) -> (r: &mut T)
        ensures
            *r == old(self)@,
            final(self)@ == *final(r),
    {
        &mut self.inner
    }
}

} // verus!
