use vstd::prelude::*;

verus! {

/// A value owned on the kernel heap.
pub struct Kbox<T> {
    inner: Box<T>,
}

impl<T> View for Kbox<T> {
    type V = T;

    closed spec fn view(&self) -> T {
        *self.inner
    }
}

impl<T> Kbox<T> {
    pub fn new(x: T) -> (r: Self)
        ensures
            r@ == x,
    {
        Kbox { inner: Box::new(x) }
    }

    /// The value held.
    pub fn get(&self) -> (r: &T)
        ensures
            *r == self@,
    {
        &self.inner
    }

    /// Gives the value back, releasing the heap cell.
    pub fn into_inner(self) -> (r: T)
        ensures
            r == self@,
    {
        *self.inner
    }
}

} // verus!
