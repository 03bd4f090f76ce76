//! Small helpers shared by modules.

use vstd::prelude::*;

verus! {

/// Behaves like a `T` that can be moved out through a mutable reference,
/// once. Whether that has happened can be checked with [`Take::taken`].
pub struct Take<T>(Option<T>);

impl<T> View for Take<T> {
    type V = Option<T>;

    /// The value, or `None` once it has been taken.
    closed spec fn view(&self) -> Option<T> {
        self.0
    }
}

impl<T> Take<T> {
    pub fn new(v: T) -> (take: Self)
        ensures
            take@ == Some(v),
    {
        Take(Some(v))
    }

    pub fn taken(&self) -> (taken: bool)
        ensures
            taken == (self@ is None),
    {
        self.0.is_none()
    }

    /// Moves the value out. A value can't be taken twice.
    pub fn take(&mut self) -> (v: T)
        requires
            old(self)@ is Some,
        ensures
            old(self)@ == Some(v),
            final(self)@ is None,
    {
        self.0.take().unwrap()
    }

    /// The value, as long as it has not been taken.
    pub fn get(&self) -> (v: &T)
        requires
            self@ is Some,
        ensures
            self@ == Some(*v),
    {
        self.0.as_ref().unwrap()
    }

    /// The value, for changing it in place, as long as it has not been
    /// taken.
    pub fn get_mut(&mut self) -> (v: &mut T)
        requires
            old(self)@ is Some,
        ensures
            old(self)@ == Some(*v),
            final(self)@ == Some(*final(v)),
    {
        self.0.as_mut().unwrap()
    }
}

} // verus!
