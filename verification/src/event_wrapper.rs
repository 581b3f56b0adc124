//! A wrapper that turns any type into an event, so that values of it can
//! be sent through an event storage.

use vstd::prelude::*;
use vstd::std_specs::cmp::{PartialEqSpec, PartialEqSpecImpl};
use vstd::std_specs::convert::{FromSpec, FromSpecImpl};

verus! {

/// A value of `T`, wrapped so that it can be sent as an event.
///
/// The wrapper adds nothing to the value: it dereferences to it, and it is
/// cloned, compared and hashed as the value is.
#[derive(Hash)]
pub struct Event<T: Send + Sync + 'static> {
    inner: T,
}

impl<T: Send + Sync + 'static> View for Event<T> {
    type V = T;

    /// The value that is wrapped.
    closed spec fn view(&self) -> T {
        self.inner
    }
}

impl<T: Send + Sync + 'static> Event<T> {
    /// Wraps `inner`.
    pub fn new(inner: T) -> (event: Self)
        ensures
            event@ == inner,
    {
        Self { inner }
    }

    /// Unwraps the value.
    pub fn into_inner(self) -> (inner: T)
        ensures
            inner == self@,
    {
        self.inner
    }

}

impl<T: Send + Sync + 'static> core::ops::Deref for Event<T> {
    type Target = T;

    fn deref(&self) -> (inner: &T)
        ensures
            *inner == self@,
    {
        &self.inner
    }
}

impl<T: Send + Sync + 'static> core::ops::DerefMut for Event<T> {
    fn deref_mut(&mut self) -> (inner: &mut T)
        ensures
            *inner == old(self)@,
            final(self)@ == *final(inner),
    {
        &mut self.inner
    }
}

impl<T: Clone + Send + Sync + 'static> Clone for Event<T> {
    fn clone(&self) -> (event: Self)
        ensures
            cloned(self@, event@),
    {
        Self { inner: self.inner.clone() }
    }
}

impl<T: Copy + Send + Sync + 'static> Copy for Event<T> {

}

impl<T: PartialEq + PartialEqSpec + Send + Sync + 'static> PartialEq for Event<T> {
    fn eq(&self, other: &Self) -> (equal: bool) {
        self.inner.eq(&other.inner)
    }
}

impl<T: PartialEq + PartialEqSpec + Send + Sync + 'static> PartialEqSpecImpl for Event<T> {
    open spec fn obeys_eq_spec() -> bool {
        T::obeys_eq_spec()
    }

    open spec fn eq_spec(&self, other: &Self) -> bool {
        self@.eq_spec(&other@)
    }
}

impl<T: Eq + PartialEqSpec + Send + Sync + 'static> Eq for Event<T> {

}

impl<T: Send + Sync + 'static> From<T> for Event<T> {
    fn from(inner: T) -> (event: Self) {
        Self { inner }
    }
}

impl<T: Send + Sync + 'static> FromSpecImpl<T> for Event<T> {
    open spec fn obeys_from_spec() -> bool {
        true
    }

    closed spec fn from_spec(inner: T) -> Self {
        Event { inner }
    }
}

/// An event made from a value by [`From`] wraps that value.
pub proof fn lemma_from_wraps<T: Send + Sync + 'static>(inner: T)
    ensures
        <Event<T> as FromSpec<T>>::from_spec(inner)@ == inner,
{
}

} // verus!
