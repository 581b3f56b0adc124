//! An event together with the id it was sent under.

use core::marker::PhantomData;
use vstd::prelude::*;

verus! {

/// A unique identifier for an event.
///
/// The type parameter keeps the ids of one event type apart from those of
/// another; it carries no data.
#[derive(PartialEq, Eq, PartialOrd, Ord, Hash)]
pub struct ParEventId<E> {
    pub id: u64,
    pub _marker: PhantomData<E>,
}

impl<E> ParEventId<E> {
    /// The identifier with the number `id`.
    pub open spec fn of(id: u64) -> Self {
        ParEventId { id, _marker: PhantomData }
    }

    /// The identifier with the number `id`.
    pub fn new(id: u64) -> (r: Self)
        ensures
            r == Self::of(id),
    {
        ParEventId { id, _marker: PhantomData }
    }
}

impl<E> Copy for ParEventId<E> {

}

impl<E> Clone for ParEventId<E> {
    fn clone(&self) -> (r: Self)
        ensures
            r == *self,
    {
        *self
    }
}

/// An ID and an event pair.
pub struct ParEventInstance<E> {
    pub event_id: ParEventId<E>,
    pub event: E,
}

impl<E> ParEventInstance<E> {
    /// The event `event` as sent under the number `id`.
    pub open spec fn stamped(id: int, event: E) -> Self {
        ParEventInstance { event_id: ParEventId::of(id as u64), event }
    }

    /// The number this event was sent under.
    pub open spec fn number(self) -> int {
        self.event_id.id as int
    }
}

} // verus!
