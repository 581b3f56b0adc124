//! Reading events in the order in which they were sent.

use super::events::ParEvents;
use super::merge::merge_into;
use super::record::{ParEventId, ParEventInstance};
use super::steps::{lemma_retained, lemma_unread};
use core::marker::PhantomData;
use vstd::prelude::*;

verus! {

/// Stores the state for reading from a [`ParEvents`]: the number of the
/// first event that has not been read yet. Access to the storage is
/// required to read any incoming events.
pub struct ParManualEventReader<E> {
    last_event_count: u64,
    _marker: PhantomData<E>,
}

impl<E> View for ParManualEventReader<E> {
    type V = nat;

    /// The number of the first event that has not been read yet.
    closed spec fn view(&self) -> nat {
        self.last_event_count as nat
    }
}

impl<E> Default for ParManualEventReader<E> {
    /// A reader that has read nothing: it gets every event that is kept.
    fn default() -> (r: Self)
        ensures
            r@ == 0,
    {
        ParManualEventReader { last_event_count: 0, _marker: PhantomData }
    }
}

impl<E> ParManualEventReader<E> {
    /// A reader that has read everything below `last_event_count`.
    pub(crate) fn starting_at(last_event_count: u64) -> (r: Self)
        ensures
            r@ == last_event_count,
    {
        ParManualEventReader { last_event_count, _marker: PhantomData }
    }

    /// Iterates over the events this reader has not seen yet, in the order
    /// in which they were sent. Each event that the iterator hands out
    /// counts as seen from then on.
    pub fn read<'a>(&'a mut self, events: &'a ParEvents<E>) -> (it: ParEventIterator<'a, E>)
        requires
            events.wf(),
        ensures
            it.iter.wf(),
            it.iter.pending() == events@.unread(old(self)@ as int),
            it.iter.reader@ == events@.resume(old(self)@ as int),
            it.iter.reader@ + it.iter.pending().len() == events@.count,
            *final(it.iter.reader) == *final(self),
    {
        self.read_with_id(events).without_id()
    }

    /// Like [`read`](Self::read), except also returning the
    /// [`ParEventId`] of the events.
    pub fn read_with_id<'a>(&'a mut self, events: &'a ParEvents<E>) -> (it: ParEventIteratorWithId<
        'a,
        E,
    >)
        requires
            events.wf(),
        ensures
            it.wf(),
            it.pending() == events@.unread(old(self)@ as int),
            it.reader@ == events@.resume(old(self)@ as int),
            it.reader@ + it.pending().len() == events@.count,
            *final(it.reader) == *final(self),
    {
        ParEventIteratorWithId::new(self, events)
    }

    /// Consumes all available events: afterwards this reader has nothing
    /// left to read until another event is sent.
    pub fn clear(&mut self, events: &ParEvents<E>)
        requires
            events.wf(),
        ensures
            final(self)@ == events@.count,
            events@.unread(final(self)@ as int).len() == 0,
    {
        self.last_event_count = events.count();
        proof {
            lemma_unread(events@, self@ as int);
        }
    }

    /// Determines the number of events available to be read from this
    /// reader without consuming any.
    pub fn len(&self, events: &ParEvents<E>) -> (n: usize)
        requires
            events.wf(),
        ensures
            n == events@.unread(self@ as int).len(),
    {
        proof {
            lemma_unread(events@, self@ as int);
        }
        let count = events.count();
        let oldest = count - events.len() as u64;
        if self.last_event_count < oldest {
            (count - oldest) as usize
        } else if self.last_event_count > count {
            0
        } else {
            (count - self.last_event_count) as usize
        }
    }

    /// Returns true if there are no events available to read.
    pub fn is_empty(&self, events: &ParEvents<E>) -> (b: bool)
        requires
            events.wf(),
        ensures
            b == (events@.unread(self@ as int).len() == 0),
    {
        self.len(events) == 0
    }
}

/// Reads events of type `E` in order and tracks which events have already
/// been read: a [`ParManualEventReader`] together with the storage it
/// reads from.
pub struct ParEventReader<'w, 's, E> {
    pub reader: &'s mut ParManualEventReader<E>,
    pub events: &'w ParEvents<E>,
}

impl<'w, 's, E> ParEventReader<'w, 's, E> {
    /// Iterates over the events this [`ParEventReader`] has not seen yet.
    /// This updates the [`ParEventReader`]'s event counter, which means
    /// subsequent event reads will not include events that happened before
    /// now.
    pub fn read(&mut self) -> (it: ParEventIterator<'_, E>)
        requires
            old(self).events.wf(),
        ensures
            it.iter.wf(),
            it.iter.pending() == old(self).events@.unread(old(self).reader@ as int),
            it.iter.reader@ == old(self).events@.resume(old(self).reader@ as int),
            it.iter.reader@ + it.iter.pending().len() == old(self).events@.count,
            *final(it.iter.reader) == *final(self).reader,
            final(self).events == old(self).events,
            *final(final(self).reader) == *final(old(self).reader),
    {
        self.reader.read(self.events)
    }

    /// Like [`read`](Self::read), except also returning the
    /// [`ParEventId`] of the events.
    pub fn read_with_id(&mut self) -> (it: ParEventIteratorWithId<'_, E>)
        requires
            old(self).events.wf(),
        ensures
            it.wf(),
            it.pending() == old(self).events@.unread(old(self).reader@ as int),
            it.reader@ == old(self).events@.resume(old(self).reader@ as int),
            it.reader@ + it.pending().len() == old(self).events@.count,
            *final(it.reader) == *final(self).reader,
            final(self).events == old(self).events,
            *final(final(self).reader) == *final(old(self).reader),
    {
        self.reader.read_with_id(self.events)
    }

    /// Consumes all available events.
    ///
    /// This means these events will not appear in calls to
    /// [`ParEventReader::read()`] or [`ParEventReader::read_with_id()`] and
    /// [`ParEventReader::is_empty()`] will return true.
    pub fn clear(&mut self)
        requires
            old(self).events.wf(),
        ensures
            final(self).reader@ == old(self).events@.count,
            old(self).events@.unread(final(self).reader@ as int).len() == 0,
            final(self).events == old(self).events,
            *final(final(self).reader) == *final(old(self).reader),
    {
        self.reader.clear(self.events)
    }

    /// Determines the number of events available to be read from this
    /// [`ParEventReader`] without consuming any.
    pub fn len(&self) -> (n: usize)
        requires
            self.events.wf(),
        ensures
            n == self.events@.unread(old(self.reader)@ as int).len(),
    {
        self.reader.len(self.events)
    }

    /// Returns true if there are no events available to read.
    pub fn is_empty(&self) -> (b: bool)
        requires
            self.events.wf(),
        ensures
            b == (self.events@.unread(old(self.reader)@ as int).len() == 0),
    {
        self.reader.is_empty(self.events)
    }
}

/// An iterator that yields any unread events (and their IDs) from a
/// [`ParManualEventReader`].
///
/// It is handed out by [`ParManualEventReader::read_with_id`]. Whatever it
/// yields is marked as read in the reader it came from; what it has not
/// yielded when it is dropped stays unread.
pub struct ParEventIteratorWithId<'a, E> {
    /// The reader that is advanced as events are handed out.
    pub reader: &'a mut ParManualEventReader<E>,
    /// The events that were kept when the iterator was made, by number.
    pub event_iter: Vec<&'a ParEventInstance<E>>,
    /// How many of them are behind the iterator.
    pub taken: usize,
}

impl<'a, E> ParEventIteratorWithId<'a, E> {
    /// The events that the iterator has still to yield, in order.
    pub open spec fn pending(&self) -> Seq<ParEventInstance<E>> {
        self.event_iter@.unref().skip(self.taken as int)
    }

    /// Whether the iterator is in order: it is not past its end, and its
    /// reader can still be advanced over all that is pending.
    pub open spec fn wf(&self) -> bool {
        &&& self.taken <= self.event_iter@.len()
        &&& self.reader@ + (self.event_iter@.len() - self.taken) <= u64::MAX
    }

    /// Creates a new iterator that yields any events that have not yet
    /// been seen by `reader`.
    ///
    /// A reader that fell behind the oldest event still kept goes on with
    /// that event: what was dropped in between is lost to it.
    pub fn new(reader: &'a mut ParManualEventReader<E>, events: &'a ParEvents<E>) -> (it: Self)
        requires
            events.wf(),
        ensures
            it.wf(),
            it.pending() == events@.unread(old(reader)@ as int),
            it.reader@ == events@.resume(old(reader)@ as int),
            it.reader@ + it.pending().len() == events@.count,
            *final(it.reader) == *final(reader),
    {
        let ghost v = events@;
        let ghost last = reader@ as int;
        proof {
            lemma_retained(v);
            lemma_unread(v, last);
        }
        let mut event_iter: Vec<&'a ParEventInstance<E>> = Vec::new();
        merge_into(events.older_slots(), &mut event_iter, Ghost(v.oldest()), Ghost(v.middle()));
        merge_into(events.newer_slots(), &mut event_iter, Ghost(v.middle()), Ghost(v.count as int));
        proof {
            assert(event_iter@.unref() =~= v.retained());
        }
        let count = events.count();
        // find the oldest event id
        if event_iter.len() > 0 {
            let oldest = event_iter[0].event_id.id;
            proof {
                assert(event_iter@.unref()[0] == *event_iter@[0]);
                assert(v.retained()[0].number() == v.oldest());
            }
            let taken = if reader.last_event_count < oldest {
                reader.last_event_count = oldest;
                0
            } else if reader.last_event_count > count {
                reader.last_event_count = count;
                event_iter.len()
            } else {
                (reader.last_event_count - oldest) as usize
            };
            ParEventIteratorWithId { reader, event_iter, taken }
        } else {
            reader.last_event_count = count;
            ParEventIteratorWithId { reader, event_iter, taken: 0 }
        }
    }

    /// Iterate over only the events.
    pub fn without_id(self) -> (it: ParEventIterator<'a, E>)
        ensures
            it.iter == self,
    {
        ParEventIterator { iter: self }
    }

    /// The next unread event and its id, if there is one; the reader then
    /// counts it as read.
    pub fn next(&mut self) -> (item: Option<(&'a E, ParEventId<E>)>)
        requires
            old(self).wf(),
        ensures
            final(self).wf(),
            *final(final(self).reader) == *final(old(self).reader),
            old(self).pending().len() == 0 ==> item is None && final(self).pending() == old(self).pending() && final(self).reader@ == old(self).reader@,
            old(self).pending().len() > 0 ==> item == Some(
                (&old(self).pending()[0].event, old(self).pending()[0].event_id),
            ) && final(self).pending() == old(self).pending().drop_first() && final(self).reader@
                == old(self).reader@ + 1,
    {
        if self.taken < self.event_iter.len() {
            let instance: &'a ParEventInstance<E> = self.event_iter[self.taken];
            proof {
                assert(old(self).pending()[0] == *instance);
                assert(self.event_iter@.unref().skip(self.taken + 1) =~= old(self).pending().drop_first());
            }
            self.taken = self.taken + 1;
            self.reader.last_event_count = self.reader.last_event_count + 1;
            Some((&instance.event, instance.event_id))
        } else {
            None
        }
    }

    /// Skips `n` unread events and returns the one after them. Where
    /// there are no more than `n`, all of them count as read and nothing is
    /// returned.
    pub fn nth(&mut self, n: usize) -> (item: Option<(&'a E, ParEventId<E>)>)
        requires
            old(self).wf(),
        ensures
            final(self).wf(),
            *final(final(self).reader) == *final(old(self).reader),
            n >= old(self).pending().len() ==> item is None && final(self).pending().len() == 0
                && final(self).reader@ == old(self).reader@ + old(self).pending().len(),
            n < old(self).pending().len() ==> item == Some(
                (&old(self).pending()[n as int].event, old(self).pending()[n as int].event_id),
            ) && final(self).pending() == old(self).pending().skip(n + 1) && final(self).reader@
                == old(self).reader@ + n + 1,
    {
        let unread = self.event_iter.len() - self.taken;
        if n < unread {
            let instance: &'a ParEventInstance<E> = self.event_iter[self.taken + n];
            proof {
                assert(old(self).pending()[n as int] == *instance);
                assert(self.event_iter@.unref().skip(self.taken + n + 1) =~= old(self).pending().skip(n + 1));
            }
            self.taken = self.taken + n + 1;
            self.reader.last_event_count = self.reader.last_event_count + (n as u64 + 1);
            Some((&instance.event, instance.event_id))
        } else {
            self.taken = self.event_iter.len();
            self.reader.last_event_count = self.reader.last_event_count + unread as u64;
            None
        }
    }

    /// The last unread event and its id, if there is one. All unread
    /// events count as read afterwards.
    pub fn last(self) -> (item: Option<(&'a E, ParEventId<E>)>)
        requires
            self.wf(),
        ensures
            final(self.reader)@ == old(self.reader)@ + self.pending().len(),
            self.pending().len() == 0 ==> item is None,
            self.pending().len() > 0 ==> item == Some(
                (&self.pending().last().event, self.pending().last().event_id),
            ),
    {
        let ParEventIteratorWithId { reader, event_iter, taken } = self;
        let unread = event_iter.len() - taken;
        if unread == 0 {
            return None;
        }
        let instance: &'a ParEventInstance<E> = event_iter[event_iter.len() - 1];
        proof {
            assert(self.pending().last() == *instance);
        }
        reader.last_event_count = reader.last_event_count + unread as u64;
        Some((&instance.event, instance.event_id))
    }

    /// The number of unread events. All of them count as read afterwards.
    pub fn count(self) -> (n: usize)
        requires
            self.wf(),
        ensures
            n == self.pending().len(),
            final(self.reader)@ == old(self.reader)@ + self.pending().len(),
    {
        let ParEventIteratorWithId { reader, event_iter, taken } = self;
        let unread = event_iter.len() - taken;
        reader.last_event_count = reader.last_event_count + unread as u64;
        unread
    }

    /// The number of events that the iterator has still to yield, as the
    /// lower and the upper bound.
    pub fn size_hint(&self) -> (hint: (usize, Option<usize>))
        requires
            self.wf(),
        ensures
            hint.0 == self.pending().len(),
            hint.1 == Some(hint.0),
    {
        let unread = self.event_iter.len() - self.taken;
        (unread, Some(unread))
    }

    /// The number of events that the iterator has still to yield.
    pub fn len(&self) -> (n: usize)
        requires
            self.wf(),
        ensures
            n == self.pending().len(),
    {
        self.event_iter.len() - self.taken
    }
}

/// An iterator that yields any unread events from a
/// [`ParManualEventReader`].
pub struct ParEventIterator<'a, E> {
    pub iter: ParEventIteratorWithId<'a, E>,
}

impl<'a, E> ParEventIterator<'a, E> {
    /// The next unread event, if there is one; the reader then counts it
    /// as read.
    pub fn next(&mut self) -> (item: Option<&'a E>)
        requires
            old(self).iter.wf(),
        ensures
            final(self).iter.wf(),
            *final(final(self).iter.reader) == *final(old(self).iter.reader),
            old(self).iter.pending().len() == 0 ==> item is None && final(self).iter.pending()
                == old(self).iter.pending() && final(self).iter.reader@ == old(self).iter.reader@,
            old(self).iter.pending().len() > 0 ==> item == Some(&old(self).iter.pending()[0].event)
                && final(self).iter.pending() == old(self).iter.pending().drop_first() && final(self).iter.reader@ == old(self).iter.reader@ + 1,
    {
        match self.iter.next() {
            Some((event, _)) => Some(event),
            None => None,
        }
    }

    /// Skips `n` unread events and returns the one after them. Where
    /// there are no more than `n`, all of them count as read and nothing is
    /// returned.
    pub fn nth(&mut self, n: usize) -> (item: Option<&'a E>)
        requires
            old(self).iter.wf(),
        ensures
            final(self).iter.wf(),
            *final(final(self).iter.reader) == *final(old(self).iter.reader),
            n >= old(self).iter.pending().len() ==> item is None && final(self).iter.pending().len() == 0 && final(self).iter.reader@ == old(self).iter.reader@
                + old(self).iter.pending().len(),
            n < old(self).iter.pending().len() ==> item == Some(
                &old(self).iter.pending()[n as int].event,
            ) && final(self).iter.pending() == old(self).iter.pending().skip(n + 1) && final(self).iter.reader@ == old(self).iter.reader@ + n + 1,
    {
        match self.iter.nth(n) {
            Some((event, _)) => Some(event),
            None => None,
        }
    }

    /// The last unread event, if there is one. All unread events count as
    /// read afterwards.
    pub fn last(self) -> (item: Option<&'a E>)
        requires
            self.iter.wf(),
        ensures
            final(self.iter.reader)@ == old(self.iter.reader)@ + self.iter.pending().len(),
            self.iter.pending().len() == 0 ==> item is None,
            self.iter.pending().len() > 0 ==> item == Some(&self.iter.pending().last().event),
    {
        match self.iter.last() {
            Some((event, _)) => Some(event),
            None => None,
        }
    }

    /// The number of unread events. All of them count as read afterwards.
    pub fn count(self) -> (n: usize)
        requires
            self.iter.wf(),
        ensures
            n == self.iter.pending().len(),
            final(self.iter.reader)@ == old(self.iter.reader)@ + self.iter.pending().len(),
    {
        self.iter.count()
    }

    /// The number of events that the iterator has still to yield, as the
    /// lower and the upper bound.
    pub fn size_hint(&self) -> (hint: (usize, Option<usize>))
        requires
            self.iter.wf(),
        ensures
            hint.0 == self.iter.pending().len(),
            hint.1 == Some(hint.0),
    {
        self.iter.size_hint()
    }

    /// The number of events that the iterator has still to yield.
    pub fn len(&self) -> (n: usize)
        requires
            self.iter.wf(),
        ensures
            n == self.iter.pending().len(),
    {
        self.iter.len()
    }
}

} // verus!
