//! The event storage.

use super::merge::drain_into;
use super::model::{
    empty_slots, joined, lemma_joined_take, lemma_total_empty, lemma_total_take,
    lemma_total_take_le, payloads, total, ParEventsView, Slots,
};
use super::reader::ParManualEventReader;
use super::record::{ParEventId, ParEventInstance};
use super::sequence::SequenceAllocator;
use super::steps::{lemma_add_slot, lemma_clear, lemma_extend, lemma_rotate, lemma_send};
use vstd::prelude::*;

verus! {

/// The events of one update cycle as they are stored: one vector per slot.
pub open spec fn slots_of<E>(stored: Vec<Vec<ParEventInstance<E>>>) -> Slots<E> {
    Seq::new(stored@.len(), |l: int| stored@[l]@)
}

/// A parallel event storage.
///
/// Events are written to one of several slots; each writer has a slot of
/// its own. The storage keeps the events of the current update cycle and of
/// the one before it: an event can be read from the moment it is sent until
/// the second [`update`](ParEvents::update) after that.
///
/// Writing takes the storage by `&mut`: a caller that shares one storage
/// among several writers has to hand it to one of them at a time, and must
/// not update it or read from it while one of them writes.
pub struct ParEvents<E> {
    events_a: Vec<Vec<ParEventInstance<E>>>,
    events_b: Vec<Vec<ParEventInstance<E>>>,
    event_count: SequenceAllocator,
}

impl<E> View for ParEvents<E> {
    type V = ParEventsView<E>;

    closed spec fn view(&self) -> ParEventsView<E> {
        ParEventsView {
            count: self.event_count@,
            older: slots_of(self.events_a),
            newer: slots_of(self.events_b),
        }
    }
}

impl<E> Default for ParEvents<E> {
    /// An empty storage with one slot, slot 0, for whoever writes from
    /// outside the scheduled writers.
    fn default() -> (r: Self)
        ensures
            r.wf(),
            r@ == (ParEventsView::<E> { count: 0, older: empty_slots(1), newer: empty_slots(1) }),
    {
        let mut events_a: Vec<Vec<ParEventInstance<E>>> = Vec::new();
        let mut events_b: Vec<Vec<ParEventInstance<E>>> = Vec::new();
        events_a.push(Vec::new());
        events_b.push(Vec::new());
        let r = ParEvents { events_a, events_b, event_count: SequenceAllocator::new() };
        proof {
            assert(slots_of(r.events_a) =~= empty_slots::<E>(1));
            assert(slots_of(r.events_b) =~= empty_slots::<E>(1));
            lemma_total_empty::<E>(1);
        }
        r
    }
}

impl<E> ParEvents<E> {
    /// Whether the storage is in order; every function here keeps it so.
    pub open spec fn wf(&self) -> bool {
        self@.wf()
    }

    /// The events of the cycle before the current one, as they are stored.
    pub(crate) fn older_slots(&self) -> (stored: &Vec<Vec<ParEventInstance<E>>>)
        ensures
            slots_of(*stored) == self@.older,
    {
        &self.events_a
    }

    /// The events of the current cycle, as they are stored.
    pub(crate) fn newer_slots(&self) -> (stored: &Vec<Vec<ParEventInstance<E>>>)
        ensures
            slots_of(*stored) == self@.newer,
    {
        &self.events_b
    }

    /// The number of ids handed out so far: the id that the next event
    /// gets.
    pub fn count(&self) -> (count: u64)
        ensures
            count == self@.count,
    {
        self.event_count.current()
    }

    /// The number of slots.
    pub fn slots(&self) -> (slots: usize)
        ensures
            slots == self@.slots(),
    {
        self.events_b.len()
    }

    /// "Sends" an event by writing it to the current event buffer, in the
    /// slot `slot_index`. Readers can then read the event.
    pub fn send(&mut self, slot_index: usize, event: E)
        requires
            old(self).wf(),
            slot_index < old(self)@.slots(),
            old(self)@.has_room(1),
        ensures
            final(self).wf(),
            final(self)@ == old(self)@.send(slot_index as int, event),
    {
        let id = self.event_count.next();
        let event_instance = ParEventInstance { event_id: ParEventId::new(id), event };
        self.events_b[slot_index].push(event_instance);
        proof {
            lemma_send(old(self)@, slot_index as int, event);
            assert(self@.newer =~= old(self)@.send(slot_index as int, event).newer);
        }
    }

    /// Sends the default value of the event. Useful when the event is an
    /// empty struct.
    pub fn send_default(&mut self, slot_index: usize) where E: Default
        requires
            old(self).wf(),
            slot_index < old(self)@.slots(),
            old(self)@.has_room(1),
        ensures
            final(self).wf(),
            exists|event: E|
                call_ensures(E::default, (), event) && final(self)@ == #[trigger] old(self)@.send(
                    slot_index as int,
                    event,
                ),
    {
        self.send(slot_index, E::default());
    }

    /// Gets a new [`ParManualEventReader`]. This will include all events
    /// already in the event buffers.
    pub fn get_reader(&self) -> (reader: ParManualEventReader<E>)
        ensures
            reader@ == 0,
    {
        ParManualEventReader::default()
    }

    /// Gets a new [`ParManualEventReader`]. This will ignore all events
    /// already in the event buffers. It will read all future events.
    pub fn get_reader_current(&self) -> (reader: ParManualEventReader<E>)
        ensures
            reader@ == self@.count,
    {
        ParManualEventReader::starting_at(self.event_count.current())
    }

    /// Sends a list of events all at once, to the slot `slot_index`. The
    /// events get consecutive ids in the order of the list.
    pub fn extend(&mut self, slot_index: usize, events: Vec<E>)
        requires
            old(self).wf(),
            slot_index < old(self)@.slots(),
            old(self)@.has_room(events@.len()),
        ensures
            final(self).wf(),
            final(self)@ == old(self)@.extend(slot_index as int, events@),
    {
        let ghost before = self@;
        let ghost slot = slot_index as int;
        let ghost sent = events@;
        let ids = self.event_count.next_batch(events.len() as u64);
        let mut id = ids.start;
        proof {
            lemma_extend(before, slot, sent.take(0));
        }
        for event in it: events
            invariant
                before.wf(),
                slot == slot_index,
                0 <= slot < before.slots(),
                before.has_room(sent.len()),
                it.seq() == sent,
                self.events_b@.len() == before.slots(),
                self.events_a == old(self).events_a,
                self.event_count@ == before.count + sent.len(),
                id == before.count + it.index(),
                slots_of(self.events_b) == before.extend(slot, sent.take(it.index() as int)).newer,
        {
            let ghost k = it.index() as int;
            proof {
                lemma_extend(before, slot, sent.take(k));
                assert(sent.take(k + 1).drop_last() =~= sent.take(k));
                assert(sent.take(k + 1).last() == event);
            }
            let event_instance = ParEventInstance { event_id: ParEventId::new(id), event };
            self.events_b[slot_index].push(event_instance);
            id = id + 1;
            proof {
                assert(slots_of(self.events_b) =~= before.extend(slot, sent.take(k + 1)).newer);
            }
        }
        proof {
            assert(sent.take(sent.len() as int) =~= sent);
            lemma_extend(before, slot, sent);
        }
    }

    /// Swaps the event buffers and clears the oldest event buffer. In
    /// general, this should be called once per frame/update.
    ///
    /// If you need access to the events that were removed, consider using
    /// [`ParEvents::update_drain`].
    pub fn update(&mut self)
        requires
            old(self).wf(),
        ensures
            final(self).wf(),
            final(self)@ == old(self)@.rotate(),
    {
        let _ = self.update_drain();
    }

    /// Swaps the event buffers and drains the oldest event buffer,
    /// returning all events that were removed, slot after slot. In general,
    /// this should be called once per frame/update.
    ///
    /// If you do not need to take ownership of the removed events, use
    /// [`ParEvents::update`] instead.
    #[must_use]
    pub fn update_drain(&mut self) -> (removed: Vec<E>)
        requires
            old(self).wf(),
        ensures
            final(self).wf(),
            final(self)@ == old(self)@.rotate(),
            removed@ == payloads(joined(old(self)@.older)),
    {
        let ghost before = self@;
        core::mem::swap(&mut self.events_a, &mut self.events_b);
        let mut removed: Vec<E> = Vec::new();
        let mut l: usize = 0;
        while l < self.events_b.len()
            invariant
                l <= self.events_b@.len(),
                self.events_b@.len() == before.older.len(),
                self.event_count@ == before.count,
                slots_of(self.events_a) == before.newer,
                forall|j: int|
                    0 <= j < l ==> (#[trigger] self.events_b@[j])@ == Seq::<
                        ParEventInstance<E>,
                    >::empty(),
                forall|j: int|
                    l <= j < self.events_b@.len() ==> (#[trigger] self.events_b@[j])@
                        == before.older[j],
                removed@ == payloads(joined(before.older.take(l as int))),
            decreases self.events_b@.len() - l,
        {
            let mut slot: Vec<ParEventInstance<E>> = Vec::new();
            core::mem::swap(&mut slot, &mut self.events_b[l]);
            proof {
                lemma_joined_take(before.older, l as int);
            }
            move_payloads(slot, &mut removed);
            proof {
                assert(removed@ =~= payloads(joined(before.older.take(l + 1))));
            }
            l = l + 1;
        }
        proof {
            assert(before.older.take(l as int) =~= before.older);
            assert(slots_of(self.events_b) =~= empty_slots::<E>(before.older.len()));
            lemma_rotate(before);
        }
        removed
    }

    /// Removes all events.
    pub fn clear(&mut self)
        requires
            old(self).wf(),
        ensures
            final(self).wf(),
            final(self)@ == old(self)@.clear(),
    {
        let ghost before = self@;
        let mut l: usize = 0;
        while l < self.events_b.len()
            invariant
                l <= self.events_b@.len(),
                self.events_a@.len() == before.older.len(),
                self.events_b@.len() == before.newer.len(),
                before.older.len() == before.newer.len(),
                self.event_count@ == before.count,
                forall|j: int|
                    0 <= j < l ==> (#[trigger] self.events_a@[j])@ == Seq::<
                        ParEventInstance<E>,
                    >::empty(),
                forall|j: int|
                    0 <= j < l ==> (#[trigger] self.events_b@[j])@ == Seq::<
                        ParEventInstance<E>,
                    >::empty(),
            decreases self.events_b@.len() - l,
        {
            self.events_a[l].clear();
            self.events_b[l].clear();
            l = l + 1;
        }
        proof {
            assert(slots_of(self.events_a) =~= empty_slots::<E>(before.older.len()));
            assert(slots_of(self.events_b) =~= empty_slots::<E>(before.newer.len()));
            lemma_clear(before);
        }
    }

    /// Removes all events and returns them in the order in which they
    /// were sent.
    pub fn drain(&mut self) -> (removed: Vec<E>)
        requires
            old(self).wf(),
        ensures
            final(self).wf(),
            final(self)@ == old(self)@.clear(),
            removed@ == payloads(old(self)@.retained()),
    {
        let ghost before = self@;
        let mut removed: Vec<E> = Vec::new();
        drain_into(
            &mut self.events_a,
            &mut removed,
            Ghost(before.oldest()),
            Ghost(before.middle()),
        );
        drain_into(
            &mut self.events_b,
            &mut removed,
            Ghost(before.middle()),
            Ghost(before.count as int),
        );
        proof {
            assert(removed@ =~= payloads(before.retained()));
            lemma_clear(before);
        }
        removed
    }

    /// Adds a new event slot and returns its index. This is useful for
    /// when events are sent from several writers.
    pub fn add_slot(&mut self) -> (slot_index: usize)
        requires
            old(self).wf(),
        ensures
            final(self).wf(),
            slot_index == old(self)@.slots(),
            final(self)@ == old(self)@.add_slot(),
    {
        let slot_index = self.events_b.len();
        self.events_a.push(Vec::new());
        self.events_b.push(Vec::new());
        proof {
            lemma_add_slot(old(self)@);
            assert(self@.older =~= old(self)@.add_slot().older);
            assert(self@.newer =~= old(self)@.add_slot().newer);
        }
        slot_index
    }

    /// Returns the number of events currently stored in the event buffer.
    pub fn len(&self) -> (n: usize)
        requires
            self.wf(),
        ensures
            n == self@.len(),
    {
        let len_a = stored_len(&self.events_a);
        let len_b = stored_len(&self.events_b);
        len_a + len_b
    }

    /// Returns true if there are no events currently stored in the event
    /// buffer.
    pub fn is_empty(&self) -> (b: bool)
        requires
            self.wf(),
        ensures
            b == (self@.len() == 0),
    {
        self.len() == 0
    }
}

/// Calls [`ParEvents::update`]: meant to run once at the start of every
/// tick, while nothing else writes to or reads from the storage.
pub fn event_update_system<E>(par_events: &mut ParEvents<E>)
    requires
        old(par_events).wf(),
    ensures
        final(par_events).wf(),
        final(par_events)@ == old(par_events)@.rotate(),
{
    par_events.update();
}

/// A run condition for [`event_update_system`]: whether the storage holds
/// no event at all.
pub fn event_update_condition<E>(events: &ParEvents<E>) -> (b: bool)
    requires
        events.wf(),
    ensures
        b == (events@.len() == 0),
{
    events.is_empty()
}

/// Moves the payloads of `instances` to the end of `out`, in their order.
fn move_payloads<E>(instances: Vec<ParEventInstance<E>>, out: &mut Vec<E>)
    ensures
        final(out)@ == old(out)@ + payloads(instances@),
{
    let ghost moved = instances@;
    for instance in it: instances
        invariant
            it.seq() == moved,
            out@ == old(out)@ + payloads(moved.take(it.index() as int)),
    {
        out.push(instance.event);
        proof {
            assert(out@ =~= old(out)@ + payloads(moved.take(it.index() + 1)));
        }
    }
    proof {
        assert(moved.take(moved.len() as int) =~= moved);
    }
}

/// The number of events in `stored`, all slots together.
fn stored_len<E>(stored: &Vec<Vec<ParEventInstance<E>>>) -> (n: usize)
    requires
        total(slots_of(*stored)) <= usize::MAX,
    ensures
        n == total(slots_of(*stored)),
{
    let ghost slots = slots_of(*stored);
    let mut n: usize = 0;
    let mut l: usize = 0;
    while l < stored.len()
        invariant
            l <= stored.len(),
            slots == slots_of(*stored),
            n == total(slots.take(l as int)),
            total(slots) <= usize::MAX,
        decreases stored.len() - l,
    {
        proof {
            lemma_total_take(slots, l as int);
            lemma_total_take_le(slots, l + 1);
        }
        n = n + stored[l].len();
        l = l + 1;
    }
    proof {
        assert(slots.take(l as int) =~= slots);
    }
    n
}

} // verus!
