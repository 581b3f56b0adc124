//! Writing events, each writer to its own slot.

use super::events::ParEvents;
use super::steps::lemma_extend;
use core::marker::PhantomData;
use vstd::prelude::*;

verus! {

/// Stores the state for a [`ParEventWriter`]: the slot that the writer
/// sends to. Access to the storage is required to send any events.
pub struct ParManualEventWriter<E> {
    pub slot_index: usize,
    pub _marker: PhantomData<E>,
}

impl<E> ParManualEventWriter<E> {
    /// Creates a new [`ParManualEventWriter`] with the given slot index.
    pub fn new(slot_index: usize) -> (state: Self)
        ensures
            state.slot_index == slot_index,
    {
        ParManualEventWriter { slot_index, _marker: PhantomData }
    }

    /// Sets up a writer: adds a slot to `events` that only this writer
    /// will send to.
    pub fn init_state(events: &mut ParEvents<E>) -> (state: Self)
        requires
            old(events).wf(),
        ensures
            final(events).wf(),
            final(events)@ == old(events)@.add_slot(),
            state.slot_index == old(events)@.slots(),
    {
        let slot_index = events.add_slot();
        ParManualEventWriter::new(slot_index)
    }

    /// The writer for this state's slot of `events`.
    pub fn get_param<'w>(&self, events: &'w mut ParEvents<E>) -> (writer: ParEventWriter<'w, E>)
        ensures
            writer.slot_index == self.slot_index,
            *writer.events == *old(events),
            *final(writer.events) == *final(events),
    {
        ParEventWriter { slot_index: self.slot_index, events }
    }
}

/// Sends events of type `E`, all of them to one slot of a [`ParEvents`].
pub struct ParEventWriter<'w, E> {
    pub slot_index: usize,
    pub events: &'w mut ParEvents<E>,
}

impl<'w, E> ParEventWriter<'w, E> {
    /// Whether the writer can send: its storage is in order and has the
    /// writer's slot.
    pub open spec fn wf(&self) -> bool {
        self.events.wf() && self.slot_index < self.events@.slots()
    }

    /// Sends an event, which can later be read by readers.
    ///
    /// See [`ParEvents`] for details.
    pub fn send(&mut self, event: E)
        requires
            old(self).wf(),
            old(self).events@.has_room(1),
        ensures
            final(self).wf(),
            final(self).slot_index == old(self).slot_index,
            final(self).events@ == old(self).events@.send(old(self).slot_index as int, event),
            *final(final(self).events) == *final(old(self).events),
    {
        self.events.send(self.slot_index, event)
    }

    /// Sends a list of events all at once, which can later be read by
    /// readers. This is more efficient than sending each event
    /// individually.
    ///
    /// See [`ParEvents`] for details.
    pub fn send_batch(&mut self, events: Vec<E>)
        requires
            old(self).wf(),
            old(self).events@.has_room(events@.len()),
        ensures
            final(self).wf(),
            final(self).slot_index == old(self).slot_index,
            final(self).events@ == old(self).events@.extend(old(self).slot_index as int, events@),
            *final(final(self).events) == *final(old(self).events),
    {
        proof {
            lemma_extend(self.events@, self.slot_index as int, events@);
        }
        self.events.extend(self.slot_index, events)
    }

    /// Sends the default value of the event. Useful when the event is an
    /// empty struct.
    pub fn send_default(&mut self) where E: Default
        requires
            old(self).wf(),
            old(self).events@.has_room(1),
        ensures
            final(self).wf(),
            final(self).slot_index == old(self).slot_index,
            exists|event: E|
                call_ensures(E::default, (), event) && final(self).events@ == #[trigger] old(self).events@.send(old(self).slot_index as int, event),
            *final(final(self).events) == *final(old(self).events),
    {
        self.events.send_default(self.slot_index)
    }
}

} // verus!
