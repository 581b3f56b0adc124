//! Parallel events.
//!
//! [`ParEvents`] keeps the events of the last two update cycles. Every event
//! is stamped with an id taken from one counter, whichever slot it is written
//! to, and a reader gets the events it has not seen yet in the order of those
//! ids.

pub mod events;
pub mod laws;
pub mod merge;
pub mod model;
pub mod reader;
pub mod record;
pub mod sequence;
pub mod steps;
pub mod writer;

pub use events::{event_update_condition, event_update_system, ParEvents};
pub use model::ParEventsView;
pub use reader::{
    ParEventIterator, ParEventIteratorWithId, ParEventReader, ParManualEventReader,
};
pub use record::{ParEventId, ParEventInstance};
pub use sequence::SequenceAllocator;
pub use writer::{ParEventWriter, ParManualEventWriter};
