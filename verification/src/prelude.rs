//! The items of this crate that most users need, in one place.

pub use crate::auth::{Authenticated, Unauthenticated};
pub use crate::auxiliary_index::AuxIndex;
pub use crate::conns::{
    accept_connection, receive_message, send_message, Delivery, ExternalReq, Received, Recipients,
    Reaction, SessionEvent, SessionId, UserId, UserSessionsMap,
};
pub use crate::event_wrapper::Event;
pub use crate::par_events::{
    event_update_condition, event_update_system, ParEventId, ParEventInstance, ParEventIterator,
    ParEventIteratorWithId, ParEventReader, ParEventWriter, ParEvents, ParEventsView,
    ParManualEventReader, ParManualEventWriter, SequenceAllocator,
};
pub use crate::schedules::{Deletion, Dispatch, Input, Output, PostInput, PreOutput};
pub use crate::shutdown::{process_exit_message, Exit, ShutdownSignal};
pub use crate::target::{transform_target, AuthTarget, Target, Targets};
pub use crate::target_map::{TargetChange, TargetJoined, TargetLeft, TargetMap};
pub use crate::timeout_map::{ExpiredTimeout, PendingTimeout, TimeoutMap, TimeoutQueue};
