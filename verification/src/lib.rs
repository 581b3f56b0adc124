//! Utilities for tick-driven applications that talk to the outside through
//! sessions.
//!
//! The heart of the crate is [`par_events`]: a double-buffered event log that
//! many producers write to, each through its own slot, and that any number of
//! readers drain in the order in which the events were sent.
//!
//! Around it:
//! - [`event_wrapper`]: a wrapper that makes any value an event
//! - [`auth`] and [`schedules`]: events of authentication, and the labels of
//!   the schedules of a tick
//! - [`conns`]: which sessions each user has open, what follows from a
//!   message on a session, and to which sessions a message goes
//! - [`auxiliary_index`]: ids and entities, found by each other
//! - [`target`], [`target_map`] and [`timeout_map`]: whom a message is for,
//!   what is kept for a target, and which targets have waited too long
//! - [`shutdown`]: when the application is to exit
//!
//! The functions here are verified against their contracts, which are stated
//! over the views of the types; what holds over whole runs is proved in
//! [`par_events::laws`]. The one thing taken on trust is what the bimap that
//! [`auxiliary_index`] is built on does: each call into it has its contract
//! written down there, unproved.

pub mod auth;
pub mod auxiliary_index;
pub mod conns;
pub mod event_wrapper;
pub mod par_events;
pub mod prelude;
pub mod schedules;
pub mod shutdown;
pub mod target;
pub mod target_map;
pub mod timeout_map;
