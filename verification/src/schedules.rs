//! Labels for the schedules of a tick.
//!
//! In the order in which they run: [`Input`], [`PostInput`], [`Deletion`]
//! and [`Dispatch`] come between the first schedule of a tick and the
//! update schedules; [`PreOutput`] and [`Output`] come between the update
//! schedules and the last schedule of a tick.

use vstd::prelude::*;

verus! {

/// Runs first, intended for systems that accept input from an external
/// source.
#[derive(Clone, Copy, Debug, PartialEq, Eq, Hash)]
pub struct Input;

/// Runs after [`Input`], intended for systems that need to update their
/// auxiliary indexes.
#[derive(Clone, Copy, Debug, PartialEq, Eq, Hash)]
pub struct PostInput;

/// Runs after [`PostInput`], intended for systems that need to delete
/// entities that were deferred.
#[derive(Clone, Copy, Debug, PartialEq, Eq, Hash)]
pub struct Deletion;

/// Runs after [`Deletion`], intended for systems that need to dispatch
/// events into specific handlers.
#[derive(Clone, Copy, Debug, PartialEq, Eq, Hash)]
pub struct Dispatch;

/// Runs after the update schedules, intended for systems that need to
/// prepare for output.
#[derive(Clone, Copy, Debug, PartialEq, Eq, Hash)]
pub struct PreOutput;

/// Runs after [`PreOutput`], intended for systems that need to output data
/// to an external source.
#[derive(Clone, Copy, Debug, PartialEq, Eq, Hash)]
pub struct Output;

} // verus!
