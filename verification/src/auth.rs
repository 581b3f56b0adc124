//! Events that report authentication changes.

use vstd::prelude::*;

verus! {

/// Event indicating that a user was authenticated.
#[derive(Debug, Clone, Copy)]
pub struct Authenticated;

/// Event indicating that a user was unauthenticated.
#[derive(Debug, Clone, Copy)]
pub struct Unauthenticated;

} // verus!
