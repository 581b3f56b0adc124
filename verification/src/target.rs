//! Whom a message is for.

use vstd::prelude::*;

verus! {

/// A user that is authenticated: all of the user's sessions, or one of
/// them.
#[derive(Debug, Clone, Copy, PartialEq, Eq, Hash, Structural)]
pub enum AuthTarget {
    /// All sessions of the user.
    All(u128),
    /// One session of the user.
    Specific(u128, u32),
}

impl AuthTarget {
    /// The user.
    pub open spec fn user(self) -> u128 {
        match self {
            AuthTarget::All(user_id) => user_id,
            AuthTarget::Specific(user_id, _) => user_id,
        }
    }

    /// The id of the user.
    pub fn id(&self) -> (user_id: u128)
        ensures
            user_id == self.user(),
    {
        match self {
            AuthTarget::All(user_id) => *user_id,
            AuthTarget::Specific(user_id, _) => *user_id,
        }
    }
}

/// One receiver: a session of someone who is not authenticated, or an
/// authenticated user.
#[derive(Debug, Clone, Copy, PartialEq, Eq, Hash, Structural)]
pub enum Target {
    /// The session of someone who is not authenticated.
    Anon(u32),
    /// An authenticated user.
    Auth(AuthTarget),
}

impl Target {
    /// The general target that stands for this one: an authenticated
    /// user stands for each of the user's sessions, and everything else
    /// for itself.
    pub open spec fn general(self) -> Target {
        match self {
            Target::Anon(session_id) => Target::Anon(session_id),
            Target::Auth(auth_target) => Target::Auth(AuthTarget::All(auth_target.user())),
        }
    }

    /// Whether this target is a general one.
    pub open spec fn is_general(self) -> bool {
        self.general() == self
    }
}

/// Transforms the target into a general target.
pub fn transform_target(target: &Target) -> (general: Target)
    ensures
        general == target.general(),
        general.is_general(),
{
    match target {
        Target::Anon(session_id) => Target::Anon(*session_id),
        Target::Auth(auth_target) => Target::Auth(AuthTarget::All(auth_target.id())),
    }
}

/// The receivers of a message.
#[derive(Debug, Clone)]
pub enum Targets {
    /// Every session there is.
    All,
    /// The receivers listed.
    Few(Vec<Target>),
}

} // verus!
