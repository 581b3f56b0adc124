//! Auxiliary index for targets.
//!
//! Maps targets to an arbitrary type, used to connect a target to
//! arbitrary data.

use crate::target::{transform_target, AuthTarget, Target};
use std::collections::hash_map::Entry;
use std::collections::HashMap;
use vstd::prelude::*;
use vstd::std_specs::hash::group_hash_axioms;

verus! {

broadcast use group_hash_axioms;

/// An event used to notify when a new target has joined the data.
#[derive(Clone)]
pub struct TargetJoined<T> {
    pub target: Target,
    pub value: T,
}

impl<T> TargetJoined<T> {
    /// The event that `target` has joined with `value`.
    pub fn new(target: Target, value: T) -> (event: Self)
        ensures
            event.target == target,
            event.value == value,
    {
        Self { target, value }
    }
}

/// An event used to notify when a target has left the data.
pub struct TargetLeft<T> {
    pub target: Target,
    pub _phantom: core::marker::PhantomData<T>,
}

impl<T> Clone for TargetLeft<T> {
    fn clone(&self) -> (event: Self)
        ensures
            event == *self,
    {
        Self { target: self.target, _phantom: core::marker::PhantomData }
    }
}

impl<T> TargetLeft<T> {
    /// The event that `target` has left.
    pub fn new(target: Target) -> (event: Self)
        ensures
            event.target == target,
    {
        Self { target, _phantom: core::marker::PhantomData }
    }
}

/// A change of a [`TargetMap`].
pub enum TargetChange<T> {
    /// A target has joined.
    Joined(TargetJoined<T>),
    /// A target has left.
    Left(TargetLeft<T>),
}

/// Auxiliary index for targets.
///
/// Maps targets to an arbitrary type, used to connect a target to
/// arbitrary data.
///
/// # Note
/// Connects all target sessions of a particular user to the data: what is
/// kept for an authenticated user is found under each of the user's
/// sessions.
pub struct TargetMap<T> {
    /// What is kept for the authenticated users, by user.
    users: HashMap<u128, T>,
    /// What is kept for those who are not authenticated, by session.
    sessions: HashMap<u32, T>,
}

impl<T> View for TargetMap<T> {
    type V = Map<Target, T>;

    /// What is kept for each general target.
    closed spec fn view(&self) -> Map<Target, T> {
        Map::new(
            |target: Target|
                match target {
                    Target::Anon(session_id) => self.sessions@.contains_key(session_id),
                    Target::Auth(AuthTarget::All(user_id)) => self.users@.contains_key(user_id),
                    Target::Auth(AuthTarget::Specific(_, _)) => false,
                },
            |target: Target|
                match target {
                    Target::Anon(session_id) => self.sessions@[session_id],
                    Target::Auth(auth_target) => self.users@[auth_target.user()],
                },
        )
    }
}

/// The map `held` after each change of `changes` was made, in the order
/// of the list.
pub open spec fn after_changes<T>(held: Map<Target, T>, changes: Seq<TargetChange<T>>) -> Map<
    Target,
    T,
>
    decreases changes.len(),
{
    if changes.len() == 0 {
        held
    } else {
        let before = after_changes(held, changes.drop_last());
        match changes.last() {
            TargetChange::Joined(joined) => before.insert(joined.target.general(), joined.value),
            TargetChange::Left(left) => before.remove(left.target.general()),
        }
    }
}

impl<T> TargetMap<T> {
    /// Creates a new instance of the map.
    pub fn new() -> (map: Self)
        ensures
            map@ == Map::<Target, T>::empty(),
    {
        let map = TargetMap { users: HashMap::new(), sessions: HashMap::new() };
        proof {
            assert(map@ =~= Map::<Target, T>::empty());
        }
        map
    }

    /// Checks if the given target is in the map.
    pub fn contains(&self, target: &Target) -> (found: bool)
        ensures
            found == self@.contains_key(target.general()),
    {
        match transform_target(target) {
            Target::Anon(session_id) => self.sessions.contains_key(&session_id),
            Target::Auth(auth_target) => self.users.contains_key(&auth_target.id()),
        }
    }

    /// Returns a reference to the value for the given target.
    pub fn get(&self, target: &Target) -> (value: Option<&T>)
        ensures
            match value {
                Some(value) => self@.contains_key(target.general()) && *value
                    == self@[target.general()],
                None => !self@.contains_key(target.general()),
            },
    {
        match transform_target(target) {
            Target::Anon(session_id) => self.sessions.get(&session_id),
            Target::Auth(auth_target) => self.users.get(&auth_target.id()),
        }
    }

    /// Returns a mutable reference to the value for the given target.
    pub fn get_mut(&mut self, target: &Target) -> (value: Option<&mut T>)
        ensures
            match value {
                Some(value) => old(self)@.contains_key(target.general()) && *value == old(self)@[target.general()] && final(self)@ == old(self)@.insert(
                    target.general(),
                    *final(value),
                ),
                None => !old(self)@.contains_key(target.general()) && final(self)@ == old(self)@,
            },
    {
        match transform_target(target) {
            Target::Anon(session_id) => match self.sessions.entry(session_id) {
                Entry::Occupied(occupied) => Some(occupied.into_mut()),
                Entry::Vacant(_) => None,
            },
            Target::Auth(auth_target) => match self.users.entry(auth_target.id()) {
                Entry::Occupied(occupied) => Some(occupied.into_mut()),
                Entry::Vacant(_) => None,
            },
        }
    }

    /// Inserts a new target to the map.
    pub fn insert(&mut self, target: &Target, value: T)
        ensures
            final(self)@ == old(self)@.insert(target.general(), value),
    {
        match transform_target(target) {
            Target::Anon(session_id) => {
                self.sessions.insert(session_id, value);
            },
            Target::Auth(auth_target) => {
                self.users.insert(auth_target.id(), value);
            },
        }
        proof {
            assert(self@ =~= old(self)@.insert(target.general(), value));
        }
    }

    /// Removes a target from the map.
    pub fn remove(&mut self, target: &Target)
        ensures
            final(self)@ == old(self)@.remove(target.general()),
    {
        match transform_target(target) {
            Target::Anon(session_id) => {
                self.sessions.remove(&session_id);
            },
            Target::Auth(auth_target) => {
                self.users.remove(&auth_target.id());
            },
        }
        proof {
            assert(self@ =~= old(self)@.remove(target.general()));
        }
    }

    /// Makes the changes that were announced: first every target that
    /// has joined is inserted, then every target that has left is
    /// removed, each in the order in which it was announced.
    pub fn on_target_change(&mut self, joined: Vec<TargetJoined<T>>, left: Vec<TargetLeft<T>>)
        ensures
            final(self)@ == after_changes(
                after_changes(old(self)@, joined@.map_values(|j: TargetJoined<T>| TargetChange::Joined(j))),
                left@.map_values(|l: TargetLeft<T>| TargetChange::Left(l)),
            ),
    {
        let ghost joins = joined@.map_values(|j: TargetJoined<T>| TargetChange::Joined(j));
        let ghost leaves = left@.map_values(|l: TargetLeft<T>| TargetChange::Left(l));
        let ghost announced = joined@;
        for event in it: joined
            invariant
                it.seq() == announced,
                joins == announced.map_values(|j: TargetJoined<T>| TargetChange::Joined(j)),
                self@ == after_changes(old(self)@, joins.take(it.index() as int)),
        {
            proof {
                assert(joins.take(it.index() + 1).drop_last() =~= joins.take(it.index() as int));
            }
            let TargetJoined { target, value } = event;
            self.insert(&target, value);
        }
        proof {
            assert(joins.take(joins.len() as int) =~= joins);
        }
        let ghost between = self@;
        let ghost gone = left@;
        for event in it: left
            invariant
                it.seq() == gone,
                leaves == gone.map_values(|l: TargetLeft<T>| TargetChange::Left(l)),
                self@ == after_changes(between, leaves.take(it.index() as int)),
        {
            proof {
                assert(leaves.take(it.index() + 1).drop_last() =~= leaves.take(it.index() as int));
            }
            self.remove(&event.target);
        }
        proof {
            assert(leaves.take(leaves.len() as int) =~= leaves);
        }
    }
}

} // verus!
