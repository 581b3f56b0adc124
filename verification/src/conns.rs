//! Which sessions each user has open.
//!
//! A user is known by a 128-bit id and may be connected several times at
//! once; each connection is a session with a 32-bit id.

use crate::auxiliary_index::AuxIndex;
use crate::target::{AuthTarget, Target, Targets};
use std::collections::hash_map::Entry;
use std::collections::HashMap;
use vstd::prelude::*;
use vstd::std_specs::convert::FromSpecImpl;
use vstd::std_specs::hash::group_hash_axioms;

verus! {

broadcast use group_hash_axioms;

/// The id of a user.
#[derive(Debug, Clone, Copy)]
pub struct UserId(pub u128);

/// The id of a session.
#[derive(Debug, Clone, Copy)]
pub struct SessionId(pub u32);

impl core::ops::Deref for UserId {
    type Target = u128;

    fn deref(&self) -> (id: &u128)
        ensures
            *id == self.0,
    {
        &self.0
    }
}

impl core::ops::DerefMut for UserId {
    fn deref_mut(&mut self) -> (id: &mut u128)
        ensures
            *id == old(self).0,
            final(self).0 == *final(id),
    {
        &mut self.0
    }
}

impl core::ops::Deref for SessionId {
    type Target = u32;

    fn deref(&self) -> (id: &u32)
        ensures
            *id == self.0,
    {
        &self.0
    }
}

impl core::ops::DerefMut for SessionId {
    fn deref_mut(&mut self) -> (id: &mut u32)
        ensures
            *id == old(self).0,
            final(self).0 == *final(id),
    {
        &mut self.0
    }
}

impl From<UserId> for u128 {
    fn from(id: UserId) -> (raw: u128) {
        id.0
    }
}

impl FromSpecImpl<UserId> for u128 {
    open spec fn obeys_from_spec() -> bool {
        true
    }

    open spec fn from_spec(id: UserId) -> u128 {
        id.0
    }
}

impl From<SessionId> for u32 {
    fn from(id: SessionId) -> (raw: u32) {
        id.0
    }
}

impl FromSpecImpl<SessionId> for u32 {
    open spec fn obeys_from_spec() -> bool {
        true
    }

    open spec fn from_spec(id: SessionId) -> u32 {
        id.0
    }
}

/// Whether a session is another one than `session_id`.
pub open spec fn other_than(session_id: u32) -> spec_fn(u32) -> bool {
    |session: u32| session != session_id
}

/// The sessions of `sessions` other than `session_id`, in their order.
pub open spec fn without(sessions: Seq<u32>, session_id: u32) -> Seq<u32> {
    sessions.filter(other_than(session_id))
}

/// What `sessions` holds for `user_id`: the user's sessions, or none.
pub open spec fn sessions_of(sessions: Map<u128, Seq<u32>>, user_id: u128) -> Seq<u32> {
    if sessions.contains_key(user_id) {
        sessions[user_id]
    } else {
        Seq::empty()
    }
}

/// The sessions by user after `session_id` was added for `user_id`, behind
/// the sessions that the user had.
pub open spec fn with_session(
    sessions: Map<u128, Seq<u32>>,
    user_id: u128,
    session_id: u32,
) -> Map<u128, Seq<u32>> {
    sessions.insert(user_id, sessions_of(sessions, user_id).push(session_id))
}

/// The sessions by user after `session_id` was taken from `user_id`: a
/// user with at most one session is forgotten, whichever session that
/// was; a user with more keeps the others.
pub open spec fn without_session(
    sessions: Map<u128, Seq<u32>>,
    user_id: u128,
    session_id: u32,
) -> Map<u128, Seq<u32>> {
    if !sessions.contains_key(user_id) {
        sessions
    } else if sessions[user_id].len() <= 1 {
        sessions.remove(user_id)
    } else {
        sessions.insert(user_id, without(sessions[user_id], session_id))
    }
}

/// The number of sessions that counts as left to `user_id` once one of
/// them goes: one less than the user has, and none for a user with none.
pub open spec fn remaining(sessions: Map<u128, Seq<u32>>, user_id: u128) -> nat {
    if sessions.contains_key(user_id) && sessions[user_id].len() > 1 {
        (sessions[user_id].len() - 1) as nat
    } else {
        0
    }
}

/// A map used to track user sessions: for each user that is connected, the
/// sessions of that user, oldest first.
pub struct UserSessionsMap(HashMap<u128, Vec<u32>>);

impl View for UserSessionsMap {
    type V = Map<u128, Seq<u32>>;

    closed spec fn view(&self) -> Map<u128, Seq<u32>> {
        self.0@.map_values(|sessions: Vec<u32>| sessions@)
    }
}

impl UserSessionsMap {
    /// Creates a new instance of the map.
    pub fn new() -> (map: Self)
        ensures
            map@ == Map::<u128, Seq<u32>>::empty(),
    {
        let map = UserSessionsMap(HashMap::new());
        proof {
            assert(map@ =~= Map::<u128, Seq<u32>>::empty());
        }
        map
    }

    /// Returns a reference to the session ids of the given user.
    pub fn get(&self, id: &u128) -> (sessions: Option<&Vec<u32>>)
        ensures
            match sessions {
                Some(sessions) => self@.contains_key(*id) && sessions@ == self@[*id],
                None => !self@.contains_key(*id),
            },
    {
        self.0.get(id)
    }

    /// Returns a mutable reference to the session ids of the given user.
    pub fn get_mut(&mut self, id: &u128) -> (sessions: Option<&mut Vec<u32>>)
        ensures
            match sessions {
                Some(sessions) => old(self)@.contains_key(*id) && sessions@ == old(self)@[*id]
                    && final(self)@ == old(self)@.insert(*id, final(sessions)@),
                None => !old(self)@.contains_key(*id) && final(self)@ == old(self)@,
            },
    {
        match self.0.entry(*id) {
            Entry::Occupied(occupied) => {
                Some(occupied.into_mut())
            },
            Entry::Vacant(_) => None,
        }
    }

    /// Inserts a new user session to the map, behind the sessions that the
    /// user has already.
    ///
    /// # Returns
    /// The now-current-number of sessions.
    pub fn insert(&mut self, user_id: u128, session_id: u32) -> (num_sessions: usize)
        ensures
            final(self)@ == with_session(old(self)@, user_id, session_id),
            num_sessions == sessions_of(old(self)@, user_id).len() + 1,
    {
        let mut sessions = match self.0.remove(&user_id) {
            Some(sessions) => sessions,
            None => Vec::new(),
        };
        sessions.push(session_id);
        let num_sessions = sessions.len();
        self.0.insert(user_id, sessions);
        proof {
            assert(self@ =~= with_session(old(self)@, user_id, session_id));
        }
        num_sessions
    }

    /// Removes a user session from the map. A user whose last session goes
    /// is forgotten.
    ///
    /// # Returns
    /// The now-current-number of sessions: one less than the user had,
    /// whether or not `session_id` was among them, and 0 for a user that
    /// had none.
    pub fn remove(&mut self, user_id: u128, session_id: u32) -> (num_sessions: usize)
        ensures
            final(self)@ == without_session(old(self)@, user_id, session_id),
            num_sessions == remaining(old(self)@, user_id),
    {
        match self.0.remove(&user_id) {
            Some(sessions) => {
                let len = sessions.len();
                if len <= 1 {
                    proof {
                        assert(self@ =~= old(self)@.remove(user_id));
                    }
                    0
                } else {
                    let kept = retain_others(&sessions, session_id);
                    self.0.insert(user_id, kept);
                    proof {
                        assert(self@ =~= old(self)@.insert(
                            user_id,
                            without(old(self)@[user_id], session_id),
                        ));
                    }
                    len - 1
                }
            },
            None => {
                proof {
                    assert(self@ =~= old(self)@);
                }
                0
            },
        }
    }
}

/// A message received from the external system.
#[derive(Debug, Clone, PartialEq)]
pub enum ExternalReq<TReq> {
    /// A user action was sent.
    UserAction(TReq),
    /// The user disconnected.
    Disconnected,
    /// The user authenticated.
    Authenticated(u128),
    /// The user unauthenticated.
    Unauthenticated,
}

/// What came in on a session's channel.
pub enum Received<TReq> {
    /// A message.
    Message(ExternalReq<TReq>),
    /// Nothing, and nothing will come: the other end is gone.
    Closed,
}

/// A change in who is connected, to be told to the rest of the
/// application. Each names the user and the session.
#[derive(Debug, Clone, Copy, PartialEq, Eq, Structural)]
pub enum SessionEvent {
    /// The user, already connected, opened another session.
    Connected(u128, u32),
    /// The user opened a session and had none before.
    FirstConnected(u128, u32),
    /// The user's last session is gone.
    Disconnected(u128, u32),
}

/// What is to be done after something came in on a session's channel.
pub struct Reaction<TReq> {
    /// The user that the session belongs to from now on.
    pub user_id: u128,
    /// The action that the user asked for, if any.
    pub request: Option<TReq>,
    /// What to tell the rest of the application, if anything.
    pub event: Option<SessionEvent>,
    /// Whether the session is over and its entity is to be despawned.
    pub despawn: bool,
}

/// The event that tells of `session_id` being opened for `user_id` where
/// the sessions by user were `sessions` before.
pub open spec fn joined(sessions: Map<u128, Seq<u32>>, user_id: u128, session_id: u32) -> SessionEvent {
    if sessions.contains_key(user_id) {
        SessionEvent::Connected(user_id, session_id)
    } else {
        SessionEvent::FirstConnected(user_id, session_id)
    }
}

/// The event, if any, that tells of `session_id` being taken from
/// `user_id` where the sessions by user were `sessions` before.
pub open spec fn parted(sessions: Map<u128, Seq<u32>>, user_id: u128, session_id: u32) -> Option<
    SessionEvent,
> {
    if remaining(sessions, user_id) == 0 {
        Some(SessionEvent::Disconnected(user_id, session_id))
    } else {
        None
    }
}

/// Tracks a connection that was just accepted: the session is added to
/// the sessions of its user, and the event says whether the user was
/// connected already.
pub fn accept_connection(
    user_sessions_map: &mut UserSessionsMap,
    user_id: u128,
    session_id: u32,
) -> (event: SessionEvent)
    ensures
        final(user_sessions_map)@ == with_session(old(user_sessions_map)@, user_id, session_id),
        event == joined(old(user_sessions_map)@, user_id, session_id),
{
    let known = user_sessions_map.get(&user_id).is_some();
    user_sessions_map.insert(user_id, session_id);
    if known {
        SessionEvent::Connected(user_id, session_id)
    } else {
        SessionEvent::FirstConnected(user_id, session_id)
    }
}

/// Decides what follows from `received` on the channel of the session
/// `session_id`, which belongs to `user_id`, and keeps track of the
/// sessions.
///
/// - An action is passed on.
/// - A session that disconnects, or whose channel is closed, is taken
///   from its user and is over. That the user is gone is told when no
///   session is left to the user, and in any case when the channel is
///   closed.
/// - A session that authenticates as another user is taken from its user
///   and added to the other. A session that authenticates as the user it
///   belongs to stays as it is.
/// - A session that unauthenticates is taken from its user and added to
///   `anon_user_id`, the user that stands for all who are not
///   authenticated.
pub fn receive_message<TReq>(
    user_sessions_map: &mut UserSessionsMap,
    user_id: u128,
    session_id: u32,
    anon_user_id: u128,
    received: Received<TReq>,
) -> (reaction: Reaction<TReq>)
    ensures
        match received {
            Received::Message(ExternalReq::UserAction(action)) => {
                &&& final(user_sessions_map)@ == old(user_sessions_map)@
                &&& reaction.user_id == user_id
                &&& reaction.request == Some(action)
                &&& reaction.event is None
                &&& !reaction.despawn
            },
            Received::Message(ExternalReq::Disconnected) => {
                &&& final(user_sessions_map)@ == without_session(
                    old(user_sessions_map)@,
                    user_id,
                    session_id,
                )
                &&& reaction.user_id == user_id
                &&& reaction.request is None
                &&& reaction.event == parted(old(user_sessions_map)@, user_id, session_id)
                &&& reaction.despawn
            },
            Received::Message(ExternalReq::Authenticated(new_user_id)) => if new_user_id
                == user_id {
                &&& final(user_sessions_map)@ == old(user_sessions_map)@
                &&& reaction.user_id == user_id
                &&& reaction.request is None
                &&& reaction.event is None
                &&& !reaction.despawn
            } else {
                &&& final(user_sessions_map)@ == with_session(
                    without_session(old(user_sessions_map)@, user_id, session_id),
                    new_user_id,
                    session_id,
                )
                &&& reaction.user_id == new_user_id
                &&& reaction.request is None
                &&& reaction.event == Some(
                    joined(
                        without_session(old(user_sessions_map)@, user_id, session_id),
                        new_user_id,
                        session_id,
                    ),
                )
                &&& !reaction.despawn
            },
            Received::Message(ExternalReq::Unauthenticated) => {
                &&& final(user_sessions_map)@ == with_session(
                    without_session(old(user_sessions_map)@, user_id, session_id),
                    anon_user_id,
                    session_id,
                )
                &&& reaction.user_id == anon_user_id
                &&& reaction.request is None
                &&& reaction.event == parted(old(user_sessions_map)@, user_id, session_id)
                &&& !reaction.despawn
            },
            Received::Closed => {
                &&& final(user_sessions_map)@ == without_session(
                    old(user_sessions_map)@,
                    user_id,
                    session_id,
                )
                &&& reaction.user_id == user_id
                &&& reaction.request is None
                &&& reaction.event == Some(SessionEvent::Disconnected(user_id, session_id))
                &&& reaction.despawn
            },
        },
{
    match received {
        Received::Message(ExternalReq::UserAction(action)) => Reaction {
            user_id,
            request: Some(action),
            event: None,
            despawn: false,
        },
        Received::Message(ExternalReq::Disconnected) => {
            let remaining = user_sessions_map.remove(user_id, session_id);
            let event = if remaining == 0 {
                Some(SessionEvent::Disconnected(user_id, session_id))
            } else {
                None
            };
            Reaction { user_id, request: None, event, despawn: true }
        },
        Received::Message(ExternalReq::Authenticated(new_user_id)) => {
            if user_id == new_user_id {
                Reaction { user_id, request: None, event: None, despawn: false }
            } else {
                // remove the session from the sessions of the user it belonged to
                user_sessions_map.remove(user_id, session_id);
                // insert the session as one of the authenticated user
                let event = accept_connection(user_sessions_map, new_user_id, session_id);
                Reaction { user_id: new_user_id, request: None, event: Some(event), despawn: false }
            }
        },
        Received::Message(ExternalReq::Unauthenticated) => {
            // remove the session from the authenticated sessions
            let remaining = user_sessions_map.remove(user_id, session_id);
            let event = if remaining == 0 {
                Some(SessionEvent::Disconnected(user_id, session_id))
            } else {
                None
            };
            // insert the session as an anonymous user
            user_sessions_map.insert(anon_user_id, session_id);
            Reaction { user_id: anon_user_id, request: None, event, despawn: false }
        },
        Received::Closed => {
            user_sessions_map.remove(user_id, session_id);
            Reaction {
                user_id,
                request: None,
                event: Some(SessionEvent::Disconnected(user_id, session_id)),
                despawn: true,
            }
        },
    }
}

/// A session that a message is to be sent to, and the entity that holds
/// the session's connection, as far as the index knows one.
#[derive(Debug, Clone, Copy, PartialEq, Eq, Structural)]
pub struct Delivery {
    pub session_id: u32,
    pub entity: Option<u64>,
}

/// To whom a message is to be sent.
pub enum Recipients {
    /// To every connection there is.
    All,
    /// To the sessions listed, one copy for each time a session is
    /// listed.
    Few(Vec<Delivery>),
}

/// The entity that `index` knows for `session_id`, if any.
pub open spec fn entity_of(index: Map<u64, u64>, session_id: u32) -> Option<u64> {
    if index.contains_key(session_id as u64) {
        Some(index[session_id as u64])
    } else {
        None
    }
}

/// The deliveries that one target asks for: for all sessions of a user,
/// one to each session that the user has, whether or not the index knows
/// its entity; for a single session, one to it if the index knows its
/// entity and none if not.
pub open spec fn deliveries_to(
    target: Target,
    sessions: Map<u128, Seq<u32>>,
    index: Map<u64, u64>,
) -> Seq<Delivery> {
    match target {
        Target::Auth(AuthTarget::All(user_id)) => sessions_of(sessions, user_id).map_values(
            |session_id: u32| Delivery { session_id, entity: entity_of(index, session_id) },
        ),
        Target::Auth(AuthTarget::Specific(_, session_id)) => single(index, session_id),
        Target::Anon(session_id) => single(index, session_id),
    }
}

/// The delivery to one session: none where the index does not know the
/// session's entity.
pub open spec fn single(index: Map<u64, u64>, session_id: u32) -> Seq<Delivery> {
    if index.contains_key(session_id as u64) {
        seq![Delivery { session_id, entity: Some(index[session_id as u64]) }]
    } else {
        Seq::empty()
    }
}

/// The deliveries that `targets` ask for, target after target.
pub open spec fn deliveries(
    targets: Seq<Target>,
    sessions: Map<u128, Seq<u32>>,
    index: Map<u64, u64>,
) -> Seq<Delivery>
    decreases targets.len(),
{
    if targets.len() == 0 {
        Seq::empty()
    } else {
        deliveries(targets.drop_last(), sessions, index) + deliveries_to(
            targets.last(),
            sessions,
            index,
        )
    }
}

/// Decides to which sessions a message for `targets` is to be sent.
///
/// A session that is named by itself and has phased out by now, so that
/// the index does not know it, is skipped, and so is a user without
/// sessions.
pub fn send_message(
    targets: &Targets,
    user_sessions_map: &UserSessionsMap,
    session_to_entity_map: &AuxIndex,
) -> (recipients: Recipients)
    ensures
        match targets {
            Targets::All => recipients is All,
            Targets::Few(targets) => recipients matches Recipients::Few(list) && list@
                == deliveries(targets@, user_sessions_map@, session_to_entity_map@),
        },
{
    match targets {
        Targets::All => Recipients::All,
        Targets::Few(targets) => {
            let ghost sessions = user_sessions_map@;
            let ghost index = session_to_entity_map@;
            let mut list: Vec<Delivery> = Vec::new();
            let mut t: usize = 0;
            while t < targets.len()
                invariant
                    t <= targets.len(),
                    sessions == user_sessions_map@,
                    index == session_to_entity_map@,
                    list@ == deliveries(targets@.take(t as int), sessions, index),
                decreases targets.len() - t,
            {
                proof {
                    assert(targets@.take(t + 1).drop_last() =~= targets@.take(t as int));
                }
                let ghost before = list@;
                match targets[t] {
                    Target::Auth(AuthTarget::All(user_id)) => {
                        match user_sessions_map.get(&user_id) {
                            Some(user_sessions) => {
                                let mut s: usize = 0;
                                while s < user_sessions.len()
                                    invariant
                                        s <= user_sessions.len(),
                                        index == session_to_entity_map@,
                                        list@ == before + user_sessions@.take(s as int).map_values(
                                            |session_id: u32|
                                                Delivery {
                                                    session_id,
                                                    entity: entity_of(index, session_id),
                                                },
                                        ),
                                    decreases user_sessions.len() - s,
                                {
                                    let session_id = user_sessions[s];
                                    let entity = session_to_entity_map.get_by_left(
                                        &(session_id as u64),
                                    );
                                    list.push(Delivery { session_id, entity });
                                    s = s + 1;
                                    proof {
                                        assert(list@ =~= before + user_sessions@.take(
                                            s as int,
                                        ).map_values(
                                            |session_id: u32|
                                                Delivery {
                                                    session_id,
                                                    entity: entity_of(index, session_id),
                                                },
                                        ));
                                    }
                                }
                                proof {
                                    assert(user_sessions@.take(s as int) =~= user_sessions@);
                                }
                            },
                            None => {
                                // we don't care if the session phased out by this point, just skip it
                                proof {
                                    assert(list@ =~= before + deliveries_to(
                                        targets@[t as int],
                                        sessions,
                                        index,
                                    ));
                                }
                            },
                        }
                    },
                    Target::Auth(AuthTarget::Specific(_, session_id)) | Target::Anon(session_id) => {
                        match session_to_entity_map.get_by_left(&(session_id as u64)) {
                            Some(entity) => {
                                list.push(Delivery { session_id, entity: Some(entity) });
                            },
                            None => {
                                // we don't care if the session phased out by this point, just skip it
                            },
                        }
                        proof {
                            assert(list@ =~= before + deliveries_to(
                                targets@[t as int],
                                sessions,
                                index,
                            ));
                        }
                    },
                }
                t = t + 1;
            }
            proof {
                assert(targets@.take(t as int) =~= targets@);
            }
            Recipients::Few(list)
        },
    }
}

/// The sessions of `sessions` other than `session_id`, in their order.
fn retain_others(sessions: &Vec<u32>, session_id: u32) -> (kept: Vec<u32>)
    ensures
        kept@ == without(sessions@, session_id),
{
    let ghost others = other_than(session_id);
    let mut kept: Vec<u32> = Vec::new();
    let mut i: usize = 0;
    proof {
        reveal(Seq::filter);
        assert(sessions@.take(0).filter(others) =~= Seq::<u32>::empty());
    }
    while i < sessions.len()
        invariant
            i <= sessions.len(),
            others == other_than(session_id),
            kept@ == sessions@.take(i as int).filter(others),
        decreases sessions.len() - i,
    {
        proof {
            reveal(Seq::filter);
            assert(sessions@.take(i + 1).drop_last() =~= sessions@.take(i as int));
        }
        if sessions[i] != session_id {
            kept.push(sessions[i]);
        }
        i = i + 1;
    }
    proof {
        assert(sessions@.take(i as int) =~= sessions@);
    }
    kept
}

} // verus!
