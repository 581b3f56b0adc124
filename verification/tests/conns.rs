use bau::auxiliary_index::AuxIndex;
use bau::conns::{
    accept_connection, receive_message, send_message, Delivery, ExternalReq, Received, Recipients,
    SessionEvent, SessionId, UserId, UserSessionsMap,
};
use bau::target::{AuthTarget, Target, Targets};

const ANON: u128 = 0;
const ALICE: u128 = 0xa11ce;
const BOB: u128 = 0xb0b;

#[test]
fn insert_appends_and_counts() {
    let mut map = UserSessionsMap::new();
    assert!(map.get(&ALICE).is_none());
    assert_eq!(map.insert(ALICE, 1), 1);
    assert_eq!(map.insert(ALICE, 2), 2);
    assert_eq!(map.insert(BOB, 3), 1);
    assert_eq!(map.insert(ALICE, 4), 3);
    assert_eq!(map.get(&ALICE), Some(&vec![1, 2, 4]));
    assert_eq!(map.get(&BOB), Some(&vec![3]));
}

#[test]
fn sessions_can_be_changed_in_place() {
    let mut map = UserSessionsMap::new();
    assert!(map.get_mut(&ALICE).is_none());
    assert!(map.get(&ALICE).is_none());
    map.insert(ALICE, 1);
    map.insert(BOB, 2);
    map.get_mut(&ALICE).unwrap().push(5);
    assert_eq!(map.get(&ALICE), Some(&vec![1, 5]));
    assert_eq!(map.get(&BOB), Some(&vec![2]));
    assert_eq!(map.insert(ALICE, 6), 3);
}

#[test]
fn remove_counts_what_is_left() {
    let mut map = UserSessionsMap::new();
    assert_eq!(map.remove(ALICE, 1), 0);
    map.insert(ALICE, 1);
    map.insert(ALICE, 2);
    map.insert(ALICE, 3);
    assert_eq!(map.remove(ALICE, 2), 2);
    assert_eq!(map.get(&ALICE), Some(&vec![1, 3]));
    assert_eq!(map.remove(ALICE, 1), 1);
    assert_eq!(map.get(&ALICE), Some(&vec![3]));
    assert_eq!(map.remove(ALICE, 3), 0);
    assert!(map.get(&ALICE).is_none());
}

#[test]
fn remove_of_an_unknown_session_still_counts_one_less() {
    let mut map = UserSessionsMap::new();
    map.insert(ALICE, 1);
    map.insert(ALICE, 2);
    assert_eq!(map.remove(ALICE, 9), 1);
    assert_eq!(map.get(&ALICE), Some(&vec![1, 2]));
    map.remove(ALICE, 1);
    // the last session goes whichever session is named
    assert_eq!(map.remove(ALICE, 9), 0);
    assert!(map.get(&ALICE).is_none());
}

#[test]
fn remove_takes_every_copy_of_a_session() {
    let mut map = UserSessionsMap::new();
    map.insert(ALICE, 1);
    map.insert(ALICE, 1);
    map.insert(ALICE, 2);
    assert_eq!(map.remove(ALICE, 1), 2);
    assert_eq!(map.get(&ALICE), Some(&vec![2]));
    map.insert(BOB, 5);
    map.insert(BOB, 5);
    assert_eq!(map.remove(BOB, 5), 1);
    assert_eq!(map.get(&BOB), Some(&vec![]));
    assert_eq!(map.remove(BOB, 5), 0);
    assert!(map.get(&BOB).is_none());
}

#[test]
fn first_connection_and_further_connections() {
    let mut map = UserSessionsMap::new();
    assert_eq!(accept_connection(&mut map, ALICE, 1), SessionEvent::FirstConnected(ALICE, 1));
    assert_eq!(accept_connection(&mut map, ALICE, 2), SessionEvent::Connected(ALICE, 2));
    assert_eq!(accept_connection(&mut map, BOB, 3), SessionEvent::FirstConnected(BOB, 3));
    assert_eq!(map.get(&ALICE), Some(&vec![1, 2]));
}

#[test]
fn action_is_passed_on() {
    let mut map = UserSessionsMap::new();
    accept_connection(&mut map, ALICE, 1);
    let reaction = receive_message(&mut map, ALICE, 1, ANON, Received::Message(ExternalReq::UserAction("jump")));
    assert_eq!(reaction.user_id, ALICE);
    assert_eq!(reaction.request, Some("jump"));
    assert_eq!(reaction.event, None);
    assert!(!reaction.despawn);
    assert_eq!(map.get(&ALICE), Some(&vec![1]));
}

#[test]
fn disconnect_is_told_when_the_last_session_goes() {
    let mut map = UserSessionsMap::new();
    accept_connection(&mut map, ALICE, 1);
    accept_connection(&mut map, ALICE, 2);
    let reaction = receive_message::<()>(&mut map, ALICE, 1, ANON, Received::Message(ExternalReq::Disconnected));
    assert_eq!(reaction.event, None);
    assert!(reaction.despawn);
    assert_eq!(reaction.request, None);
    assert_eq!(map.get(&ALICE), Some(&vec![2]));
    let reaction = receive_message::<()>(&mut map, ALICE, 2, ANON, Received::Message(ExternalReq::Disconnected));
    assert_eq!(reaction.event, Some(SessionEvent::Disconnected(ALICE, 2)));
    assert!(reaction.despawn);
    assert!(map.get(&ALICE).is_none());
}

#[test]
fn closed_channel_always_tells_of_the_disconnect() {
    let mut map = UserSessionsMap::new();
    accept_connection(&mut map, ALICE, 1);
    accept_connection(&mut map, ALICE, 2);
    let reaction = receive_message::<()>(&mut map, ALICE, 1, ANON, Received::Closed);
    assert_eq!(reaction.event, Some(SessionEvent::Disconnected(ALICE, 1)));
    assert!(reaction.despawn);
    assert_eq!(reaction.user_id, ALICE);
    assert_eq!(map.get(&ALICE), Some(&vec![2]));
}

#[test]
fn authenticating_moves_the_session_to_the_user() {
    let mut map = UserSessionsMap::new();
    accept_connection(&mut map, ANON, 1);
    accept_connection(&mut map, ANON, 2);
    accept_connection(&mut map, BOB, 3);
    let reaction = receive_message::<()>(&mut map, ANON, 1, ANON, Received::Message(ExternalReq::Authenticated(ALICE)));
    assert_eq!(reaction.user_id, ALICE);
    assert_eq!(reaction.event, Some(SessionEvent::FirstConnected(ALICE, 1)));
    assert!(!reaction.despawn);
    assert_eq!(map.get(&ANON), Some(&vec![2]));
    assert_eq!(map.get(&ALICE), Some(&vec![1]));
    let reaction = receive_message::<()>(&mut map, ANON, 2, ANON, Received::Message(ExternalReq::Authenticated(BOB)));
    assert_eq!(reaction.user_id, BOB);
    assert_eq!(reaction.event, Some(SessionEvent::Connected(BOB, 2)));
    assert!(map.get(&ANON).is_none());
    assert_eq!(map.get(&BOB), Some(&vec![3, 2]));
}

#[test]
fn authenticating_as_oneself_changes_nothing() {
    let mut map = UserSessionsMap::new();
    accept_connection(&mut map, ALICE, 1);
    let reaction = receive_message::<()>(&mut map, ALICE, 1, ANON, Received::Message(ExternalReq::Authenticated(ALICE)));
    assert_eq!(reaction.user_id, ALICE);
    assert_eq!(reaction.event, None);
    assert!(!reaction.despawn);
    assert_eq!(map.get(&ALICE), Some(&vec![1]));
}

#[test]
fn unauthenticating_moves_the_session_to_the_anonymous_user() {
    let mut map = UserSessionsMap::new();
    accept_connection(&mut map, ALICE, 1);
    accept_connection(&mut map, ALICE, 2);
    let reaction = receive_message::<()>(&mut map, ALICE, 1, ANON, Received::Message(ExternalReq::Unauthenticated));
    assert_eq!(reaction.user_id, ANON);
    assert_eq!(reaction.event, None);
    assert!(!reaction.despawn);
    assert_eq!(map.get(&ALICE), Some(&vec![2]));
    assert_eq!(map.get(&ANON), Some(&vec![1]));
    let reaction = receive_message::<()>(&mut map, ALICE, 2, ANON, Received::Message(ExternalReq::Unauthenticated));
    assert_eq!(reaction.event, Some(SessionEvent::Disconnected(ALICE, 2)));
    assert!(map.get(&ALICE).is_none());
    assert_eq!(map.get(&ANON), Some(&vec![1, 2]));
}

fn few(recipients: Recipients) -> Vec<Delivery> {
    match recipients {
        Recipients::Few(list) => list,
        Recipients::All => panic!("expected a list of deliveries"),
    }
}

#[test]
fn message_for_all_goes_to_everyone() {
    let map = UserSessionsMap::new();
    let index = AuxIndex::new();
    assert!(matches!(send_message(&Targets::All, &map, &index), Recipients::All));
}

#[test]
fn message_for_few_goes_to_their_sessions() {
    let mut map = UserSessionsMap::new();
    map.insert(ALICE, 1);
    map.insert(ALICE, 2);
    map.insert(BOB, 3);
    let mut index = AuxIndex::new();
    index.on_add(&vec![(1, 101), (2, 102), (3, 103), (7, 107)]);

    let targets = Targets::Few(vec![
        Target::Auth(AuthTarget::All(ALICE)),
        Target::Anon(7),
        Target::Auth(AuthTarget::Specific(BOB, 3)),
        Target::Anon(8),
        Target::Auth(AuthTarget::All(0xdead)),
        Target::Auth(AuthTarget::Specific(ALICE, 9)),
        Target::Auth(AuthTarget::All(ALICE)),
    ]);
    let list = few(send_message(&targets, &map, &index));
    assert_eq!(
        list,
        vec![
            Delivery { session_id: 1, entity: Some(101) },
            Delivery { session_id: 2, entity: Some(102) },
            Delivery { session_id: 7, entity: Some(107) },
            Delivery { session_id: 3, entity: Some(103) },
            Delivery { session_id: 1, entity: Some(101) },
            Delivery { session_id: 2, entity: Some(102) },
        ]
    );
}

#[test]
fn session_of_a_user_without_entity_is_listed_without_one() {
    let mut map = UserSessionsMap::new();
    map.insert(ALICE, 1);
    map.insert(ALICE, 2);
    let mut index = AuxIndex::new();
    index.on_add(&vec![(2, 102)]);
    let list = few(send_message(&Targets::Few(vec![Target::Auth(AuthTarget::All(ALICE))]), &map, &index));
    assert_eq!(
        list,
        vec![Delivery { session_id: 1, entity: None }, Delivery { session_id: 2, entity: Some(102) }]
    );
    assert_eq!(few(send_message(&Targets::Few(vec![]), &map, &index)), vec![]);
}

#[test]
fn ids_convert_to_their_numbers() {
    let user = UserId(ALICE);
    let session = SessionId(4);
    assert_eq!(u128::from(user), ALICE);
    assert_eq!(u32::from(session), 4);
    assert_eq!(*user, ALICE);
    assert_eq!(*session, 4);
    let mut other = SessionId(5);
    *other = 6;
    assert_eq!(other.0, 6);
    let mut renamed = user;
    *renamed = BOB;
    assert_eq!(renamed.0, BOB);
}
