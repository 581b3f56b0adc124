use bau::target::{transform_target, AuthTarget, Target};
use bau::target_map::{TargetJoined, TargetLeft, TargetMap};
use bau::shutdown::{process_exit_message, Exit, ShutdownSignal};

#[test]
fn general_target_stands_for_all_sessions_of_a_user() {
    assert_eq!(transform_target(&Target::Anon(3)), Target::Anon(3));
    assert_eq!(transform_target(&Target::Auth(AuthTarget::All(7))), Target::Auth(AuthTarget::All(7)));
    assert_eq!(transform_target(&Target::Auth(AuthTarget::Specific(7, 3))), Target::Auth(AuthTarget::All(7)));
    assert_eq!(AuthTarget::All(7).id(), 7);
    assert_eq!(AuthTarget::Specific(8, 3).id(), 8);
}

#[test]
fn target_map_finds_a_user_under_each_session() {
    let mut map = TargetMap::new();
    assert!(!map.contains(&Target::Anon(1)));
    map.insert(&Target::Auth(AuthTarget::Specific(7, 1)), "seven");
    map.insert(&Target::Anon(1), "one");
    assert!(map.contains(&Target::Auth(AuthTarget::All(7))));
    assert!(map.contains(&Target::Auth(AuthTarget::Specific(7, 2))));
    assert!(!map.contains(&Target::Auth(AuthTarget::All(1))));
    assert!(!map.contains(&Target::Anon(7)));
    assert_eq!(map.get(&Target::Auth(AuthTarget::Specific(7, 9))), Some(&"seven"));
    assert_eq!(map.get(&Target::Anon(1)), Some(&"one"));
    assert_eq!(map.get(&Target::Anon(2)), None);
    map.insert(&Target::Auth(AuthTarget::All(7)), "other");
    assert_eq!(map.get(&Target::Auth(AuthTarget::Specific(7, 1))), Some(&"other"));
    map.remove(&Target::Auth(AuthTarget::Specific(7, 5)));
    assert!(!map.contains(&Target::Auth(AuthTarget::All(7))));
    assert!(map.contains(&Target::Anon(1)));
    map.remove(&Target::Anon(1));
    map.remove(&Target::Anon(1));
    assert!(!map.contains(&Target::Anon(1)));
}

#[test]
fn target_map_values_can_be_changed_in_place() {
    let mut map = TargetMap::new();
    assert!(map.get_mut(&Target::Anon(1)).is_none());
    assert!(!map.contains(&Target::Anon(1)));
    map.insert(&Target::Anon(1), 10);
    map.insert(&Target::Auth(AuthTarget::All(7)), 70);
    *map.get_mut(&Target::Auth(AuthTarget::Specific(7, 3))).unwrap() += 1;
    *map.get_mut(&Target::Anon(1)).unwrap() = 11;
    assert_eq!(map.get(&Target::Auth(AuthTarget::All(7))), Some(&71));
    assert_eq!(map.get(&Target::Anon(1)), Some(&11));
    assert!(map.get_mut(&Target::Auth(AuthTarget::All(8))).is_none());
}

#[test]
fn target_changes_are_made_joins_first() {
    let mut map = TargetMap::new();
    map.insert(&Target::Anon(1), 10);
    map.on_target_change(
        vec![
            TargetJoined::new(Target::Anon(2), 20),
            TargetJoined::new(Target::Auth(AuthTarget::Specific(7, 3)), 30),
            TargetJoined::new(Target::Anon(2), 21),
        ],
        vec![TargetLeft::new(Target::Anon(1)), TargetLeft::new(Target::Auth(AuthTarget::All(7)))],
    );
    assert_eq!(map.get(&Target::Anon(1)), None);
    assert_eq!(map.get(&Target::Anon(2)), Some(&21));
    assert_eq!(map.get(&Target::Auth(AuthTarget::All(7))), None);
    // a target that joins and leaves in one go is gone
    map.on_target_change(vec![TargetJoined::new(Target::Anon(5), 50)], vec![TargetLeft::new(Target::Anon(5))]);
    assert!(!map.contains(&Target::Anon(5)));
    let event = TargetLeft::<u32>::new(Target::Anon(4));
    assert_eq!(event.clone().target, Target::Anon(4));
    let joined = TargetJoined::new(Target::Anon(4), 1u8);
    assert_eq!(joined.clone().value, 1);
}

#[test]
fn exit_follows_the_shutdown_signal() {
    assert_eq!(process_exit_message(ShutdownSignal::Received), Some(Exit::Success));
    assert_eq!(process_exit_message(ShutdownSignal::Empty), None);
    assert_eq!(process_exit_message(ShutdownSignal::Closed), Some(Exit::Error));
}
