use bau::event_wrapper::Event;
use bau::par_events::ParEvents;
use std::collections::hash_map::DefaultHasher;
use std::hash::{Hash, Hasher};

fn hash_of<T: Hash>(value: &T) -> u64 {
    let mut hasher = DefaultHasher::new();
    value.hash(&mut hasher);
    hasher.finish()
}

#[test]
fn new_and_into_inner_are_inverse() {
    let event = Event::new(String::from("universe"));
    assert_eq!(event.into_inner(), "universe");
    assert_eq!(Event::new(42).into_inner(), 42);
}

#[test]
fn event_dereferences_to_its_value() {
    let mut event = Event::new(vec![1, 2]);
    assert_eq!(event.len(), 2);
    event.push(3);
    assert_eq!(*event, vec![1, 2, 3]);
    *event = vec![];
    assert!(event.into_inner().is_empty());
}

#[test]
fn event_is_cloned_compared_and_hashed_as_its_value() {
    let event = Event::new(String::from("a"));
    let copy = event.clone();
    assert!(event == copy);
    assert!(!(event != copy));
    assert!(event != Event::new(String::from("b")));
    assert_eq!(hash_of(&event), hash_of(&String::from("a")));
    let small = Event::new(7u8);
    let same = small;
    assert!(small == same);
}

#[test]
fn event_from_value() {
    let event: Event<u32> = 5.into();
    assert_eq!(*event, 5);
    assert!(Event::from(6u32) == Event::new(6u32));
}

#[test]
fn wrapped_values_go_through_the_storage() {
    let mut events = ParEvents::<Event<u32>>::default();
    let slot = events.add_slot();
    events.send(slot, Event::new(1));
    events.send(slot, 2.into());
    let mut reader = events.get_reader();
    let mut read = Vec::new();
    let mut iter = reader.read(&events);
    while let Some(event) = iter.next() {
        read.push(event.clone().into_inner());
    }
    assert_eq!(read, vec![1, 2]);
}
