use bau::par_events::{ParEventReader, ParEvents, ParManualEventReader};

#[derive(Copy, Clone, PartialEq, Eq, Debug)]
struct TestEvent {
    i: usize,
}

#[derive(PartialEq, Eq, Debug)]
struct E(usize);

fn get_events<T: Clone>(events: &ParEvents<T>, reader: &mut ParManualEventReader<T>) -> Vec<T> {
    let mut read = Vec::new();
    let mut iter = reader.read(events);
    while let Some(event) = iter.next() {
        read.push(event.clone());
    }
    read
}

fn get_refs<'a, T>(events: &'a ParEvents<T>, reader: &'a mut ParManualEventReader<T>) -> Vec<&'a T> {
    let mut read = Vec::new();
    let mut iter = reader.read(events);
    while let Some(event) = iter.next() {
        read.push(event);
    }
    read
}

#[test]
fn test_events() {
    let mut events = ParEvents::<TestEvent>::default();
    let event_0 = TestEvent { i: 0 };
    let event_1 = TestEvent { i: 1 };
    let event_2 = TestEvent { i: 2 };

    let slot_index = events.add_slot();

    // this reader will miss event_0 and event_1 because it wont read them over the course of
    // two updates
    let mut reader_missed = events.get_reader();

    let mut reader_a = events.get_reader();

    events.send(slot_index, event_0);

    assert_eq!(get_events(&events, &mut reader_a), vec![event_0], "reader_a created before event receives event");
    assert_eq!(
        get_events(&events, &mut reader_a),
        vec![],
        "second iteration of reader_a created before event results in zero events"
    );

    let mut reader_b = events.get_reader();

    assert_eq!(get_events(&events, &mut reader_b), vec![event_0], "reader_b created after event receives event");
    assert_eq!(
        get_events(&events, &mut reader_b),
        vec![],
        "second iteration of reader_b created after event results in zero events"
    );

    events.send(slot_index, event_1);

    let mut reader_c = events.get_reader();

    assert_eq!(
        get_events(&events, &mut reader_c),
        vec![event_0, event_1],
        "reader_c created after two events receives both events"
    );
    assert_eq!(
        get_events(&events, &mut reader_c),
        vec![],
        "second iteration of reader_c created after two event results in zero events"
    );

    assert_eq!(get_events(&events, &mut reader_a), vec![event_1], "reader_a receives next unread event");

    events.update();

    let mut reader_d = events.get_reader();

    events.send(slot_index, event_2);

    assert_eq!(get_events(&events, &mut reader_a), vec![event_2], "reader_a receives event created after update");
    assert_eq!(
        get_events(&events, &mut reader_b),
        vec![event_1, event_2],
        "reader_b receives events created before and after update"
    );
    assert_eq!(
        get_events(&events, &mut reader_d),
        vec![event_0, event_1, event_2],
        "reader_d receives all events created before and after update"
    );

    events.update();

    assert_eq!(
        get_events(&events, &mut reader_missed),
        vec![event_2],
        "reader_missed missed events unread after two update() calls"
    );
}

fn events_clear_and_read_impl(clear_func: impl FnOnce(&mut ParEvents<E>)) {
    let mut events = ParEvents::<E>::default();
    let slot_index = events.add_slot();

    let mut reader = events.get_reader();

    assert!(reader.read(&events).next().is_none());

    events.send(slot_index, E(0));
    assert_eq!(*reader.read(&events).next().unwrap(), E(0));
    assert_eq!(reader.read(&events).next(), None);

    events.send(slot_index, E(1));
    clear_func(&mut events);
    assert!(reader.read(&events).next().is_none());

    events.send(slot_index, E(2));
    events.update();
    events.send(slot_index, E(3));

    assert_eq!(get_refs(&events, &mut reader), vec![&E(2), &E(3)]);
}

#[test]
fn test_events_clear_and_read() {
    events_clear_and_read_impl(|events| events.clear());
}

#[test]
fn test_events_drain_and_read() {
    events_clear_and_read_impl(|events| {
        assert!(events.drain() == vec![E(0), E(1)]);
    });
}

#[test]
fn test_events_extend_impl() {
    let mut events = ParEvents::<TestEvent>::default();
    let slot_index = events.add_slot();

    let mut reader = events.get_reader();

    events.extend(slot_index, vec![TestEvent { i: 0 }, TestEvent { i: 1 }]);
    assert_eq!(get_refs(&events, &mut reader), vec![&TestEvent { i: 0 }, &TestEvent { i: 1 }]);
}

#[test]
fn test_events_empty() {
    let mut events = ParEvents::<TestEvent>::default();
    let slot_index = events.add_slot();

    assert!(events.is_empty());

    events.send(slot_index, TestEvent { i: 0 });
    assert!(!events.is_empty());

    events.update();
    assert!(!events.is_empty());

    // events are only empty after the second call to update
    // due to double buffering.
    events.update();
    assert!(events.is_empty());
}

#[test]
fn test_event_reader_len_empty() {
    let events = ParEvents::<TestEvent>::default();
    assert_eq!(events.get_reader().len(&events), 0);
    assert!(events.get_reader().is_empty(&events));
}

#[test]
fn test_event_reader_len_filled() {
    let mut events = ParEvents::<TestEvent>::default();
    let slot_index = events.add_slot();

    events.send(slot_index, TestEvent { i: 0 });
    assert_eq!(events.get_reader().len(&events), 1);
    assert!(!events.get_reader().is_empty(&events));
}

#[test]
fn test_event_iter_len_updated() {
    let mut events = ParEvents::<TestEvent>::default();
    let slot_index = events.add_slot();

    events.send(slot_index, TestEvent { i: 0 });
    events.send(slot_index, TestEvent { i: 1 });
    events.send(slot_index, TestEvent { i: 2 });
    let mut reader = events.get_reader();
    let mut iter = reader.read(&events);
    assert_eq!(iter.len(), 3);
    iter.next();
    assert_eq!(iter.len(), 2);
    iter.next();
    assert_eq!(iter.len(), 1);
    iter.next();
    assert_eq!(iter.len(), 0);
}

#[test]
fn test_event_reader_len_current() {
    let mut events = ParEvents::<TestEvent>::default();
    let slot_index = events.add_slot();

    events.send(slot_index, TestEvent { i: 0 });
    let reader = events.get_reader_current();
    assert!(reader.is_empty(&events));
    events.send(slot_index, TestEvent { i: 0 });
    assert_eq!(reader.len(&events), 1);
    assert!(!reader.is_empty(&events));
}

#[test]
fn test_event_reader_len_update() {
    let mut events = ParEvents::<TestEvent>::default();
    let slot_index = events.add_slot();

    events.send(slot_index, TestEvent { i: 0 });
    events.send(slot_index, TestEvent { i: 0 });
    let reader = events.get_reader();
    assert_eq!(reader.len(&events), 2);
    events.update();
    events.send(slot_index, TestEvent { i: 0 });
    assert_eq!(reader.len(&events), 3);
    events.update();
    assert_eq!(reader.len(&events), 1);
    events.update();
    assert!(reader.is_empty(&events));
}

fn reader_system(state: &mut ParManualEventReader<TestEvent>, storage: &ParEvents<TestEvent>) -> bool {
    let mut events = ParEventReader { reader: state, events: storage };
    if !events.is_empty() {
        events.clear();
        false
    } else {
        true
    }
}

#[test]
fn test_event_reader_clear() {
    let mut events = ParEvents::<TestEvent>::default();
    let slot_index = events.add_slot();

    events.send(slot_index, TestEvent { i: 0 });

    let mut state = ParManualEventReader::default();

    let is_empty = reader_system(&mut state, &events);
    assert!(!is_empty, "ParEventReader should not be empty");
    let is_empty = reader_system(&mut state, &events);
    assert!(is_empty, "ParEventReader should be empty");
}

#[test]
fn test_update_drain() {
    let mut events = ParEvents::<TestEvent>::default();
    let slot_index = events.add_slot();

    let mut reader = events.get_reader();

    events.send(slot_index, TestEvent { i: 0 });
    events.send(slot_index, TestEvent { i: 1 });
    assert_eq!(reader.read(&events).count(), 2);

    let mut old_events = events.update_drain();
    assert!(old_events.is_empty());

    events.send(slot_index, TestEvent { i: 2 });
    assert_eq!(reader.read(&events).count(), 1);

    old_events.extend(events.update_drain());
    assert_eq!(old_events.len(), 2);

    old_events.extend(events.update_drain());
    assert_eq!(old_events, &[TestEvent { i: 0 }, TestEvent { i: 1 }, TestEvent { i: 2 }]);
}
