use bau::par_events::{
    event_update_condition, event_update_system, ParEventId, ParEventWriter, ParEvents,
    ParManualEventWriter, SequenceAllocator,
};

fn ids_of(events: &ParEvents<u32>) -> Vec<(u32, u64)> {
    let mut reader = events.get_reader();
    let mut read = Vec::new();
    let mut iter = reader.read_with_id(events);
    while let Some((event, id)) = iter.next() {
        read.push((*event, id.id));
    }
    read
}

#[test]
fn default_storage_has_slot_zero() {
    let mut events = ParEvents::<u32>::default();
    assert!(events.is_empty());
    assert_eq!(events.len(), 0);
    events.send(0, 5);
    assert_eq!(events.len(), 1);
    assert_eq!(ids_of(&events), vec![(5, 0)]);
}

#[test]
fn add_slot_returns_dense_indices() {
    let mut events = ParEvents::<u32>::default();
    assert_eq!(events.slots(), 1);
    assert_eq!(events.count(), 0);
    assert_eq!(events.add_slot(), 1);
    assert_eq!(events.add_slot(), 2);
    events.send(0, 1);
    events.update();
    assert_eq!(events.add_slot(), 3);
    events.send(3, 2);
    assert_eq!(events.slots(), 4);
    assert_eq!(events.count(), 2);
    assert_eq!(ids_of(&events), vec![(1, 0), (2, 1)]);
}

#[test]
fn len_counts_both_cycles() {
    let mut events = ParEvents::<u32>::default();
    let slot = events.add_slot();
    events.send(slot, 1);
    events.send(0, 2);
    events.update();
    events.send(slot, 3);
    assert_eq!(events.len(), 3);
    events.update();
    assert_eq!(events.len(), 1);
    events.update();
    assert_eq!(events.len(), 0);
    assert!(events.is_empty());
}

#[test]
fn update_drain_returns_the_older_cycle_slot_after_slot() {
    let mut events = ParEvents::<u32>::default();
    let a = events.add_slot();
    let b = events.add_slot();
    events.send(b, 1);
    events.send(a, 2);
    events.send(0, 3);
    events.send(b, 4);
    assert_eq!(events.update_drain(), vec![]);
    events.send(a, 5);
    assert_eq!(events.update_drain(), vec![3, 2, 1, 4]);
    assert_eq!(events.update_drain(), vec![5]);
    assert_eq!(events.update_drain(), vec![]);
}

#[test]
fn drain_returns_everything_in_sending_order() {
    let mut events = ParEvents::<u32>::default();
    let a = events.add_slot();
    let b = events.add_slot();
    events.send(b, 1);
    events.send(a, 2);
    events.update();
    events.send(0, 3);
    events.send(b, 4);
    events.send(a, 5);
    assert_eq!(events.drain(), vec![1, 2, 3, 4, 5]);
    assert!(events.is_empty());
    assert_eq!(events.drain(), vec![]);
    events.send(a, 6);
    assert_eq!(ids_of(&events), vec![(6, 5)]);
}

#[test]
fn clear_keeps_the_count() {
    let mut events = ParEvents::<u32>::default();
    events.send(0, 1);
    events.update();
    events.send(0, 2);
    events.clear();
    assert!(events.is_empty());
    events.send(0, 3);
    assert_eq!(ids_of(&events), vec![(3, 2)]);
}

#[test]
fn extend_gives_consecutive_ids_in_the_order_of_the_list() {
    let mut events = ParEvents::<u32>::default();
    let a = events.add_slot();
    let b = events.add_slot();
    events.send(a, 1);
    events.extend(b, vec![2, 3, 4]);
    events.send(a, 5);
    events.extend(a, vec![]);
    events.extend(a, vec![6]);
    assert_eq!(ids_of(&events), vec![(1, 0), (2, 1), (3, 2), (4, 3), (5, 4), (6, 5)]);
    assert_eq!(events.len(), 6);
}

#[test]
fn send_default_sends_the_default_value() {
    let mut events = ParEvents::<u32>::default();
    events.send(0, 9);
    events.send_default(0);
    assert_eq!(ids_of(&events), vec![(9, 0), (0, 1)]);
}

#[test]
fn update_system_and_condition() {
    let mut events = ParEvents::<u32>::default();
    assert!(event_update_condition(&events));
    events.send(0, 1);
    assert!(!event_update_condition(&events));
    event_update_system(&mut events);
    assert!(!event_update_condition(&events));
    event_update_system(&mut events);
    assert!(event_update_condition(&events));
}

#[test]
fn writers_send_to_their_own_slots() {
    let mut events = ParEvents::<u32>::default();
    let first = ParManualEventWriter::init_state(&mut events);
    let second = ParManualEventWriter::init_state(&mut events);
    assert_eq!(first.slot_index, 1);
    assert_eq!(second.slot_index, 2);
    {
        let mut writer = second.get_param(&mut events);
        writer.send(1);
        writer.send_batch(vec![2, 3]);
    }
    {
        let mut writer = first.get_param(&mut events);
        writer.send_default();
    }
    {
        let mut writer = ParEventWriter { slot_index: 0, events: &mut events };
        writer.send(5);
    }
    assert_eq!(ids_of(&events), vec![(1, 0), (2, 1), (3, 2), (0, 3), (5, 4)]);
    // what went to the second writer's slot comes first when that cycle is dropped
    events.update();
    assert_eq!(events.update_drain(), vec![5, 0, 1, 2, 3]);
}

#[test]
fn manual_writer_keeps_its_slot() {
    let state = ParManualEventWriter::<u32>::new(4);
    assert_eq!(state.slot_index, 4);
}

#[test]
fn sequence_allocator_hands_out_each_id_once() {
    let mut ids = SequenceAllocator::new();
    assert_eq!(ids.current(), 0);
    assert_eq!(ids.next(), 0);
    assert_eq!(ids.next(), 1);
    assert_eq!(ids.current(), 2);
    assert_eq!(ids.next_batch(3), 2..5);
    assert_eq!(ids.current(), 5);
    assert_eq!(ids.next_batch(0), 5..5);
    assert_eq!(ids.next(), 5);
}

#[test]
fn event_ids_compare_by_number() {
    let a = ParEventId::<u32>::new(3);
    let b = ParEventId::<u32>::new(4);
    let c = a;
    assert_eq!(a.id, 3);
    assert!(a < b);
    assert!(a == c);
    assert!(a != b);
    assert!(a.clone() == a);
    assert!(a.max(b) == b);
}
