use bau::par_events::{ParEvents, ParManualEventReader};

fn drain_reader(events: &ParEvents<u32>, reader: &mut ParManualEventReader<u32>) -> Vec<u32> {
    let mut read = Vec::new();
    let mut iter = reader.read(events);
    while let Some(event) = iter.next() {
        read.push(*event);
    }
    read
}

fn drain_reader_ids(events: &ParEvents<u32>, reader: &mut ParManualEventReader<u32>) -> Vec<(u32, u64)> {
    let mut read = Vec::new();
    let mut iter = reader.read_with_id(events);
    while let Some((event, id)) = iter.next() {
        read.push((*event, id.id));
    }
    read
}

#[test]
fn interleaved_sends_are_read_once_in_sending_order() {
    let mut events = ParEvents::<u32>::default();
    let a = events.add_slot();
    let b = events.add_slot();
    let c = events.add_slot();
    let mut reader = events.get_reader();

    events.send(b, 10);
    events.send(a, 11);
    events.send(c, 12);
    events.send(a, 13);
    let first = drain_reader_ids(&events, &mut reader);
    assert_eq!(first, vec![(10, 0), (11, 1), (12, 2), (13, 3)]);

    events.send(c, 14);
    events.send(b, 15);
    let second = drain_reader_ids(&events, &mut reader);
    assert_eq!(second, vec![(14, 4), (15, 5)]);

    events.update();
    events.send(a, 16);
    let third = drain_reader_ids(&events, &mut reader);
    assert_eq!(third, vec![(16, 6)]);

    assert_eq!(drain_reader_ids(&events, &mut reader), vec![]);
}

#[test]
fn ids_grow_strictly_across_slots_and_cycles() {
    let mut events = ParEvents::<u32>::default();
    let a = events.add_slot();
    let b = events.add_slot();
    for round in 0..5u32 {
        events.send(b, round);
        events.send(a, round);
        events.send(0, round);
    }
    events.update();
    for round in 5..9u32 {
        events.send(a, round);
        events.send(b, round);
    }
    let mut reader = events.get_reader();
    let read = drain_reader_ids(&events, &mut reader);
    assert_eq!(read.len(), 23);
    for k in 0..read.len() {
        assert_eq!(read[k].1, k as u64);
    }
}

#[test]
fn event_is_gone_after_two_updates() {
    let mut events = ParEvents::<u32>::default();
    let slot = events.add_slot();
    events.send(slot, 7);
    events.update();
    events.update();
    let mut reader = events.get_reader();
    assert_eq!(drain_reader(&events, &mut reader), vec![]);
    assert_eq!(events.len(), 0);
}

#[test]
fn events_sent_between_two_updates_survive_the_second() {
    let mut events = ParEvents::<u32>::default();
    let slot = events.add_slot();
    events.send(slot, 1);
    events.send(slot, 2);
    events.update();
    events.send(slot, 3);
    events.send(0, 4);
    events.update();
    let mut reader = events.get_reader();
    assert_eq!(drain_reader_ids(&events, &mut reader), vec![(3, 2), (4, 3)]);
}

#[test]
fn two_slots_sending_the_same_hundred_values() {
    let mut events = ParEvents::<u32>::default();
    let slot_a = events.add_slot();
    let slot_b = events.add_slot();
    let mut reader = events.get_reader();

    // one writer runs ahead of the other, then the other catches up
    let mut next_a = 0u32;
    let mut next_b = 0u32;
    while next_a < 100 || next_b < 100 {
        for _ in 0..3 {
            if next_a < 100 {
                events.send(slot_a, next_a);
                next_a += 1;
            }
        }
        for _ in 0..7 {
            if next_b < 100 {
                events.send(slot_b, next_b);
                next_b += 1;
            }
        }
    }

    let read = drain_reader(&events, &mut reader);
    assert_eq!(read.len(), 200);
    let mut seen = vec![0usize; 100];
    for value in read {
        seen[value as usize] += 1;
    }
    for (value, times) in seen.iter().enumerate() {
        assert_eq!(*times, 2, "event '{}' was not sent twice", value);
    }
}

#[test]
fn len_agrees_with_read_and_second_read_is_empty() {
    let mut events = ParEvents::<u32>::default();
    let slot = events.add_slot();
    for value in 0..5u32 {
        events.send(slot, value);
    }
    events.update();
    for value in 5..9u32 {
        events.send(0, value);
    }
    let mut reader = events.get_reader();
    assert_eq!(reader.len(&events), 9);
    assert_eq!(drain_reader(&events, &mut reader).len(), 9);
    assert_eq!(reader.len(&events), 0);
    assert_eq!(drain_reader(&events, &mut reader).len(), 0);
}

#[test]
fn clear_discards_what_is_pending_for_this_reader_only() {
    let mut events = ParEvents::<u32>::default();
    let slot = events.add_slot();
    let mut reader = events.get_reader();
    let mut other = events.get_reader();
    events.send(slot, 1);
    events.send(slot, 2);
    events.send(slot, 3);
    reader.clear(&events);
    assert!(reader.is_empty(&events));
    assert_eq!(drain_reader(&events, &mut reader), vec![]);
    assert_eq!(events.len(), 3);
    assert_eq!(drain_reader(&events, &mut other), vec![1, 2, 3]);
}

#[test]
fn event_is_visible_after_one_update_and_not_after_two() {
    let mut events = ParEvents::<u32>::default();
    let slot = events.add_slot();
    let mut reader = events.get_reader();
    let mut late = events.get_reader();
    events.send(slot, 1);
    events.update();
    assert_eq!(drain_reader(&events, &mut reader), vec![1]);
    events.update();
    assert_eq!(drain_reader(&events, &mut reader), vec![]);
    assert_eq!(drain_reader(&events, &mut late), vec![]);
}

#[test]
fn reader_that_fell_behind_goes_on_with_the_oldest_event_kept() {
    let mut events = ParEvents::<u32>::default();
    let slot = events.add_slot();
    let mut reader = events.get_reader();
    events.send(slot, 1);
    events.send(slot, 2);
    events.update();
    events.send(slot, 3);
    events.update();
    events.send(slot, 4);
    assert_eq!(reader.len(&events), 2);
    assert_eq!(drain_reader_ids(&events, &mut reader), vec![(3, 2), (4, 3)]);
}

#[test]
fn reader_beyond_the_count_reads_nothing_and_is_set_back() {
    let mut far = ParEvents::<u32>::default();
    for value in 0..5u32 {
        far.send(0, value);
    }
    let mut reader = far.get_reader_current();

    let mut events = ParEvents::<u32>::default();
    events.send(0, 1);
    events.send(0, 2);
    assert_eq!(reader.len(&events), 0);
    assert!(reader.is_empty(&events));
    assert_eq!(drain_reader(&events, &mut reader), vec![]);
    events.send(0, 3);
    assert_eq!(drain_reader_ids(&events, &mut reader), vec![(3, 2)]);
}

#[test]
fn reader_of_an_empty_storage_is_set_to_its_count() {
    let mut events = ParEvents::<u32>::default();
    events.send(0, 1);
    events.send(0, 2);
    events.clear();
    let mut reader = events.get_reader();
    assert_eq!(drain_reader(&events, &mut reader), vec![]);
    events.send(0, 3);
    assert_eq!(drain_reader_ids(&events, &mut reader), vec![(3, 2)]);
}

#[test]
fn reader_from_now_sees_only_what_is_sent_later() {
    let mut events = ParEvents::<u32>::default();
    events.send(0, 1);
    let mut reader = events.get_reader_current();
    assert_eq!(drain_reader(&events, &mut reader), vec![]);
    events.send(0, 2);
    events.send(0, 3);
    assert_eq!(drain_reader_ids(&events, &mut reader), vec![(2, 1), (3, 2)]);
}
