use bau::auxiliary_index::AuxIndex;

#[test]
fn new_index_knows_nothing() {
    let index = AuxIndex::new();
    assert_eq!(index.get_by_left(&1), None);
    assert_eq!(index.get_by_right(&1), None);
}

#[test]
fn added_pairs_are_found_both_ways() {
    let mut index = AuxIndex::new();
    index.on_add(&vec![(1, 10), (2, 20)]);
    assert_eq!(index.get_by_left(&1), Some(10));
    assert_eq!(index.get_by_left(&2), Some(20));
    assert_eq!(index.get_by_right(&10), Some(1));
    assert_eq!(index.get_by_right(&20), Some(2));
    assert_eq!(index.get_by_left(&10), None);
    assert_eq!(index.get_by_right(&1), None);
}

#[test]
fn adding_replaces_the_pairs_of_both_values() {
    let mut index = AuxIndex::new();
    index.on_add(&vec![(1, 10), (2, 20), (3, 30)]);
    // the id 1 moves to the entity 20, which takes the id 2 out
    index.on_add(&vec![(1, 20)]);
    assert_eq!(index.get_by_left(&1), Some(20));
    assert_eq!(index.get_by_right(&20), Some(1));
    assert_eq!(index.get_by_left(&2), None);
    assert_eq!(index.get_by_right(&10), None);
    assert_eq!(index.get_by_left(&3), Some(30));
    // the same pair again changes nothing
    index.on_add(&vec![(3, 30)]);
    assert_eq!(index.get_by_left(&3), Some(30));
    assert_eq!(index.get_by_right(&30), Some(3));
}

#[test]
fn later_pairs_of_one_list_win() {
    let mut index = AuxIndex::new();
    index.on_add(&vec![(1, 10), (1, 11), (2, 11)]);
    assert_eq!(index.get_by_left(&1), None);
    assert_eq!(index.get_by_left(&2), Some(11));
    assert_eq!(index.get_by_right(&11), Some(2));
    assert_eq!(index.get_by_right(&10), None);
}

#[test]
fn removed_ids_are_gone() {
    let mut index = AuxIndex::new();
    index.on_add(&vec![(1, 10), (2, 20), (3, 30)]);
    index.on_remove(&vec![2, 9, 2]);
    assert_eq!(index.get_by_left(&2), None);
    assert_eq!(index.get_by_right(&20), None);
    assert_eq!(index.get_by_left(&1), Some(10));
    assert_eq!(index.get_by_right(&30), Some(3));
    index.on_remove(&vec![]);
    index.on_remove(&vec![1, 3]);
    assert_eq!(index.get_by_left(&1), None);
    assert_eq!(index.get_by_left(&3), None);
}
