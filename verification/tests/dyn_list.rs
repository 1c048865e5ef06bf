use ui_state::dyn_list::{CounterList, Row, DEFAULT_LENGTH};

fn row(id: usize, count: usize) -> Row {
    Row { id, count }
}

#[test]
fn new_list_numbers_its_rows_from_zero() {
    let list = CounterList::new(5);
    assert_eq!(
        list.rows(),
        &vec![row(0, 1), row(1, 2), row(2, 3), row(3, 4), row(4, 5)]
    );
    assert_eq!(list.len(), 5);
    assert_eq!(list.next_id(), 5);
    assert!(!list.is_empty());
}

#[test]
fn new_list_of_no_rows_is_empty() {
    let list = CounterList::new(0);
    assert!(list.is_empty());
    assert_eq!(list.len(), 0);
    assert_eq!(list.next_id(), 0);
    assert_eq!(list.rows(), &Vec::<Row>::new());
}

#[test]
fn default_list_has_three_rows() {
    assert_eq!(DEFAULT_LENGTH, 3);
    let list = CounterList::default();
    assert_eq!(list.rows(), &vec![row(0, 1), row(1, 2), row(2, 3)]);
    assert_eq!(list.next_id(), 3);
    assert_eq!(list, CounterList::new(3));
}

#[test]
fn add_appends_a_row_under_the_next_id() {
    let mut list = CounterList::new(3);
    assert!(list.can_add());
    let id = list.add();
    assert_eq!(id, 3);
    assert_eq!(list.rows(), &vec![row(0, 1), row(1, 2), row(2, 3), row(3, 4)]);
    assert_eq!(list.next_id(), 4);
    let id = list.add();
    assert_eq!(id, 4);
    assert_eq!(list.rows()[4], row(4, 5));
    assert_eq!(list.len(), 5);
}

#[test]
fn add_to_an_empty_list_starts_at_id_zero() {
    let mut list = CounterList::new(0);
    assert_eq!(list.add(), 0);
    assert_eq!(list.rows(), &vec![row(0, 1)]);
}

#[test]
fn remove_takes_out_the_row_and_keeps_the_order() {
    let mut list = CounterList::new(4);
    list.remove(1);
    assert_eq!(list.rows(), &vec![row(0, 1), row(2, 3), row(3, 4)]);
    list.remove(3);
    assert_eq!(list.rows(), &vec![row(0, 1), row(2, 3)]);
    list.remove(0);
    assert_eq!(list.rows(), &vec![row(2, 3)]);
    assert_eq!(list.next_id(), 4);
}

#[test]
fn remove_of_a_missing_id_changes_nothing() {
    let mut list = CounterList::new(3);
    let before = list.clone();
    list.remove(3);
    assert_eq!(list, before);
    list.remove(usize::MAX);
    assert_eq!(list, before);
    list.remove(1);
    let after_first = list.clone();
    list.remove(1);
    assert_eq!(list, after_first);
}

#[test]
fn remove_every_row_leaves_an_empty_list() {
    let mut list = CounterList::new(3);
    list.remove(0);
    list.remove(1);
    list.remove(2);
    assert!(list.is_empty());
    assert_eq!(list.next_id(), 3);
}

#[test]
fn ids_are_never_handed_out_twice() {
    let mut list = CounterList::new(2);
    list.remove(1);
    assert_eq!(list.add(), 2);
    list.remove(2);
    list.remove(0);
    assert_eq!(list.add(), 3);
    assert_eq!(list.rows(), &vec![row(3, 4)]);
}

#[test]
fn ids_stay_distinct_and_growing() {
    let mut list = CounterList::new(4);
    list.remove(2);
    list.add();
    list.add();
    list.remove(0);
    list.add();
    let ids: Vec<usize> = list.rows().iter().map(|r| r.id).collect();
    assert_eq!(ids, vec![1, 3, 4, 5, 6]);
    for pair in ids.windows(2) {
        assert!(pair[0] < pair[1]);
    }
    for id in &ids {
        assert!(*id < list.next_id());
    }
}

#[test]
fn add_then_remove_gives_the_rows_back() {
    let mut list = CounterList::new(3);
    list.increment(1);
    let before = list.rows().clone();
    let id = list.add();
    list.remove(id);
    assert_eq!(list.rows(), &before);
    assert_eq!(list.next_id(), 4);
}

#[test]
fn increment_clicks_one_row_only() {
    let mut list = CounterList::new(3);
    assert!(list.can_increment(1));
    assert!(list.increment(1));
    assert_eq!(list.rows(), &vec![row(0, 1), row(1, 3), row(2, 3)]);
    assert!(list.increment(1));
    assert!(list.increment(2));
    assert_eq!(list.rows(), &vec![row(0, 1), row(1, 4), row(2, 4)]);
    assert_eq!(list.next_id(), 3);
}

#[test]
fn increment_of_a_missing_id_changes_nothing() {
    let mut list = CounterList::new(3);
    let before = list.clone();
    assert!(list.can_increment(9));
    assert!(!list.increment(9));
    assert_eq!(list, before);
    list.remove(0);
    assert!(!list.increment(0));
    assert_eq!(list.rows(), &vec![row(1, 2), row(2, 3)]);
}

#[test]
fn count_of_finds_a_row_by_its_id() {
    let mut list = CounterList::new(3);
    assert_eq!(list.count_of(0), Some(1));
    assert_eq!(list.count_of(2), Some(3));
    assert_eq!(list.count_of(3), None);
    list.increment(2);
    assert_eq!(list.count_of(2), Some(4));
    list.remove(2);
    assert_eq!(list.count_of(2), None);
    assert_eq!(list.count_of(1), Some(2));
}

#[test]
fn a_removal_leaves_the_other_counters_alone() {
    let mut list = CounterList::new(5);
    list.increment(3);
    list.increment(3);
    list.remove(1);
    assert_eq!(list.count_of(0), Some(1));
    assert_eq!(list.count_of(1), None);
    assert_eq!(list.count_of(2), Some(3));
    assert_eq!(list.count_of(3), Some(6));
    assert_eq!(list.count_of(4), Some(5));
    assert_eq!(list.len(), 4);
}

#[test]
fn a_clone_is_equal_and_lives_on_its_own() {
    let mut list = CounterList::new(2);
    let copy = list.clone();
    assert_eq!(copy, list);
    list.add();
    assert_ne!(copy, list);
    assert_eq!(copy.rows(), &vec![row(0, 1), row(1, 2)]);
    assert_eq!(copy.next_id(), 2);
}
