use ui_state::counter::{counter_row, Counter, BIG_THRESHOLD};

fn at(start: i32) -> Counter {
    Counter::starting_at(start).expect("a start that is not negative")
}

fn clicked(times: i32) -> Counter {
    let mut counter = Counter::new();
    for _ in 0..times {
        assert!(counter.can_increment());
        counter.increment();
    }
    counter
}

#[test]
fn new_counter_stands_at_zero() {
    let counter = Counter::new();
    assert_eq!(counter.get(), 0);
    assert!(!counter.is_odd());
    assert_eq!(counter.parity(), "Even");
    assert!(!counter.is_big());
}

#[test]
fn starting_at_keeps_the_start() {
    assert_eq!(at(0).get(), 0);
    assert_eq!(at(0), Counter::new());
    assert_eq!(at(41).get(), 41);
    assert_eq!(at(i32::MAX).get(), i32::MAX);
}

#[test]
fn starting_at_turns_down_a_negative_start() {
    assert_eq!(Counter::starting_at(-1), None);
    assert_eq!(Counter::starting_at(i32::MIN), None);
    assert!(Counter::starting_at(0).is_some());
}

#[test]
fn each_click_adds_one() {
    let mut counter = Counter::new();
    for expected in 1..=25 {
        counter.increment();
        assert_eq!(counter.get(), expected);
    }
}

#[test]
fn increment_reaches_the_largest_count_and_stops_there() {
    let mut counter = at(i32::MAX - 1);
    assert!(counter.can_increment());
    counter.increment();
    assert_eq!(counter.get(), i32::MAX);
    assert!(!counter.can_increment());
}

#[test]
fn doubled_is_twice_the_count() {
    assert_eq!(clicked(0).doubled(), 0);
    assert_eq!(clicked(1).doubled(), 2);
    assert_eq!(clicked(7).doubled(), 14);
    assert_eq!(at(1_073_741_823).doubled(), 2_147_483_646);
}

#[test]
fn can_double_tells_where_twice_the_count_fits() {
    assert!(clicked(0).can_double());
    assert!(clicked(7).can_double());
    assert!(at(1_073_741_823).can_double());
    assert!(!at(1_073_741_824).can_double());
    assert!(!at(i32::MAX).can_double());
}

#[test]
fn doubled_count_is_never_odd() {
    for n in 0..40 {
        let doubled = at(clicked(n).doubled());
        assert!(!doubled.is_odd());
        assert_eq!(doubled.parity(), "Even");
    }
}

#[test]
fn parity_follows_the_count() {
    assert_eq!(clicked(1).parity(), "Odd");
    assert_eq!(clicked(2).parity(), "Even");
    assert_eq!(clicked(3).parity(), "Odd");
    assert!(clicked(1).is_odd());
    assert!(!clicked(2).is_odd());
    assert!(at(i32::MAX).is_odd());
}

#[test]
fn a_click_flips_the_parity() {
    let mut counter = Counter::new();
    for _ in 0..30 {
        let before = counter.is_odd();
        let label_before = counter.parity();
        counter.increment();
        assert_eq!(counter.is_odd(), !before);
        assert_ne!(counter.parity(), label_before);
    }
}

#[test]
fn a_counter_is_big_past_ten() {
    assert_eq!(BIG_THRESHOLD, 10);
    assert!(!clicked(0).is_big());
    assert!(!clicked(9).is_big());
    assert!(!clicked(10).is_big());
    assert!(clicked(11).is_big());
    assert!(clicked(12).is_big());
    assert!(at(i32::MAX).is_big());
}

#[test]
fn counter_row_counts_up_from_one() {
    let row = counter_row(3);
    let counts: Vec<i32> = row.iter().map(|c| c.get()).collect();
    assert_eq!(counts, vec![1, 2, 3]);
    assert_eq!(counter_row(1).len(), 1);
    assert_eq!(counter_row(1)[0].get(), 1);
}

#[test]
fn counter_row_is_empty_below_one() {
    assert!(counter_row(0).is_empty());
    assert!(counter_row(-4).is_empty());
    assert!(counter_row(i32::MIN).is_empty());
}

#[test]
fn counters_of_a_row_click_on_their_own() {
    let mut row = counter_row(3);
    row[1].increment();
    row[1].increment();
    let counts: Vec<i32> = row.iter().map(|c| c.get()).collect();
    assert_eq!(counts, vec![1, 4, 3]);
}

#[test]
fn counter_copies_compare_equal() {
    let counter = clicked(5);
    let copy = counter;
    assert_eq!(counter, copy);
    assert_ne!(counter, clicked(6));
}
