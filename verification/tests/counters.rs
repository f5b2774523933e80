use delete_node_modules::counters::{ItemCounter, Log};

#[test]
fn new_counter_is_empty() {
    let c = ItemCounter::new();
    assert_eq!(c.count, 0);
    assert_eq!(c.total_size, 0);
    assert_eq!(ItemCounter::default(), c);
}

#[test]
fn add_counts_one_item_and_its_bytes() {
    let mut c = ItemCounter::new();
    c.add(100);
    c.add(50);
    assert_eq!(c, ItemCounter { count: 2, total_size: 150 });
}

#[test]
fn add_stops_at_the_largest_value() {
    let mut c = ItemCounter { count: usize::MAX, total_size: u64::MAX - 1 };
    c.add(5);
    assert_eq!(c, ItemCounter { count: usize::MAX, total_size: u64::MAX });
}

#[test]
fn remove_takes_the_last_item_down_to_zero() {
    let mut c = ItemCounter::new();
    c.add(100);
    assert!(c.remove(100));
    assert_eq!(c, ItemCounter::new());
}

#[test]
fn remove_from_empty_counter_is_refused() {
    let mut c = ItemCounter::new();
    assert!(!c.remove(0));
    assert!(!c.remove(1));
    assert_eq!(c, ItemCounter::new());
}

#[test]
fn remove_of_more_bytes_than_counted_is_refused() {
    let mut c = ItemCounter { count: 2, total_size: 10 };
    assert!(!c.remove(11));
    assert_eq!(c, ItemCounter { count: 2, total_size: 10 });
    assert!(c.remove(10));
    assert_eq!(c, ItemCounter { count: 1, total_size: 0 });
}

#[test]
fn log_starts_empty() {
    let log = Log::default();
    assert_eq!(log.current, ItemCounter::new());
    assert_eq!(log.history, ItemCounter::new());
    assert_eq!(log.failed, ItemCounter::new());
}

#[test]
fn log_finished_moves_size_from_current_to_history() {
    let mut log = Log::default();
    log.add(100);
    assert_eq!(log.current, ItemCounter { count: 1, total_size: 100 });
    assert!(log.finished(100));
    assert_eq!(log.current, ItemCounter::new());
    assert_eq!(log.history, ItemCounter { count: 1, total_size: 100 });
    assert_eq!(log.failed, ItemCounter::new());
}

#[test]
fn log_failed_moves_size_from_current_to_failed() {
    let mut log = Log::default();
    log.add(50);
    assert!(log.failed(50));
    assert_eq!(log.current, ItemCounter::new());
    assert_eq!(log.history, ItemCounter::new());
    assert_eq!(log.failed, ItemCounter { count: 1, total_size: 50 });
}

#[test]
fn log_rejects_completion_that_was_never_started() {
    let mut log = Log::default();
    assert!(!log.finished(10));
    assert!(!log.failed(10));
    assert_eq!(log, Log::default());
    log.add(5);
    assert!(!log.finished(10));
    assert_eq!(log.current, ItemCounter { count: 1, total_size: 5 });
    assert_eq!(log.history, ItemCounter::new());
}

#[test]
fn log_tracks_two_removals_in_flight() {
    let mut log = Log::default();
    log.add(100);
    log.add(50);
    assert!(log.finished(100));
    assert!(log.failed(50));
    assert_eq!(log.current, ItemCounter::new());
    assert_eq!(log.history, ItemCounter { count: 1, total_size: 100 });
    assert_eq!(log.failed, ItemCounter { count: 1, total_size: 50 });
}
