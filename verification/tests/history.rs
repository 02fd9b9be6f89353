use rust_telemetry::history::HistoryWindow;

fn contents(h: &HistoryWindow<i32>) -> Vec<i32> {
    h.snapshot()
}

#[test]
fn new_history_is_empty() {
    let h: HistoryWindow<i32> = HistoryWindow::new(100);
    assert_eq!(h.len(), 0);
    assert_eq!(h.window(), 100);
    assert_eq!(h.latest(), None);
    assert!(contents(&h).is_empty());
}

#[test]
fn history_keeps_the_most_recent_items_in_order() {
    let mut h = HistoryWindow::new(3);
    for x in 1..=5 {
        h.record(x);
    }
    assert_eq!(contents(&h), vec![3, 4, 5]);
    assert_eq!(h.len(), 3);
    assert_eq!(*h.get(0), 3);
    assert_eq!(*h.get(2), 5);
}

#[test]
fn history_below_its_window_keeps_everything() {
    let mut h = HistoryWindow::new(4);
    h.record(10);
    h.record(20);
    assert_eq!(contents(&h), vec![10, 20]);
}

#[test]
fn latest_is_the_item_just_recorded() {
    let mut h = HistoryWindow::new(2);
    for x in [7, 8, 9] {
        h.record(x);
        assert_eq!(h.latest(), Some(&x));
    }
}

#[test]
fn history_never_exceeds_a_nonzero_window() {
    let mut h = HistoryWindow::new(5);
    for x in 0..50 {
        h.record(x);
        assert!(h.len() <= 5);
    }
    assert_eq!(contents(&h), vec![45, 46, 47, 48, 49]);
}

#[test]
fn history_with_window_one_holds_only_the_newest() {
    let mut h = HistoryWindow::new(1);
    h.record(1);
    h.record(2);
    assert_eq!(contents(&h), vec![2]);
}

#[test]
fn history_with_zero_window_keeps_nothing() {
    let mut h = HistoryWindow::new(0);
    for x in 0..4 {
        h.record(x);
        assert_eq!(h.len(), 0);
        assert_eq!(h.latest(), None);
    }
    assert!(contents(&h).is_empty());
}

#[test]
fn snapshot_clones_strings() {
    let mut h = HistoryWindow::new(2);
    h.record(String::from("a"));
    h.record(String::from("b"));
    h.record(String::from("c"));
    assert_eq!(h.snapshot(), vec![String::from("b"), String::from("c")]);
}
