use channel::metrics_utils::HolderType;
use channel::metrics_utils::MetricsManager;

#[test]
fn metrics_slots_accumulate_by_kind() {
    let mut mgr = MetricsManager::new();
    let s0 = mgr.new_metrics_index(String::from("main.rs:10"), HolderType::Sender);
    let r0 = mgr.new_metrics_index(String::from("main.rs:11"), HolderType::Receiver);
    let r1 = mgr.new_metrics_index(String::from("main.rs:12"), HolderType::Receiver);
    mgr.record(s0, 2);
    mgr.record(r0, 1);
    mgr.record(s0, 3);
    mgr.record(r1, 4);
    let result = mgr.get_result(false);
    assert_eq!(result.sender_counts.len(), 1);
    assert_eq!(result.sender_counts[0].0, String::from("main.rs:10"));
    assert_eq!(result.sender_counts[0].1, 5);
    assert_eq!(result.receiver_counts.len(), 2);
    assert_eq!(result.receiver_counts[0].0, String::from("main.rs:11"));
    assert_eq!(result.receiver_counts[0].1, 1);
    assert_eq!(result.receiver_counts[1].0, String::from("main.rs:12"));
    assert_eq!(result.receiver_counts[1].1, 4);
}

#[test]
fn metrics_clear_resets_counts() {
    let mut mgr = MetricsManager::new();
    let s0 = mgr.new_metrics_index(String::from("lib.rs:5"), HolderType::Sender);
    mgr.record(s0, 7);
    let first = mgr.get_result(true);
    assert_eq!(first.sender_counts[0].1, 7);
    let second = mgr.get_result(false);
    assert_eq!(second.sender_counts[0].1, 0);
    assert!(second.receiver_counts.is_empty());
}

#[test]
fn metrics_totals_merge_equal_sites() {
    let mut mgr = MetricsManager::new();
    let a = mgr.new_metrics_index(String::from("main.rs:40"), HolderType::Sender);
    let b = mgr.new_metrics_index(String::from("main.rs:40"), HolderType::Sender);
    let c = mgr.new_metrics_index(String::from("main.rs:40"), HolderType::Receiver);
    mgr.record(a, 2);
    mgr.record(b, 5);
    mgr.record(c, 1);
    // Two sender slots at the same call site snapshot as one total.
    let result = mgr.get_result(false);
    assert_eq!(result.sender_counts.len(), 1);
    assert_eq!(result.sender_counts[0].0, String::from("main.rs:40"));
    assert_eq!(result.sender_counts[0].1, 7);
    assert_eq!(result.receiver_counts.len(), 1);
    assert_eq!(result.receiver_counts[0].0, String::from("main.rs:40"));
    assert_eq!(result.receiver_counts[0].1, 1);
}
