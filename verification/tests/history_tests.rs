use nicoad_list::history::{aggregate, merge, reconcile, HistoryResult};
use nicoad_list::AdvertError;

fn names(list: &[&str]) -> Vec<String> {
    list.iter().map(|s| s.to_string()).collect()
}

fn count_for(r: &HistoryResult, key: &str) -> u64 {
    for (k, c) in r.counts.iter() {
        if k == key {
            return *c;
        }
    }
    0
}

#[test]
fn aggregate_keeps_order_and_counts_occurrences() {
    let r = aggregate(names(&["alice", "bob", "alice", "carol", "alice"]));
    assert_eq!(r.ordered_entries, names(&["alice", "bob", "alice", "carol", "alice"]));
    assert_eq!(count_for(&r, "alice"), 3);
    assert_eq!(count_for(&r, "bob"), 1);
    assert_eq!(count_for(&r, "carol"), 1);
    assert_eq!(count_for(&r, "dave"), 0);
    let total: u64 = r.counts.iter().map(|(_, c)| *c).sum();
    assert_eq!(total, 5);
    assert_eq!(r.counts.len(), 3);
}

#[test]
fn aggregate_of_empty_list_is_empty() {
    let r = aggregate(Vec::new());
    assert!(r.ordered_entries.is_empty());
    assert!(r.counts.is_empty());
}

#[test]
fn merge_concatenates_json_first_and_sums_counts() {
    let a = aggregate(names(&["x", "y"]));
    let b = aggregate(names(&["y", "y", "z"]));
    let m = merge(a, b);
    assert_eq!(m.ordered_entries, names(&["x", "y", "y", "y", "z"]));
    assert_eq!(count_for(&m, "x"), 1);
    assert_eq!(count_for(&m, "y"), 3);
    assert_eq!(count_for(&m, "z"), 1);
    let total: u64 = m.counts.iter().map(|(_, c)| *c).sum();
    assert_eq!(total, 5);
}

#[test]
fn reconcile_prefers_merge_when_both_succeed() {
    let json = aggregate(names(&["j1", "both"]));
    let csv = aggregate(names(&["c1", "both"]));
    let m = reconcile(Some(json), Some(csv)).unwrap();
    assert_eq!(m.ordered_entries, names(&["j1", "both", "c1", "both"]));
    assert_eq!(count_for(&m, "both"), 2);
}

#[test]
fn reconcile_takes_json_when_csv_failed() {
    let json = aggregate(names(&["only"]));
    let r = reconcile(Some(json), None).unwrap();
    assert_eq!(r.ordered_entries, names(&["only"]));
}

#[test]
fn reconcile_takes_csv_when_json_failed() {
    let csv = aggregate(names(&["fallback"]));
    let r = reconcile(None, Some(csv)).unwrap();
    assert_eq!(r.ordered_entries, names(&["fallback"]));
}

#[test]
fn reconcile_fails_when_both_failed() {
    let r = reconcile(None, None);
    assert_eq!(r.unwrap_err(), AdvertError::NoSourceAvailable);
}
