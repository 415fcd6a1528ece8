use mmr_tracker::debounce::{Debouncer, Step};
use mmr_tracker::history::HistoryEntry;
use mmr_tracker::scan::{PlayerData, ScanError};
use mmr_tracker::store::ResultStore;

fn fires(d: &mut Debouncer, steps: &[Step]) -> usize {
    steps.iter().filter(|s| d.step(**s)).count()
}

#[test]
fn burst_of_changes_fires_once() {
    let mut d = Debouncer::new(1000);
    let steps = [
        Step::Change(0),
        Step::Tick(500),
        Step::Change(900),
        Step::Change(1800),
        Step::Tick(2000),
        Step::Change(2700),
        Step::Tick(3699),
        Step::Tick(3700),
        Step::Tick(5000),
    ];
    assert_eq!(fires(&mut d, &steps), 1);
}

#[test]
fn spaced_changes_fire_each() {
    let mut d = Debouncer::new(1000);
    let steps = [
        Step::Change(0),
        Step::Tick(1000),
        Step::Change(2500),
        Step::Tick(3500),
        Step::Change(5000),
        Step::Tick(6200),
    ];
    assert_eq!(fires(&mut d, &steps), 3);
}

#[test]
fn tick_without_change_does_nothing() {
    let mut d = Debouncer::new(1000);
    assert!(!d.step(Step::Tick(5000)));
    assert_eq!(d.wait_time(5000), None);
}

#[test]
fn wait_time_counts_down_to_deadline() {
    let mut d = Debouncer::new(1000);
    d.step(Step::Change(100));
    assert_eq!(d.wait_time(400), Some(700));
    assert_eq!(d.wait_time(1100), Some(0));
    assert_eq!(d.wait_time(2000), Some(0));
    d.step(Step::Change(u64::MAX - 10));
    assert_eq!(d.deadline, u64::MAX);
}

fn alice(r: u32) -> Vec<PlayerData> {
    vec![PlayerData { name: "Alice".to_string(), history: vec![HistoryEntry::Rating(r)] }]
}

#[test]
fn failed_scan_leaves_snapshot_unaffected() {
    let mut store = ResultStore::new(Ok(alice(1500)), 10);
    store.publish(Err(ScanError::Parse("bad".to_string())), 20);
    assert_eq!(store.read().result, Ok(alice(1500)));
    assert_eq!(store.read().observed_at, 10);
    store.publish(Ok(alice(1600)), 30);
    assert_eq!(store.read().result, Ok(alice(1600)));
    assert_eq!(store.read().observed_at, 30);
}

#[test]
fn failure_replaces_earlier_failure() {
    let mut store = ResultStore::new(Err(ScanError::Read("gone".to_string())), 1);
    store.publish(Err(ScanError::Parse("bad".to_string())), 2);
    assert_eq!(store.read().result, Err(ScanError::Parse("bad".to_string())));
    assert_eq!(store.read().observed_at, 2);
    store.publish(Ok(alice(7)), 3);
    assert_eq!(store.read().result, Ok(alice(7)));
}
