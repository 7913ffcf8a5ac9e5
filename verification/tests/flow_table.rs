use netguard::flow_tracker::{
    cleanup_timeout_flows, cleanup_timeout_flows_at, update_flow, FlowTracker, MAX_ACTIVE_FLOWS,
};
use netguard::types::FlowKey;

fn key(n: u32) -> FlowKey {
    FlowKey::new(n, 0x08080808, 40000, 443, 6)
}

#[test]
fn new_flow_is_recorded_with_its_app() {
    let mut t = FlowTracker::new();
    t.update_flow_at(key(1), "yt".to_string(), "YouTube".to_string(), Some("youtube.com".to_string()), 100, 1, 1000);
    let v = t.get_flow(&key(1)).unwrap();
    assert_eq!(v.app_id, "yt");
    assert_eq!(v.app_name, "YouTube");
    assert_eq!(v.sni, Some("youtube.com".to_string()));
    assert_eq!(v.domain, None);
    assert_eq!((v.start_time, v.last_active, v.bytes_counter, v.packets), (1000, 1000, 100, 1));
}

#[test]
fn known_flow_accumulates_and_keeps_its_app() {
    let mut t = FlowTracker::new();
    t.update_flow_at(key(1), "yt".to_string(), "YouTube".to_string(), None, 100, 1, 1000);
    t.update_flow_at(key(1), "other".to_string(), "Other".to_string(), None, 50, 2, 1005);
    let v = t.get_flow(&key(1)).unwrap();
    assert_eq!(v.app_id, "yt");
    assert_eq!((v.start_time, v.last_active, v.bytes_counter, v.packets), (1000, 1005, 150, 3));
    assert_eq!(t.get_all_flows().len(), 1);
}

#[test]
fn full_table_evicts_oldest_flow() {
    let mut t = FlowTracker::new();
    for n in 0..MAX_ACTIVE_FLOWS as u32 {
        t.update_flow_at(key(n), "a".to_string(), "A".to_string(), None, 0, 1, 10);
    }
    assert_eq!(t.get_all_flows().len(), MAX_ACTIVE_FLOWS);
    t.update_flow_at(key(0), "a".to_string(), "A".to_string(), None, 0, 1, 11);
    assert_eq!(t.get_all_flows().len(), MAX_ACTIVE_FLOWS);
    assert!(t.get_flow(&key(0)).is_some());
    t.update_flow_at(key(999_999), "b".to_string(), "B".to_string(), None, 0, 1, 12);
    assert_eq!(t.get_all_flows().len(), MAX_ACTIVE_FLOWS);
    assert!(t.get_flow(&key(0)).is_none());
    assert!(t.get_flow(&key(1)).is_some());
    assert!(t.get_flow(&key(999_999)).is_some());
    assert_eq!(t.get_all_flows().last().unwrap().0, key(999_999));
}

#[test]
fn remove_flow_returns_record_and_forgets_it() {
    let mut t = FlowTracker::new();
    t.update_flow_at(key(1), "a".to_string(), "A".to_string(), None, 5, 1, 10);
    t.update_flow_at(key(2), "b".to_string(), "B".to_string(), None, 6, 1, 10);
    let v = t.remove_flow(&key(1)).unwrap();
    assert_eq!(v.bytes_counter, 5);
    assert!(t.get_flow(&key(1)).is_none());
    assert!(t.remove_flow(&key(1)).is_none());
    assert_eq!(t.get_all_flows()[0].0, key(2));
}

#[test]
fn expiry_splits_idle_and_active_flows() {
    let mut t = FlowTracker::new();
    t.update_flow_at(key(1), "a".to_string(), "A".to_string(), None, 0, 1, 100);
    t.update_flow_at(key(2), "b".to_string(), "B".to_string(), None, 0, 1, 150);
    t.update_flow_at(key(3), "c".to_string(), "C".to_string(), None, 0, 1, 90);
    let expired = t.get_expired_flows_at(60, 161);
    assert_eq!(expired.iter().map(|e| e.0).collect::<Vec<_>>(), vec![key(1), key(3)]);
    // idle for exactly the timeout is not expired
    assert_eq!(t.get_expired_flows_at(60, 160).iter().map(|e| e.0).collect::<Vec<_>>(), vec![key(3)]);
    assert_eq!(t.get_expired_flows_at(71, 161).len(), 0);
    let removed = t.remove_expired_at(60, 161);
    assert_eq!(removed.iter().map(|e| e.0).collect::<Vec<_>>(), vec![key(1), key(3)]);
    assert_eq!(t.get_all_flows().iter().map(|e| e.0).collect::<Vec<_>>(), vec![key(2)]);
}

#[test]
fn clock_updates_and_cleanup() {
    let mut t = FlowTracker::default();
    update_flow(&mut t, key(1), "a".to_string(), "A".to_string(), None, 7, 1);
    let v = t.get_flow(&key(1)).unwrap();
    assert_eq!(v.start_time, v.last_active);
    assert!(v.last_active > 1_600_000_000);
    assert!(t.get_expired_flows(3600).is_empty());
    t.update_flow_at(key(2), "b".to_string(), "B".to_string(), None, 0, 1, 5);
    let expired = cleanup_timeout_flows(&mut t, 60);
    assert_eq!(expired.len(), 1);
    assert_eq!(expired[0].0, key(2));
    assert!(t.get_flow(&key(1)).is_some());
}

#[test]
fn full_counters_cannot_absorb_more() {
    let mut t = FlowTracker::new();
    t.update_flow_at(key(1), "a".to_string(), "A".to_string(), None, u64::MAX, 1, 10);
    assert!(!t.can_absorb_traffic(&key(1), 1, 0));
    assert!(t.can_absorb_traffic(&key(1), 0, 1));
    assert!(t.can_absorb_traffic(&key(2), u64::MAX, u64::MAX));
}

#[test]
fn removing_a_new_flow_restores_the_table() {
    let mut t = FlowTracker::new();
    t.update_flow_at(key(1), "a".to_string(), "A".to_string(), None, 7, 1, 100);
    t.update_flow_at(key(2), "b".to_string(), "B".to_string(), None, 8, 1, 101);
    let before: Vec<(FlowKey, u64)> = t.get_all_flows().iter().map(|(k, v)| (*k, v.bytes_counter)).collect();
    t.update_flow_at(key(3), "c".to_string(), "C".to_string(), None, 9, 1, 102);
    assert!(t.remove_flow(&key(3)).is_some());
    let after: Vec<(FlowKey, u64)> = t.get_all_flows().iter().map(|(k, v)| (*k, v.bytes_counter)).collect();
    assert_eq!(before, after);
}

#[test]
fn flows_active_after_the_reading_are_not_expired() {
    let mut t = FlowTracker::new();
    t.update_flow_at(key(1), "a".to_string(), "A".to_string(), None, 1, 1, 10);
    t.update_flow_at(key(2), "b".to_string(), "B".to_string(), None, 1, 1, 500);
    let expired = t.get_expired_flows_at(60, 100);
    assert_eq!(expired.len(), 1);
    assert_eq!(expired[0].0, key(1));
    let removed = cleanup_timeout_flows_at(&mut t, 60, 100);
    assert_eq!(removed.len(), 1);
    assert_eq!(removed[0].0, key(1));
    assert!(t.get_flow(&key(2)).is_some());
    assert!(t.get_expired_flows_at(60, 0).is_empty());
    assert!(t.get_expired_flows_at(60, 560).is_empty());
    assert_eq!(t.get_expired_flows_at(60, 561).len(), 1);
}

#[test]
fn free_and_method_updates_agree() {
    let mut a = FlowTracker::new();
    let mut b = FlowTracker::new();
    a.update_flow_at(key(1), "a".to_string(), "A".to_string(), None, 3, 1, 50);
    b.update_flow_at(key(1), "a".to_string(), "A".to_string(), None, 3, 1, 50);
    a.update_flow(key(2), "b".to_string(), "B".to_string(), None, 4, 1);
    update_flow(&mut b, key(2), "b".to_string(), "B".to_string(), None, 4, 1);
    let (fa, fb) = (a.get_all_flows(), b.get_all_flows());
    assert_eq!(fa.len(), fb.len());
    for (x, y) in fa.iter().zip(fb.iter()) {
        assert_eq!((x.0, x.1.bytes_counter, x.1.packets), (y.0, y.1.bytes_counter, y.1.packets));
    }
}
