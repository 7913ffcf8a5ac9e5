use netguard::history_aggregator::{aggregate_flow, get_daily_summary, HistoryAggregator};
use netguard::types::{FlowKey, FlowValue, HistoryValue};

fn flow(app: &str, start: u64, end: u64, bytes: u64) -> FlowValue {
    FlowValue {
        app_id: app.to_string(),
        app_name: app.to_uppercase(),
        sni: None,
        domain: None,
        start_time: start,
        last_active: end,
        bytes_counter: bytes,
        packets: 1,
    }
}

fn key(src: u32) -> FlowKey {
    FlowKey::new(src, 1, 2, 3, 6)
}

#[test]
fn aggregation_adds_duration_and_bytes() {
    let mut h = HistoryAggregator::new();
    h.aggregate_on(&key(7), &flow("yt", 100, 160, 1000), "20240101".to_string());
    h.aggregate_on(&key(7), &flow("yt", 200, 230, 500), "20240101".to_string());
    let all = h.get_summary();
    assert_eq!(all.len(), 1);
    assert_eq!(all[0].0.src_ip, 7);
    assert_eq!(all[0].0.app_id, "yt");
    assert_eq!(all[0].0.date, "20240101");
    assert_eq!(all[0].1, HistoryValue { total_duration: 90, total_bytes: 1500 });
}

#[test]
fn entries_are_per_address_app_and_day() {
    let mut h = HistoryAggregator::new();
    h.aggregate_on(&key(7), &flow("yt", 0, 10, 1), "20240101".to_string());
    h.aggregate_on(&key(7), &flow("yt", 0, 20, 2), "20240102".to_string());
    h.aggregate_on(&key(8), &flow("yt", 0, 30, 3), "20240101".to_string());
    h.aggregate_on(&key(7), &flow("tt", 0, 40, 4), "20240101".to_string());
    assert_eq!(h.get_summary().len(), 4);
    assert_eq!(
        get_daily_summary(&h, 7, "20240101"),
        vec![HistoryValue { total_duration: 10, total_bytes: 1 }, HistoryValue { total_duration: 40, total_bytes: 4 }]
    );
    let by_date = h.get_by_date("20240101");
    assert_eq!(by_date.len(), 3);
    assert_eq!(by_date[1], ((8, "yt".to_string()), HistoryValue { total_duration: 30, total_bytes: 3 }));
    assert!(h.get_by_date("19990101").is_empty());
}

#[test]
fn recording_checks_flow_and_totals() {
    let mut h = HistoryAggregator::default();
    let date = "20240101".to_string();
    assert!(!h.can_record_on(&key(1), &flow("yt", 10, 5, 1), &date));
    h.aggregate_on(&key(1), &flow("yt", 0, 1, u64::MAX), date.clone());
    assert!(!h.can_record_on(&key(1), &flow("yt", 0, 1, 1), &date));
    assert!(h.can_record_on(&key(1), &flow("yt", 0, 1, 0), &date));
    assert!(h.can_record_on(&key(2), &flow("yt", 0, 1, 1), &date));
}

#[test]
fn aggregation_under_todays_date() {
    let mut h = HistoryAggregator::new();
    assert!(aggregate_flow(&mut h, &key(1), &flow("yt", 10, 15, 9)));
    assert!(h.aggregate(&key(1), &flow("yt", 10, 15, 9)));
    let all = h.get_summary();
    assert_eq!(all[0].0.date.len(), 8);
    assert!(all[0].0.date.chars().all(|c| c.is_ascii_digit()));
    assert_eq!(all.iter().map(|e| e.1.total_bytes).sum::<u64>(), 18);
    assert_eq!(all.iter().map(|e| e.1.total_duration).sum::<u64>(), 10);
    assert!(!h.aggregate(&key(3), &flow("yt", 20, 15, 9)));
}

#[test]
fn record_on_answers_whether_it_recorded() {
    let mut h = HistoryAggregator::new();
    let date = "20240102".to_string();
    assert!(h.record_on(&key(1), &flow("yt", 10, 15, 9), date.clone()));
    assert!(!h.record_on(&key(1), &flow("yt", 15, 10, 9), date.clone()));
    assert!(h.record_on(&key(1), &flow("yt", 0, 5, 1), date.clone()));
    let all = h.get_summary();
    assert_eq!(all.len(), 1);
    assert_eq!((all[0].1.total_duration, all[0].1.total_bytes), (10, 10));
    assert_eq!(all[0].0.date, "20240102");
}

#[test]
fn same_day_recordings_commute() {
    let date = "20240105".to_string();
    let mut first = HistoryAggregator::new();
    first.record_on(&key(1), &flow("yt", 0, 4, 10), date.clone());
    first.record_on(&key(1), &flow("yt", 5, 7, 3), date.clone());
    first.record_on(&key(2), &flow("tt", 1, 2, 1), date.clone());
    let mut second = HistoryAggregator::new();
    second.record_on(&key(2), &flow("tt", 1, 2, 1), date.clone());
    second.record_on(&key(1), &flow("yt", 5, 7, 3), date.clone());
    second.record_on(&key(1), &flow("yt", 0, 4, 10), date.clone());
    let mut a: Vec<(u32, String, u64, u64)> =
        first.get_summary().into_iter().map(|(k, v)| (k.src_ip, k.app_id, v.total_duration, v.total_bytes)).collect();
    let mut b: Vec<(u32, String, u64, u64)> =
        second.get_summary().into_iter().map(|(k, v)| (k.src_ip, k.app_id, v.total_duration, v.total_bytes)).collect();
    a.sort();
    b.sort();
    assert_eq!(a, b);
    assert_eq!(a[0].2, 6);
}
