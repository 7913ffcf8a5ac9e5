use netguard::api_server::{
    connection_rows, dashboard_stats, general_stats, history_rows, route_request, total_bytes,
    check_durations, unknown_endpoint_reply, ApiRoute,
};
use netguard::app_identifier::{AppIdentifier, AppSignature};
use netguard::flow_tracker::FlowTracker;
use netguard::history_aggregator::HistoryAggregator;
use netguard::monitor::{
    classify_packet, persist_decision, record_packet, remaining_sleep_millis, retire_expired_flows,
    retire_expired_flows_at,
};
use netguard::sni_parser::SniParser;
use netguard::types::{FlowKey, HistoryValue};

fn key(n: u32) -> FlowKey {
    FlowKey::new(n, 0x0A000001, 1000, 443, 6)
}

#[test]
fn requests_route_by_prefix() {
    assert_eq!(route_request("GET /api/dashboard HTTP/1.1"), ApiRoute::Dashboard);
    assert_eq!(route_request("  \nGET /api/connections?x=1"), ApiRoute::Connections);
    assert_eq!(route_request("GET /api/history"), ApiRoute::History);
    assert_eq!(route_request("GET /api/stats\r\n"), ApiRoute::Stats);
    assert_eq!(route_request("POST /api/stats"), ApiRoute::Unknown);
    assert_eq!(route_request(""), ApiRoute::Unknown);
    assert_eq!(unknown_endpoint_reply(), r#"{"error": "unknown endpoint"}"#);
}

#[test]
fn dashboard_halves_total_bytes() {
    let mut t = FlowTracker::new();
    t.update_flow_at(key(1), "a".to_string(), "A".to_string(), None, 101, 1, 10);
    t.update_flow_at(key(2), "b".to_string(), "B".to_string(), None, 200, 1, 12);
    let flows = t.get_all_flows();
    assert_eq!(total_bytes(&flows), Some(301));
    let d = dashboard_stats(&flows);
    assert_eq!(d.total_connections, 2);
    assert_eq!(d.memory_usage, "45MB / 128MB");
    assert_eq!((d.upload_speed, d.download_speed, d.upload_total, d.download_total), (0, 0, 150, 150));
    assert_eq!(general_stats(&flows), (2, 2));
}

#[test]
fn total_bytes_overflow_is_reported() {
    let mut t = FlowTracker::new();
    t.update_flow_at(key(1), "a".to_string(), "A".to_string(), None, u64::MAX, 1, 10);
    t.update_flow_at(key(2), "b".to_string(), "B".to_string(), None, 1, 1, 12);
    assert_eq!(total_bytes(&t.get_all_flows()), None);
}

#[test]
fn connection_rows_list_each_flow() {
    let mut t = FlowTracker::new();
    t.update_flow_at(key(3232235778), "a".to_string(), "App".to_string(), None, 5, 1, 10);
    t.update_flow_at(key(3232235778), "a".to_string(), "App".to_string(), None, 5, 1, 25);
    let flows = t.get_all_flows();
    assert!(check_durations(&flows));
    let rows = connection_rows(&flows);
    assert_eq!(rows.len(), 1);
    assert_eq!(rows[0].src_ip, "3232235778");
    assert_eq!(rows[0].dst_ip, "167772161");
    assert_eq!((rows[0].dst_port, rows[0].bytes, rows[0].duration), (443, 10, 15));
    assert_eq!(rows[0].app_name, "App");
}

#[test]
fn history_rows_list_each_entry() {
    let mut h = HistoryAggregator::new();
    let mut t = FlowTracker::new();
    t.update_flow_at(key(9), "a".to_string(), "A".to_string(), None, 5, 1, 10);
    let v = t.get_flow(&key(9)).unwrap();
    h.aggregate_on(&key(9), &v, "20240101".to_string());
    let rows = history_rows(&h.get_summary());
    assert_eq!(rows, vec![("9".to_string(), "a".to_string(), 0, 5)]);
}

fn client_hello_frame(name: &[u8]) -> Vec<u8> {
    let mut p = vec![0u8; 14];
    let mut ip = vec![0u8; 20];
    ip[0] = 0x45;
    ip[9] = 6;
    ip[12..16].copy_from_slice(&[192, 168, 1, 2]);
    ip[16..20].copy_from_slice(&[1, 1, 1, 1]);
    p.extend_from_slice(&ip);
    let mut tcp = vec![0u8; 20];
    tcp[0..2].copy_from_slice(&[0x9c, 0x40]);
    tcp[2..4].copy_from_slice(&[0x01, 0xbb]);
    tcp[12] = 0x50;
    tcp[13] = 0x18;
    p.extend_from_slice(&tcp);
    let mut ext = vec![0x00, 0x00, 0x00, (name.len() + 5) as u8, 0x00, (name.len() + 3) as u8, 0x00, 0x00, name.len() as u8];
    ext.extend_from_slice(name);
    let mut hello = vec![0x16, 0x03, 0x01, 0x00, 0x00, 0x01, 0x00, 0x00, 0x00, 0x03, 0x03];
    hello.extend_from_slice(&[0u8; 32]);
    hello.extend_from_slice(&[0x00, 0x00, 0x02, 0x13, 0x01, 0x01, 0x00]);
    hello.extend_from_slice(&[0x00, ext.len() as u8]);
    hello.extend_from_slice(&ext);
    p.extend_from_slice(&hello);
    p
}

#[test]
fn packets_are_counted_under_their_app() {
    let identifier = AppIdentifier::new(vec![AppSignature {
        id: "cf".to_string(),
        name: "Cloudflare".to_string(),
        sni_patterns: vec!["one.one.one.one".to_string()],
        dns_patterns: vec![],
        app_signature: None,
    }]);
    let parser = SniParser::new();
    let mut t = FlowTracker::new();
    let packet = client_hello_frame(b"one.one.one.one");
    assert_eq!(parser.extract_sni(&packet), Some("one.one.one.one".to_string()));
    let (k, id, name, sni) = classify_packet(&identifier, &parser, &packet).unwrap();
    assert_eq!((id.as_str(), name.as_str(), sni.as_deref()), ("cf", "Cloudflare", Some("one.one.one.one")));
    assert!(record_packet(&mut t, &identifier, &parser, &packet));
    assert!(record_packet(&mut t, &identifier, &parser, &packet));
    let v = t.get_flow(&k).unwrap();
    assert_eq!((v.app_id.as_str(), v.packets, v.bytes_counter), ("cf", 2, 0));
    let other = client_hello_frame(b"example.org");
    let (_, id, name, sni) = classify_packet(&identifier, &parser, &other).unwrap();
    assert_eq!((id.as_str(), name.as_str(), sni), ("unknown", "未知", None));
    assert!(!record_packet(&mut t, &identifier, &parser, &other[..20]));
}

#[test]
fn idle_flows_move_into_history() {
    let mut t = FlowTracker::new();
    let mut h = HistoryAggregator::new();
    t.update_flow_at(key(1), "a".to_string(), "A".to_string(), None, 40, 1, 100);
    t.update_flow_at(key(1), "a".to_string(), "A".to_string(), None, 2, 1, 130);
    t.update_flow_at(key(2), "b".to_string(), "B".to_string(), None, 5, 1, 1);
    let retired = retire_expired_flows(&mut t, &mut h, 60);
    assert_eq!(retired.len(), 2);
    assert!(t.get_all_flows().is_empty());
    let summary = h.get_summary();
    assert_eq!(summary.len(), 2);
    assert_eq!(summary[0].1, HistoryValue { total_duration: 30, total_bytes: 42 });
    assert_eq!(summary[1].1, HistoryValue { total_duration: 0, total_bytes: 5 });
}

#[test]
fn retiring_at_a_reading_records_under_the_date() {
    let mut t = FlowTracker::new();
    let mut h = HistoryAggregator::new();
    t.update_flow_at(key(1), "a".to_string(), "A".to_string(), None, 40, 1, 100);
    t.update_flow_at(key(2), "b".to_string(), "B".to_string(), None, 5, 1, 190);
    let retired = retire_expired_flows_at(&mut t, &mut h, 60, 200, &"20240301".to_string());
    assert_eq!(retired.len(), 1);
    assert_eq!(retired[0].0, key(1));
    assert_eq!(t.get_all_flows().len(), 1);
    let summary = h.get_summary();
    assert_eq!(summary.len(), 1);
    assert_eq!(summary[0].0.date, "20240301");
    assert_eq!(summary[0].1, HistoryValue { total_duration: 0, total_bytes: 40 });
}

#[test]
fn persisting_waits_for_a_full_interval_and_data() {
    assert_eq!(persist_decision(59, 3), (false, false));
    assert_eq!(persist_decision(60, 3), (true, true));
    assert_eq!(persist_decision(61, 0), (true, false));
    assert_eq!(remaining_sleep_millis(2500, 10000), 7500);
    assert_eq!(remaining_sleep_millis(10000, 10000), 0);
    assert_eq!(remaining_sleep_millis(12000, 10000), 0);
}
