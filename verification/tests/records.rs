use netguard::persistence::history_row;
use netguard::types::{FlowKey, FlowValue, HistoryKey, HistoryValue};

#[test]
fn flow_key_renders_addresses() {
    let key = FlowKey::new(0xC0A80102, 0x08080808, 51000, 443, 6);
    assert_eq!(key.src_ip_str(), "192.168.1.2");
    assert_eq!(key.dst_ip_str(), "8.8.8.8");
    assert_eq!(key.flow_id(), "192.168.1.2:51000->8.8.8.8:443");
    assert_eq!(FlowKey::new(0, 0xFFFFFFFF, 0, 65535, 17).flow_id(), "0.0.0.0:0->255.255.255.255:65535");
}

#[test]
fn flow_key_default_is_tcp() {
    let key = FlowKey::default();
    assert_eq!(key, FlowKey::new(0, 0, 0, 0, 6));
}

#[test]
fn flow_value_duplicate_is_equal() {
    let v = FlowValue {
        app_id: "a".to_string(),
        app_name: "A".to_string(),
        sni: Some("x".to_string()),
        domain: None,
        start_time: 1,
        last_active: 2,
        bytes_counter: 3,
        packets: 4,
    };
    let d = v.duplicate();
    assert_eq!(format!("{:?}", v), format!("{:?}", d));
}

#[test]
fn history_keys_compare_by_fields() {
    let a = HistoryKey { src_ip: 1, app_id: "x".to_string(), date: "20240101".to_string() };
    assert!(a == a.duplicate());
    let b = HistoryKey { src_ip: 1, app_id: "x".to_string(), date: "20240102".to_string() };
    assert!(a != b);
}

#[test]
fn history_row_formats_entry() {
    let key = HistoryKey { src_ip: 3232235778, app_id: "yt".to_string(), date: "20240101".to_string() };
    let value = HistoryValue { total_duration: 30, total_bytes: u64::MAX };
    assert_eq!(
        history_row(&key, &value),
        ("3232235778".to_string(), "yt".to_string(), "20240101".to_string(), 30, -1, 0)
    );
}

#[test]
fn flow_id_tells_four_tuples_apart() {
    let a = FlowKey::new(0x0a000001, 0x01020304, 1234, 443, 6);
    let b = FlowKey::new(0x0a000001, 0x01020304, 1234, 443, 17);
    assert_eq!(a.flow_id(), b.flow_id());
    let c = FlowKey::new(0x0a000001, 0x01020304, 12, 3443, 6);
    assert_ne!(a.flow_id(), c.flow_id());
    let d = FlowKey::new(0x0a000001, 0x01020304, 123, 4443, 6);
    assert_ne!(a.flow_id(), d.flow_id());
    assert_eq!(a.flow_id(), "10.0.0.1:1234->1.2.3.4:443");
}
