use netguard::nflog_listener::{group_mask, parse_ip_header, parse_packet};
use netguard::sni_parser::{locate_sni, payload_fits, SniParser};
use netguard::types::FlowKey;

/// Ethernet + IPv4 (20 bytes) + TCP (20 bytes, to port 443) + the given TLS payload.
fn frame(payload: &[u8]) -> Vec<u8> {
    let mut p = vec![0u8; 14];
    p[12] = 0x08;
    let mut ip = vec![0u8; 20];
    ip[0] = 0x45;
    ip[9] = 6;
    ip[12..16].copy_from_slice(&[192, 168, 1, 2]);
    ip[16..20].copy_from_slice(&[10, 0, 0, 1]);
    p.extend_from_slice(&ip);
    let mut tcp = vec![0u8; 20];
    tcp[0..2].copy_from_slice(&[0xc3, 0x50]);
    tcp[2..4].copy_from_slice(&[0x01, 0xbb]);
    tcp[12] = 0x50; // data offset: 5 words
    tcp[13] = 0x18; // flags: ACK, PSH
    p.extend_from_slice(&tcp);
    p.extend_from_slice(payload);
    p
}

/// A TLS record holding a ClientHello (RFC 5246) with the given extensions.
fn hello(extensions: &[u8]) -> Vec<u8> {
    let body_len = 2 + 32 + 1 + 4 + 2 + 2 + extensions.len();
    let record_len = body_len + 4;
    let mut p = vec![0x16, 0x03, 0x01, (record_len >> 8) as u8, record_len as u8];
    p.extend_from_slice(&[0x01, 0x00, (body_len >> 8) as u8, body_len as u8]);
    p.extend_from_slice(&[0x03, 0x03]); // client version
    p.extend_from_slice(&[0x5a; 32]); // random
    p.push(0); // session id length
    p.extend_from_slice(&[0x00, 0x02, 0x13, 0x01]); // cipher suites
    p.extend_from_slice(&[0x01, 0x00]); // compression methods
    p.extend_from_slice(&[(extensions.len() >> 8) as u8, extensions.len() as u8]);
    p.extend_from_slice(extensions);
    p
}

/// A `server_name` extension (RFC 6066) with one host name.
fn sni_extension(name: &[u8]) -> Vec<u8> {
    let mut e = vec![0x00, 0x00];
    let body_len = name.len() + 5;
    e.extend_from_slice(&[(body_len >> 8) as u8, body_len as u8]);
    e.extend_from_slice(&[((name.len() + 3) >> 8) as u8, (name.len() + 3) as u8]);
    e.push(0x00); // name type: host_name
    e.extend_from_slice(&[(name.len() >> 8) as u8, name.len() as u8]);
    e.extend_from_slice(name);
    e
}

#[test]
fn extract_sni_reads_server_name() {
    let packet = frame(&hello(&sni_extension(b"example.com")));
    let parser = SniParser::new();
    assert_eq!(parser.extract_sni(&packet), Some("example.com".to_string()));
}

#[test]
fn locate_sni_gives_position_and_length() {
    let packet = frame(&hello(&sni_extension(b"example.com")));
    // payload starts at 54; the name follows 43 + 1 + 4 + 2 + 2 + 4 + 2 + 1 + 2 bytes
    assert_eq!(locate_sni(&packet), Some((54 + 61, 11)));
}

#[test]
fn extract_sni_skips_other_extensions() {
    let mut ext = vec![0x00, 0x0a, 0x00, 0x02, 0xaa, 0xbb];
    ext.extend_from_slice(&sni_extension(b"a.b"));
    let packet = frame(&hello(&ext));
    assert_eq!(SniParser::new().extract_sni(&packet), Some("a.b".to_string()));
}

#[test]
fn extract_sni_replaces_invalid_utf8() {
    let packet = frame(&hello(&sni_extension(&[b'x', 0xff])));
    assert_eq!(SniParser::new().extract_sni(&packet), Some("x\u{FFFD}".to_string()));
}

#[test]
fn extract_sni_rejects_short_and_foreign_packets() {
    let parser = SniParser::new();
    assert_eq!(parser.extract_sni(&[0u8; 33]), None);
    assert_eq!(parser.extract_sni(&[0u8; 53]), None);
    let mut not_handshake = hello(&sni_extension(b"example.com"));
    not_handshake[0] = 0x17;
    assert_eq!(parser.extract_sni(&frame(&not_handshake)), None);
    let mut old_version = hello(&sni_extension(b"example.com"));
    old_version[2] = 0x00;
    assert_eq!(parser.extract_sni(&frame(&old_version)), None);
    let mut server_hello = hello(&sni_extension(b"example.com"));
    server_hello[5] = 0x02;
    assert_eq!(parser.extract_sni(&frame(&server_hello)), None);
    assert_eq!(parser.extract_sni(&frame(&hello(&[]))), None);
}

#[test]
fn extract_sni_rejects_name_past_extensions() {
    let mut ext = sni_extension(b"example.com");
    ext[8] = 200; // name length beyond the extension block
    assert_eq!(SniParser::new().extract_sni(&frame(&hello(&ext))), None);
}

#[test]
fn extract_sni_rejects_small_tcp_header() {
    let mut packet = frame(&hello(&sni_extension(b"example.com")));
    packet[46] = 0x40;
    assert_eq!(SniParser::new().extract_sni(&packet), None);
}

#[test]
fn payload_fits_checks_stated_header_length() {
    let mut packet = vec![0u8; 60];
    packet[46] = 0xf0; // 60-byte TCP header would need 94 bytes
    assert!(!payload_fits(&packet));
    packet[46] = 0x50;
    assert!(payload_fits(&packet));
    assert!(payload_fits(&[0u8; 10]));
}

#[test]
fn is_tls_client_hello_checks_port_and_record_type() {
    let parser = SniParser::new();
    let packet = frame(&hello(&sni_extension(b"example.com")));
    assert!(parser.is_tls_client_hello(&packet));
    let mut application_data = packet.clone();
    application_data[54] = 0x17;
    assert!(!parser.is_tls_client_hello(&application_data));
    let mut other_port = packet.clone();
    other_port[37] = 80;
    assert!(!parser.is_tls_client_hello(&other_port));
    let mut short_to_port_80 = packet[..55].to_vec();
    short_to_port_80[37] = 80;
    short_to_port_80[47] = 0x16;
    assert!(!parser.is_tls_client_hello(&short_to_port_80));
    assert!(!parser.is_tls_client_hello(&[0x16u8; 49]));
    assert!(!parser.is_tls_client_hello(&packet[..54]));
}

#[test]
fn should_parse_allows_first_ten_packets_per_flow() {
    let mut parser = SniParser::new();
    for _ in 0..10 {
        assert!(parser.should_parse("a"));
    }
    assert!(!parser.should_parse("a"));
    assert!(!parser.should_parse("a"));
    assert!(parser.should_parse("b"));
    parser.reset();
    assert!(parser.should_parse("a"));
}

#[test]
fn parse_ip_header_reads_addresses_and_ports() {
    let packet = frame(&[]);
    let header = &packet[14..];
    assert_eq!(
        parse_ip_header(header),
        Some((u32::from_be_bytes([192, 168, 1, 2]), u32::from_be_bytes([10, 0, 0, 1]), 6, 50000, 443))
    );
}

#[test]
fn parse_ip_header_rejects_bad_headers() {
    let packet = frame(&[]);
    let mut v6 = packet[14..].to_vec();
    v6[0] = 0x65;
    assert_eq!(parse_ip_header(&v6), None);
    let mut short_ihl = packet[14..].to_vec();
    short_ihl[0] = 0x44;
    assert_eq!(parse_ip_header(&short_ihl), None);
    assert_eq!(parse_ip_header(&packet[14..30]), None);
    let mut long_ihl = packet[14..34].to_vec();
    long_ihl[0] = 0x46;
    assert_eq!(parse_ip_header(&long_ihl), None);
}

#[test]
fn parse_ip_header_without_ports_gives_zero_ports() {
    let packet = frame(&[]);
    let header = &packet[14..36];
    assert_eq!(
        parse_ip_header(header),
        Some((u32::from_be_bytes([192, 168, 1, 2]), u32::from_be_bytes([10, 0, 0, 1]), 6, 0, 0))
    );
}

#[test]
fn parse_packet_builds_flow_key() {
    let packet = frame(&[]);
    let (key, sni) = parse_packet(&packet).unwrap();
    assert_eq!(
        key,
        FlowKey::new(u32::from_be_bytes([192, 168, 1, 2]), u32::from_be_bytes([10, 0, 0, 1]), 50000, 443, 6)
    );
    assert_eq!(sni, None);
    assert!(parse_packet(&packet[..33]).is_none());
}

/// Ethernet, IPv4, TCP (flags ACK|PSH) to port 443 and a ClientHello naming `a`.
fn reviewed_hello() -> Vec<u8> {
    let mut p = vec![0u8; 12];
    p.extend_from_slice(&[0x08, 0x00, 0x45, 0x00, 0x00, 0x66]);
    p.extend_from_slice(&[0u8; 5]);
    p.push(0x06);
    p.extend_from_slice(&[0u8; 12]);
    p.extend_from_slice(&[0x01, 0xbb]);
    p.extend_from_slice(&[0u8; 8]);
    p.extend_from_slice(&[0x50, 0x18]);
    p.extend_from_slice(&[0u8; 6]);
    p.extend_from_slice(&[0x16, 0x03, 0x01, 0x00, 0x39, 0x01, 0x00, 0x00, 0x35, 0x03, 0x03]);
    p.extend_from_slice(&[0u8; 32]);
    p.extend_from_slice(&[
        0x00, 0x00, 0x02, 0x00, 0x2f, 0x01, 0x00, 0x00, 0x0a, 0x00, 0x00, 0x00, 0x06, 0x00, 0x04,
        0x00, 0x00, 0x01, 0x61,
    ]);
    p
}

#[test]
fn client_hello_with_flags_and_random_gives_its_name() {
    let packet = reviewed_hello();
    let parser = SniParser::new();
    assert_eq!(parser.extract_sni(&packet), Some("a".to_string()));
    assert!(parser.is_tls_client_hello(&packet));
}

#[test]
fn session_id_is_skipped() {
    let mut tls = hello(&sni_extension(b"example.org"));
    tls[43] = 3;
    tls.splice(44..44, [1u8, 2, 3]);
    let packet = frame(&tls);
    assert_eq!(SniParser::new().extract_sni(&packet), Some("example.org".to_string()));
}

#[test]
fn budget_is_per_flow_when_calls_interleave() {
    let mut parser = SniParser::new();
    for round in 0..12 {
        assert_eq!(parser.should_parse("a"), round < 10);
        assert_eq!(parser.should_parse("b"), round < 10);
        if round % 2 == 0 {
            assert_eq!(parser.should_parse("c"), round / 2 < 10);
        }
    }
}

#[test]
fn group_mask_sets_the_group_bit() {
    assert_eq!(group_mask(1), Some(1));
    assert_eq!(group_mask(5), Some(16));
    assert_eq!(group_mask(32), Some(0x8000_0000));
    assert_eq!(group_mask(0), None);
    assert_eq!(group_mask(33), None);
    assert_eq!(group_mask(100), None);
}

#[test]
fn addresses_are_read_in_network_order() {
    let mut packet = vec![0x45];
    packet.extend_from_slice(&[0u8; 11]);
    packet.extend_from_slice(&[192, 168, 1, 10]);
    packet.extend_from_slice(&[10, 0, 0, 1]);
    assert_eq!(parse_ip_header(&packet), Some((0xC0A8010A, 0x0A000001, 0, 0, 0)));
    let (src, dst, _, _, _) = parse_ip_header(&packet).unwrap();
    let key = FlowKey::new(src, dst, 0, 0, 6);
    assert_eq!(key.src_ip_str(), "192.168.1.10");
    assert_eq!(key.dst_ip_str(), "10.0.0.1");
}
