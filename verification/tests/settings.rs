use netguard::config::{parse_u16_chars, Config};
use netguard::nftables_counter::NftCounterReader;
use netguard::nft_setup::{cleanup_command, nft_outcome, setup_commands, setup_step, split_words};

#[test]
fn config_reads_trimmed_uci_values() {
    let c = Config::from_uci_outputs(Some(b"1\n"), Some(b"  /data/netguard.db \n"), Some(b"42\n"));
    assert!(c.enabled);
    assert_eq!(c.db_path, "/data/netguard.db");
    assert_eq!(c.nflog_group, 42);
    assert_eq!((c.refresh_interval, c.max_connections, c.dns_cache_ttl), (3, 5000, 300));
}

#[test]
fn config_defaults_when_commands_fail() {
    let c = Config::from_uci_outputs(None, None, None);
    assert!(c.enabled);
    assert_eq!(c.db_path, "/tmp/netguard.db");
    assert_eq!(c.nflog_group, 100);
}

#[test]
fn config_with_empty_or_bad_output() {
    let c = Config::from_uci_outputs(Some(b""), Some(b"\n"), Some(b"seventy"));
    assert!(!c.enabled);
    assert_eq!(c.db_path, "");
    assert_eq!(c.nflog_group, 100);
    let c = Config::from_uci_outputs(Some(b"0\n"), None, Some(b"70000\n"));
    assert!(!c.enabled);
    assert_eq!(c.nflog_group, 100);
    let c = Config::from_uci_outputs(Some(b"\t1\r\n"), None, Some(b"+7"));
    assert!(c.enabled);
    assert_eq!(c.nflog_group, 7);
}

#[test]
fn u16_parsing_follows_std() {
    for text in ["0", "65535", "+12", "007", "", "+", "-1", "65536", "1 2", "abc", "99999999999"] {
        let chars: Vec<char> = text.chars().collect();
        assert_eq!(parse_u16_chars(&chars), text.parse::<u16>().ok(), "{}", text);
    }
}

#[test]
fn config_lists_no_options() {
    assert!(Config::get_all().is_empty());
}

#[test]
fn nft_commands_in_order() {
    let cmds = setup_commands();
    assert_eq!(cmds.len(), 4);
    assert_eq!(cmds[0], "add table inet netguard");
    assert_eq!(cmds[3], "add rule inet netguard output tcp counter nflog group 100");
    assert_eq!(cleanup_command(), "delete table inet netguard");
}

#[test]
fn command_lines_split_into_words() {
    assert_eq!(
        split_words("add chain inet netguard input { type filter; }"),
        vec!["add", "chain", "inet", "netguard", "input", "{", "type", "filter;", "}"]
    );
    assert_eq!(split_words("  a\t b\n"), vec!["a", "b"]);
    assert!(split_words("   ").is_empty());
    for text in ["x", " x y  z ", "\u{3000}a\u{3000}b"] {
        assert_eq!(split_words(text), text.split_whitespace().collect::<Vec<_>>());
    }
}

#[test]
fn nft_failures_that_are_harmless() {
    assert_eq!(nft_outcome(true, b"anything"), Ok(()));
    assert_eq!(nft_outcome(false, b"Error: Could not process rule: File exists"), Ok(()));
    assert_eq!(nft_outcome(false, b"Error: No such file or directory; did you mean table"), Ok(()));
    assert_eq!(nft_outcome(false, b"Error: syntax"), Err("nft command failed: Error: syntax".to_string()));
    assert_eq!(nft_outcome(false, b""), Err("nft command failed: ".to_string()));
}

#[test]
fn counters_are_read_from_the_listing() {
    let reader = NftCounterReader::new();
    let listing = b"table inet netguard {\n\tchain output {\n\t\ttype filter hook output priority filter; policy accept;\n\t\ttcp counter packets 12 bytes 3456 log group 100\r\n\t\tcounter packets 0 bytes 0\n\t\tudp counter packets x bytes 1\n\t}\n}\nip daddr 1.2.3.4 counter packets 18446744073709551615 bytes 7";
    let counters = reader.counters_from_listing(Some(listing));
    assert_eq!(counters.len(), 3);
    assert_eq!((counters[0].handle.as_str(), counters[0].packets, counters[0].bytes), ("tcp", 12, 3456));
    assert_eq!((counters[1].handle.as_str(), counters[1].packets, counters[1].bytes), ("", 0, 0));
    assert_eq!(
        (counters[2].handle.as_str(), counters[2].packets, counters[2].bytes),
        ("ip daddr 1.2.3.4", u64::MAX, 7)
    );
    assert!(reader.counters_from_listing(Some(b"counter packets 18446744073709551616 bytes 1")).is_empty());
    assert!(reader.counters_from_listing(Some(b"counter packets 1 bytes")).is_empty());
    assert!(NftCounterReader::default().counters_from_listing(None).is_empty());
}

#[test]
fn setup_runs_commands_in_order_and_stops_at_first_failure() {
    let commands = setup_commands();
    let mut outcomes: Vec<Result<(), String>> = Vec::new();
    for cmd in &commands {
        assert_eq!(setup_step(&outcomes), Ok(Some(cmd.clone())));
        outcomes.push(Ok(()));
    }
    assert_eq!(setup_step(&outcomes), Ok(None));
    let failed = vec![Ok(()), Err("nft command failed: boom".to_string())];
    assert_eq!(setup_step(&failed), Err("nft command failed: boom".to_string()));
    let twice = vec![Err("first".to_string()), Err("second".to_string())];
    assert_eq!(setup_step(&twice), Err("first".to_string()));
}
