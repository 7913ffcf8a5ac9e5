use netguard::app_identifier::{get_app_id_from_sni, identify_app, pattern_to_regex, AppIdentifier, AppSignature};
use netguard::types::FlowKey;

fn sig(id: &str, name: &str, sni: &[&str], dns: &[&str]) -> AppSignature {
    AppSignature {
        id: id.to_string(),
        name: name.to_string(),
        sni_patterns: sni.iter().map(|s| s.to_string()).collect(),
        dns_patterns: dns.iter().map(|s| s.to_string()).collect(),
        app_signature: None,
    }
}

fn identifier() -> AppIdentifier {
    AppIdentifier::new(vec![
        sig("google", "Google", &["*.google.com"], &["google.com"]),
        sig("youtube", "YouTube", &["youtube.com", "("], &["*.youtube.com"]),
        sig("google", "Google Search", &["*.google.com", "google.com"], &[]),
    ])
}

#[test]
fn patterns_translate_to_anchored_regexes() {
    assert_eq!(pattern_to_regex("*.google.com"), "^\\.*\\.google\\.com$");
    assert_eq!(pattern_to_regex("youtube.com"), "^youtube\\.com$");
    assert_eq!(pattern_to_regex(""), "^$");
}

#[test]
fn later_signature_with_same_id_wins() {
    let apps = identifier().get_all_apps();
    assert_eq!(
        apps,
        vec![
            ("youtube".to_string(), "YouTube".to_string()),
            ("google".to_string(), "Google Search".to_string()),
        ]
    );
}

#[test]
fn sni_is_matched_against_whole_name() {
    let id = identifier();
    assert_eq!(id.identify_by_sni("youtube.com"), Some(("youtube".to_string(), "YouTube".to_string())));
    assert_eq!(id.identify_by_sni("xyoutube.com"), None);
    assert_eq!(id.identify_by_sni("youtubexcom"), None);
    assert_eq!(id.identify_by_sni("google.com"), Some(("google".to_string(), "Google Search".to_string())));
    // "*." becomes "\.*\." so a host below the domain does not match
    assert_eq!(id.identify_by_sni("www.google.com"), None);
    assert_eq!(id.identify_by_sni(".google.com"), Some(("google".to_string(), "Google Search".to_string())));
}

#[test]
fn domains_use_dns_patterns() {
    let id = identifier();
    assert_eq!(id.identify_by_domain("..youtube.com"), Some(("youtube".to_string(), "YouTube".to_string())));
    assert_eq!(id.identify_by_domain("google.com"), None);
    assert_eq!(id.identify_by_domain("youtube.com"), None);
}

#[test]
fn unidentified_traffic_is_unknown() {
    let id = identifier();
    let flow = FlowKey::default();
    assert_eq!(identify_app(&id, &flow, None), ("unknown".to_string(), "未知".to_string()));
    assert_eq!(identify_app(&id, &flow, Some("example.org")), ("unknown".to_string(), "未知".to_string()));
    assert_eq!(identify_app(&id, &flow, Some("youtube.com")), ("youtube".to_string(), "YouTube".to_string()));
    assert_eq!(get_app_id_from_sni(&id, "youtube.com"), Some("youtube".to_string()));
    assert_eq!(get_app_id_from_sni(&id, "example.org"), None);
}

#[test]
fn empty_table_identifies_nothing() {
    let id = AppIdentifier::new(Vec::new());
    assert!(id.get_all_apps().is_empty());
    assert_eq!(id.identify_by_sni("youtube.com"), None);
}

#[test]
fn app_of_flow_agrees_with_id_lookup() {
    let id = identifier();
    let flow = FlowKey::default();
    for name in ["www.google.com", "youtube.com", "example.org", "google.com"] {
        let (app_id, app_name) = identify_app(&id, &flow, Some(name));
        match get_app_id_from_sni(&id, name) {
            Some(found) => {
                assert_eq!(app_id, found);
                let expected_name =
                    id.get_all_apps().into_iter().find(|(i, _)| *i == found).map(|(_, n)| n).unwrap();
                assert_eq!(app_name, expected_name);
            }
            None => assert_eq!((app_id.as_str(), app_name.as_str()), ("unknown", "未知")),
        }
    }
}
