use hps::config::{HpsConfig, Matcher};

fn table() -> HpsConfig {
    HpsConfig {
        server_addr: "0.0.0.0".to_string(),
        server_port: 80,
        paths: vec![
            Matcher::new(true, "/api".to_string(), "127.0.0.1:9001".to_string()),
            Matcher::new(false, "/".to_string(), "127.0.0.1:9002".to_string()),
        ],
        verbose: false,
        buffer_size: HpsConfig::get_default_bridge_buffer_size(),
    }
}

#[test]
fn default_buffer_size() {
    assert_eq!(HpsConfig::get_default_bridge_buffer_size(), 8192);
}

#[test]
fn prefix_match_is_bytewise_and_case_sensitive() {
    let m = Matcher::new(true, "/api".to_string(), "127.0.0.1:9001".to_string());
    assert!(m.is_match("/api"));
    assert!(m.is_match("/api/users"));
    assert!(m.is_match("/apiary"));
    assert!(!m.is_match("/API/users"));
    assert!(!m.is_match("/ap"));
    assert!(!m.is_match(""));
    assert_eq!(m.server_addr(), "127.0.0.1:9001");
    assert_eq!(m.starts_with(), "/api");
    assert!(m.is_prefix());
}

#[test]
fn routes_to_first_match() {
    let t = table();
    assert_eq!(t.match_path("/api/users").map(|m| m.server_addr()), Some("127.0.0.1:9001"));
    assert_eq!(t.match_path("/other").map(|m| m.server_addr()), Some("127.0.0.1:9002"));
    assert_eq!(t.match_route("/api"), Some(0));
    assert_eq!(t.match_route("/x"), Some(1));
}

#[test]
fn no_match_gives_none() {
    let t = HpsConfig { paths: vec![Matcher::new(true, "/api".to_string(), "a:1".to_string())], ..table() };
    assert!(t.match_path("/other").is_none());
    assert_eq!(t.match_route("/other"), None);
    let empty = HpsConfig { paths: Vec::new(), ..table() };
    assert!(empty.match_path("/api").is_none());
}

#[test]
fn routing_is_repeatable() {
    let t = table();
    let first = t.match_route("/api/v1");
    for _ in 0..5 {
        assert_eq!(t.match_route("/api/v1"), first);
        assert_eq!(t.match_route("/zzz"), Some(1));
    }
    assert_eq!(t.match_path("/api/v1"), t.match_path("/api/v1"));
}
