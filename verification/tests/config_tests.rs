use relay::config_reader::{parse_config, ConfigError, RelayKeys};
use relay::server_config::ServerConfig;
use relay::server_config_json;
use relay::server_config_manager::ServerConfigManager;

#[test]
fn parse_config_reads_keys() {
    let keys = match parse_config("{\"alpha.com\": \"KEY1\", \"beta.org\": \"KEY2\"}") {
        Ok(k) => k,
        Err(_) => panic!("valid configuration refused"),
    };
    assert_eq!(keys.get("alpha.com").map(|s| s.as_str()), Some("KEY1"));
    assert_eq!(keys.get("beta.org").map(|s| s.as_str()), Some("KEY2"));
    assert!(keys.contains_key("alpha.com"));
    assert!(!keys.contains_key("gamma.net"));
    assert_eq!(keys.get("gamma.net"), None);
}

#[test]
fn parse_config_duplicate_key_keeps_last() {
    let keys = match parse_config("{\"a.com\": \"first\", \"a.com\": \"second\"}") {
        Ok(k) => k,
        Err(_) => panic!("valid configuration refused"),
    };
    assert_eq!(keys.get("a.com").map(|s| s.as_str()), Some("second"));
}

#[test]
fn parse_config_rejects_bad_json() {
    assert!(matches!(parse_config("not json"), Err(ConfigError::InvalidJson(_))));
    assert!(matches!(parse_config("{\"a\": 1}"), Err(ConfigError::InvalidJson(_))));
    assert!(matches!(parse_config("[\"a\"]"), Err(ConfigError::InvalidJson(_))));
    match parse_config("{\"a\": 1}") {
        Err(ConfigError::InvalidJson(e)) => assert!(e.is_data() && e.line() == 1),
        Ok(_) => panic!("a number value was accepted"),
    }
}

#[test]
fn relay_keys_insert_replaces() {
    let mut keys = RelayKeys::new();
    assert!(!keys.contains_key("x.com"));
    keys.insert("x.com".to_string(), "k1".to_string());
    keys.insert("y.com".to_string(), "k2".to_string());
    keys.insert("x.com".to_string(), "k3".to_string());
    assert_eq!(keys.get("x.com").map(|s| s.as_str()), Some("k3"));
    assert_eq!(keys.get("y.com").map(|s| s.as_str()), Some("k2"));
}

#[test]
fn server_config_accessors() {
    let mut c = ServerConfig::new("srv.com".to_string(), "KEY".to_string());
    assert_eq!(c.get_server_name(), "srv.com");
    assert_eq!(c.get_base64_key_aes(), "KEY");
    assert!(!c.is_connected());
    c.set_is_connected(true);
    assert!(c.is_connected());
    c.set_is_connected(false);
    assert!(!c.is_connected());
}

#[test]
fn json_server_config_accessors() {
    let c = server_config_json::ServerConfig::new("srv.com".to_string(), "KEY".to_string());
    assert_eq!(c.get_server_name(), "srv.com");
    assert_eq!(c.get_base64_key_aes(), "KEY");
}

fn manager() -> ServerConfigManager {
    ServerConfigManager::new(vec![
        ("a.com".to_string(), ServerConfig::new("a.com".to_string(), "KEYA".to_string())),
        ("b.com".to_string(), ServerConfig::new("b.com".to_string(), String::new())),
    ])
}

#[test]
fn manager_validates_known_server_with_key() {
    let mut m = manager();
    assert!(!m.get_server_config("a.com").unwrap().is_connected());
    assert!(m.server_is_valid("a.com"));
    let c = m.get_server_config("a.com").unwrap();
    assert!(c.is_connected());
    assert_eq!(c.get_base64_key_aes(), "KEYA");
    assert!(!m.get_server_config("b.com").unwrap().is_connected());
}

#[test]
fn manager_refuses_empty_key_and_unknown_server() {
    let mut m = manager();
    assert!(!m.server_is_valid("b.com"));
    assert!(!m.get_server_config("b.com").unwrap().is_connected());
    assert!(!m.server_is_valid("c.com"));
    assert!(m.get_server_config("c.com").is_none());
}

#[test]
fn manager_keeps_last_duplicate() {
    let m = ServerConfigManager::new(vec![
        ("a.com".to_string(), ServerConfig::new("first".to_string(), "K1".to_string())),
        ("a.com".to_string(), ServerConfig::new("second".to_string(), "K2".to_string())),
    ]);
    assert_eq!(m.get_server_config("a.com").unwrap().get_server_name(), "second");
}
