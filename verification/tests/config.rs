use torrentfs::config::connections::{check_positive_i32, ConnectionsConfig};
use torrentfs::config::enums::EnumValidator;
use torrentfs::config::proxy::{unknown_type, ProxyConfig};
use torrentfs::config::rate_limits::{check_non_negative_i32, RateLimitsConfig};
use torrentfs::config::timeouts::{TimeoutsConfig, DEFAULT_READ_TIMEOUT_SECS};

type JsonObject = serde_json::Map<String, serde_json::Value>;

fn config(proxy_type: &str) -> ProxyConfig {
    ProxyConfig {
        proxy_type: Some(proxy_type.to_string()),
        ..ProxyConfig::default()
    }
}

#[test]
fn validate_accepts_i2p_proxy_when_enabled() {
    assert!(config("i2p_proxy").validate_with(true).is_ok());
}

#[test]
fn validate_acceptance_matches_linked_libtorrent_capability() {
    for enabled in [true, false] {
        assert_eq!(config("i2p_proxy").validate_with(enabled).is_ok(), enabled);
    }
}

#[test]
fn validate_rejects_i2p_proxy_when_disabled() {
    let err = config("i2p_proxy").validate_with(false).unwrap_err();
    assert!(
        err.contains("I2P") || err.contains("i2p"),
        "unexpected error: {}",
        err
    );
}

#[test]
fn validate_accepts_non_i2p_types_regardless_of_capability() {
    for t in ["socks4", "socks5", "socks5_pw", "http", "http_pw"] {
        assert!(config(t).validate_with(false).is_ok(), "{t}");
        assert!(config(t).validate_with(true).is_ok(), "{t}");
    }
}

#[test]
fn validate_rejects_unknown_type() {
    let err = config("bogus").validate_with(true).unwrap_err();
    assert!(err.contains("bogus"), "unexpected error: {}", err);
}

#[test]
fn validate_accepts_none() {
    assert!(ProxyConfig::default().validate_with(false).is_ok());
    assert!(ProxyConfig::default().validate_with(true).is_ok());
}

#[test]
fn proxy_errors_quote_the_value() {
    assert!(unknown_type("\"x\"").ends_with(", got \"x\""));
    assert_eq!(
        config("a\"b").validate_with(true).unwrap_err(),
        "[proxy] proxy_type must be one of socks4, socks5, socks5_pw, http, http_pw, i2p_proxy, \
         got \"a\\\"b\""
    );
    assert_eq!(
        config("").validate_with(true).unwrap_err(),
        "[proxy] proxy_type must be one of socks4, socks5, socks5_pw, http, http_pw, i2p_proxy, \
         got \"\""
    );
    assert_eq!(
        config("i2p_proxy").validate_with(false).unwrap_err(),
        "i2p_proxy requires a libtorrent build with I2P support (TORRENT_USE_I2P=1); this build \
         has I2P compiled out"
    );
}

#[test]
fn proxy_settings_use_the_engine_names() {
    let c = ProxyConfig {
        host: Some("proxy.example".to_string()),
        port: Some(1080),
        proxy_type: Some("socks5".to_string()),
        proxy_hostnames: Some(true),
        proxy_peer_connections: None,
        proxy_tracker_connections: Some(false),
        anonymous_mode: None,
        force_proxy: None,
    };
    let mut map: JsonObject = serde_json::Map::new();
    c.write_json(&mut map);
    assert_eq!(map.len(), 5);
    assert_eq!(map["proxy_hostname"], "proxy.example");
    assert_eq!(map["proxy_port"], 1080);
    assert_eq!(map["proxy_type"], "socks5");
    assert_eq!(map["proxy_hostnames"], true);
    assert_eq!(map["proxy_tracker_connections"], false);
}

#[test]
fn empty_texts_are_left_out_and_values_replace() {
    let mut map: JsonObject = serde_json::Map::new();
    let c = ProxyConfig {
        host: Some(String::new()),
        ..config("")
    };
    c.write_json(&mut map);
    assert_eq!(map.len(), 0);

    let mut t = TimeoutsConfig::default();
    t.peer_timeout = Some(20);
    t.write_json(&mut map);
    assert_eq!(map["peer_timeout"], 20);
    t.peer_timeout = Some(-30);
    t.write_json(&mut map);
    assert_eq!(map["peer_timeout"], -30);
    assert_eq!(map.len(), 1);
}

#[test]
fn connection_counts_are_positive_and_fit() {
    let mut c = ConnectionsConfig::default();
    assert!(c.validate().is_ok());
    c.max_connections = Some(0);
    assert_eq!(
        c.validate().unwrap_err(),
        "[connections] max_connections must be >= 1, got 0"
    );
    c.max_connections = Some(2_147_483_647);
    c.max_uploads = Some(2_147_483_648);
    assert_eq!(
        c.validate().unwrap_err(),
        "[connections] max_uploads must be <= 2147483647, got 2147483648"
    );
    c.max_uploads = Some(1);
    assert!(c.validate().is_ok());
    assert_eq!(
        check_positive_i32("n", Some(i64::MIN)).unwrap_err(),
        "[connections] n must be >= 1, got -9223372036854775808"
    );
}

#[test]
fn connection_settings_are_written() {
    let c = ConnectionsConfig {
        listen_interfaces: Some("0.0.0.0:6881".to_string()),
        smooth_connects: Some(false),
        peer_connect_timeout: Some(7),
        ..ConnectionsConfig::default()
    };
    let mut map: JsonObject = serde_json::Map::new();
    c.write_json(&mut map);
    assert_eq!(map.len(), 3);
    assert_eq!(map["listen_interfaces"], "0.0.0.0:6881");
    assert_eq!(map["smooth_connects"], false);
    assert_eq!(map["peer_connect_timeout"], 7);
}

#[test]
fn rate_limits_may_be_zero() {
    let mut c = RateLimitsConfig::default();
    c.download_rate_limit = Some(0);
    assert!(c.validate().is_ok());
    c.download_rate_limit = Some(-1);
    assert_eq!(
        c.validate().unwrap_err(),
        "[rate_limits] download_rate_limit must be >= 0, got -1"
    );
    c.download_rate_limit = None;
    c.upload_rate_limit = Some(2_147_483_648);
    assert_eq!(
        c.validate().unwrap_err(),
        "[rate_limits] upload_rate_limit must be <= 2147483647, got 2147483648"
    );
    assert!(check_non_negative_i32("n", None).is_ok());

    c.upload_rate_limit = Some(5);
    c.rate_limit_utp = Some(true);
    let mut map: JsonObject = serde_json::Map::new();
    c.write_json(&mut map);
    assert_eq!(map.len(), 2);
    assert_eq!(map["upload_rate_limit"], 5);
    assert_eq!(map["rate_limit_utp"], true);
}

#[test]
fn read_timeout_falls_back_to_the_default() {
    let mut t = TimeoutsConfig::default();
    assert_eq!(t.resolved_read_timeout_secs(), DEFAULT_READ_TIMEOUT_SECS);
    assert_eq!(t.resolved_read_timeout_secs(), 60);
    t.read_timeout_secs = Some(0);
    assert_eq!(t.resolved_read_timeout_secs(), 60);
    t.read_timeout_secs = Some(-5);
    assert_eq!(t.resolved_read_timeout_secs(), 60);
    t.read_timeout_secs = Some(90);
    assert_eq!(t.resolved_read_timeout_secs(), 90);
}

#[test]
fn enum_settings_keep_to_their_values() {
    assert!(EnumValidator::suggest_mode(None).is_none());
    assert!(EnumValidator::suggest_mode(Some(1)).is_none());
    let e = EnumValidator::suggest_mode(Some(2)).unwrap();
    assert_eq!(
        e.message(),
        "enum value for `algorithms.suggest_mode` out of range: legal values are {0, 1}"
    );
    assert!(EnumValidator::choking_algorithm(Some(3)).is_none());
    let e = EnumValidator::choking_algorithm(Some(1)).unwrap();
    assert_eq!((e.field, e.allowed), ("algorithms.choking_algorithm", "0, 2, 3"));
    assert!(EnumValidator::seed_choking_algorithm(Some(2)).is_none());
    assert!(EnumValidator::seed_choking_algorithm(Some(3)).is_some());
    assert!(EnumValidator::mixed_mode_algorithm(Some(0)).is_none());
    assert!(EnumValidator::mixed_mode_algorithm(Some(-1)).is_some());
    assert!(EnumValidator::encryption_policy(Some(0)).is_none());
    assert!(EnumValidator::encryption_policy(Some(3)).is_some());
    assert!(EnumValidator::allowed_encryption_level(Some(3)).is_none());
    let e = EnumValidator::allowed_encryption_level(Some(0)).unwrap();
    assert_eq!((e.field, e.allowed), ("encryption.allowed_encryption_level", "1, 2, 3"));
}
