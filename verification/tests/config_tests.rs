use rclippy::addr::{parse_socket_addr, SocketAddress};
use rclippy::config::{Config, ConfigError, ConfigStore};
use std::path::PathBuf;

#[test]
fn default_config_validates() {
    Config::default().validate().unwrap();
}

#[test]
fn rejects_bad_peer_addr() {
    let config = Config {
        peer_addr: "nope".to_owned(),
        ..Config::default()
    };

    assert!(config.validate().is_err());
}

#[test]
fn each_rule_has_its_error() {
    let bad_listen = Config { listen_addr: "0.0.0.0".to_owned(), ..Config::default() };
    assert_eq!(bad_listen.validate(), Err(ConfigError::BadListenAddr));
    assert_eq!(ConfigError::BadListenAddr.message(), "listen_addr must be a valid ip:port");

    let bad_peer = Config { peer_addr: "host:1".to_owned(), ..Config::default() };
    assert_eq!(bad_peer.validate(), Err(ConfigError::BadPeerAddr));
    assert_eq!(ConfigError::BadPeerAddr.message(), "peer_addr must be empty or a valid ip:port");

    let fast = Config { poll_ms: 99, ..Config::default() };
    assert_eq!(fast.validate(), Err(ConfigError::PollTooShort));
    assert_eq!(ConfigError::PollTooShort.message(), "poll_ms must be at least 100");

    let zero = Config { max_text_bytes: 0, ..Config::default() };
    assert_eq!(zero.validate(), Err(ConfigError::ZeroMaxTextBytes));
    assert_eq!(
        ConfigError::ZeroMaxTextBytes.message(),
        "max_text_bytes must be greater than zero"
    );
}

#[test]
fn rules_are_checked_in_order() {
    let config = Config {
        listen_addr: "x".to_owned(),
        peer_addr: "y".to_owned(),
        poll_ms: 1,
        max_text_bytes: 0,
        ..Config::default()
    };
    assert_eq!(config.validate(), Err(ConfigError::BadListenAddr));
}

#[test]
fn blank_peer_addr_is_no_peer() {
    let config = Config { peer_addr: " \t ".to_owned(), ..Config::default() };
    assert!(config.validate().is_ok());
    assert!(!config.has_peer_addr());
    let config = Config { peer_addr: "127.0.0.1:38766".to_owned(), ..Config::default() };
    assert!(config.validate().is_ok());
    assert!(config.has_peer_addr());
}

#[test]
fn defaults_and_poll_interval() {
    let config = Config::default();
    assert_eq!(config.listen_addr, "0.0.0.0:38765");
    assert_eq!(config.peer_addr, "");
    assert!(!config.start_on_login);
    assert_eq!(config.poll_ms, 500);
    assert_eq!(config.max_text_bytes, 1_048_576);
    assert_eq!(config.poll_interval(), std::time::Duration::from_millis(500));
    assert_eq!(
        config.listen_socket_addr(),
        Some(SocketAddress::V4 { octets: [0, 0, 0, 0], port: 38765 })
    );
    assert_eq!(config.peer_socket_addr(), None);
}

#[test]
fn store_keeps_its_path() {
    let store = ConfigStore::at(PathBuf::from("/tmp/rclippy/config.toml"));
    assert_eq!(store.path(), &PathBuf::from("/tmp/rclippy/config.toml"));
}

#[test]
fn parses_ipv4_socket_addresses() {
    assert_eq!(
        parse_socket_addr("127.0.0.1:38766"),
        Some(SocketAddress::V4 { octets: [127, 0, 0, 1], port: 38766 })
    );
    assert_eq!(
        parse_socket_addr("255.255.255.255:65535"),
        Some(SocketAddress::V4 { octets: [255, 255, 255, 255], port: 65535 })
    );
    assert_eq!(
        parse_socket_addr("1.2.3.4:007"),
        Some(SocketAddress::V4 { octets: [1, 2, 3, 4], port: 7 })
    );
    for bad in [
        "", "1.2.3.4", "1.2.3:80", "1.2.3.4:", "1.2.3.4:65536", "256.1.1.1:1", "01.2.3.4:1",
        "1.2.3.4:80 ", " 1.2.3.4:80", "1.2.3.4.5:80", "a.b.c.d:1", "1.2.3.4:-1", "1234.1.1.1:1",
    ] {
        assert_eq!(parse_socket_addr(bad), None, "{bad}");
    }
}

#[test]
fn parses_ipv6_socket_addresses() {
    assert_eq!(
        parse_socket_addr("[::1]:8080"),
        Some(SocketAddress::V6 { segments: [0, 0, 0, 0, 0, 0, 0, 1], scope_id: 0, port: 8080 })
    );
    assert_eq!(
        parse_socket_addr("[fe80::1%3]:1"),
        Some(SocketAddress::V6 { segments: [0xfe80, 0, 0, 0, 0, 0, 0, 1], scope_id: 3, port: 1 })
    );
    assert_eq!(
        parse_socket_addr("[1:2:3:4:5:6:7:8]:9"),
        Some(SocketAddress::V6 { segments: [1, 2, 3, 4, 5, 6, 7, 8], scope_id: 0, port: 9 })
    );
    assert_eq!(
        parse_socket_addr("[::ffff:192.168.0.1]:80"),
        Some(SocketAddress::V6 {
            segments: [0, 0, 0, 0, 0, 0xffff, 0xc0a8, 0x0001],
            scope_id: 0,
            port: 80
        })
    );
    assert_eq!(
        parse_socket_addr("[ABCD::]:1"),
        Some(SocketAddress::V6 { segments: [0xabcd, 0, 0, 0, 0, 0, 0, 0], scope_id: 0, port: 1 })
    );
    for bad in ["[::1]", "::1:80", "[::1:80", "[1:2:3:4:5:6:7:8:9]:1", "[1::2::3]:1", "[:::]:1", "[12345::]:1"] {
        assert_eq!(parse_socket_addr(bad), None, "{bad}");
    }
}
