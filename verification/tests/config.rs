use revelation_server::config::{Config, DEFAULT_MAX_CONNECTIONS, DEFAULT_PORT};

fn values(
    cookie_name: Option<&str>,
    host: Option<&str>,
    port: Option<&str>,
    max_connections: Option<&str>,
    allowed_origins: Option<&str>,
) -> Config {
    Config::from_values(
        "postgres://localhost/revelation".to_string(),
        "secret".to_string(),
        cookie_name.map(String::from),
        host.map(String::from),
        port.map(String::from),
        max_connections.map(String::from),
        allowed_origins.map(String::from),
    )
}

#[test]
fn socket_addr_formats_correctly() {
    let config = Config {
        database_url: String::new(),
        jwt_secret: String::new(),
        cookie_name: String::new(),
        host: "127.0.0.1".into(),
        port: 8080,
        max_connections: 5,
        allowed_origins: vec![],
    };

    assert_eq!(config.bind_address(), "127.0.0.1:8080");
}

#[test]
fn is_cors_permissive_when_no_origins() {
    let config = Config {
        database_url: String::new(),
        jwt_secret: String::new(),
        cookie_name: String::new(),
        host: String::new(),
        port: 0,
        max_connections: 0,
        allowed_origins: vec![],
    };

    assert!(config.is_cors_permissive());
}

#[test]
fn is_not_cors_permissive_when_origins_set() {
    let config = Config {
        database_url: String::new(),
        jwt_secret: String::new(),
        cookie_name: String::new(),
        host: String::new(),
        port: 0,
        max_connections: 0,
        allowed_origins: vec!["https://example.com".into()],
    };

    assert!(!config.is_cors_permissive());
}

#[test]
fn bind_address_writes_every_port_without_padding() {
    let mut config = values(None, Some("::1"), None, None, None);
    for (port, text) in [(0u16, "::1:0"), (7, "::1:7"), (80, "::1:80"), (65535, "::1:65535")] {
        config.port = port;
        assert_eq!(config.bind_address(), text);
    }
}

#[test]
fn missing_values_take_their_defaults() {
    let config = values(None, None, None, None, None);
    assert_eq!(config.database_url, "postgres://localhost/revelation");
    assert_eq!(config.jwt_secret, "secret");
    assert_eq!(config.cookie_name, "auth_token");
    assert_eq!(config.host, "0.0.0.0");
    assert_eq!(config.port, 3000);
    assert_eq!(config.port, DEFAULT_PORT);
    assert_eq!(config.max_connections, 10);
    assert_eq!(config.max_connections, DEFAULT_MAX_CONNECTIONS);
    assert!(config.allowed_origins.is_empty());
    assert!(config.is_cors_permissive());
}

#[test]
fn given_values_are_taken() {
    let config = values(
        Some("session"),
        Some("127.0.0.1"),
        Some("8080"),
        Some("25"),
        Some("https://a.example,https://b.example"),
    );
    assert_eq!(config.cookie_name, "session");
    assert_eq!(config.host, "127.0.0.1");
    assert_eq!(config.port, 8080);
    assert_eq!(config.max_connections, 25);
    assert_eq!(config.allowed_origins, vec!["https://a.example", "https://b.example"]);
    assert!(!config.is_cors_permissive());
}

#[test]
fn port_accepts_what_an_unsigned_numeral_may_hold() {
    assert_eq!(values(None, None, Some("+8080"), None, None).port, 8080);
    assert_eq!(values(None, None, Some("0008080"), None, None).port, 8080);
    assert_eq!(values(None, None, Some("0"), None, None).port, 0);
    assert_eq!(values(None, None, Some("65535"), None, None).port, 65535);
}

#[test]
fn port_that_is_no_numeral_falls_back_to_default() {
    for text in ["", "+", "-1", "65536", "99999999999999999999", " 80", "80 ", "8_0", "80a", "++80", "٣"] {
        assert_eq!(values(None, None, Some(text), None, None).port, 3000, "{:?}", text);
        assert_eq!(text.parse::<u16>().ok(), None, "{:?}", text);
    }
}

#[test]
fn pool_size_covers_the_whole_range() {
    assert_eq!(values(None, None, None, Some("4294967295"), None).max_connections, u32::MAX);
    assert_eq!(values(None, None, None, Some("4294967296"), None).max_connections, 10);
    assert_eq!(values(None, None, None, Some("000000000000000000000000000001"), None).max_connections, 1);
    assert_eq!(values(None, None, None, Some("ten"), None).max_connections, 10);
}

#[test]
fn numbers_agree_with_the_standard_parser() {
    for text in ["1", "+1", "01", "65535", "65536", "1e3", "0x10", "", "+", "-", "-0", "12 ", "١٢"] {
        let expected = text.parse::<u16>().unwrap_or(3000);
        assert_eq!(values(None, None, Some(text), None, None).port, expected, "{:?}", text);
        let expected = text.parse::<u32>().unwrap_or(10);
        assert_eq!(values(None, None, None, Some(text), None).max_connections, expected, "{:?}", text);
    }
}

#[test]
fn origins_are_split_at_every_comma() {
    assert_eq!(values(None, None, None, None, Some("a")).allowed_origins, vec!["a"]);
    assert_eq!(values(None, None, None, None, Some("a,b,c")).allowed_origins, vec!["a", "b", "c"]);
    assert_eq!(values(None, None, None, None, Some("a,,b")).allowed_origins, vec!["a", "", "b"]);
    assert_eq!(values(None, None, None, None, Some(",a,")).allowed_origins, vec!["", "a", ""]);
    assert_eq!(values(None, None, None, None, Some("a, b")).allowed_origins, vec!["a", " b"]);
}

#[test]
fn empty_origin_list_is_one_empty_origin() {
    let config = values(None, None, None, None, Some(""));
    assert_eq!(config.allowed_origins, vec![""]);
    assert!(!config.is_cors_permissive());
}
