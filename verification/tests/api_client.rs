use skynet_review::api_client::{
    check_endpoint, check_status, ApiClient, ConfigError, ParsedUrl, StatusFailure,
    CONNECT_TIMEOUT_SECS, REQUEST_TIMEOUT_SECS,
};

fn parsed(scheme: &str, host: Option<&str>) -> Option<ParsedUrl> {
    Some(ParsedUrl { scheme: scheme.to_string(), host: host.map(str::to_string) })
}

#[test]
fn encrypted_endpoints_are_accepted() {
    for url in ["https://example.com", "https://api.example.com:8443/base", "HTTPS://Example.COM"] {
        assert!(ApiClient::new(url, None).is_ok(), "{}", url);
    }
}

#[test]
fn plain_endpoints_on_this_machine_are_accepted() {
    for url in [
        "http://localhost:5000",
        "http://localhost",
        "http://127.0.0.1:5000",
        "http://[::1]:5000",
        "http://LOCALHOST:5000/",
        "https://localhost",
    ] {
        assert!(ApiClient::new(url, None).is_ok(), "{}", url);
    }
}

#[test]
fn plain_remote_endpoints_are_insecure() {
    for url in [
        "http://example.com",
        "http://192.168.1.10:5000",
        "http://localhost.example.com",
        "http://127.0.0.2",
        "http://user@example.com/",
        "ftp://example.com",
        "ws://example.com",
        // Without `//` the parser reads the host name as a scheme.
        "localhost:5000",
        "mailto:ops@example.com",
    ] {
        assert!(matches!(ApiClient::new(url, None), Err(ConfigError::InsecureEndpoint)), "{}", url);
    }
}

#[test]
fn malformed_urls_are_invalid() {
    for url in ["", "not a url", "example.com", "/relative/path", "http://", "https://[::1", "://x"] {
        assert!(matches!(ApiClient::new(url, None), Err(ConfigError::InvalidUrl)), "{:?}", url);
    }
}

#[test]
fn endpoint_rule_on_parsed_parts() {
    assert_eq!(check_endpoint(&None), Err(ConfigError::InvalidUrl));
    assert_eq!(check_endpoint(&parsed("https", Some("example.com"))), Ok(()));
    assert_eq!(check_endpoint(&parsed("https", None)), Ok(()));
    assert_eq!(check_endpoint(&parsed("http", Some("localhost"))), Ok(()));
    assert_eq!(check_endpoint(&parsed("http", Some("127.0.0.1"))), Ok(()));
    assert_eq!(check_endpoint(&parsed("http", Some("::1"))), Ok(()));
    assert_eq!(check_endpoint(&parsed("http", Some("[::1]"))), Ok(()));
    assert_eq!(check_endpoint(&parsed("ftp", Some("localhost"))), Ok(()));
    assert_eq!(
        check_endpoint(&parsed("http", Some("example.com"))),
        Err(ConfigError::InsecureEndpoint)
    );
    assert_eq!(check_endpoint(&parsed("http", None)), Err(ConfigError::InsecureEndpoint));
    assert_eq!(check_endpoint(&parsed("http", Some(""))), Err(ConfigError::InsecureEndpoint));
    assert_eq!(
        check_endpoint(&parsed("http", Some("localhost."))),
        Err(ConfigError::InsecureEndpoint)
    );
    assert_eq!(
        check_endpoint(&parsed("httpss", Some("example.com"))),
        Err(ConfigError::InsecureEndpoint)
    );
    assert_eq!(check_endpoint(&parsed("", Some("example.com"))), Err(ConfigError::InsecureEndpoint));
}

#[test]
fn request_addresses_extend_the_base_url() {
    let client = ApiClient::new("https://gw.example.com", None).ok().unwrap();
    assert_eq!(client.base_url(), "https://gw.example.com");
    assert_eq!(client.health_url(), "https://gw.example.com/api/health");
    assert_eq!(client.analyze_url(), "https://gw.example.com/api/analyze");
    assert_eq!(client.stream_url(), "https://gw.example.com/api/analyze/stream");
    let local = ApiClient::new("http://localhost:5000", None).ok().unwrap();
    assert_eq!(local.stream_url(), "http://localhost:5000/api/analyze/stream");
}

#[test]
fn credential_becomes_a_bearer_header() {
    let anonymous = ApiClient::new("https://gw.example.com", None).ok().unwrap();
    assert_eq!(anonymous.authorization(), None);
    let keyed = ApiClient::new("https://gw.example.com", Some("s3cr3t".to_string())).ok().unwrap();
    assert_eq!(keyed.authorization(), Some("Bearer s3cr3t".to_string()));
    let empty = ApiClient::new("https://gw.example.com", Some(String::new())).ok().unwrap();
    assert_eq!(empty.authorization(), Some("Bearer ".to_string()));
}

#[test]
fn timeouts_are_minutes_and_seconds() {
    assert_eq!(REQUEST_TIMEOUT_SECS, 600);
    assert_eq!(CONNECT_TIMEOUT_SECS, 10);
}

#[test]
fn only_the_success_class_passes() {
    for code in [200u16, 201, 204, 250, 299] {
        assert_eq!(check_status(code), Ok(()));
    }
    for code in [0u16, 100, 199, 300, 301, 400, 401, 404, 500, 503, 999, u16::MAX] {
        assert_eq!(check_status(code), Err(StatusFailure { code }));
    }
}
