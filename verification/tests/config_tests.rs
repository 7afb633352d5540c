use webssh::backend::config::Config as BackendConfig;
use webssh::webssh::config::Config as WebConfig;

#[test]
fn backend_defaults() {
    let c = BackendConfig::from_vars(None, None, None);
    assert_eq!(c.host, "0.0.0.0");
    assert_eq!(c.port, 8080);
    assert_eq!(c.allow_origins, vec!["*".to_string()]);
    assert_eq!(c.addr_text(), "0.0.0.0:8080");
}

#[test]
fn backend_values_from_variables() {
    let c = BackendConfig::from_vars(
        Some("127.0.0.1"),
        Some("9000"),
        Some("http://localhost:3000, https://example.com"),
    );
    assert_eq!(c.host, "127.0.0.1");
    assert_eq!(c.port, 9000);
    assert_eq!(
        c.allow_origins,
        vec!["http://localhost:3000".to_string(), "https://example.com".to_string()]
    );
    assert_eq!(c.addr_text(), "127.0.0.1:9000");
}

#[test]
fn backend_bad_port_falls_back() {
    let c = BackendConfig::from_vars(None, Some("http"), None);
    assert_eq!(c.port, 8080);
    let c = BackendConfig::from_vars(None, Some("70000"), None);
    assert_eq!(c.port, 8080);
}

#[test]
fn backend_empty_allowlist_variable() {
    let c = BackendConfig::from_vars(None, None, Some(" , "));
    assert!(c.allow_origins.is_empty());
}

#[test]
fn backend_rust_log() {
    let c = BackendConfig::from_vars(None, None, None);
    assert_eq!(c.default_rust_log(None), "info,backend=debug,tower_http=info");
    assert_eq!(c.default_rust_log(Some("warn")), "warn");
}

#[test]
fn webssh_defaults() {
    let c = WebConfig::default();
    assert_eq!(c.port, 8080);
    assert!(c.origin_allowlist.is_empty());
    let c = WebConfig::from_vars(None, None);
    assert_eq!(c.port, 8080);
    assert!(c.origin_allowlist.is_empty());
}

#[test]
fn webssh_values_from_variables() {
    let c = WebConfig::from_vars(Some("3000"), Some("https://example.com,https://admin.example.com"));
    assert_eq!(c.port, 3000);
    assert_eq!(
        c.origin_allowlist,
        vec!["https://example.com".to_string(), "https://admin.example.com".to_string()]
    );
    let c = WebConfig::from_vars(Some("x"), Some(" a  b ,c "));
    assert_eq!(c.port, 8080);
    assert_eq!(c.origin_allowlist, vec!["a".to_string(), "b".to_string(), "c".to_string()]);
}
