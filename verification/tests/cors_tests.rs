use webssh::backend::api::build_cors;
use webssh::backend::config::Config as BackendConfig;
use webssh::backend::security::cors_from_allowlist;
use webssh::cors::{CorsPolicy, HttpMethod, OriginRule};
use webssh::webssh::config::Config as WebConfig;
use webssh::webssh::security::cors_layer;

fn origins(p: &CorsPolicy) -> Option<Vec<String>> {
    match &p.origins {
        OriginRule::List(v) => Some(v.clone()),
        _ => None,
    }
}

#[test]
fn star_allows_any_origin() {
    let p = cors_from_allowlist(&["https://a.example".to_string(), "*".to_string()]);
    assert!(matches!(p.origins, OriginRule::Any));
    assert_eq!(p.methods, vec![HttpMethod::Get, HttpMethod::Post, HttpMethod::Options]);
    assert!(p.any_header);
}

#[test]
fn any_word_in_any_case_allows_any_origin() {
    for w in ["any", "ANY", "Any", "aNy"] {
        let p = cors_from_allowlist(&[w.to_string()]);
        assert!(matches!(p.origins, OriginRule::Any), "{w}");
    }
    let p = cors_from_allowlist(&["anyway".to_string()]);
    assert!(matches!(p.origins, OriginRule::List(_)));
}

#[test]
fn invalid_header_values_are_dropped() {
    let p = cors_from_allowlist(&[
        "https://a.example".to_string(),
        "bad\u{7f}".to_string(),
        "bad\nline".to_string(),
        "https://b.example".to_string(),
        "tab\tok".to_string(),
        "ünïcode".to_string(),
    ]);
    assert_eq!(
        origins(&p),
        Some(vec![
            "https://a.example".to_string(),
            "https://b.example".to_string(),
            "tab\tok".to_string(),
            "ünïcode".to_string(),
        ])
    );
}

#[test]
fn backend_unset_allowlist_allows_any() {
    let c = BackendConfig::from_vars(None, None, None);
    let p = build_cors(&c);
    assert!(matches!(p.origins, OriginRule::Any));
}

#[test]
fn build_cors_matches_cors_from_allowlist() {
    let c = BackendConfig::from_vars(None, None, Some("https://x.example,ok"));
    let a = build_cors(&c);
    let b = cors_from_allowlist(&c.allow_origins);
    assert_eq!(origins(&a), origins(&b));
    assert_eq!(origins(&a), Some(vec!["https://x.example".to_string(), "ok".to_string()]));
}

#[test]
fn webssh_empty_allowlist_is_same_origin_only() {
    let p = cors_layer(&WebConfig::default());
    assert!(matches!(p.origins, OriginRule::Unset));
    assert_eq!(p.methods, vec![HttpMethod::Get, HttpMethod::Post]);
    assert!(p.any_header);
}

#[test]
fn webssh_allowlist_has_no_wildcard() {
    let c = WebConfig::from_vars(None, Some("*,https://a.example"));
    let p = cors_layer(&c);
    assert_eq!(origins(&p), Some(vec!["*".to_string(), "https://a.example".to_string()]));
}
