use latest::config::Config;
use latest::parse_package_arg;
use latest::sources::{all_sources, default_precedence, source_by_name, Ecosystem};

#[test]
fn test_default_has_all_sources() {
    let config = Config::default();
    assert_eq!(config.precedence.len(), 11);
}

#[test]
fn test_all_sources() {
    let sources = all_sources();
    let expected = expected_sources();
    assert_eq!(sources.len(), expected.len());
    for (source, (name, local, eco)) in sources.iter().zip(expected.iter()) {
        assert_eq!(source.name, *name);
        assert_eq!(source.local, *local);
        assert_eq!(source.ecosystem, *eco);
    }
}

#[test]
fn test_source_by_name() {
    for (name, _, _) in expected_sources() {
        assert!(source_by_name(name).is_some(), "missing: {}", name);
    }
    assert!(source_by_name("invalid").is_none());
}

#[test]
fn test_default_precedence_order() {
    let order = default_precedence();
    let expected = expected_sources();
    assert_eq!(order.len(), expected.len());
    for (st, (name, local, eco)) in order.iter().zip(expected.iter()) {
        assert_eq!(st.as_str(), *name);
        assert_eq!(st.is_local(), *local);
        assert_eq!(st.ecosystem(), *eco);
    }
}

fn expected_sources() -> Vec<(&'static str, bool, Ecosystem)> {
    vec![
        ("path", true, Ecosystem::System),
        ("brew", false, Ecosystem::System),
        ("apt", false, Ecosystem::System),
        ("npm", false, Ecosystem::Npm),
        ("uv", true, Ecosystem::Python),
        ("pip", true, Ecosystem::Python),
        ("go", false, Ecosystem::Go),
        ("cargo", false, Ecosystem::Cargo),
        ("gem", false, Ecosystem::Ruby),
        ("hex", false, Ecosystem::Beam),
        ("pub", false, Ecosystem::Dart),
    ]
}

#[test]
fn test_parse_package_arg_with_known_source() {
    let (source, package) = parse_package_arg("npm:express");
    assert_eq!(source, Some("npm".to_string()));
    assert_eq!(package, "express");
}

#[test]
fn test_parse_package_arg_plain() {
    let (source, package) = parse_package_arg("express");
    assert_eq!(source, None);
    assert_eq!(package, "express");
}

#[test]
fn test_parse_package_arg_unknown_prefix() {
    let (source, package) = parse_package_arg("unknown:express");
    assert_eq!(source, None);
    assert_eq!(package, "unknown:express");
}

#[test]
fn test_parse_package_arg_splits_at_first_colon() {
    let (source, package) = parse_package_arg("go:github.com/spf13/cobra:extra");
    assert_eq!(source, Some("go".to_string()));
    assert_eq!(package, "github.com/spf13/cobra:extra");
}
