use latest::is_newer;

#[test]
fn test_is_newer() {
    assert!(is_newer("1.0.0", "1.0.1"));
    assert!(is_newer("1.0.0", "2.0.0"));
    assert!(is_newer("1.9.0", "1.10.0"));
    assert!(!is_newer("1.0.1", "1.0.0"));
    assert!(!is_newer("1.0.0", "1.0.0"));
}

#[test]
fn test_is_newer_irreflexive_samples() {
    for v in ["0", "1.2.3", "10.20.30.40", "1.2.3-alpha.1", "003.004"] {
        assert!(!is_newer(v, v));
    }
}

#[test]
fn test_is_newer_asymmetric_samples() {
    let pairs = [("1.0.0", "1.0.1"), ("1.9", "1.10"), ("2", "2.0.1"), ("0.1", "1")];
    for (a, b) in pairs {
        assert!(is_newer(a, b));
        assert!(!is_newer(b, a));
    }
}

#[test]
fn test_is_newer_transitive_samples() {
    let triples = [("1.0.0", "1.0.1", "1.1.0"), ("1", "2", "10"), ("0.9", "1.0", "1.0.1")];
    for (a, b, c) in triples {
        assert!(is_newer(a, b));
        assert!(is_newer(b, c));
        assert!(is_newer(a, c));
    }
}

#[test]
fn test_is_newer_total_on_garbage() {
    // Any string at all is accepted and compared; no digits means equal.
    assert!(!is_newer("", ""));
    assert!(!is_newer("abc", "def"));
    assert!(!is_newer("németül", "日本語"));
    assert!(is_newer("", "1"));
    assert!(!is_newer("1", ""));
    assert!(!is_newer("v", "ersion"));
}

#[test]
fn test_is_newer_missing_components_count_as_zero() {
    assert!(!is_newer("1.0", "1.0.0"));
    assert!(!is_newer("1.0.0", "1.0"));
    assert!(is_newer("1.0", "1.0.1"));
}

#[test]
fn test_is_newer_ignores_nonnumeric_text() {
    assert!(is_newer("version 1.2 (stable)", "release 1.3"));
    assert!(!is_newer("1.2-beta", "1.2-alpha"));
}

#[test]
fn test_is_newer_huge_component_is_discarded() {
    // A run of digits too long for a u64 contributes no component.
    assert!(!is_newer("99999999999999999999999", ""));
    assert!(is_newer("99999999999999999999999", "1"));
}
