use latest::parsers::{pad_version, parse_github_repo, parse_maven_coordinates, parse_uv_lock};

#[test]
fn test_pad_version() {
    assert_eq!(pad_version("3"), "3.0.0");
    assert_eq!(pad_version("3.21"), "3.21.0");
    assert_eq!(pad_version("3.21.0"), "3.21.0");
    assert_eq!(pad_version("3.21-alpine"), "3.21.0");
}

#[test]
fn test_parse_maven_coordinates() {
    assert_eq!(
        parse_maven_coordinates("org.springframework:spring-core"),
        Some(("org.springframework".to_string(), "spring-core".to_string()))
    );
    assert_eq!(
        parse_maven_coordinates("com.google.guava:guava"),
        Some(("com.google.guava".to_string(), "guava".to_string()))
    );
}

#[test]
fn test_parse_maven_coordinates_invalid() {
    assert_eq!(parse_maven_coordinates("invalid"), None);
    assert_eq!(parse_maven_coordinates(""), None);
    assert_eq!(parse_maven_coordinates(":artifact"), None);
    assert_eq!(parse_maven_coordinates("group:"), None);
    assert_eq!(parse_maven_coordinates("a:b:c"), None);
}

#[test]
fn test_parse_github_repo_simple() {
    assert_eq!(
        parse_github_repo("apple/swift-argument-parser"),
        Some(("apple".to_string(), "swift-argument-parser".to_string()))
    );
}

#[test]
fn test_parse_github_repo_full_url() {
    assert_eq!(
        parse_github_repo("https://github.com/apple/swift-argument-parser"),
        Some(("apple".to_string(), "swift-argument-parser".to_string()))
    );
}

#[test]
fn test_parse_github_repo_with_git_suffix() {
    assert_eq!(
        parse_github_repo("https://github.com/apple/swift-argument-parser.git"),
        Some(("apple".to_string(), "swift-argument-parser".to_string()))
    );
}

#[test]
fn test_parse_github_repo_invalid() {
    assert_eq!(parse_github_repo("invalid"), None);
    assert_eq!(parse_github_repo(""), None);
    assert_eq!(parse_github_repo("/repo"), None);
    assert_eq!(parse_github_repo("owner/"), None);
    assert_eq!(parse_github_repo("a/b/c"), None);
}

#[test]
fn test_parse_uv_lock() {
    let lock = "version = 1\n\n[[package]]\nname = \"flask\"\nversion = \"3.0.2\"\n\n[[package]]\nname = \"My-Pkg\"\nversion = \"1.2.3\"\n";
    assert_eq!(parse_uv_lock(lock, "flask"), Some("3.0.2".to_string()));
    assert_eq!(parse_uv_lock(lock, "absent"), None);
    assert_eq!(parse_uv_lock("", "flask"), None);
}

#[test]
fn test_parse_uv_lock_normalizes_names() {
    let lock = "[[package]]\nname = \"My-Pkg\"\nversion = \"1.2.3\"\n";
    // Dashes fold to underscores and case is ignored, both ways.
    assert_eq!(parse_uv_lock(lock, "my_pkg"), Some("1.2.3".to_string()));
    assert_eq!(parse_uv_lock(lock, "MY-PKG"), Some("1.2.3".to_string()));
    assert_eq!(parse_uv_lock(lock, "my pkg"), None);
}

#[test]
fn test_parse_uv_lock_version_outside_block_ignored() {
    let lock = "name = \"stray\"\nversion = \"9.9.9\"\n[[package]]\nname = \"tool\"\nversion = \"2.0.0\"\n";
    // The stray version belongs to the non-matching "stray" name.
    assert_eq!(parse_uv_lock(lock, "tool"), Some("2.0.0".to_string()));
    assert_eq!(parse_uv_lock(lock, "stray"), Some("9.9.9".to_string()));
}
