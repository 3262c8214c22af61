use latest::extract::{extract_json_path, extract_version, extract_version_field};

#[test]
fn test_extract_version() {
    assert_eq!(extract_version("1.2.3"), Some("1.2.3".to_string()));
    assert_eq!(extract_version("v1.2.3"), Some("1.2.3".to_string()));
    assert_eq!(extract_version(""), None);
}

#[test]
fn test_extract_version_from_tool_output() {
    assert_eq!(extract_version("git version 2.39.2"), Some("2.39.2".to_string()));
    assert_eq!(extract_version("go version go1.21.3 linux/amd64"), Some("1.21.3".to_string()));
    assert_eq!(extract_version("node v20.11.1"), Some("20.11.1".to_string()));
}

#[test]
fn test_extract_version_shapes() {
    // Two components suffice; a fourth is not part of the match.
    assert_eq!(extract_version("1.2"), Some("1.2".to_string()));
    assert_eq!(extract_version("1.2.3.4"), Some("1.2.3".to_string()));
    // A dash suffix is taken along.
    assert_eq!(extract_version("1.2.3-alpha.1"), Some("1.2.3-alpha.1".to_string()));
    // A single number is no version.
    assert_eq!(extract_version("7"), None);
    assert_eq!(extract_version("no digits here"), None);
}

#[test]
fn test_extract_version_field_whitespace() {
    assert_eq!(extract_version_field("Version:   1.2.3  \n"), Some("1.2.3".to_string()));
    assert_eq!(extract_version_field("Name: x\r\nVersion: 2.0\r\n"), Some("2.0".to_string()));
}

#[test]
fn test_parse_apt_output() {
    let output = r#"Package: curl
Version: 7.88.1-10+deb12u5
Priority: optional
Section: web
Maintainer: Alessandro Ghedini <ghedo@debian.org>
Installed-Size: 518
"#;
    assert_eq!(extract_version_field(output), Some("7.88.1-10+deb12u5".to_string()));
}

#[test]
fn test_parse_apt_output_no_version() {
    let output = "Package: something\nPriority: optional\n";
    assert_eq!(extract_version_field(output), None);
}

#[test]
fn test_parse_apt_output_empty() {
    assert_eq!(extract_version_field(""), None);
}

#[test]
fn test_extract_json_path() {
    assert_eq!(
        extract_json_path(r#"{"version":"1.2.3"}"#, "version"),
        Some("1.2.3".to_string())
    );
    assert_eq!(
        extract_json_path(r#"{"latest":{"version":"2.0"}}"#, "latest.version"),
        Some("2.0".to_string())
    );
}

#[test]
fn test_extract_json_path_missing_key() {
    assert_eq!(extract_json_path(r#"{"version":"1.2.3"}"#, "other"), None);
    assert_eq!(extract_json_path("not json at all", "version"), None);
}
