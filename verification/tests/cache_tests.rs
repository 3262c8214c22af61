use latest::cache::{sanitize, Cache, DEFAULT_TTL_SECS};

#[test]
fn test_sanitize() {
    assert_eq!(sanitize("express"), "express");
    assert_eq!(sanitize("@babel/core"), "_babel_core");
    assert_eq!(sanitize("github.com/spf13/cobra"), "github_com_spf13_cobra");
}

#[test]
fn test_cache_round_trip() {
    let mut cache = Cache::new();
    cache.set("npm", "express", "1.2.3", 100);
    assert_eq!(cache.get("npm", "express", 100), Some("1.2.3".to_string()));
    // Still fresh just before the TTL elapses.
    assert_eq!(
        cache.get("npm", "express", 100 + DEFAULT_TTL_SECS - 1),
        Some("1.2.3".to_string())
    );
}

#[test]
fn test_cache_expiry_removes_entry() {
    let mut cache = Cache::new();
    cache.set("npm", "express", "1.2.3", 100);
    assert_eq!(cache.len(), 1);
    // Expired: nothing comes back and the entry is gone.
    assert_eq!(cache.get("npm", "express", 100 + DEFAULT_TTL_SECS), None);
    assert_eq!(cache.len(), 0);
    // Even asking again at the earlier time finds nothing.
    assert_eq!(cache.get("npm", "express", 100), None);
}

#[test]
fn test_cache_overwrite() {
    let mut cache = Cache::new();
    cache.set("cargo", "serde", "1.0.0", 10);
    cache.set("cargo", "serde", "1.0.1", 20);
    assert_eq!(cache.len(), 1);
    assert_eq!(cache.get("cargo", "serde", 20), Some("1.0.1".to_string()));
}

#[test]
fn test_cache_keys_are_per_source_and_package() {
    let mut cache = Cache::new();
    cache.set("npm", "left", "1.0.0", 0);
    cache.set("cargo", "left", "2.0.0", 0);
    cache.set("npm", "right", "3.0.0", 0);
    assert_eq!(cache.get("npm", "left", 0), Some("1.0.0".to_string()));
    assert_eq!(cache.get("cargo", "left", 0), Some("2.0.0".to_string()));
    assert_eq!(cache.get("npm", "right", 0), Some("3.0.0".to_string()));
    assert_eq!(cache.get("cargo", "right", 0), None);
}

#[test]
fn test_cache_miss_on_empty() {
    let mut cache = Cache::new();
    assert_eq!(cache.get("npm", "express", 0), None);
}
