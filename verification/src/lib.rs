//! Multi-source package version resolution.
//!
//! The crate answers "what is the latest version of X, and is my installed
//! copy current?" by reconciling the answers of several package sources.
//! It holds the version-ordering comparator, the source registry, the
//! TTL-bounded cache, the query dispatcher and the lookup orchestrator;
//! the concrete probing of registries and subprocesses is left to callers.

pub mod adapters;
pub mod cache;
pub mod config;
pub mod extract;
pub mod lookup;
pub mod parsers;
pub mod sources;
pub mod version;

pub use sources::parse_package_arg;
pub use version::is_newer;
