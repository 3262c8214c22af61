//! The concrete source adapters' descriptors: each names itself, its
//! ecosystem and whether it reads local state.  The probing each adapter
//! performs — subprocesses and registry calls — lives with the caller;
//! these descriptors are what the resolution logic may rely on.

use vstd::prelude::*;

use crate::sources::Ecosystem;

verus! {

/// Binaries found on `PATH`, probed for a version flag.
pub struct PathSource;

impl PathSource {
    pub fn name(&self) -> (r: &'static str)
        ensures
            r@ == "path"@,
    {
        "path"
    }

    pub fn is_local(&self) -> (r: bool)
        ensures
            r == true,
    {
        true
    }

    pub fn ecosystem(&self) -> (r: Ecosystem)
        ensures
            r == Ecosystem::System,
    {
        Ecosystem::System
    }
}

/// The Homebrew formulae and casks.
pub struct BrewSource;

impl BrewSource {
    pub fn name(&self) -> (r: &'static str)
        ensures
            r@ == "brew"@,
    {
        "brew"
    }

    pub fn is_local(&self) -> (r: bool)
        ensures
            r == false,
    {
        false
    }

    pub fn ecosystem(&self) -> (r: Ecosystem)
        ensures
            r == Ecosystem::System,
    {
        Ecosystem::System
    }
}

/// The APT package index.
pub struct AptSource;

impl AptSource {
    pub fn name(&self) -> (r: &'static str)
        ensures
            r@ == "apt"@,
    {
        "apt"
    }

    pub fn is_local(&self) -> (r: bool)
        ensures
            r == false,
    {
        false
    }

    pub fn ecosystem(&self) -> (r: Ecosystem)
        ensures
            r == Ecosystem::System,
    {
        Ecosystem::System
    }
}

/// The npm registry.
pub struct NpmSource;

impl NpmSource {
    pub fn name(&self) -> (r: &'static str)
        ensures
            r@ == "npm"@,
    {
        "npm"
    }

    pub fn is_local(&self) -> (r: bool)
        ensures
            r == false,
    {
        false
    }

    pub fn ecosystem(&self) -> (r: Ecosystem)
        ensures
            r == Ecosystem::Npm,
    {
        Ecosystem::Npm
    }
}

/// A uv-managed Python project's lockfile and environment.
pub struct UvSource;

impl UvSource {
    pub fn name(&self) -> (r: &'static str)
        ensures
            r@ == "uv"@,
    {
        "uv"
    }

    pub fn is_local(&self) -> (r: bool)
        ensures
            r == true,
    {
        true
    }

    pub fn ecosystem(&self) -> (r: Ecosystem)
        ensures
            r == Ecosystem::Python,
    {
        Ecosystem::Python
    }
}

/// Locally installed Python packages, with PyPI as fallback.
pub struct PipSource;

impl PipSource {
    pub fn name(&self) -> (r: &'static str)
        ensures
            r@ == "pip"@,
    {
        "pip"
    }

    pub fn is_local(&self) -> (r: bool)
        ensures
            r == true,
    {
        true
    }

    pub fn ecosystem(&self) -> (r: Ecosystem)
        ensures
            r == Ecosystem::Python,
    {
        Ecosystem::Python
    }
}

/// The Go module proxy.
pub struct GoSource;

impl GoSource {
    pub fn name(&self) -> (r: &'static str)
        ensures
            r@ == "go"@,
    {
        "go"
    }

    pub fn is_local(&self) -> (r: bool)
        ensures
            r == false,
    {
        false
    }

    pub fn ecosystem(&self) -> (r: Ecosystem)
        ensures
            r == Ecosystem::Go,
    {
        Ecosystem::Go
    }
}

/// The crates.io registry.
pub struct CargoSource;

impl CargoSource {
    pub fn name(&self) -> (r: &'static str)
        ensures
            r@ == "cargo"@,
    {
        "cargo"
    }

    pub fn is_local(&self) -> (r: bool)
        ensures
            r == false,
    {
        false
    }

    pub fn ecosystem(&self) -> (r: Ecosystem)
        ensures
            r == Ecosystem::Cargo,
    {
        Ecosystem::Cargo
    }
}

/// The RubyGems registry.
pub struct GemSource;

impl GemSource {
    pub fn name(&self) -> (r: &'static str)
        ensures
            r@ == "gem"@,
    {
        "gem"
    }

    pub fn is_local(&self) -> (r: bool)
        ensures
            r == false,
    {
        false
    }

    pub fn ecosystem(&self) -> (r: Ecosystem)
        ensures
            r == Ecosystem::Ruby,
    {
        Ecosystem::Ruby
    }
}

/// The hex.pm registry of the BEAM languages.
pub struct HexSource;

impl HexSource {
    pub fn name(&self) -> (r: &'static str)
        ensures
            r@ == "hex"@,
    {
        "hex"
    }

    pub fn is_local(&self) -> (r: bool)
        ensures
            r == false,
    {
        false
    }

    pub fn ecosystem(&self) -> (r: Ecosystem)
        ensures
            r == Ecosystem::Beam,
    {
        Ecosystem::Beam
    }
}

/// The pub.dev registry of Dart.
pub struct PubSource;

impl PubSource {
    pub fn name(&self) -> (r: &'static str)
        ensures
            r@ == "pub"@,
    {
        "pub"
    }

    pub fn is_local(&self) -> (r: bool)
        ensures
            r == false,
    {
        false
    }

    pub fn ecosystem(&self) -> (r: Ecosystem)
        ensures
            r == Ecosystem::Dart,
    {
        Ecosystem::Dart
    }
}

/// The conda channels.
pub struct CondaSource;

impl CondaSource {
    pub fn name(&self) -> (r: &'static str)
        ensures
            r@ == "conda"@,
    {
        "conda"
    }

    pub fn is_local(&self) -> (r: bool)
        ensures
            r == false,
    {
        false
    }

    pub fn ecosystem(&self) -> (r: Ecosystem)
        ensures
            r == Ecosystem::Python,
    {
        Ecosystem::Python
    }
}

/// The Docker Hub image tags.
pub struct DockerSource;

impl DockerSource {
    pub fn name(&self) -> (r: &'static str)
        ensures
            r@ == "docker"@,
    {
        "docker"
    }

    pub fn is_local(&self) -> (r: bool)
        ensures
            r == false,
    {
        false
    }

    pub fn ecosystem(&self) -> (r: Ecosystem)
        ensures
            r == Ecosystem::Container,
    {
        Ecosystem::Container
    }
}

/// The Packagist registry of PHP.
pub struct ComposerSource;

impl ComposerSource {
    pub fn name(&self) -> (r: &'static str)
        ensures
            r@ == "composer"@,
    {
        "composer"
    }

    pub fn is_local(&self) -> (r: bool)
        ensures
            r == false,
    {
        false
    }

    pub fn ecosystem(&self) -> (r: Ecosystem)
        ensures
            r == Ecosystem::Php,
    {
        Ecosystem::Php
    }
}

/// The Maven Central index.
pub struct MavenSource;

impl MavenSource {
    pub fn name(&self) -> (r: &'static str)
        ensures
            r@ == "maven"@,
    {
        "maven"
    }

    pub fn is_local(&self) -> (r: bool)
        ensures
            r == false,
    {
        false
    }

    pub fn ecosystem(&self) -> (r: Ecosystem)
        ensures
            r == Ecosystem::Jvm,
    {
        Ecosystem::Jvm
    }
}

/// The NuGet flat-container index.
pub struct NuGetSource;

impl NuGetSource {
    pub fn name(&self) -> (r: &'static str)
        ensures
            r@ == "nuget"@,
    {
        "nuget"
    }

    pub fn is_local(&self) -> (r: bool)
        ensures
            r == false,
    {
        false
    }

    pub fn ecosystem(&self) -> (r: Ecosystem)
        ensures
            r == Ecosystem::Dotnet,
    {
        Ecosystem::Dotnet
    }
}

/// Swift packages, resolved through their repository's tags.
pub struct SwiftSource;

impl SwiftSource {
    pub fn name(&self) -> (r: &'static str)
        ensures
            r@ == "swift"@,
    {
        "swift"
    }

    pub fn is_local(&self) -> (r: bool)
        ensures
            r == false,
    {
        false
    }

    pub fn ecosystem(&self) -> (r: Ecosystem)
        ensures
            r == Ecosystem::Swift,
    {
        Ecosystem::Swift
    }
}

} // verus!
