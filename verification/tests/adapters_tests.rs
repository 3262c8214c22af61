use latest::adapters::{
    AptSource, BrewSource, CargoSource, ComposerSource, CondaSource, DockerSource, GemSource,
    GoSource, HexSource, MavenSource, NpmSource, NuGetSource, PathSource, PipSource, PubSource,
    SwiftSource, UvSource,
};
use latest::sources::Ecosystem;

#[test]
fn test_apt_source_properties() {
    let apt = AptSource;
    assert_eq!(apt.name(), "apt");
    assert_eq!(apt.ecosystem(), Ecosystem::System);
    assert!(!apt.is_local());
}

#[test]
fn test_brew_source_properties() {
    assert_eq!(BrewSource.name(), "brew");
    assert!(!BrewSource.is_local());
    assert_eq!(BrewSource.ecosystem(), Ecosystem::System);
}

#[test]
fn test_cargo_source_properties() {
    assert_eq!(CargoSource.name(), "cargo");
    assert!(!CargoSource.is_local());
    assert_eq!(CargoSource.ecosystem(), Ecosystem::Cargo);
}

#[test]
fn test_composer_source_properties() {
    let composer = ComposerSource;
    assert_eq!(composer.name(), "composer");
    assert_eq!(composer.ecosystem(), Ecosystem::Php);
    assert!(!composer.is_local());
}

#[test]
fn test_conda_source_properties() {
    let conda = CondaSource;
    assert_eq!(conda.name(), "conda");
    assert_eq!(conda.ecosystem(), Ecosystem::Python);
    assert!(!conda.is_local());
}

#[test]
fn test_docker_source_properties() {
    let docker = DockerSource;
    assert_eq!(docker.name(), "docker");
    assert_eq!(docker.ecosystem(), Ecosystem::Container);
    assert!(!docker.is_local());
}

#[test]
fn test_go_source_properties() {
    assert_eq!(GoSource.name(), "go");
    assert!(!GoSource.is_local());
    assert_eq!(GoSource.ecosystem(), Ecosystem::Go);
}

#[test]
fn test_maven_source_properties() {
    let maven = MavenSource;
    assert_eq!(maven.name(), "maven");
    assert_eq!(maven.ecosystem(), Ecosystem::Jvm);
    assert!(!maven.is_local());
}

#[test]
fn test_npm_source_properties() {
    assert_eq!(NpmSource.name(), "npm");
    assert!(!NpmSource.is_local());
    assert_eq!(NpmSource.ecosystem(), Ecosystem::Npm);
}

#[test]
fn test_nuget_source_properties() {
    let nuget = NuGetSource;
    assert_eq!(nuget.name(), "nuget");
    assert_eq!(nuget.ecosystem(), Ecosystem::Dotnet);
    assert!(!nuget.is_local());
}

#[test]
fn test_path_source_properties() {
    assert_eq!(PathSource.name(), "path");
    assert!(PathSource.is_local());
    assert_eq!(PathSource.ecosystem(), Ecosystem::System);
}

#[test]
fn test_pip_source_properties() {
    assert_eq!(PipSource.name(), "pip");
    assert!(PipSource.is_local());
    assert_eq!(PipSource.ecosystem(), Ecosystem::Python);
}

#[test]
fn test_swift_source_properties() {
    let swift = SwiftSource;
    assert_eq!(swift.name(), "swift");
    assert_eq!(swift.ecosystem(), Ecosystem::Swift);
    assert!(!swift.is_local());
}

#[test]
fn test_uv_source_properties() {
    assert_eq!(UvSource.name(), "uv");
    assert!(UvSource.is_local());
    assert_eq!(UvSource.ecosystem(), Ecosystem::Python);
}

#[test]
fn test_gem_source_properties() {
    assert_eq!(GemSource.name(), "gem");
    assert!(!GemSource.is_local());
    assert_eq!(GemSource.ecosystem(), Ecosystem::Ruby);
}

#[test]
fn test_hex_source_properties() {
    assert_eq!(HexSource.name(), "hex");
    assert!(!HexSource.is_local());
    assert_eq!(HexSource.ecosystem(), Ecosystem::Beam);
}

#[test]
fn test_pub_source_properties() {
    assert_eq!(PubSource.name(), "pub");
    assert!(!PubSource.is_local());
    assert_eq!(PubSource.ecosystem(), Ecosystem::Dart);
}
