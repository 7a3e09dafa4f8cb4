//! Plain data carried by the package registry's query interface. The network
//! transport lives outside the library; resolution logic consumes these
//! values directly.

use vstd::prelude::*;

verus! {

/// Which component of a semantic version a batch query asks to advance.
#[derive(Debug, Clone, Copy, PartialEq, Eq, Structural)]
pub enum SemverPart {
    Major,
    Minor,
    Patch,
}

/// Freshness of a package's dependencies as reported by the registry.
#[derive(Debug, Clone, Copy, PartialEq, Eq, Structural)]
pub enum DepsStatus {
    AllLatest,
    TooOld,
    UpdatesAvailable,
}

/// Registry-reported quality indicators of a package.
#[derive(Debug, Clone)]
pub struct PackageQuality {
    pub deps_status: DepsStatus,
    pub has_description: bool,
    pub has_keywords: bool,
    pub has_license: bool,
    pub has_documentation: bool,
    pub has_tests: bool,
    pub has_repository: bool,
    pub has_release_notes: bool,
}

/// A named script recorded in a package's configuration.
#[derive(Debug, Clone)]
pub struct Script {
    pub value: String,
    pub name: String,
}

/// One dependency entry of a published package: a registry version, or,
/// when `version` is empty, a repository to resolve against.
#[derive(Debug, Clone)]
pub struct DependencyV2 {
    pub name: String,
    pub repo: String,
    pub version: String,
}

/// A named toolchain requirement of a published package.
#[derive(Debug, Clone)]
pub struct Requirement {
    pub value: String,
    pub name: String,
}

/// A published package's configuration as the registry stores it.
#[derive(Debug, Clone)]
pub struct PackageConfigV3 {
    pub dfx: String,
    pub moc: String,
    pub scripts: Vec<Script>,
    pub base_dir: String,
    pub documentation: String,
    pub name: String,
    pub homepage: String,
    pub description: String,
    pub version: String,
    pub keywords: Vec<String>,
    pub donation: String,
    pub dev_dependencies: Vec<DependencyV2>,
    pub repository: String,
    pub dependencies: Vec<DependencyV2>,
    pub requirements: Vec<Requirement>,
    pub license: String,
    pub readme: String,
}

/// Test names added and removed between two published versions.
#[derive(Debug, Clone)]
pub struct TestsChanges {
    pub added_names: Vec<String>,
    pub removed_names: Vec<String>,
}

/// A dependency whose pinned version changed between two published versions.
#[derive(Debug, Clone)]
pub struct DepChange {
    pub old_version: String,
    pub name: String,
    pub new_version: String,
}

} // verus!
