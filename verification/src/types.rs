//! The data model: packages, dependencies, targets and manifests.

use vstd::prelude::*;
use crate::namemap::NameMap;
use crate::text::views;
use crate::version::{Version, VersionModel, VersionReq};

verus! {

/// The text of an optional string.
pub open spec fn opt_text(o: Option<String>) -> Option<Seq<char>> {
    match o {
        Some(s) => Some(s@),
        None => None,
    }
}

/// A copy of a list of strings.
pub fn clone_strings(v: &Vec<String>) -> (r: Vec<String>)
    ensures
        views(r@) == views(v@),
        r@.len() == v@.len(),
{
    let mut r: Vec<String> = Vec::new();
    let mut i: usize = 0;
    while i < v.len()
        invariant
            i <= v.len(),
            r@.len() == i,
            forall|j: int| 0 <= j < i ==> r@[j]@ == v@[j]@,
        decreases v.len() - i,
    {
        r.push(v[i].clone());
        i = i + 1;
    }
    assert(views(r@) =~= views(v@));
    r
}

/// A copy of an optional string.
pub fn clone_opt(o: &Option<String>) -> (r: Option<String>)
    ensures
        opt_text(r) == opt_text(*o),
{
    match o {
        Some(s) => Some(s.clone()),
        None => None,
    }
}

/// Where a dependency comes from.
#[derive(Debug, Clone, Copy, PartialEq, Eq, Hash, Structural)]
pub enum DependencySource {
    /// From a package registry.
    Registry,
    /// From a git repository.
    Git,
    /// From a local path.
    Path,
}

/// The kind of a build target.
#[derive(Debug, Clone, Copy, PartialEq, Eq, Hash, Structural)]
pub enum TargetType {
    Executable,
    Library,
    Test,
    Plugin,
    SystemLibrary,
    Binary,
}

/// Debug or release.
#[derive(Debug, Clone, Copy, PartialEq, Eq, Hash, Structural)]
pub enum BuildConfiguration {
    Debug,
    Release,
}

impl BuildConfiguration {
    /// The name of the configuration: `debug` or `release`.
    pub open spec fn name(self) -> Seq<char> {
        match self {
            BuildConfiguration::Debug => "debug"@,
            BuildConfiguration::Release => "release"@,
        }
    }

    /// The name of the configuration: `debug` or `release`.
    pub fn to_string(&self) -> (out: String)
        ensures
            out@ == self.name(),
    {
        match self {
            BuildConfiguration::Debug => String::from_str("debug"),
            BuildConfiguration::Release => String::from_str("release"),
        }
    }
}

impl Default for BuildConfiguration {
    fn default() -> (r: Self)
        ensures
            r == BuildConfiguration::Debug,
    {
        BuildConfiguration::Debug
    }
}

/// How a version is picked among those that fit.
#[derive(Debug, Clone, Copy, PartialEq, Eq, Structural)]
pub enum ResolutionStrategy {
    /// The highest version that fits.
    Highest,
    /// The lowest version that fits.
    Lowest,
    /// The version of the lockfile where it still fits, else the highest.
    Locked,
}

impl Default for ResolutionStrategy {
    fn default() -> (r: Self)
        ensures
            r == ResolutionStrategy::Highest,
    {
        ResolutionStrategy::Highest
    }
}

/// A dependency as mathematical values.
pub struct DependencyModel {
    pub name: Seq<char>,
    pub version: Option<Seq<char>>,
    pub git: Option<Seq<char>>,
    pub branch: Option<Seq<char>>,
    pub tag: Option<Seq<char>>,
    pub revision: Option<Seq<char>>,
    pub path: Option<Seq<char>>,
    pub features: Seq<Seq<char>>,
    pub optional: bool,
}

/// A named requirement on another package.
#[derive(Debug)]
pub struct Dependency {
    pub name: String,
    /// Version requirement, for a registry dependency.
    pub version: Option<VersionReq>,
    /// Repository URL, for a git dependency.
    pub git: Option<String>,
    pub branch: Option<String>,
    pub tag: Option<String>,
    pub revision: Option<String>,
    /// Local directory, for a path dependency.
    pub path: Option<String>,
    pub features: Vec<String>,
    pub optional: bool,
}

/// The notation of an optional requirement.
pub open spec fn opt_req(o: Option<VersionReq>) -> Option<Seq<char>> {
    match o {
        Some(r) => Some(r@),
        None => None,
    }
}

impl View for Dependency {
    type V = DependencyModel;

    open spec fn view(&self) -> DependencyModel {
        DependencyModel {
            name: self.name@,
            version: opt_req(self.version),
            git: opt_text(self.git),
            branch: opt_text(self.branch),
            tag: opt_text(self.tag),
            revision: opt_text(self.revision),
            path: opt_text(self.path),
            features: views(self.features@),
            optional: self.optional,
        }
    }
}

impl Clone for Dependency {
    fn clone(&self) -> (r: Self)
        ensures
            r@ == self@,
    {
        let version = match &self.version {
            Some(v) => Some(v.clone()),
            None => None,
        };
        Dependency {
            name: self.name.clone(),
            version,
            git: clone_opt(&self.git),
            branch: clone_opt(&self.branch),
            tag: clone_opt(&self.tag),
            revision: clone_opt(&self.revision),
            path: clone_opt(&self.path),
            features: clone_strings(&self.features),
            optional: self.optional,
        }
    }
}

/// The source kind that the fields of a dependency stand for: a path wins
/// over a repository, and without either the dependency is a registry one.
pub open spec fn source_kind_of(d: DependencyModel) -> DependencySource {
    if d.path is Some {
        DependencySource::Path
    } else if d.git is Some {
        DependencySource::Git
    } else {
        DependencySource::Registry
    }
}

/// The model of a dependency that has only a name.
pub open spec fn bare_dependency(name: Seq<char>) -> DependencyModel {
    DependencyModel {
        name,
        version: None,
        git: None,
        branch: None,
        tag: None,
        revision: None,
        path: None,
        features: Seq::<Seq<char>>::empty(),
        optional: false,
    }
}

impl Dependency {
    /// A registry dependency with a version requirement.
    pub fn registry(name: &str, version: VersionReq) -> (r: Self)
        ensures
            r@ == (DependencyModel { version: Some(version@), ..bare_dependency(name@) }),
    {
        let r = Dependency {
            name: String::from_str(name),
            version: Some(version),
            git: None,
            branch: None,
            tag: None,
            revision: None,
            path: None,
            features: Vec::new(),
            optional: false,
        };
        assert(views(r.features@) =~= Seq::<Seq<char>>::empty());
        r
    }

    /// A git dependency on the repository at `url`.
    pub fn git(name: &str, url: &str) -> (r: Self)
        ensures
            r@ == (DependencyModel { git: Some(url@), ..bare_dependency(name@) }),
    {
        let r = Dependency {
            name: String::from_str(name),
            version: None,
            git: Some(String::from_str(url)),
            branch: None,
            tag: None,
            revision: None,
            path: None,
            features: Vec::new(),
            optional: false,
        };
        assert(views(r.features@) =~= Seq::<Seq<char>>::empty());
        r
    }

    /// A dependency on the package in the local directory `path`.
    pub fn path(name: &str, path: &str) -> (r: Self)
        ensures
            r@ == (DependencyModel { path: Some(path@), ..bare_dependency(name@) }),
    {
        let r = Dependency {
            name: String::from_str(name),
            version: None,
            git: None,
            branch: None,
            tag: None,
            revision: None,
            path: Some(String::from_str(path)),
            features: Vec::new(),
            optional: false,
        };
        assert(views(r.features@) =~= Seq::<Seq<char>>::empty());
        r
    }

    /// The same dependency on the given branch.
    pub fn with_branch(self, branch: &str) -> (r: Self)
        ensures
            r@ == (DependencyModel { branch: Some(branch@), ..self@ }),
    {
        let mut r = self;
        r.branch = Some(String::from_str(branch));
        r
    }

    /// The same dependency at the given tag.
    pub fn with_tag(self, tag: &str) -> (r: Self)
        ensures
            r@ == (DependencyModel { tag: Some(tag@), ..self@ }),
    {
        let mut r = self;
        r.tag = Some(String::from_str(tag));
        r
    }

    /// Where the dependency comes from.
    pub fn source_kind(&self) -> (r: DependencySource)
        ensures
            r == source_kind_of(self@),
    {
        if self.path.is_some() {
            DependencySource::Path
        } else if self.git.is_some() {
            DependencySource::Git
        } else {
            DependencySource::Registry
        }
    }

    /// Whether the dependency names no source of its own and is to be taken
    /// from the workspace: it has no version, no repository and no path.
    pub fn is_workspace_inherited(&self) -> (r: bool)
        ensures
            r == (self@.version is None && self@.git is None && self@.path is None),
    {
        self.version.is_none() && self.git.is_none() && self.path.is_none()
    }
}

/// A build target.
#[derive(Debug)]
pub struct Target {
    pub name: String,
    pub target_type: TargetType,
    /// Source directory, relative to the package root.
    pub path: Option<String>,
    /// Names of the targets and products this target depends on.
    pub dependencies: Vec<String>,
    pub resources: Vec<String>,
}

impl Target {
    /// Whether the target has the given name and kind and nothing else.
    pub open spec fn is_plain(&self, name: Seq<char>, kind: TargetType) -> bool {
        &&& self.name@ == name
        &&& self.target_type == kind
        &&& self.path is None
        &&& self.dependencies@.len() == 0
        &&& self.resources@.len() == 0
    }

    fn plain(name: &str, kind: TargetType) -> (r: Self)
        ensures
            r.is_plain(name@, kind),
    {
        Target {
            name: String::from_str(name),
            target_type: kind,
            path: None,
            dependencies: Vec::new(),
            resources: Vec::new(),
        }
    }

    /// An executable target.
    pub fn executable(name: &str) -> (r: Self)
        ensures
            r.is_plain(name@, TargetType::Executable),
    {
        Target::plain(name, TargetType::Executable)
    }

    /// A library target.
    pub fn library(name: &str) -> (r: Self)
        ensures
            r.is_plain(name@, TargetType::Library),
    {
        Target::plain(name, TargetType::Library)
    }

    /// A test target.
    pub fn test(name: &str) -> (r: Self)
        ensures
            r.is_plain(name@, TargetType::Test),
    {
        Target::plain(name, TargetType::Test)
    }
}

impl Clone for Target {
    fn clone(&self) -> (r: Self)
        ensures
            r.name@ == self.name@,
            r.target_type == self.target_type,
            opt_text(r.path) == opt_text(self.path),
            views(r.dependencies@) == views(self.dependencies@),
            views(r.resources@) == views(self.resources@),
    {
        Target {
            name: self.name.clone(),
            target_type: self.target_type,
            path: clone_opt(&self.path),
            dependencies: clone_strings(&self.dependencies),
            resources: clone_strings(&self.resources),
        }
    }
}

/// The identity of a package.
#[derive(Debug)]
pub struct Package {
    pub name: String,
    pub version: Version,
    /// Minimum Swift tools version required.
    pub swift_tools_version: String,
    pub description: Option<String>,
    pub license: Option<String>,
    pub authors: Vec<String>,
    pub repository: Option<String>,
}

impl Default for Package {
    fn default() -> (r: Self)
        ensures
            r.name@.len() == 0,
            r.version@ == (VersionModel {
                major: 0,
                minor: 1,
                patch: 0,
                pre: Seq::<char>::empty(),
                build: Seq::<char>::empty(),
            }),
            r.swift_tools_version@ == "5.9"@,
            r.description is None,
            r.license is None,
            r.authors@.len() == 0,
            r.repository is None,
    {
        Package {
            name: String::new(),
            version: Version::new(0, 1, 0),
            swift_tools_version: String::from_str("5.9"),
            description: None,
            license: None,
            authors: Vec::new(),
            repository: None,
        }
    }
}

/// Where the binary cache is and what may be done with it.
#[derive(Debug)]
pub struct BinaryCacheConfig {
    pub url: String,
    pub read: bool,
    pub write: bool,
}

/// Build settings of a manifest.
#[derive(Debug)]
pub struct BuildSettings {
    pub parallel_jobs: Option<usize>,
    pub incremental: Option<bool>,
    pub swift_flags: Vec<String>,
    pub c_flags: Vec<String>,
    pub link_flags: Vec<String>,
}

/// Defaults that workspace members may inherit.
#[derive(Debug)]
pub struct WorkspacePackageDefaults {
    pub swift_tools_version: Option<String>,
    pub authors: Option<Vec<String>>,
    pub license: Option<String>,
    pub repository: Option<String>,
}

/// The workspace block of a root manifest.
#[derive(Debug)]
pub struct WorkspaceConfig {
    /// Patterns of the member directories.
    pub members: Vec<String>,
    /// Patterns of the directories that are no members.
    pub exclude: Vec<String>,
    /// Dependencies that members may inherit.
    pub dependencies: NameMap<Dependency>,
    pub dev_dependencies: NameMap<Dependency>,
    pub package: Option<WorkspacePackageDefaults>,
}

impl Default for WorkspaceConfig {
    fn default() -> (r: Self)
        ensures
            r.members@.len() == 0,
            r.exclude@.len() == 0,
            r.dependencies.entries@.len() == 0,
            r.dev_dependencies.entries@.len() == 0,
            r.package is None,
    {
        WorkspaceConfig {
            members: Vec::new(),
            exclude: Vec::new(),
            dependencies: NameMap::new(),
            dev_dependencies: NameMap::new(),
            package: None,
        }
    }
}

/// A package manifest: identity, dependencies, targets and resolution hints.
#[derive(Debug)]
pub struct Manifest {
    pub package: Package,
    pub dependencies: NameMap<Dependency>,
    pub dev_dependencies: NameMap<Dependency>,
    pub targets: Vec<Target>,
    pub binary_cache: Option<BinaryCacheConfig>,
    pub build: Option<BuildSettings>,
    /// Versions forced for a package, whatever is asked of it.
    pub overrides: NameMap<String>,
    /// Requirements added to what is asked of a package.
    pub constraints: NameMap<String>,
    pub workspace: Option<WorkspaceConfig>,
}

impl Default for Manifest {
    fn default() -> (r: Self)
        ensures
            r.package.name@.len() == 0,
            r.package.version@ == (VersionModel {
                major: 0,
                minor: 1,
                patch: 0,
                pre: Seq::<char>::empty(),
                build: Seq::<char>::empty(),
            }),
            r.package.swift_tools_version@ == "5.9"@,
            r.package.description is None,
            r.package.license is None,
            r.package.authors@.len() == 0,
            r.package.repository is None,
            r.dependencies.entries@.len() == 0,
            r.dev_dependencies.entries@.len() == 0,
            r.targets@.len() == 0,
            r.binary_cache is None,
            r.build is None,
            r.overrides.entries@.len() == 0,
            r.constraints.entries@.len() == 0,
            r.workspace is None,
    {
        Manifest {
            package: Package::default(),
            dependencies: NameMap::new(),
            dev_dependencies: NameMap::new(),
            targets: Vec::new(),
            binary_cache: None,
            build: None,
            overrides: NameMap::new(),
            constraints: NameMap::new(),
            workspace: None,
        }
    }
}

/// A package of the dependency graph after resolution.
#[derive(Debug)]
pub struct ResolvedPackage {
    pub name: String,
    pub version: Version,
    pub source: DependencySource,
    /// Content hash of the sources.
    pub checksum: Option<String>,
    pub git: Option<String>,
    pub revision: Option<String>,
    pub dependencies: Vec<String>,
}

/// A platform that a package supports.
#[derive(Debug)]
pub struct Platform {
    pub name: String,
    pub version: Option<String>,
}

/// A version forced for a package.
#[derive(Debug)]
pub struct VersionOverride {
    pub package: String,
    pub version: VersionReq,
}

/// A requirement added to a package without depending on it.
#[derive(Debug)]
pub struct VersionConstraint {
    pub package: String,
    pub version: VersionReq,
}

/// Options of a resolution.
#[derive(Debug)]
pub struct ResolutionOptions {
    pub overrides: Vec<VersionOverride>,
    pub constraints: Vec<VersionConstraint>,
    pub strategy: ResolutionStrategy,
    pub prefer_prerelease: bool,
}

/// A requirement that took part in a choice.
#[derive(Debug)]
pub struct ConstraintInfo {
    /// The package that asked.
    pub from: String,
    /// What it asked for.
    pub requirement: String,
}

/// Why a package is part of a resolution.
#[derive(Debug)]
pub struct ResolutionMetadata {
    /// The packages that depend on it.
    pub required_by: Vec<String>,
    pub constraints: Vec<ConstraintInfo>,
}

impl Default for ResolutionMetadata {
    fn default() -> (r: Self)
        ensures
            r.required_by@.len() == 0,
            r.constraints@.len() == 0,
    {
        ResolutionMetadata { required_by: Vec::new(), constraints: Vec::new() }
    }
}

/// A member package of a workspace, as the manifest model sees it.
#[derive(Debug)]
pub struct WorkspaceMember {
    /// Path relative to the workspace root.
    pub path: String,
    pub absolute_path: String,
    pub name: String,
    pub manifest: Manifest,
    /// Whether the member is the workspace root itself.
    pub is_root: bool,
}

/// A workspace, as the manifest model sees it.
#[derive(Debug)]
pub struct Workspace {
    pub root: String,
    pub config: WorkspaceConfig,
    pub members: Vec<WorkspaceMember>,
    /// For each member name its position in `members`.
    pub member_index: NameMap<usize>,
}

/// How far a plugin may reach over the network.
#[derive(Debug, Clone, Copy, PartialEq, Eq, Structural)]
pub enum NetworkScope {
    /// No network access.
    Denied,
    /// Local connections on the given port.
    Local(u16),
    All,
    Docker,
}

/// A permission that a plugin asks for.
#[derive(Debug, PartialEq, Eq)]
pub enum PluginPermission {
    WriteToPackageDirectory { reason: String },
    AllowNetworkConnections { scope: NetworkScope, reason: String },
}

/// What a command plugin is for.
#[derive(Debug, PartialEq, Eq)]
pub enum CommandIntent {
    DocumentationGeneration,
    SourceCodeFormatting,
    Custom { verb: String, description: String },
}

/// The intent and permissions of a command plugin.
#[derive(Debug, PartialEq, Eq)]
pub struct CommandPluginCapability {
    pub intent: CommandIntent,
    pub permissions: Vec<PluginPermission>,
}

/// What a plugin can do.
#[derive(Debug, PartialEq, Eq)]
pub enum PluginCapability {
    /// Runs during the build and generates sources or resources.
    BuildTool,
    /// Adds a command.
    Command(CommandPluginCapability),
}

/// A plugin found in a package.
#[derive(Debug)]
pub struct DiscoveredPlugin {
    pub name: String,
    pub providing_package: String,
    pub capability: PluginCapability,
    pub executable_path: String,
    pub source_path: String,
}

} // verus!
