//! Manifests: which file describes a package, and what its dependency
//! entries mean.

use vstd::prelude::*;
use crate::json::{
    deref, first_in, first_of, get_in, items_of, member, str_in, text_of, Json,
};
use crate::paths::{join_path, joined};
use crate::text::{concat, debug_list, format_debug_list, str_eq, views};
use crate::namemap::{reversed, NameMap};
use crate::types::{
    bare_dependency, opt_text, BinaryCacheConfig, BuildSettings, Dependency, DependencyModel,
    Manifest, Package, Target, TargetType, WorkspaceConfig, WorkspacePackageDefaults,
};
use crate::version::{
    semver_requirement, semver_version, version_text, Version, VersionModel, VersionReq,
};
use crate::workspace::{dependency_entries, lemma_put_matches_insert, put};

verus! {

/// What can go wrong with a manifest.
#[derive(Debug)]
pub enum ManifestError {
    /// The directory holds no manifest.
    NotFound(String),
    ReadError(String),
    TomlError(String),
    SwiftParseError(String),
    ValidationError(String),
}

/// The message of an error.
pub open spec fn manifest_error_text(e: ManifestError) -> Seq<char> {
    match e {
        ManifestError::NotFound(p) => "Manifest not found in "@ + p@,
        ManifestError::ReadError(m) => "Failed to read manifest: "@ + m@,
        ManifestError::TomlError(m) => "Failed to parse TOML: "@ + m@,
        ManifestError::SwiftParseError(m) => "Failed to parse Package.swift: "@ + m@,
        ManifestError::ValidationError(m) => "Invalid manifest: "@ + m@,
    }
}

impl ManifestError {
    /// The message of the error.
    pub fn to_string(&self) -> (out: String)
        ensures
            out@ == manifest_error_text(*self),
    {
        match self {
            ManifestError::NotFound(p) => concat("Manifest not found in ", p.as_str()),
            ManifestError::ReadError(m) => concat("Failed to read manifest: ", m.as_str()),
            ManifestError::TomlError(m) => concat("Failed to parse TOML: ", m.as_str()),
            ManifestError::SwiftParseError(m) => concat(
                "Failed to parse Package.swift: ",
                m.as_str(),
            ),
            ManifestError::ValidationError(m) => concat("Invalid manifest: ", m.as_str()),
        }
    }
}

/// The kind of a manifest file.
#[derive(Debug, Clone, Copy, PartialEq, Eq, Structural)]
pub enum ManifestType {
    /// `Gust.toml`, the native manifest.
    GustToml,
    /// `Package.swift`, the manifest of the Swift toolchain.
    PackageSwift,
}

impl ManifestType {
    /// The name of the manifest file.
    pub open spec fn file(self) -> Seq<char> {
        match self {
            ManifestType::GustToml => "Gust.toml"@,
            ManifestType::PackageSwift => "Package.swift"@,
        }
    }

    /// The name of the manifest file.
    pub fn file_name(&self) -> (r: &'static str)
        ensures
            r@ == self.file(),
    {
        match self {
            ManifestType::GustToml => "Gust.toml",
            ManifestType::PackageSwift => "Package.swift",
        }
    }
}

/// Which manifest of the directory `dir` counts, given which files are
/// there: the native one where there is one, else the foreign one. The
/// result holds the path of the file.
pub fn find_manifest(dir: &str, has_gust_toml: bool, has_package_swift: bool) -> (r: Result<
    (ManifestType, String),
    ManifestError,
>)
    ensures
        match r {
            Ok((kind, path)) => {
                &&& kind == (if has_gust_toml {
                    ManifestType::GustToml
                } else {
                    ManifestType::PackageSwift
                })
                &&& has_gust_toml || has_package_swift
                &&& path@ == joined(dir@, kind.file())
            },
            Err(e) => {
                &&& !has_gust_toml
                &&& !has_package_swift
                &&& e matches ManifestError::NotFound(p)
                &&& p@ == dir@
            },
        },
{
    if has_gust_toml {
        Ok((ManifestType::GustToml, join_path(dir, "Gust.toml")))
    } else if has_package_swift {
        Ok((ManifestType::PackageSwift, join_path(dir, "Package.swift")))
    } else {
        Err(ManifestError::NotFound(String::from_str(dir)))
    }
}

/// A dependency entry as the manifest file holds it.
#[derive(Debug)]
pub enum RawDependency {
    /// A version requirement alone, such as `"1.0"`.
    Version(String),
    /// A table of the fields of a dependency.
    Full {
        version: Option<String>,
        git: Option<String>,
        branch: Option<String>,
        tag: Option<String>,
        revision: Option<String>,
        path: Option<String>,
        features: Vec<String>,
        optional: bool,
    },
}

/// The message for a requirement of `name` that is none.
pub open spec fn invalid_version_text(name: Seq<char>, reason: Seq<char>) -> Seq<char> {
    "Invalid version for "@ + name + ": "@ + reason
}

/// The message for an entry of `name` without a source.
pub open spec fn missing_source_text(name: Seq<char>) -> Seq<char> {
    "Dependency "@ + name + " must have version, git, or path"@
}

/// What a dependency entry means.
///
/// A requirement alone makes a registry dependency. In a table a path
/// comes first, then a repository with its branch, tag and revision, then
/// a requirement; a table with none of them is an error, and so is a
/// requirement that does not parse. Features and the optional mark carry
/// over from the table.
pub open spec fn dependency_of(name: Seq<char>, raw: RawDependency) -> Result<
    DependencyModel,
    Seq<char>,
> {
    match raw {
        RawDependency::Version(v) => match semver_requirement(v@) {
            Ok(req) => Ok(DependencyModel { version: Some(req), ..bare_dependency(name) }),
            Err(reason) => Err(invalid_version_text(name, reason)),
        },
        RawDependency::Full { version, git, branch, tag, revision, path, features, optional } => {
            if path is Some {
                Ok(
                    DependencyModel {
                        path: opt_text(path),
                        features: views(features@),
                        optional,
                        ..bare_dependency(name)
                    },
                )
            } else if git is Some {
                Ok(
                    DependencyModel {
                        git: opt_text(git),
                        branch: opt_text(branch),
                        tag: opt_text(tag),
                        revision: opt_text(revision),
                        features: views(features@),
                        optional,
                        ..bare_dependency(name)
                    },
                )
            } else if version is Some {
                match semver_requirement(version->0@) {
                    Ok(req) => Ok(
                        DependencyModel {
                            version: Some(req),
                            features: views(features@),
                            optional,
                            ..bare_dependency(name)
                        },
                    ),
                    Err(reason) => Err(invalid_version_text(name, reason)),
                }
            } else {
                Err(missing_source_text(name))
            }
        },
    }
}

fn invalid_version(name: &str, reason: &str) -> (e: ManifestError)
    ensures
        e matches ManifestError::ValidationError(m) && m@ == invalid_version_text(name@, reason@),
{
    let mut m = String::from_str("Invalid version for ");
    m.append(name);
    m.append(": ");
    m.append(reason);
    ManifestError::ValidationError(m)
}

/// What the dependency entry `raw` of `name` means.
pub fn parse_raw_dependency(name: &str, raw: RawDependency) -> (r: Result<
    Dependency,
    ManifestError,
>)
    ensures
        match r {
            Ok(dep) => dependency_of(name@, raw) == Ok::<DependencyModel, Seq<char>>(dep@),
            Err(e) => e matches ManifestError::ValidationError(m) && dependency_of(name@, raw)
                == Err::<DependencyModel, Seq<char>>(m@),
        },
{
    match raw {
        RawDependency::Version(v) => match VersionReq::parse(v.as_str()) {
            Ok(req) => Ok(Dependency::registry(name, req)),
            Err(reason) => Err(invalid_version(name, reason.as_str())),
        },
        RawDependency::Full { version, git, branch, tag, revision, path, features, optional } => {
            let mut dep = match path {
                Some(p) => Dependency::path(name, p.as_str()),
                None => match git {
                    Some(url) => {
                        let mut d = Dependency::git(name, url.as_str());
                        d.branch = branch;
                        d.tag = tag;
                        d.revision = revision;
                        d
                    },
                    None => match version {
                        Some(v) => match VersionReq::parse(v.as_str()) {
                            Ok(req) => Dependency::registry(name, req),
                            Err(reason) => {
                                return Err(invalid_version(name, reason.as_str()));
                            },
                        },
                        None => {
                            let mut m = String::from_str("Dependency ");
                            m.append(name);
                            m.append(" must have version, git, or path");
                            return Err(ManifestError::ValidationError(m));
                        },
                    },
                },
            };
            dep.features = features;
            dep.optional = optional;
            Ok(dep)
        },
    }
}

/// The kind of target that a name of the manifest file stands for, if it
/// stands for one.
pub open spec fn target_kind(name: Seq<char>) -> Option<TargetType> {
    if name == "executable"@ {
        Some(TargetType::Executable)
    } else if name == "library"@ {
        Some(TargetType::Library)
    } else if name == "test"@ {
        Some(TargetType::Test)
    } else if name == "plugin"@ {
        Some(TargetType::Plugin)
    } else {
        None
    }
}

/// The kind of target that a name of the manifest file stands for.
pub fn parse_target_type(name: &str) -> (r: Result<TargetType, ManifestError>)
    ensures
        match r {
            Ok(kind) => target_kind(name@) == Some(kind),
            Err(e) => {
                &&& target_kind(name@) is None
                &&& e matches ManifestError::ValidationError(m)
                &&& m@ == "Unknown target type: "@ + name@
            },
        },
{
    if str_eq(name, "executable") {
        Ok(TargetType::Executable)
    } else if str_eq(name, "library") {
        Ok(TargetType::Library)
    } else if str_eq(name, "test") {
        Ok(TargetType::Test)
    } else if str_eq(name, "plugin") {
        Ok(TargetType::Plugin)
    } else {
        Err(ManifestError::ValidationError(concat("Unknown target type: ", name)))
    }
}

/// The identity of a package as the manifest file holds it.
#[derive(Debug)]
pub struct RawPackage {
    pub name: String,
    pub version: String,
    pub swift_tools_version: String,
    pub description: Option<String>,
    pub license: Option<String>,
    pub authors: Vec<String>,
    pub repository: Option<String>,
}

/// A target as the manifest file holds it.
#[derive(Debug)]
pub struct RawTarget {
    pub name: String,
    /// The name of the kind of target.
    pub target_type: String,
    pub path: Option<String>,
    pub dependencies: Vec<String>,
}

/// The workspace block as the manifest file holds it.
#[derive(Debug)]
pub struct RawWorkspace {
    pub members: Vec<String>,
    pub exclude: Vec<String>,
    pub dependencies: Vec<(String, RawDependency)>,
    pub package_defaults: Option<WorkspacePackageDefaults>,
}

/// A manifest as the manifest file holds it, before its entries are read.
#[derive(Debug)]
pub struct RawManifest {
    pub package: RawPackage,
    pub dependencies: Vec<(String, RawDependency)>,
    pub dev_dependencies: Vec<(String, RawDependency)>,
    pub targets: Vec<RawTarget>,
    pub binary_cache: Option<BinaryCacheConfig>,
    pub build: Option<BuildSettings>,
    pub overrides: NameMap<String>,
    pub constraints: NameMap<String>,
    pub workspace: Option<RawWorkspace>,
}

/// What the first `upto` dependency entries mean, each put under its
/// name: the dependencies, or the message of the first entry that means
/// nothing.
pub open spec fn strict_entries(raws: Seq<(String, RawDependency)>, upto: int) -> Result<
    Seq<(Seq<char>, DependencyModel)>,
    Seq<char>,
>
    decreases upto,
{
    if upto <= 0 {
        Ok(Seq::<(Seq<char>, DependencyModel)>::empty())
    } else {
        match strict_entries(raws, upto - 1) {
            Err(m) => Err(m),
            Ok(rest) => match dependency_of(raws[upto - 1].0@, raws[upto - 1].1) {
                Ok(dep) => Ok(put(rest, raws[upto - 1].0@, dep)),
                Err(m) => Err(m),
            },
        }
    }
}

/// What the first `upto` dependency entries mean, each put under its
/// name, entries that mean nothing left out.
pub open spec fn lenient_entries(raws: Seq<(String, RawDependency)>, upto: int) -> Seq<
    (Seq<char>, DependencyModel),
>
    decreases upto,
{
    if upto <= 0 {
        Seq::<(Seq<char>, DependencyModel)>::empty()
    } else {
        let rest = lenient_entries(raws, upto - 1);
        match dependency_of(raws[upto - 1].0@, raws[upto - 1].1) {
            Ok(dep) => put(rest, raws[upto - 1].0@, dep),
            Err(_) => rest,
        }
    }
}

/// The message of the first of the first `upto` targets whose kind is
/// unknown.
pub open spec fn targets_error(raws: Seq<RawTarget>, upto: int) -> Option<Seq<char>>
    decreases upto,
{
    if upto <= 0 {
        None
    } else {
        match targets_error(raws, upto - 1) {
            Some(m) => Some(m),
            None => if target_kind(raws[upto - 1].target_type@) is None {
                Some("Unknown target type: "@ + raws[upto - 1].target_type@)
            } else {
                None
            },
        }
    }
}

/// Whether `target` is the target that `raw` describes.
pub open spec fn is_target_of(raw: RawTarget, target: Target) -> bool {
    &&& target.name == raw.name
    &&& Some(target.target_type) == target_kind(raw.target_type@)
    &&& target.path == raw.path
    &&& target.dependencies == raw.dependencies
    &&& target.resources@.len() == 0
}

/// The message for a package version that is none.
pub open spec fn invalid_package_version_text(reason: Seq<char>) -> Seq<char> {
    "Invalid version: "@ + reason
}

/// What is wrong with a manifest file, if anything: the version of the
/// package first, then the dependencies, the development dependencies and
/// the targets, each in order. Entries of the workspace block that mean
/// nothing are no error.
pub open spec fn raw_error(raw: RawManifest) -> Option<Seq<char>> {
    match semver_version(raw.package.version@) {
        Err(reason) => Some(invalid_package_version_text(reason)),
        Ok(_) => match strict_entries(raw.dependencies@, raw.dependencies@.len() as int) {
            Err(m) => Some(m),
            Ok(_) => match strict_entries(
                raw.dev_dependencies@,
                raw.dev_dependencies@.len() as int,
            ) {
                Err(m) => Some(m),
                Ok(_) => targets_error(raw.targets@, raw.targets@.len() as int),
            },
        },
    }
}

/// Whether `config` is the workspace block that `raw` describes.
pub open spec fn is_workspace_of(raw: RawWorkspace, config: WorkspaceConfig) -> bool {
    &&& config.members == raw.members
    &&& config.exclude == raw.exclude
    &&& dependency_entries(config.dependencies.entries@) == lenient_entries(
        raw.dependencies@,
        raw.dependencies@.len() as int,
    )
    &&& config.dev_dependencies.entries@.len() == 0
    &&& config.package == raw.package_defaults
}

/// Whether `m` is the manifest that the file `raw` describes.
pub open spec fn is_manifest_of(raw: RawManifest, m: Manifest) -> bool {
    &&& m.package.name == raw.package.name
    &&& semver_version(raw.package.version@) == Ok::<VersionModel, Seq<char>>(m.package.version@)
    &&& m.package.swift_tools_version == raw.package.swift_tools_version
    &&& m.package.description == raw.package.description
    &&& m.package.license == raw.package.license
    &&& m.package.authors == raw.package.authors
    &&& m.package.repository == raw.package.repository
    &&& strict_entries(raw.dependencies@, raw.dependencies@.len() as int) == Ok::<
        Seq<(Seq<char>, DependencyModel)>,
        Seq<char>,
    >(dependency_entries(m.dependencies.entries@))
    &&& strict_entries(raw.dev_dependencies@, raw.dev_dependencies@.len() as int) == Ok::<
        Seq<(Seq<char>, DependencyModel)>,
        Seq<char>,
    >(dependency_entries(m.dev_dependencies.entries@))
    &&& m.targets@.len() == raw.targets@.len()
    &&& forall|i: int|
        0 <= i < raw.targets@.len() ==> is_target_of(raw.targets@[i], #[trigger] m.targets@[i])
    &&& m.binary_cache == raw.binary_cache
    &&& m.build == raw.build
    &&& m.overrides == raw.overrides
    &&& m.constraints == raw.constraints
    &&& match raw.workspace {
        Some(w) => m.workspace matches Some(config) && is_workspace_of(w, config),
        None => m.workspace is None,
    }
}

fn strict_dependencies(raws: Vec<(String, RawDependency)>) -> (r: Result<
    NameMap<Dependency>,
    ManifestError,
>)
    ensures
        match r {
            Ok(m) => strict_entries(raws@, raws@.len() as int) == Ok::<
                Seq<(Seq<char>, DependencyModel)>,
                Seq<char>,
            >(dependency_entries(m.entries@)),
            Err(e) => e matches ManifestError::ValidationError(m) && strict_entries(
                raws@,
                raws@.len() as int,
            ) == Err::<Seq<(Seq<char>, DependencyModel)>, Seq<char>>(m@),
        },
{
    let ghost all = raws@;
    let mut input = reversed(raws);
    let mut out: NameMap<Dependency> = NameMap::new();
    let ghost mut done: int = 0;
    assert(dependency_entries(out.entries@) =~= Seq::<(Seq<char>, DependencyModel)>::empty());
    while input.len() > 0
        invariant
            0 <= done <= all.len(),
            input@.len() == all.len() - done,
            forall|j: int| 0 <= j < input@.len() ==> input@[j] == all[all.len() - 1 - j],
            all == raws@,
            strict_entries(all, done) == Ok::<Seq<(Seq<char>, DependencyModel)>, Seq<char>>(
                dependency_entries(out.entries@),
            ),
        decreases input@.len(),
    {
        let (name, raw) = input.pop().unwrap();
        assert((name, raw) == all[done]);
        match parse_raw_dependency(name.as_str(), raw) {
            Ok(dep) => {
                let ghost before = out.entries@;
                let ghost value = dep@;
                out.insert(name, dep);
                proof {
                    if crate::namemap::has_name(before, name@) {
                        crate::namemap::lemma_first_exists(before, name@);
                    }
                    lemma_put_matches_insert(before, out.entries@, name@, value);
                }
            },
            Err(e) => {
                proof {
                    assert(dependency_of(all[done].0@, all[done].1) is Err);
                    assert(strict_entries(all, done + 1) is Err);
                    assert(strict_entries(all, done + 1)->Err_0 == dependency_of(
                        all[done].0@,
                        all[done].1,
                    )->Err_0);
                    lemma_strict_error_stays(all, done + 1, all.len() as int);
                }
                return Err(e);
            },
        }
        proof {
            done = done + 1;
        }
    }
    Ok(out)
}

proof fn lemma_strict_error_stays(raws: Seq<(String, RawDependency)>, from: int, upto: int)
    requires
        from <= upto,
        strict_entries(raws, from) is Err,
    ensures
        strict_entries(raws, upto) == strict_entries(raws, from),
    decreases upto - from,
{
    if from < upto {
        lemma_strict_error_stays(raws, from, upto - 1);
    }
}

fn lenient_dependencies(raws: Vec<(String, RawDependency)>) -> (out: NameMap<Dependency>)
    ensures
        dependency_entries(out.entries@) == lenient_entries(raws@, raws@.len() as int),
{
    let ghost all = raws@;
    let mut input = reversed(raws);
    let mut out: NameMap<Dependency> = NameMap::new();
    let ghost mut done: int = 0;
    assert(dependency_entries(out.entries@) =~= Seq::<(Seq<char>, DependencyModel)>::empty());
    while input.len() > 0
        invariant
            0 <= done <= all.len(),
            input@.len() == all.len() - done,
            forall|j: int| 0 <= j < input@.len() ==> input@[j] == all[all.len() - 1 - j],
            dependency_entries(out.entries@) == lenient_entries(all, done),
        decreases input@.len(),
    {
        let (name, raw) = input.pop().unwrap();
        assert((name, raw) == all[done]);
        match parse_raw_dependency(name.as_str(), raw) {
            Ok(dep) => {
                let ghost before = out.entries@;
                let ghost value = dep@;
                out.insert(name, dep);
                proof {
                    if crate::namemap::has_name(before, name@) {
                        crate::namemap::lemma_first_exists(before, name@);
                    }
                    lemma_put_matches_insert(before, out.entries@, name@, value);
                }
            },
            Err(_) => {},
        }
        proof {
            done = done + 1;
        }
    }
    out
}

proof fn lemma_targets_error_stays(raws: Seq<RawTarget>, from: int, upto: int)
    requires
        from <= upto,
        targets_error(raws, from) is Some,
    ensures
        targets_error(raws, upto) == targets_error(raws, from),
    decreases upto - from,
{
    if from < upto {
        lemma_targets_error_stays(raws, from, upto - 1);
    }
}

fn targets_of(raws: Vec<RawTarget>) -> (r: Result<Vec<Target>, ManifestError>)
    ensures
        match r {
            Ok(targets) => {
                &&& targets_error(raws@, raws@.len() as int) is None
                &&& targets@.len() == raws@.len()
                &&& forall|i: int|
                    0 <= i < raws@.len() ==> is_target_of(raws@[i], #[trigger] targets@[i])
            },
            Err(e) => e matches ManifestError::ValidationError(m) && targets_error(
                raws@,
                raws@.len() as int,
            ) == Some(m@),
        },
{
    let ghost all = raws@;
    let mut input = reversed(raws);
    let mut out: Vec<Target> = Vec::new();
    while input.len() > 0
        invariant
            out@.len() <= all.len(),
            input@.len() == all.len() - out@.len(),
            forall|j: int| 0 <= j < input@.len() ==> input@[j] == all[all.len() - 1 - j],
            all == raws@,
            targets_error(all, out@.len() as int) is None,
            forall|i: int| 0 <= i < out@.len() ==> is_target_of(all[i], #[trigger] out@[i]),
        decreases input@.len(),
    {
        let ghost done = out@.len() as int;
        let raw = input.pop().unwrap();
        assert(raw == all[done]);
        let kind = match parse_target_type(raw.target_type.as_str()) {
            Ok(kind) => kind,
            Err(e) => {
                proof {
                    assert(target_kind(all[done].target_type@) is None);
                    assert(targets_error(all, done + 1) == Some(
                        "Unknown target type: "@ + all[done].target_type@,
                    ));
                    lemma_targets_error_stays(all, done + 1, all.len() as int);
                }
                return Err(e);
            },
        };
        let RawTarget { name, target_type: _, path, dependencies } = raw;
        out.push(Target { name, target_type: kind, path, dependencies, resources: Vec::new() });
    }
    Ok(out)
}

/// Reads the entries of a manifest file: the version of the package, what
/// each dependency entry means, and the kind of each target. The first
/// entry that means nothing is the error, see `raw_error`; otherwise the
/// manifest holds what the file holds, see `is_manifest_of`.
pub fn manifest_of_raw(raw: RawManifest) -> (r: Result<Manifest, ManifestError>)
    ensures
        match r {
            Ok(m) => raw_error(raw) is None && is_manifest_of(raw, m),
            Err(e) => e matches ManifestError::ValidationError(msg) && raw_error(raw) == Some(
                msg@,
            ),
        },
{
    let RawManifest {
        package,
        dependencies,
        dev_dependencies,
        targets,
        binary_cache,
        build,
        overrides,
        constraints,
        workspace,
    } = raw;
    let version = match Version::parse(package.version.as_str()) {
        Ok(v) => v,
        Err(reason) => {
            return Err(
                ManifestError::ValidationError(concat("Invalid version: ", reason.as_str())),
            );
        },
    };
    let dependencies = match strict_dependencies(dependencies) {
        Ok(d) => d,
        Err(e) => {
            return Err(e);
        },
    };
    let dev_dependencies = match strict_dependencies(dev_dependencies) {
        Ok(d) => d,
        Err(e) => {
            return Err(e);
        },
    };
    let targets = match targets_of(targets) {
        Ok(t) => t,
        Err(e) => {
            return Err(e);
        },
    };
    let workspace = match workspace {
        Some(w) => {
            let RawWorkspace { members, exclude, dependencies: shared, package_defaults } = w;
            Some(
                WorkspaceConfig {
                    members,
                    exclude,
                    dependencies: lenient_dependencies(shared),
                    dev_dependencies: NameMap::new(),
                    package: package_defaults,
                },
            )
        },
        None => None,
    };
    let RawPackage {
        name,
        version: _,
        swift_tools_version,
        description,
        license,
        authors,
        repository,
    } = package;
    Ok(
        Manifest {
            package: Package {
                name,
                version,
                swift_tools_version,
                description,
                license,
                authors,
                repository,
            },
            dependencies,
            dev_dependencies,
            targets,
            binary_cache,
            build,
            overrides,
            constraints,
            workspace,
        },
    )
}

/// The name of a kind of target in lower case.
pub open spec fn target_type_name(kind: TargetType) -> Seq<char> {
    match kind {
        TargetType::Executable => "executable"@,
        TargetType::Library => "library"@,
        TargetType::Test => "test"@,
        TargetType::Plugin => "plugin"@,
        TargetType::SystemLibrary => "systemlibrary"@,
        TargetType::Binary => "binary"@,
    }
}

/// The lines of the dependencies of a native manifest: a requirement as
/// text, a repository as a table; other dependencies are left out.
pub open spec fn dependency_lines(deps: Seq<(String, Dependency)>) -> Seq<char>
    decreases deps.len(),
{
    if deps.len() == 0 {
        Seq::<char>::empty()
    } else {
        let rest = dependency_lines(deps.drop_last());
        let name = deps.last().0@;
        let dep = deps.last().1@;
        if dep.version is Some {
            rest + name + " = \""@ + dep.version->0 + "\"\n"@
        } else if dep.git is Some {
            rest + name + " = { git = \""@ + dep.git->0 + "\" }\n"@
        } else {
            rest
        }
    }
}

/// The sections of the targets of a native manifest.
pub open spec fn target_sections(targets: Seq<crate::types::Target>) -> Seq<char>
    decreases targets.len(),
{
    if targets.len() == 0 {
        Seq::<char>::empty()
    } else {
        let t = targets.last();
        target_sections(targets.drop_last()) + "\n[[target]]\n"@ + "name = \""@ + t.name@ + "\"\n"@
            + "type = \""@ + target_type_name(t.target_type) + "\"\n"@ + (if t.dependencies@.len()
            > 0 {
            "dependencies = "@ + debug_list(views(t.dependencies@)) + "\n"@
        } else {
            Seq::<char>::empty()
        })
    }
}

/// A manifest written as a native manifest file.
pub open spec fn gust_toml_text(m: Manifest) -> Seq<char> {
    "[package]\n"@ + "name = \""@ + m.package.name@ + "\"\n"@ + "version = \""@ + version_text(
        m.package.version@,
    ) + "\"\n"@ + "swift-tools-version = \""@ + m.package.swift_tools_version@ + "\"\n"@ + (match m.package.description {
        Some(d) => "description = \""@ + d@ + "\"\n"@,
        None => Seq::<char>::empty(),
    }) + (if m.dependencies.entries@.len() > 0 {
        "\n[dependencies]\n"@ + dependency_lines(m.dependencies.entries@)
    } else {
        Seq::<char>::empty()
    }) + target_sections(m.targets@)
}

/// Writes a manifest as a native manifest file.
pub fn generate_gust_toml(manifest: &Manifest) -> (out: String)
    ensures
        out@ == gust_toml_text(*manifest),
{
    let mut out = String::from_str("[package]\n");
    out.append("name = \"");
    out.append(manifest.package.name.as_str());
    out.append("\"\n");
    out.append("version = \"");
    out.append(manifest.package.version.to_string().as_str());
    out.append("\"\n");
    out.append("swift-tools-version = \"");
    out.append(manifest.package.swift_tools_version.as_str());
    out.append("\"\n");
    match &manifest.package.description {
        Some(d) => {
            out.append("description = \"");
            out.append(d.as_str());
            out.append("\"\n");
        },
        None => {},
    }
    let ghost head = out@;
    let deps = &manifest.dependencies.entries;
    if deps.len() > 0 {
        out.append("\n[dependencies]\n");
        let ghost start = out@;
        let mut i: usize = 0;
        assert(out@ =~= start + dependency_lines(deps@.take(0)));
        while i < deps.len()
            invariant
                i <= deps@.len(),
                out@ == start + dependency_lines(deps@.take(i as int)),
            decreases deps@.len() - i,
        {
            proof {
                let t = deps@.take(i + 1);
                assert(t.drop_last() =~= deps@.take(i as int));
                assert(t.last() == deps@[i as int]);
            }
            let name = deps[i].0.as_str();
            let dep = &deps[i].1;
            match &dep.version {
                Some(v) => {
                    out.append(name);
                    out.append(" = \"");
                    out.append(v.to_string().as_str());
                    out.append("\"\n");
                },
                None => match &dep.git {
                    Some(url) => {
                        out.append(name);
                        out.append(" = { git = \"");
                        out.append(url.as_str());
                        out.append("\" }\n");
                    },
                    None => {},
                },
            }
            assert(out@ =~= start + dependency_lines(deps@.take(i + 1)));
            i = i + 1;
        }
        assert(deps@.take(i as int) =~= deps@);
    }
    let ghost middle = out@;
    let mut k: usize = 0;
    assert(out@ =~= middle + target_sections(manifest.targets@.take(0)));
    while k < manifest.targets.len()
        invariant
            k <= manifest.targets@.len(),
            out@ == middle + target_sections(manifest.targets@.take(k as int)),
        decreases manifest.targets@.len() - k,
    {
        proof {
            let t = manifest.targets@.take(k + 1);
            assert(t.drop_last() =~= manifest.targets@.take(k as int));
            assert(t.last() == manifest.targets@[k as int]);
        }
        let target = &manifest.targets[k];
        out.append("\n[[target]]\n");
        out.append("name = \"");
        out.append(target.name.as_str());
        out.append("\"\n");
        out.append("type = \"");
        out.append(
            match target.target_type {
                TargetType::Executable => "executable",
                TargetType::Library => "library",
                TargetType::Test => "test",
                TargetType::Plugin => "plugin",
                TargetType::SystemLibrary => "systemlibrary",
                TargetType::Binary => "binary",
            },
        );
        out.append("\"\n");
        if target.dependencies.len() > 0 {
            out.append("dependencies = ");
            out.append(format_debug_list(&target.dependencies).as_str());
            out.append("\n");
        }
        assert(out@ =~= middle + target_sections(manifest.targets@.take(k + 1)));
        k = k + 1;
    }
    assert(manifest.targets@.take(k as int) =~= manifest.targets@);
    out
}

/// A package whose manifest was read while dependencies were discovered.
#[derive(Debug)]
pub struct ParsedDependency {
    pub name: String,
    /// The directory of the package.
    pub path: String,
    pub manifest: Manifest,
    /// The names of the packages that the manifest depends on.
    pub dependency_names: Vec<String>,
}

/// A list of names with more names added at the end, each once.
pub open spec fn with_new_names(known: Seq<Seq<char>>, more: Seq<Seq<char>>) -> Seq<Seq<char>>
    decreases more.len(),
{
    if more.len() == 0 {
        known
    } else {
        let rest = with_new_names(known, more.drop_last());
        if rest.contains(more.last()) {
            rest
        } else {
            rest.push(more.last())
        }
    }
}

/// The names of the dependencies of a manifest, in order.
pub open spec fn manifest_dependency_names(m: Manifest) -> Seq<Seq<char>> {
    Seq::new(m.dependencies.entries@.len(), |i: int| m.dependencies.entries@[i].0@)
}

/// The positions, among the first `upto` results, of the packages whose
/// manifest could be read.
pub open spec fn parsed_positions(
    results: Seq<(String, String, Result<Manifest, ManifestError>)>,
    upto: int,
) -> Seq<int>
    decreases upto,
{
    if upto <= 0 {
        Seq::<int>::empty()
    } else {
        let rest = parsed_positions(results, upto - 1);
        if results[upto - 1].2 is Ok {
            rest.push(upto - 1)
        } else {
            rest
        }
    }
}

/// Whether `p` is what was read of the package at position `at`: its name,
/// its directory and its manifest, with the names of the dependencies of
/// the manifest.
pub open spec fn is_parsed(
    results: Seq<(String, String, Result<Manifest, ManifestError>)>,
    at: int,
    p: ParsedDependency,
) -> bool {
    &&& 0 <= at < results.len()
    &&& p.name == results[at].0
    &&& p.path == results[at].1
    &&& results[at].2 == Ok::<Manifest, ManifestError>(p.manifest)
    &&& views(p.dependency_names@) == manifest_dependency_names(p.manifest)
}

/// The names that the manifests among the first `upto` results depend on,
/// each once, in the order in which they turn up.
pub open spec fn discovered_names(
    results: Seq<(String, String, Result<Manifest, ManifestError>)>,
    upto: int,
) -> Seq<Seq<char>>
    decreases upto,
{
    if upto <= 0 {
        Seq::<Seq<char>>::empty()
    } else {
        let rest = discovered_names(results, upto - 1);
        match results[upto - 1].2 {
            Ok(m) => with_new_names(rest, manifest_dependency_names(m)),
            Err(_) => rest,
        }
    }
}

fn knows_name(names: &Vec<String>, name: &str) -> (r: bool)
    ensures
        r == views(names@).contains(name@),
{
    let mut i: usize = 0;
    while i < names.len()
        invariant
            i <= names@.len(),
            forall|j: int| 0 <= j < i ==> names@[j]@ != name@,
        decreases names@.len() - i,
    {
        if str_eq(names[i].as_str(), name) {
            assert(views(names@)[i as int] == name@);
            return true;
        }
        i = i + 1;
    }
    assert forall|j: int| 0 <= j < views(names@).len() implies views(names@)[j] != name@ by {
        assert(views(names@)[j] == names@[j]@);
    }
    false
}

/// Gathers what was learnt from reading the manifests of packages: the
/// packages whose manifest could be read, each with the names of its
/// dependencies, and all names that turned up, each once. A package whose
/// manifest could not be read is passed over.
pub fn collect_parsed(results: Vec<(String, String, Result<Manifest, ManifestError>)>) -> (r: (
    Vec<ParsedDependency>,
    Vec<String>,
))
    ensures
        r.0@.len() == parsed_positions(results@, results@.len() as int).len(),
        forall|k: int|
            0 <= k < r.0@.len() ==> is_parsed(
                results@,
                parsed_positions(results@, results@.len() as int)[k],
                #[trigger] r.0@[k],
            ),
        views(r.1@) == discovered_names(results@, results@.len() as int),
{
    let mut parsed: Vec<ParsedDependency> = Vec::new();
    let mut discovered: Vec<String> = Vec::new();
    let ghost all = results@;
    let mut input: Vec<(String, String, Result<Manifest, ManifestError>)> = Vec::new();
    let mut rest = results;
    while rest.len() > 0
        invariant
            input@.len() + rest@.len() == all.len(),
            forall|j: int| 0 <= j < rest@.len() ==> rest@[j] == all[j],
            forall|j: int| 0 <= j < input@.len() ==> input@[j] == all[all.len() - 1 - j],
        decreases rest@.len(),
    {
        let x = rest.pop().unwrap();
        input.push(x);
    }
    let ghost mut done: int = 0;
    assert(views(discovered@) =~= discovered_names(all, 0));
    while input.len() > 0
        invariant
            0 <= done <= all.len(),
            input@.len() == all.len() - done,
            forall|j: int| 0 <= j < input@.len() ==> input@[j] == all[all.len() - 1 - j],
            parsed@.len() == parsed_positions(all, done).len(),
            views(discovered@) == discovered_names(all, done),
            forall|k: int|
                0 <= k < parsed@.len() ==> is_parsed(
                    all,
                    parsed_positions(all, done)[k],
                    #[trigger] parsed@[k],
                ),
        decreases input@.len(),
    {
        let (name, dir, result) = input.pop().unwrap();
        assert((name, dir, result) == all[done]);
        let ghost before = parsed@;
        let ghost places = parsed_positions(all, done);
        assert(parsed_positions(all, done + 1) == (if all[done].2 is Ok {
            places.push(done)
        } else {
            places
        }));
        match result {
            Ok(manifest) => {
                let ghost wanted = manifest_dependency_names(manifest);
                let ghost start = views(discovered@);
                let mut names: Vec<String> = Vec::new();
                let mut i: usize = 0;
                assert(wanted.take(0) =~= Seq::<Seq<char>>::empty());
                while i < manifest.dependencies.entries.len()
                    invariant
                        i <= manifest.dependencies.entries@.len(),
                        wanted == manifest_dependency_names(manifest),
                        names@.len() == i,
                        forall|j: int| 0 <= j < i ==> names@[j]@ == wanted[j],
                        views(discovered@) == with_new_names(start, wanted.take(i as int)),
                    decreases manifest.dependencies.entries@.len() - i,
                {
                    let dep_name = manifest.dependencies.entries[i].0.as_str();
                    proof {
                        let t = wanted.take(i + 1);
                        assert(t.drop_last() =~= wanted.take(i as int));
                        assert(t.last() == dep_name@);
                    }
                    if !knows_name(&discovered, dep_name) {
                        let ghost before = discovered@;
                        discovered.push(String::from_str(dep_name));
                        assert(views(discovered@) =~= views(before).push(dep_name@));
                    }
                    names.push(String::from_str(dep_name));
                    i = i + 1;
                }
                assert(wanted.take(i as int) =~= wanted);
                assert(views(names@) =~= wanted);
                parsed.push(ParsedDependency { name, path: dir, manifest, dependency_names: names });
                assert forall|k: int| 0 <= k < parsed@.len() implies is_parsed(
                    all,
                    parsed_positions(all, done + 1)[k],
                    #[trigger] parsed@[k],
                ) by {
                    if k < before.len() {
                        assert(parsed@[k] == before[k]);
                    }
                }
            },
            Err(_) => {},
        }
        proof {
            done = done + 1;
        }
    }
    (parsed, discovered)
}

/// The text of the member `key` of a value, if it is a text.
pub open spec fn text_member(j: Json, key: Seq<char>) -> Option<Seq<char>> {
    text_of(member(j, key))
}

/// The dependency that an entry of the foreign manifest stands for: the
/// first source-control entry gives the name, `unknown` where it has none,
/// and its first remote the address, empty where it has none. An entry
/// without source control stands for nothing.
pub open spec fn spm_dependency(entry: Json) -> Option<(Seq<char>, Seq<char>)> {
    match first_of(member(entry, "sourceControl"@)) {
        Some(scm) => Some(
            (
                match text_member(scm, "identity"@) {
                    Some(n) => n,
                    None => "unknown"@,
                },
                match first_of(
                    match member(scm, "location"@) {
                        Some(l) => member(l, "remote"@),
                        None => None,
                    },
                ) {
                    Some(remote) => match text_member(remote, "urlString"@) {
                        Some(u) => u,
                        None => Seq::<char>::empty(),
                    },
                    None => Seq::<char>::empty(),
                },
            ),
        ),
        None => None,
    }
}

/// The kind of target that the foreign manifest means by a type.
pub open spec fn spm_target_type(kind: Option<Seq<char>>) -> TargetType {
    if kind == Some("executable"@) {
        TargetType::Executable
    } else if kind == Some("test"@) {
        TargetType::Test
    } else {
        TargetType::Library
    }
}

/// The names that the dependency entries of a target stand for: for each
/// entry the first item of its `byName`, where that is a text.
pub open spec fn spm_target_dependencies(entries: Seq<Json>) -> Seq<Seq<char>>
    decreases entries.len(),
{
    if entries.len() == 0 {
        Seq::<Seq<char>>::empty()
    } else {
        let rest = spm_target_dependencies(entries.drop_last());
        match text_of(first_of(member(entries.last(), "byName"@))) {
            Some(n) => rest.push(n),
            None => rest,
        }
    }
}

/// Whether `target` is the target that an entry of the foreign manifest
/// stands for.
pub open spec fn is_spm_target(target: crate::types::Target, entry: Json) -> bool {
    &&& target.name@ == (match text_member(entry, "name"@) {
        Some(n) => n,
        None => "unknown"@,
    })
    &&& target.target_type == spm_target_type(text_member(entry, "type"@))
    &&& opt_text(target.path) == text_member(entry, "path"@)
    &&& views(target.dependencies@) == (match items_of(member(entry, "dependencies"@)) {
        Some(items) => spm_target_dependencies(items),
        None => Seq::<Seq<char>>::empty(),
    })
    &&& target.resources@.len() == 0
}

/// The dependencies that the first `upto` entries of the foreign manifest
/// stand for, by name: git dependencies, a later entry taking the place of
/// an earlier one of the same name.
pub open spec fn spm_dependencies(entries: Seq<Json>, upto: int) -> Seq<(Seq<char>, Seq<char>)>
    decreases upto,
{
    if upto <= 0 {
        Seq::<(Seq<char>, Seq<char>)>::empty()
    } else {
        let rest = spm_dependencies(entries, upto - 1);
        match spm_dependency(entries[upto - 1]) {
            Some((name, url)) => crate::workspace::put(rest, name, url),
            None => rest,
        }
    }
}

/// The names and addresses of a map of git dependencies.
pub open spec fn git_entries(s: Seq<(String, Dependency)>) -> Seq<(Seq<char>, Seq<char>)> {
    s.map_values(
        |e: (String, Dependency)|
            (
                e.0@,
                match e.1@.git {
                    Some(u) => u,
                    None => Seq::<char>::empty(),
                },
            ),
    )
}

/// Whether every entry is a git dependency under its own name and nothing
/// else.
pub open spec fn all_plain_git(s: Seq<(String, Dependency)>) -> bool {
    forall|i: int|
        0 <= i < s.len() ==> (#[trigger] s[i]).1@ == (DependencyModel {
            git: s[i].1@.git,
            ..bare_dependency(s[i].0@)
        }) && s[i].1@.git is Some
}

proof fn lemma_git_put(
    before: Seq<(String, Dependency)>,
    after: Seq<(String, Dependency)>,
    key: Seq<char>,
    url: Seq<char>,
)
    requires
        crate::namemap::has_name(before, key) ==> after.len() == before.len() && (forall|j: int|
            0 <= j < before.len() && j != crate::namemap::index_of(before, key) ==> after[j]
                == before[j]) && after[crate::namemap::index_of(before, key)].0@ == key
            && after[crate::namemap::index_of(before, key)].1@.git == Some(url),
        !crate::namemap::has_name(before, key) ==> after.len() == before.len() + 1 && (forall|
            j: int,
        |
            0 <= j < before.len() ==> after[j] == before[j]) && after[before.len() as int].0@ == key
            && after[before.len() as int].1@.git == Some(url),
    ensures
        git_entries(after) == crate::workspace::put(git_entries(before), key, url),
    decreases before.len(),
{
    let b = git_entries(before);
    let a = git_entries(after);
    if before.len() == 0 {
        assert(!crate::namemap::has_name(before, key));
        assert(a =~= seq![(key, url)]);
    } else if before[0].0@ == key {
        assert(crate::namemap::is_first(before, key, 0));
        crate::namemap::lemma_first_unique(before, key, 0);
        assert(a =~= b.update(0, (key, url)));
    } else {
        let rest_before = before.drop_first();
        let rest_after = after.drop_first();
        if crate::namemap::has_name(before, key) {
            crate::namemap::lemma_first_exists(before, key);
            let at = crate::namemap::index_of(before, key);
            assert(at > 0);
            assert(crate::namemap::is_first(rest_before, key, at - 1)) by {
                assert(rest_before[at - 1] == before[at]);
                assert forall|j: int| 0 <= j < at - 1 implies rest_before[j].0@ != key by {
                    assert(rest_before[j] == before[j + 1]);
                }
            }
            crate::namemap::lemma_first_unique(rest_before, key, at - 1);
            assert forall|j: int|
                0 <= j < rest_before.len() && j != at - 1 implies rest_after[j]
                == rest_before[j] by {
                assert(rest_after[j] == after[j + 1]);
                assert(rest_before[j] == before[j + 1]);
            }
            assert(rest_after[at - 1] == after[at]);
        } else {
            assert(!crate::namemap::has_name(rest_before, key)) by {
                if crate::namemap::has_name(rest_before, key) {
                    let w = choose|w: int| 0 <= w < rest_before.len() && rest_before[w].0@ == key;
                    assert(before[w + 1].0@ == key);
                }
            }
            assert forall|j: int| 0 <= j < rest_before.len() implies rest_after[j]
                == rest_before[j] by {
                assert(rest_after[j] == after[j + 1]);
                assert(rest_before[j] == before[j + 1]);
            }
            assert(rest_after[rest_before.len() as int] == after[before.len() as int]);
        }
        lemma_git_put(rest_before, rest_after, key, url);
        assert(git_entries(rest_before) =~= b.drop_first());
        assert(git_entries(rest_after) =~= a.drop_first());
        assert(a =~= seq![b[0]] + crate::workspace::put(b.drop_first(), key, url));
    }
}

fn spm_dependency_of<'a>(entry: &'a Json) -> (r: Option<(&'a str, &'a str)>)
    ensures
        match r {
            Some((name, url)) => spm_dependency(*entry) == Some((name@, url@)),
            None => spm_dependency(*entry) is None,
        },
{
    let control = entry.get("sourceControl");
    assert(deref(control) == member(*entry, "sourceControl"@));
    match first_in(control) {
        Some(scm) => {
            let identity = scm.get("identity");
            assert(deref(identity) == member(*scm, "identity"@));
            let dep_name = match str_in(identity) {
                Some(n) => n,
                None => "unknown",
            };
            let location = scm.get("location");
            assert(deref(location) == member(*scm, "location"@));
            let remotes = get_in(location, "remote");
            assert(deref(remotes) == (match member(*scm, "location"@) {
                Some(l) => member(l, "remote"@),
                None => None,
            }));
            let remote = first_in(remotes);
            let address = get_in(remote, "urlString");
            assert(deref(address) == (match deref(remote) {
                Some(x) => member(x, "urlString"@),
                None => None,
            }));
            let url = match str_in(address) {
                Some(u) => u,
                None => "",
            };
            proof {
                reveal_strlit("");
                assert(""@ =~= Seq::<char>::empty());
            }
            Some((dep_name, url))
        },
        None => None,
    }
}

fn spm_target(entry: &Json) -> (t: crate::types::Target)
    ensures
        is_spm_target(t, *entry),
{
    let name = match str_in(entry.get("name")) {
        Some(n) => String::from_str(n),
        None => String::from_str("unknown"),
    };
    let kind = str_in(entry.get("type"));
    let target_type = match kind {
        Some(k) => if str_eq(k, "executable") {
            TargetType::Executable
        } else if str_eq(k, "test") {
            TargetType::Test
        } else {
            TargetType::Library
        },
        None => TargetType::Library,
    };
    let path = match str_in(entry.get("path")) {
        Some(p) => Some(String::from_str(p)),
        None => None,
    };
    let mut dependencies: Vec<String> = Vec::new();
    match entry.get("dependencies") {
        Some(list) => match list.as_array() {
            Some(items) => {
                let mut i: usize = 0;
                assert(views(dependencies@) =~= spm_target_dependencies(items@.take(0)));
                while i < items.len()
                    invariant
                        i <= items@.len(),
                        views(dependencies@) == spm_target_dependencies(items@.take(i as int)),
                    decreases items@.len() - i,
                {
                    proof {
                        let t = items@.take(i + 1);
                        assert(t.drop_last() =~= items@.take(i as int));
                        assert(t.last() == items@[i as int]);
                    }
                    match str_in(first_in(items[i].get("byName"))) {
                        Some(n) => {
                            let ghost before = dependencies@;
                            dependencies.push(String::from_str(n));
                            assert(views(dependencies@) =~= views(before).push(n@));
                        },
                        None => {},
                    }
                    i = i + 1;
                }
                assert(items@.take(i as int) =~= items@);
            },
            None => {
                assert(views(dependencies@) =~= Seq::<Seq<char>>::empty());
            },
        },
        None => {
            assert(views(dependencies@) =~= Seq::<Seq<char>>::empty());
        },
    }
    crate::types::Target { name, target_type, path, dependencies, resources: Vec::new() }
}

/// The manifest that the description of a package by the Swift toolchain
/// stands for.
///
/// The description must name the package. The version is zero, since the
/// description has none; the tools version is `5.9` where it is missing.
/// Dependencies under source control become git dependencies, see
/// `spm_dependency`, and the targets are taken with their name, kind, path
/// and the names of their dependencies. Anything else in the description
/// is passed over.
pub fn convert_spm_json(json: &Json) -> (r: Result<Manifest, ManifestError>)
    ensures
        match r {
            Err(e) => {
                &&& text_member(*json, "name"@) is None
                &&& e matches ManifestError::SwiftParseError(m)
                &&& m@ == "Missing package name"@
            },
            Ok(m) => {
                &&& text_member(*json, "name"@) == Some(m.package.name@)
                &&& m.package.version@ == crate::resolver::provider::root_version()
                &&& m.package.swift_tools_version@ == (match text_of(
                    match member(*json, "toolsVersion"@) {
                        Some(t) => member(t, "_version"@),
                        None => None,
                    },
                ) {
                    Some(v) => v,
                    None => "5.9"@,
                })
                &&& m.package.description is None
                &&& m.package.license is None
                &&& m.package.authors@.len() == 0
                &&& m.package.repository is None
                &&& all_plain_git(m.dependencies.entries@)
                &&& git_entries(m.dependencies.entries@) == (match items_of(
                    member(*json, "dependencies"@),
                ) {
                    Some(items) => spm_dependencies(items, items.len() as int),
                    None => Seq::<(Seq<char>, Seq<char>)>::empty(),
                })
                &&& match items_of(member(*json, "targets"@)) {
                    Some(items) => m.targets@.len() == items.len() && forall|i: int|
                        0 <= i < items.len() ==> is_spm_target(#[trigger] m.targets@[i], items[i]),
                    None => m.targets@.len() == 0,
                }
                &&& m.dev_dependencies.entries@.len() == 0
                &&& m.binary_cache is None
                &&& m.build is None
                &&& m.overrides.entries@.len() == 0
                &&& m.constraints.entries@.len() == 0
                &&& m.workspace is None
            },
        },
{
    let name_value = json.get("name");
    assert(deref(name_value) == member(*json, "name"@));
    let name = match str_in(name_value) {
        Some(n) => n,
        None => {
            return Err(ManifestError::SwiftParseError(String::from_str("Missing package name")));
        },
    };
    let tools_value = json.get("toolsVersion");
    assert(deref(tools_value) == member(*json, "toolsVersion"@));
    let version_value = get_in(tools_value, "_version");
    assert(deref(version_value) == (match member(*json, "toolsVersion"@) {
        Some(t) => member(t, "_version"@),
        None => None,
    }));
    let tools = match str_in(version_value) {
        Some(v) => String::from_str(v),
        None => String::from_str("5.9"),
    };
    let mut manifest = Manifest::default();
    manifest.package.name = String::from_str(name);
    manifest.package.version = crate::version::Version::new(0, 0, 0);
    manifest.package.swift_tools_version = tools;
    let mut dependencies: crate::namemap::NameMap<Dependency> = crate::namemap::NameMap::new();
    assert(git_entries(dependencies.entries@) =~= Seq::<(Seq<char>, Seq<char>)>::empty());
    let deps_value = json.get("dependencies");
    assert(deref(deps_value) == member(*json, "dependencies"@));
    let dep_items = match deps_value {
        Some(list) => list.as_array(),
        None => None,
    };
    match dep_items {
        Some(items) => {
            assert(items_of(member(*json, "dependencies"@)) == Some(items@));
            let mut i: usize = 0;
            while i < items.len()
                invariant
                    i <= items@.len(),
                    all_plain_git(dependencies.entries@),
                    git_entries(dependencies.entries@) == spm_dependencies(items@, i as int),
                decreases items@.len() - i,
            {
                match spm_dependency_of(&items[i]) {
                    Some((dep_name, url)) => {
                        let ghost before = dependencies.entries@;
                        dependencies.insert(
                            String::from_str(dep_name),
                            Dependency::git(dep_name, url),
                        );
                        proof {
                            if crate::namemap::has_name(before, dep_name@) {
                                crate::namemap::lemma_first_exists(before, dep_name@);
                            }
                            lemma_git_put(before, dependencies.entries@, dep_name@, url@);
                            let after = dependencies.entries@;
                            assert forall|k: int| 0 <= k < after.len() implies (
                            #[trigger] after[k]).1@ == (DependencyModel {
                                git: after[k].1@.git,
                                ..bare_dependency(after[k].0@)
                            }) && after[k].1@.git is Some by {
                                if crate::namemap::has_name(before, dep_name@) {
                                    if k != crate::namemap::index_of(before, dep_name@) {
                                        assert(after[k] == before[k]);
                                    }
                                } else {
                                    if k < before.len() {
                                        assert(after[k] == before[k]);
                                    }
                                }
                            }
                        }
                    },
                    None => {},
                }
                i = i + 1;
            }
        },
        None => {
            assert(items_of(member(*json, "dependencies"@)) is None);
        },
    }
    manifest.dependencies = dependencies;
    let mut targets: Vec<crate::types::Target> = Vec::new();
    let targets_value = json.get("targets");
    assert(deref(targets_value) == member(*json, "targets"@));
    let target_items = match targets_value {
        Some(list) => list.as_array(),
        None => None,
    };
    match target_items {
        Some(items) => {
            assert(items_of(member(*json, "targets"@)) == Some(items@));
            let mut i: usize = 0;
            while i < items.len()
                invariant
                    i <= items@.len(),
                    targets@.len() == i,
                    forall|j: int| 0 <= j < i ==> is_spm_target(#[trigger] targets@[j], items@[j]),
                decreases items@.len() - i,
            {
                targets.push(spm_target(&items[i]));
                i = i + 1;
            }
        },
        None => {
            assert(items_of(member(*json, "targets"@)) is None);
        },
    }
    manifest.targets = targets;
    Ok(manifest)
}

} // verus!
