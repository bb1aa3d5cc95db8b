//! Resolutions run end to end: the library answers the solver's questions
//! and turns its outcome into a resolution.

use gust::namemap::NameMap;
use gust::resolver::error::ResolveError;
use gust::resolver::hints::{ChoiceReason, LockfileHints};
use gust::resolver::package::GustPackage;
use gust::resolver::provider::{GustDependencyProvider, GustVersion, MemoryProvider, PackageProvider};
use gust::resolver::version_set::GustVersionSet;
use gust::resolver::{Resolution, Resolver, SolverOutcome};
use gust::text::Order;
use gust::types::{Dependency, Manifest, ResolutionStrategy, WorkspaceConfig};
use gust::version::{Version, VersionReq};
use gust::workspace::{Workspace, WorkspaceMember, WorkspaceResolver};
use pubgrub::{
    DefaultStringReporter, Dependencies, DependencyProvider, PackageResolutionStatistics,
    PubGrubError, Reporter, VersionSet,
};
use std::cell::RefCell;
use std::cmp::{Ordering, Reverse};
use std::fmt;

#[derive(Clone, Debug, PartialEq, Eq, Hash)]
struct Pkg(GustPackage);

impl fmt::Display for Pkg {
    fn fmt(&self, f: &mut fmt::Formatter<'_>) -> fmt::Result {
        f.write_str(&self.0.to_string())
    }
}

#[derive(Clone, Debug, PartialEq, Eq)]
struct Ver(Version);

impl Ord for Ver {
    fn cmp(&self, other: &Self) -> Ordering {
        match self.0.compare(&other.0) {
            Order::Less => Ordering::Less,
            Order::Equal => Ordering::Equal,
            Order::Greater => Ordering::Greater,
        }
    }
}

impl PartialOrd for Ver {
    fn partial_cmp(&self, other: &Self) -> Option<Ordering> {
        Some(self.cmp(other))
    }
}

impl fmt::Display for Ver {
    fn fmt(&self, f: &mut fmt::Formatter<'_>) -> fmt::Result {
        f.write_str(&self.0.to_string())
    }
}

#[derive(Clone, Debug)]
struct Versions(GustVersionSet);

impl PartialEq for Versions {
    fn eq(&self, other: &Self) -> bool {
        self.0.same(&other.0)
    }
}

impl Eq for Versions {}

impl fmt::Display for Versions {
    fn fmt(&self, f: &mut fmt::Formatter<'_>) -> fmt::Result {
        f.write_str(&self.0.to_string())
    }
}

impl VersionSet for Versions {
    type V = Ver;

    fn empty() -> Self {
        Versions(GustVersionSet::empty())
    }

    fn singleton(v: Ver) -> Self {
        Versions(GustVersionSet::singleton(GustVersion(v.0)))
    }

    fn complement(&self) -> Self {
        Versions(self.0.complement())
    }

    fn intersection(&self, other: &Self) -> Self {
        Versions(self.0.intersection(&other.0))
    }

    fn contains(&self, v: &Ver) -> bool {
        self.0.contains_version(&v.0)
    }

    fn full() -> Self {
        Versions(GustVersionSet::full())
    }

    fn union(&self, other: &Self) -> Self {
        Versions(self.0.union(&other.0))
    }

    fn is_disjoint(&self, other: &Self) -> bool {
        self.0.is_disjoint(&other.0)
    }

    fn subset_of(&self, other: &Self) -> bool {
        self.0.subset_of(&other.0)
    }
}

#[derive(Debug)]
struct Failure(ResolveError);

impl fmt::Display for Failure {
    fn fmt(&self, f: &mut fmt::Formatter<'_>) -> fmt::Result {
        f.write_str(&self.0.to_string())
    }
}

impl std::error::Error for Failure {}

struct Rules<'a> {
    inner: RefCell<GustDependencyProvider<&'a MemoryProvider>>,
}

impl<'a> DependencyProvider for Rules<'a> {
    type P = Pkg;
    type V = Ver;
    type VS = Versions;
    type M = String;
    type Err = Failure;
    type Priority = Reverse<u32>;

    fn prioritize(
        &self,
        package: &Pkg,
        _range: &Versions,
        _stats: &PackageResolutionStatistics,
    ) -> Reverse<u32> {
        Reverse(self.inner.borrow_mut().prioritize(&package.0))
    }

    fn choose_version(&self, package: &Pkg, range: &Versions) -> Result<Option<Ver>, Failure> {
        match self.inner.borrow_mut().choose_version(&package.0, &range.0) {
            Ok(v) => Ok(v.map(Ver)),
            Err(e) => Err(Failure(e)),
        }
    }

    fn get_dependencies(
        &self,
        package: &Pkg,
        version: &Ver,
    ) -> Result<Dependencies<Pkg, Versions, String>, Failure> {
        match self.inner.borrow_mut().get_dependencies(&package.0, &version.0) {
            Ok(edges) => Ok(Dependencies::Available(
                edges.into_iter().map(|(p, r)| (Pkg(p), Versions(r))).collect(),
            )),
            Err(e) => Err(Failure(e)),
        }
    }
}

struct Run {
    result: Result<Resolution, ResolveError>,
    reasons: Vec<(String, ChoiceReason)>,
}

fn run(
    provider: MemoryProvider,
    manifest: &Manifest,
    hints: LockfileHints,
    strategy: ResolutionStrategy,
    watch: &[&str],
) -> Run {
    let resolver = Resolver::new(provider).with_hints(hints).with_strategy(strategy);
    let rules = Rules { inner: RefCell::new(resolver.rules(manifest)) };
    let outcome = match pubgrub::resolve(&rules, Pkg(GustPackage::Root), Ver(Version::new(0, 0, 0)))
    {
        Ok(solution) => {
            let mut chosen: Vec<(GustPackage, Version)> =
                solution.into_iter().map(|(p, v)| (p.0, v.0)).collect();
            chosen.sort_by(|a, b| a.0.to_string().cmp(&b.0.to_string()));
            SolverOutcome::Solved(chosen)
        }
        Err(PubGrubError::NoSolution(tree)) => {
            SolverOutcome::NoSolution(DefaultStringReporter::report(&tree))
        }
        Err(PubGrubError::ErrorRetrievingDependencies { package, version, source }) => {
            SolverOutcome::DependenciesFailed {
                package: package.0,
                version: version.0,
                source: source.0,
            }
        }
        Err(PubGrubError::ErrorChoosingVersion { package, source }) => {
            SolverOutcome::ChoiceFailed { package: package.0, source: source.0 }
        }
        Err(PubGrubError::ErrorInShouldCancel(e)) => SolverOutcome::Cancelled(e.0),
    };
    let mut inner = rules.inner.into_inner();
    let result = resolver.conclude(&mut inner, outcome);
    let mut reasons = Vec::new();
    for name in watch {
        if let Some((_, reason)) = inner.trace().get_choice(name) {
            reasons.push((name.to_string(), reason));
        }
    }
    Run { result, reasons }
}

fn requirement(text: &str) -> VersionReq {
    VersionReq::parse(text).unwrap()
}

fn manifest_with(deps: &[(&str, &str)]) -> Manifest {
    let mut manifest = Manifest::default();
    for (name, req) in deps {
        manifest
            .dependencies
            .insert(name.to_string(), Dependency::registry(name, requirement(req)));
    }
    manifest
}

fn versions_of(resolution: &Resolution) -> Vec<(String, Version)> {
    resolution
        .packages
        .entries
        .iter()
        .map(|(name, dep)| (name.clone(), dep.version.clone()))
        .collect()
}

#[test]
fn test_simple_resolution() {
    let mut provider = MemoryProvider::new();
    provider.add_package("swift-log", Version::new(1, 5, 4), vec![]);
    provider.add_package("swift-log", Version::new(1, 4, 0), vec![]);

    let mut manifest = Manifest::default();
    manifest.dependencies.insert(
        "swift-log".to_string(),
        Dependency::registry("swift-log", VersionReq::parse("^1.4").unwrap()),
    );

    let resolution = run(
        provider,
        &manifest,
        LockfileHints::new(),
        ResolutionStrategy::Highest,
        &[],
    )
    .result
    .unwrap();
    let resolved = resolution
        .packages
        .get("swift-log")
        .expect("swift-log should be in resolution");
    assert_eq!(resolved.version, Version::new(1, 5, 4));
}

#[test]
fn test_resolution_with_hints() {
    let mut provider = MemoryProvider::new();
    provider.add_package("swift-log", Version::new(1, 5, 4), vec![]);
    provider.add_package("swift-log", Version::new(1, 4, 0), vec![]);

    let mut hints = LockfileHints::new();
    hints.add_preferred_version("swift-log", Version::new(1, 4, 0));

    let mut manifest = Manifest::default();
    manifest.dependencies.insert(
        "swift-log".to_string(),
        Dependency::registry("swift-log", VersionReq::parse("^1.4").unwrap()),
    );

    let resolution = run(provider, &manifest, hints, ResolutionStrategy::Highest, &[])
        .result
        .unwrap();
    let resolved = resolution.packages.get("swift-log").unwrap();
    assert_eq!(resolved.version, Version::new(1, 4, 0));
}

#[test]
fn test_transitive_resolution() {
    let mut provider = MemoryProvider::new();
    provider.add_package("swift-log", Version::new(1, 5, 4), vec![]);
    provider.add_package(
        "swift-nio",
        Version::new(2, 58, 0),
        vec![Dependency::registry(
            "swift-log",
            VersionReq::parse("^1.5").unwrap(),
        )],
    );

    let mut manifest = Manifest::default();
    manifest.dependencies.insert(
        "swift-nio".to_string(),
        Dependency::registry("swift-nio", VersionReq::parse("^2.50").unwrap()),
    );

    let resolution = run(
        provider,
        &manifest,
        LockfileHints::new(),
        ResolutionStrategy::Highest,
        &[],
    )
    .result
    .unwrap();

    assert!(resolution.packages.contains_key("swift-nio"));
    assert!(resolution.packages.contains_key("swift-log"));
}

#[test]
fn highest_compatible_version_is_picked() {
    let mut provider = MemoryProvider::new();
    provider.add_package("pkg", Version::new(1, 4, 0), vec![]);
    provider.add_package("pkg", Version::new(1, 5, 4), vec![]);
    let manifest = manifest_with(&[("pkg", "^1.4")]);
    let run = run(provider, &manifest, LockfileHints::new(), ResolutionStrategy::Highest, &["pkg"]);
    let resolution = run.result.unwrap();
    assert_eq!(versions_of(&resolution), vec![("pkg".to_string(), Version::new(1, 5, 4))]);
    assert_eq!(run.reasons, vec![("pkg".to_string(), ChoiceReason::HighestCompatible)]);
}

#[test]
fn lowest_strategy_picks_lowest_version() {
    let mut provider = MemoryProvider::new();
    provider.add_package("pkg", Version::new(1, 4, 0), vec![]);
    provider.add_package("pkg", Version::new(1, 5, 4), vec![]);
    let manifest = manifest_with(&[("pkg", "^1.4")]);
    let run = run(provider, &manifest, LockfileHints::new(), ResolutionStrategy::Lowest, &["pkg"]);
    let resolution = run.result.unwrap();
    assert_eq!(versions_of(&resolution), vec![("pkg".to_string(), Version::new(1, 4, 0))]);
    assert_eq!(run.reasons, vec![("pkg".to_string(), ChoiceReason::LowestCompatible)]);
}

#[test]
fn lockfile_hint_is_respected() {
    let mut provider = MemoryProvider::new();
    provider.add_package("pkg", Version::new(1, 4, 0), vec![]);
    provider.add_package("pkg", Version::new(1, 5, 4), vec![]);
    let manifest = manifest_with(&[("pkg", "^1.4")]);
    let mut hints = LockfileHints::new();
    hints.add_preferred_version("pkg", Version::new(1, 4, 0));
    let run = run(provider, &manifest, hints, ResolutionStrategy::Highest, &["pkg"]);
    let resolution = run.result.unwrap();
    assert_eq!(versions_of(&resolution), vec![("pkg".to_string(), Version::new(1, 4, 0))]);
    assert_eq!(run.reasons, vec![("pkg".to_string(), ChoiceReason::LockedHint)]);
}

#[test]
fn hint_outside_the_range_is_ignored() {
    let mut provider = MemoryProvider::new();
    provider.add_package("pkg", Version::new(1, 3, 0), vec![]);
    provider.add_package("pkg", Version::new(1, 5, 4), vec![]);
    let manifest = manifest_with(&[("pkg", "^1.4")]);
    let mut hints = LockfileHints::new();
    hints.add_preferred_version("pkg", Version::new(1, 3, 0));
    let run = run(provider, &manifest, hints, ResolutionStrategy::Locked, &["pkg"]);
    let resolution = run.result.unwrap();
    assert_eq!(versions_of(&resolution), vec![("pkg".to_string(), Version::new(1, 5, 4))]);
    assert_eq!(run.reasons, vec![("pkg".to_string(), ChoiceReason::HighestCompatible)]);
}

#[test]
fn override_wins_over_requirement() {
    let mut provider = MemoryProvider::new();
    provider.add_package("pkg", Version::new(1, 4, 0), vec![]);
    provider.add_package("pkg", Version::new(1, 5, 4), vec![]);
    provider.add_package("pkg", Version::new(2, 0, 0), vec![]);
    let mut manifest = manifest_with(&[("pkg", "^1.4")]);
    manifest.overrides.insert("pkg".to_string(), "2.0.0".to_string());
    let run = run(provider, &manifest, LockfileHints::new(), ResolutionStrategy::Highest, &["pkg"]);
    let resolution = run.result.unwrap();
    assert_eq!(versions_of(&resolution), vec![("pkg".to_string(), Version::new(2, 0, 0))]);
    assert_eq!(run.reasons, vec![("pkg".to_string(), ChoiceReason::Override)]);
}

#[test]
fn constraint_narrows_a_transitive_requirement() {
    let mut provider = MemoryProvider::new();
    provider.add_package("log", Version::new(1, 5, 4), vec![]);
    provider.add_package("log", Version::new(1, 6, 0), vec![]);
    provider.add_package(
        "nio",
        Version::new(2, 58, 0),
        vec![Dependency::registry("log", requirement("^1.5"))],
    );
    let mut manifest = manifest_with(&[("nio", "^2.50")]);
    manifest.constraints.insert("log".to_string(), "<1.6".to_string());
    let run = run(provider, &manifest, LockfileHints::new(), ResolutionStrategy::Highest, &[]);
    let resolution = run.result.unwrap();
    assert_eq!(
        versions_of(&resolution),
        vec![
            ("log".to_string(), Version::new(1, 5, 4)),
            ("nio".to_string(), Version::new(2, 58, 0)),
        ]
    );
}

#[test]
fn transitive_dependency_is_resolved() {
    let mut provider = MemoryProvider::new();
    provider.add_package(
        "nio",
        Version::new(2, 58, 0),
        vec![Dependency::registry("log", requirement("^1.5"))],
    );
    provider.add_package("log", Version::new(1, 5, 4), vec![]);
    let manifest = manifest_with(&[("nio", "^2.50")]);
    let run = run(provider, &manifest, LockfileHints::new(), ResolutionStrategy::Highest, &[]);
    let resolution = run.result.unwrap();
    assert_eq!(
        versions_of(&resolution),
        vec![
            ("log".to_string(), Version::new(1, 5, 4)),
            ("nio".to_string(), Version::new(2, 58, 0)),
        ]
    );
    let nio = resolution.packages.get("nio").unwrap();
    assert_eq!(nio.dependencies, vec!["log".to_string()]);
    let meta = resolution.metadata.get("log").unwrap();
    assert_eq!(meta.required_by, vec!["nio".to_string()]);
}

#[test]
fn no_matching_version_is_reported() {
    let mut provider = MemoryProvider::new();
    provider.add_package("pkg", Version::new(1, 3, 0), vec![]);
    let manifest = manifest_with(&[("pkg", "^2")]);
    let run = run(provider, &manifest, LockfileHints::new(), ResolutionStrategy::Highest, &[]);
    match run.result {
        Err(ResolveError::NoMatchingVersion { package, requirement, available }) => {
            assert_eq!(package, "pkg");
            assert_eq!(requirement, "^2");
            assert_eq!(available, vec![Version::new(1, 3, 0)]);
        }
        other => panic!("unexpected outcome: {:?}", other.map(|r| versions_of(&r))),
    }
}

#[test]
fn conflicting_requirements_have_no_solution() {
    let mut provider = MemoryProvider::new();
    provider.add_package("log", Version::new(1, 5, 4), vec![]);
    provider.add_package("log", Version::new(2, 0, 0), vec![]);
    provider.add_package(
        "a",
        Version::new(1, 0, 0),
        vec![Dependency::registry("log", requirement("^1"))],
    );
    provider.add_package(
        "b",
        Version::new(1, 0, 0),
        vec![Dependency::registry("log", requirement("^2"))],
    );
    let manifest = manifest_with(&[("a", "^1"), ("b", "^1")]);
    let run = run(provider, &manifest, LockfileHints::new(), ResolutionStrategy::Highest, &[]);
    match run.result {
        Err(ResolveError::NoSolution { message, derivation, suggestions }) => {
            assert_eq!(message, "No solution found for dependency constraints");
            assert!(!derivation.root_cause.is_empty());
            assert!(suggestions.is_empty());
        }
        other => panic!("unexpected outcome: {:?}", other.map(|r| versions_of(&r))),
    }
}

#[test]
fn unknown_package_is_a_provider_error() {
    let provider = MemoryProvider::new();
    let manifest = manifest_with(&[("ghost", "^1")]);
    let run = run(provider, &manifest, LockfileHints::new(), ResolutionStrategy::Highest, &[]);
    match run.result {
        Err(ResolveError::ProviderError(message)) => {
            assert_eq!(
                message,
                "Failed to choose version for ghost: package not found: ghost"
            );
        }
        other => panic!("unexpected outcome: {:?}", other.map(|r| versions_of(&r))),
    }
}

#[test]
fn empty_manifest_resolves_to_nothing() {
    let provider = MemoryProvider::new();
    let manifest = Manifest::default();
    let run = run(provider, &manifest, LockfileHints::new(), ResolutionStrategy::Highest, &[]);
    let resolution = run.result.unwrap();
    assert!(resolution.packages.is_empty());
    assert!(resolution.metadata.is_empty());
}

#[test]
fn resolved_versions_satisfy_every_requirement() {
    let mut provider = MemoryProvider::new();
    provider.add_package("log", Version::new(1, 4, 0), vec![]);
    provider.add_package("log", Version::new(1, 5, 4), vec![]);
    provider.add_package("log", Version::new(2, 1, 0), vec![]);
    provider.add_package(
        "nio",
        Version::new(2, 58, 0),
        vec![Dependency::registry("log", requirement(">=1.5, <2"))],
    );
    provider.add_package(
        "http",
        Version::new(0, 3, 1),
        vec![
            Dependency::registry("nio", requirement("^2.40")),
            Dependency::registry("log", requirement("^1.4")),
        ],
    );
    let manifest = manifest_with(&[("http", "^0.3"), ("log", "^1")]);
    let provider_view = {
        let mut p = MemoryProvider::new();
        p.add_package("log", Version::new(1, 5, 4), vec![]);
        p
    };
    assert!(provider_view.available_versions("log").is_ok());
    let run = run(provider, &manifest, LockfileHints::new(), ResolutionStrategy::Highest, &[]);
    let resolution = run.result.unwrap();
    let log = &resolution.packages.get("log").unwrap().version;
    let nio = &resolution.packages.get("nio").unwrap().version;
    assert!(requirement(">=1.5, <2").matches(log));
    assert!(requirement("^1.4").matches(log));
    assert!(requirement("^1").matches(log));
    assert!(requirement("^2.40").matches(nio));
    assert_eq!(*log, Version::new(1, 5, 4));
}

#[test]
fn name_map_keeps_insertion_order_and_replaces_in_place() {
    let mut map: NameMap<u32> = NameMap::new();
    map.insert("b".to_string(), 1);
    map.insert("a".to_string(), 2);
    map.insert("b".to_string(), 3);
    assert_eq!(map.len(), 2);
    assert_eq!(map.get("b"), Some(&3));
    assert_eq!(map.get("a"), Some(&2));
    assert_eq!(map.get("c"), None);
    assert_eq!(map.position("a"), Some(1));
    assert!(map.contains_key("b"));
    assert!(!map.contains_key("c"));
}

fn create_test_workspace() -> Workspace {
    let mut core_manifest = Manifest::default();
    core_manifest.package.name = "core".to_string();
    core_manifest.package.version = Version::new(0, 1, 0);
    core_manifest.dependencies.insert(
        "swift-log".to_string(),
        Dependency::registry("swift-log", requirement("^1.4")),
    );
    let mut cli_manifest = Manifest::default();
    cli_manifest.package.name = "cli".to_string();
    cli_manifest.package.version = Version::new(0, 1, 0);
    cli_manifest.dependencies.insert(
        "swift-log".to_string(),
        Dependency::registry("swift-log", requirement("^1.4")),
    );
    cli_manifest.dependencies.insert(
        "swift-argument-parser".to_string(),
        Dependency::registry("swift-argument-parser", requirement("^1.2")),
    );
    Workspace {
        root: "/workspace".to_string(),
        root_manifest: Manifest::default(),
        config: WorkspaceConfig::default(),
        members: vec![
            WorkspaceMember {
                path: "/workspace/packages/core".to_string(),
                name: "core".to_string(),
                manifest: core_manifest,
                workspace_deps: vec![],
            },
            WorkspaceMember {
                path: "/workspace/packages/cli".to_string(),
                name: "cli".to_string(),
                manifest: cli_manifest,
                workspace_deps: vec!["core".to_string()],
            },
        ],
        shared_dependencies: NameMap::new(),
    }
}

#[test]
fn test_workspace_resolution() {
    let workspace = create_test_workspace();

    let mut provider = MemoryProvider::new();
    provider.add_package("swift-log", Version::new(1, 5, 4), vec![]);
    provider.add_package("swift-argument-parser", Version::new(1, 3, 0), vec![]);

    let unified = WorkspaceResolver::unified_manifest(&workspace);
    let done = run(provider, &unified, LockfileHints::new(), ResolutionStrategy::Highest, &[]);
    let resolution = WorkspaceResolver::conclude(&workspace, done.result.unwrap());

    assert!(resolution.resolution.packages.contains_key("swift-log"));
    assert!(resolution
        .resolution
        .packages
        .contains_key("swift-argument-parser"));

    assert_eq!(resolution.workspace_root, "/workspace");
    let of_core: Vec<&str> =
        resolution.packages_for_member("core").iter().map(|p| p.name.as_str()).collect();
    assert_eq!(of_core, vec!["swift-log"]);
    let of_cli: Vec<&str> =
        resolution.packages_for_member("cli").iter().map(|p| p.name.as_str()).collect();
    assert_eq!(of_cli, vec!["swift-log", "swift-argument-parser"]);
    assert_eq!(resolution.all_packages().len(), 2);
}

#[test]
fn a_gap_at_the_root_is_reported_with_what_is_known() {
    let mut provider = MemoryProvider::new();
    provider.add_package("swift-log", Version::new(1, 5, 4), vec![]);
    provider.add_package("swift-log", Version::new(1, 4, 0), vec![]);
    provider.add_package("nio", Version::new(2, 0, 0), vec![]);
    let manifest = manifest_with(&[("nio", "^2"), ("swift-log", "^2")]);
    let done = run(provider, &manifest, LockfileHints::new(), ResolutionStrategy::Highest, &[]);
    match done.result {
        Err(ResolveError::NoMatchingVersion { package, requirement, available }) => {
            assert_eq!(package, "swift-log");
            assert_eq!(requirement, "^2");
            assert_eq!(available, vec![Version::new(1, 5, 4), Version::new(1, 4, 0)]);
        }
        other => panic!("unexpected outcome: {:?}", other.map(|r| r.packages.len())),
    }
}

#[test]
fn a_solution_that_breaks_a_requirement_is_refused() {
    let provider = || {
        let mut provider = MemoryProvider::new();
        provider.add_package(
            "nio",
            Version::new(2, 58, 0),
            vec![Dependency::registry("log", requirement("^1.5"))],
        );
        provider.add_package("log", Version::new(1, 5, 4), vec![]);
        provider.add_package("log", Version::new(1, 4, 0), vec![]);
        provider
    };
    let manifest = manifest_with(&[("nio", "^2.50")]);
    let conclude = |solution: Vec<(GustPackage, Version)>| {
        let resolver = Resolver::new(provider());
        let mut rules = resolver.rules(&manifest);
        resolver.conclude(&mut rules, SolverOutcome::Solved(solution))
    };
    let named = |name: &str, version: Version| (GustPackage::named(name), version);

    let good = conclude(vec![
        (GustPackage::Root, Version::new(0, 0, 0)),
        named("log", Version::new(1, 5, 4)),
        named("nio", Version::new(2, 58, 0)),
    ])
    .unwrap();
    assert_eq!(
        versions_of(&good),
        vec![
            ("log".to_string(), Version::new(1, 5, 4)),
            ("nio".to_string(), Version::new(2, 58, 0))
        ]
    );

    match conclude(vec![named("nio", Version::new(2, 58, 0)), named("log", Version::new(1, 4, 0))]) {
        Err(ResolveError::VersionConflict { package, conflicts, derivation }) => {
            assert_eq!(package, "log");
            assert_eq!(conflicts.len(), 1);
            assert_eq!(conflicts[0].from, "nio");
            assert_eq!(conflicts[0].requirement, "^1.5");
            assert!(conflicts[0].dependency_chain.is_empty());
            assert!(derivation.is_none());
        }
        other => panic!("unexpected outcome: {:?}", other.map(|r| versions_of(&r))),
    }
    match conclude(vec![named("log", Version::new(1, 5, 4))]) {
        Err(ResolveError::VersionConflict { package, conflicts, .. }) => {
            assert_eq!(package, "nio");
            assert_eq!(conflicts[0].from, "<root>");
            assert_eq!(conflicts[0].requirement, "^2.50");
        }
        other => panic!("unexpected outcome: {:?}", other.map(|r| versions_of(&r))),
    }
    match conclude(vec![named("nio", Version::new(2, 58, 0))]) {
        Err(ResolveError::VersionConflict { package, conflicts, .. }) => {
            assert_eq!(package, "log");
            assert_eq!(conflicts[0].from, "nio");
        }
        other => panic!("unexpected outcome: {:?}", other.map(|r| versions_of(&r))),
    }
    assert!(conclude(vec![]).is_err());
    let empty = Resolver::new(provider());
    let nothing = Manifest::default();
    let mut rules = empty.rules(&nothing);
    let resolution = empty.conclude(&mut rules, SolverOutcome::Solved(vec![])).unwrap();
    assert!(resolution.packages.is_empty());
}
