//! Tests of the flows of the package manager: fetching, installing,
//! workspaces, manifests and updates.

use gust::binary_cache::{CacheStats, ManifestCache};
use gust::fetch::{
    parse_remote_tags, parse_tag_line, FetchError, FetchPlan, FetchResult, FetchSchedule,
    FetchStatus, Fetcher,
};
use gust::hasher::{entry_key, file_extension, visit, TreeFilter, Visit};
use gust::installer::{
    collect_results, decide_posture, fetch_requests, lock_entries, parse_version_from_tag,
    plan_lockfile, resolution_from_lockfile, sanitize_name, Discovery, InstallError,
    InstallOptions, Installer, LockPlan, Posture, MAX_ITERATIONS,
};
use gust::json::{parse_json, Json};
use gust::lockfile::{LockedPackage, Lockfile};
use gust::manifest::{
    collect_parsed, convert_spm_json, find_manifest, generate_gust_toml, parse_raw_dependency,
    parse_target_type, ManifestError, ManifestType, ParsedDependency, RawDependency,
};
use gust::namemap::NameMap;
use gust::plugin::discovery::discover_plugins;
use gust::plugin::PluginManager;
use gust::registry::{archive_url, lookup_url, manifest_url, package_url, version_url};
use gust::resolver::{Resolution, ResolvedDep, ResolvedSource};
use gust::store::{link_step, CacheError, GlobalCache, LinkAction, LinkEvent, LinkState};
use gust::text::{char_is_space, split_on, text_lines, trim};
use gust::types::{
    Dependency, DependencySource, Manifest, PluginPermission, Target, TargetType, WorkspaceConfig,
};
use gust::updates::{
    check_for_update, detect_target, download_url, filter_breaking, is_newer, is_stale,
    should_check, version_of_release, OutdatedPackage,
};
use gust::version::{Version, VersionReq};
use gust::workspace::{Workspace, WorkspaceError, WorkspaceLoader, WorkspaceMember, WorkspaceResolver};

fn member(name: &str, deps: &[&str], externals: &[&str]) -> WorkspaceMember {
    let mut manifest = Manifest::default();
    manifest.package.name = name.to_string();
    for d in deps {
        manifest
            .dependencies
            .insert(d.to_string(), Dependency::path(d, &format!("../{}", d)));
    }
    for e in externals {
        manifest.dependencies.insert(
            e.to_string(),
            Dependency::registry(e, VersionReq::parse("^1").unwrap()),
        );
    }
    WorkspaceMember {
        path: format!("/ws/{}", name),
        name: name.to_string(),
        manifest,
        workspace_deps: deps.iter().map(|d| d.to_string()).collect(),
    }
}

fn workspace(members: Vec<WorkspaceMember>) -> Workspace {
    Workspace {
        root: "/ws".to_string(),
        root_manifest: Manifest::default(),
        config: WorkspaceConfig::default(),
        members,
        shared_dependencies: NameMap::new(),
    }
}

#[test]
fn white_space_is_that_of_the_standard_library() {
    for code in 0u32..=0x10ffff {
        if let Some(c) = char::from_u32(code) {
            assert_eq!(char_is_space(c), c.is_whitespace(), "U+{:04X}", code);
        }
    }
    for text in ["  a b \t\n", "", " \u{3000}x\u{a0}", "x", "   "] {
        assert_eq!(trim(text), text.trim());
    }
}

#[test]
fn lines_and_pieces_are_those_of_the_standard_library() {
    for text in ["", "a", "a\n", "a\nb", "a\r\nb\r\n", "a\r", "\n\n", "a\n\r\nb\r", "x\ty\n"] {
        let expected: Vec<String> = text.lines().map(|l| l.to_string()).collect();
        assert_eq!(text_lines(text), expected, "{:?}", text);
        let pieces: Vec<String> = text.split('\n').map(|l| l.to_string()).collect();
        assert_eq!(split_on(text, '\n'), pieces, "{:?}", text);
    }
}

#[test]
fn package_names_become_directory_names() {
    assert_eq!(sanitize_name("swift-log"), "swift-log");
    assert_eq!(sanitize_name("apple/swift log.git"), "apple_swift_log_git");
    assert_eq!(sanitize_name("né_1"), "né_1");
    assert_eq!(sanitize_name(""), "");
}

#[test]
fn tags_stand_for_versions() {
    assert_eq!(parse_version_from_tag("1.5.0"), Some(Version::new(1, 5, 0)));
    assert_eq!(parse_version_from_tag("v1.5.0"), Some(Version::new(1, 5, 0)));
    assert_eq!(parse_version_from_tag(" V2.0.1\n"), Some(Version::new(2, 0, 1)));
    assert_eq!(
        parse_version_from_tag("1.5.0-beta.1"),
        Some(Version::parse("1.5.0-beta.1").unwrap())
    );
    assert_eq!(parse_version_from_tag("main"), None);
    assert_eq!(parse_version_from_tag("vv1.0.0"), None);
}

#[test]
fn fetch_plans_follow_the_source() {
    let git = Dependency::git("nio", "https://x/nio.git").with_branch("main").with_tag("2.0.0");
    match Fetcher::plan(&git, "/store/git/nio").unwrap() {
        FetchPlan::GitClone { name, url, dest, reference, tag } => {
            assert_eq!(name, "nio");
            assert_eq!(url, "https://x/nio.git");
            assert_eq!(dest, "/store/git/nio");
            assert_eq!(reference, Some("2.0.0".to_string()));
            assert_eq!(tag, Some("2.0.0".to_string()));
        }
        other => panic!("unexpected plan {:?}", other),
    }
    let branch = Dependency::git("nio", "https://x/nio.git").with_branch("main");
    match Fetcher::plan(&branch, "/d").unwrap() {
        FetchPlan::GitClone { reference, tag, .. } => {
            assert_eq!(reference, Some("main".to_string()));
            assert_eq!(tag, None);
        }
        other => panic!("unexpected plan {:?}", other),
    }
    match Fetcher::plan(&Dependency::path("local", "../local"), "/d").unwrap() {
        FetchPlan::Link { name, source, dest } => {
            assert_eq!((name.as_str(), source.as_str(), dest.as_str()), ("local", "../local", "/d"));
        }
        other => panic!("unexpected plan {:?}", other),
    }
    let registry = Dependency::registry("log", VersionReq::parse("^1").unwrap());
    match Fetcher::plan(&registry, "/d") {
        Err(FetchError::FetchFailed { package, message }) => {
            assert_eq!(package, "log");
            assert_eq!(message, "registry fetching not implemented");
        }
        other => panic!("unexpected plan {:?}", other),
    }
    assert_eq!(
        Fetcher::clone_arguments("https://x/nio.git", "/d", Some("2.0.0")),
        vec!["clone", "--depth", "1", "--branch", "2.0.0", "https://x/nio.git", "/d"]
    );
    assert_eq!(
        Fetcher::clone_arguments("https://x/nio.git", "/d", None),
        vec!["clone", "--depth", "1", "https://x/nio.git", "/d"]
    );
    let done = Fetcher::cloned("nio", "/d", "abc123\n", "sum".to_string(), None);
    assert_eq!(done.revision, Some("abc123".to_string()));
    assert_eq!(Fetcher::new(Some(4)).concurrency(), 8);
    assert_eq!(Fetcher::new(Some(16)).concurrency(), 16);
    assert_eq!(Fetcher::new(None).concurrency(), 8);
    assert_eq!(Fetcher::new(None).with_concurrency(3).concurrency(), 3);
    let failed: Result<FetchResult, FetchError> = Err(FetchError::GitError("boom".to_string()));
    match Fetcher::status_of(&failed) {
        FetchStatus::Failed(m) => assert_eq!(m, "Git error: boom"),
        other => panic!("unexpected status {:?}", other),
    }
}

fn run_schedule(limit: usize, tasks: usize) -> (Vec<usize>, usize) {
    let mut schedule = FetchSchedule::new(limit, tasks);
    let mut started = Vec::new();
    let mut running = 0usize;
    let mut most = 0usize;
    while !schedule.is_done() {
        while let Some(i) = schedule.start_next() {
            started.push(i);
            running += 1;
        }
        most = most.max(running);
        assert!(running > 0);
        schedule.finish_one();
        running -= 1;
    }
    (started, most)
}

#[test]
fn schedule_bounds_the_running_fetches() {
    let (one, most_one) = run_schedule(1, 5);
    let (many, most_many) = run_schedule(8, 5);
    assert_eq!(one, vec![0, 1, 2, 3, 4]);
    assert_eq!(many, one);
    assert_eq!(most_one, 1);
    assert_eq!(most_many, 5);
    let (none, _) = run_schedule(3, 0);
    assert!(none.is_empty());
}

#[test]
fn remote_tags_are_read_and_ordered() {
    let output = "aaa\trefs/tags/1.4.0\nbbb\trefs/tags/v1.10.0\nccc\trefs/tags/nightly\n\
                  ddd\trefs/tags/v1.4.0\nnot a tag line\neee\trefs/tags/alpha\nfff\trefs/heads/x\n";
    let tags = parse_remote_tags(output);
    let names: Vec<&str> = tags.iter().map(|t| t.name.as_str()).collect();
    assert_eq!(names, vec!["v1.10.0", "1.4.0", "v1.4.0", "refs/heads/x", "nightly", "alpha"]);
    assert_eq!(tags[0].version, Some(Version::new(1, 10, 0)));
    assert_eq!(tags[0].sha, "bbb");
    assert_eq!(tags[3].version, None);
    assert!(parse_tag_line("a\tb\tc").is_none());
    assert!(parse_tag_line("no tab").is_none());
    assert!(parse_remote_tags("").is_empty());
}

fn parsed(name: &str, deps: &[(&str, Dependency)]) -> ParsedDependency {
    let mut manifest = Manifest::default();
    manifest.package.name = name.to_string();
    manifest.package.version = Version::new(1, 2, 3);
    for (n, d) in deps {
        manifest.dependencies.insert(n.to_string(), d.clone());
    }
    ParsedDependency {
        name: name.to_string(),
        path: format!("/store/git/{}", name),
        dependency_names: deps.iter().map(|(n, _)| n.to_string()).collect(),
        manifest,
    }
}

#[test]
fn discovery_walks_the_dependencies_round_by_round() {
    let cache = GlobalCache::open_at("/store");
    let mut manifest = Manifest::default();
    manifest
        .dependencies
        .insert("nio".to_string(), Dependency::git("nio", "https://x/nio.git").with_tag("2.0.0"));
    manifest.dependencies.insert("local".to_string(), Dependency::path("local", "../local"));
    let mut discovery = Discovery::start(&manifest);

    let round = discovery.next_round(&cache).unwrap();
    assert_eq!(round.depth, 1);
    assert_eq!(round.message, "Resolving 2 direct dependencies");
    let wanted: Vec<(&str, &str)> =
        round.wanted.iter().map(|w| (w.name.as_str(), w.checkout.as_str())).collect();
    assert_eq!(wanted, vec![("nio", "/store/git/nio"), ("local", "/store/git/local")]);

    let log = Dependency::git("log", "https://x/log.git");
    let registry_only = Dependency::registry("atomics", VersionReq::parse("^1").unwrap());
    let found = vec![
        parsed("nio", &[("log", log.clone()), ("atomics", registry_only)]),
        parsed("local", &[("nio", Dependency::git("nio", "https://other/nio.git"))]),
    ];
    discovery.absorb(
        &found,
        &vec!["log".to_string(), "atomics".to_string(), "nio".to_string()],
    );

    let round = discovery.next_round(&cache).unwrap();
    assert_eq!(round.depth, 2);
    assert_eq!(round.message, "Resolving 1 transitive dependencies (depth 2)");
    assert_eq!(round.wanted.len(), 1);
    assert_eq!(round.wanted[0].name, "log");

    discovery.absorb(&vec![parsed("log", &[])], &vec![]);
    assert!(discovery.next_round(&cache).is_none());
    assert!(!discovery.reached_bound());
    let (resolution, warning) = discovery.finish();
    assert!(!warning);
    let names: Vec<&str> = resolution.packages.entries.iter().map(|e| e.0.as_str()).collect();
    assert_eq!(names, vec!["nio", "local", "log"]);
    let nio = resolution.packages.get("nio").unwrap();
    assert_eq!(nio.version, Version::new(1, 2, 3));
    assert_eq!(nio.dependencies, vec!["log", "atomics"]);
    match &nio.source {
        ResolvedSource::Git { url, revision, tag } => {
            assert_eq!(url, "https://x/nio.git");
            assert_eq!(revision, "HEAD");
            assert_eq!(tag.as_deref(), Some("2.0.0"));
        }
        other => panic!("unexpected source {:?}", other),
    }
    match &resolution.packages.get("local").unwrap().source {
        ResolvedSource::Path { path } => assert_eq!(path, "../local"),
        other => panic!("unexpected source {:?}", other),
    }
}

#[test]
fn discovery_stops_at_the_bound() {
    let cache = GlobalCache::open_at("/store");
    let mut manifest = Manifest::default();
    manifest.dependencies.insert("p0".to_string(), Dependency::git("p0", "https://x/p0.git"));
    let mut discovery = Discovery::start(&manifest);
    let mut rounds = 0;
    while let Some(round) = discovery.next_round(&cache) {
        rounds += 1;
        assert_eq!(round.depth, rounds);
        let name = round.wanted[0].name.clone();
        let next = format!("p{}", rounds);
        let dep = Dependency::git(&next, "https://x/next.git");
        discovery.absorb(&vec![parsed(&name, &[(next.as_str(), dep)])], &vec![next.clone()]);
        assert!(rounds <= MAX_ITERATIONS);
    }
    assert_eq!(rounds, MAX_ITERATIONS);
    assert_eq!(MAX_ITERATIONS, 20);
    assert!(discovery.reached_bound());
    let (resolution, warning) = discovery.finish();
    assert!(warning);
    assert_eq!(resolution.packages.len(), 20);
}

#[test]
fn discovery_of_an_empty_manifest_has_no_round() {
    let cache = GlobalCache::open_at("/store");
    let mut discovery = Discovery::start(&Manifest::default());
    assert!(discovery.next_round(&cache).is_none());
    let (resolution, warning) = discovery.finish();
    assert!(resolution.packages.is_empty());
    assert!(!warning);
}

fn locked_git(name: &str, version: Version) -> LockedPackage {
    let mut p = LockedPackage::git(name, version, &format!("https://x/{}.git", name), "abc".to_string());
    p.dependencies = vec!["dep".to_string()];
    p
}

#[test]
fn frozen_installation_takes_the_lockfile() {
    let lock = Lockfile {
        version: 1,
        packages: vec![
            locked_git("nio", Version::new(2, 58, 0)),
            locked_git("zero", Version::new(0, 0, 0)),
            LockedPackage::registry("log", Version::new(1, 5, 4), "blake3:aa".to_string()),
        ],
    };
    let resolution = resolution_from_lockfile(&lock);
    assert_eq!(resolution.packages.len(), 3);
    let nio = resolution.packages.get("nio").unwrap();
    assert_eq!(nio.dependencies, vec!["dep"]);
    match &nio.source {
        ResolvedSource::Git { url, revision, tag } => {
            assert_eq!(url, "https://x/nio.git");
            assert_eq!(revision, "abc");
            assert_eq!(tag.as_deref(), Some("2.58.0"));
        }
        other => panic!("unexpected source {:?}", other),
    }
    match &resolution.packages.get("zero").unwrap().source {
        ResolvedSource::Git { tag, .. } => assert_eq!(*tag, None),
        other => panic!("unexpected source {:?}", other),
    }
    assert!(matches!(
        resolution.packages.get("log").unwrap().source,
        ResolvedSource::Registry
    ));

    assert!(matches!(decide_posture(true, None), Err(InstallError::FrozenWithoutLockfile)));
    assert_eq!(
        InstallError::FrozenWithoutLockfile.to_string(),
        "No lockfile found but --frozen was specified"
    );
    assert!(matches!(decide_posture(true, Some(&lock)), Ok(Posture::Locked(_))));
    match decide_posture(false, Some(&lock)).unwrap() {
        Posture::Resolve(hints) => {
            assert_eq!(hints.preferred_version("nio"), Some(&Version::new(2, 58, 0)));
            assert_eq!(hints.preferred_revision("nio"), Some("abc"));
            assert_eq!(hints.preferred_revision("log"), None);
        }
        other => panic!("unexpected posture {:?}", other),
    }
    match decide_posture(false, None).unwrap() {
        Posture::Resolve(hints) => assert!(hints.is_empty()),
        other => panic!("unexpected posture {:?}", other),
    }
}

fn resolution_of(entries: Vec<(&str, Version, ResolvedSource)>) -> Resolution {
    let mut resolution = Resolution::default();
    for (name, version, source) in entries {
        resolution.packages.insert(
            name.to_string(),
            ResolvedDep {
                name: name.to_string(),
                version,
                source,
                dependencies: vec![],
            },
        );
    }
    resolution
}

#[test]
fn fetches_are_planned_collected_and_locked() {
    let cache = GlobalCache::open_at("/store");
    let resolution = resolution_of(vec![
        (
            "swift nio",
            Version::new(2, 0, 0),
            ResolvedSource::Git {
                url: "https://x/nio.git".to_string(),
                revision: "HEAD".to_string(),
                tag: Some("v2.58.0".to_string()),
            },
        ),
        ("log", Version::new(1, 5, 4), ResolvedSource::Registry),
        ("local", Version::new(0, 1, 0), ResolvedSource::Path { path: "../local".to_string() }),
    ]);
    let requests = fetch_requests(&resolution, &cache);
    let seen: Vec<(&str, &str, DependencySource)> = requests
        .iter()
        .map(|r| (r.name.as_str(), r.dest.as_str(), r.dependency.source_kind()))
        .collect();
    assert_eq!(
        seen,
        vec![
            ("swift nio", "/store/git/swift_nio", DependencySource::Git),
            ("local", "/store/git/local", DependencySource::Path),
        ]
    );
    assert_eq!(requests[0].dependency.revision.as_deref(), Some("HEAD"));
    assert_eq!(requests[0].tag.as_deref(), Some("v2.58.0"));

    let cached = vec![gust::installer::cached_result(&requests[1])];
    let fetched = vec![Ok(Fetcher::cloned(
        "swift nio",
        "/store/git/swift_nio",
        "f00\n",
        "sum".to_string(),
        None,
    ))];
    let results = collect_results(cached, fetched).unwrap();
    let names: Vec<&str> = results.iter().map(|r| r.name.as_str()).collect();
    assert_eq!(names, vec!["local", "swift nio"]);

    let failed = collect_results(
        vec![],
        vec![
            Err(FetchError::GitError("a".to_string())),
            Ok(Fetcher::linked("x", "/d", "s".to_string())),
            Err(FetchError::IoError("b".to_string())),
        ],
    );
    match failed {
        Err(e) => assert_eq!(e.to_string(), "Fetch errors: Git error: a, IO error: b"),
        Ok(_) => panic!("failures must fail the batch"),
    }

    let locked = lock_entries(&resolution, &results);
    assert_eq!(locked.len(), 2);
    assert_eq!(locked[0].name, "swift nio");
    assert_eq!(locked[0].version, Version::new(2, 58, 0));
    assert_eq!(locked[0].revision.as_deref(), Some("f00"));
    assert_eq!(locked[0].git.as_deref(), Some("https://x/nio.git"));
    assert_eq!(locked[1].name, "log");
    assert_eq!(locked[1].checksum.as_deref(), Some(""));

    match plan_lockfile(None, locked) {
        LockPlan::Write { lockfile, diff } => {
            let names: Vec<&str> = lockfile.packages.iter().map(|p| p.name.as_str()).collect();
            assert_eq!(names, vec!["log", "swift nio"]);
            assert_eq!(diff.added.len(), 2);
            let again: Vec<LockedPackage> = lockfile.packages.iter().map(|p| p.clone()).collect();
            assert!(matches!(plan_lockfile(Some(&lockfile), again), LockPlan::Keep));
        }
        LockPlan::Keep => panic!("a first lockfile must be written"),
    }
    assert!(matches!(plan_lockfile(None, vec![]), LockPlan::Keep));

    let installer = Installer::new(
        "/proj".to_string(),
        GlobalCache::open_at("/store"),
        InstallOptions { frozen: true, concurrency: 2 },
    );
    assert_eq!(installer.lockfile_path(), "/proj/Gust.lock");
    assert_eq!(installer.link_path("nio"), "/proj/.build/checkouts/nio");
    assert_eq!(installer.fetcher().concurrency(), 2);
    assert!(installer.is_frozen());
}

#[test]
fn build_order_puts_dependencies_first() {
    let ws = workspace(vec![
        member("app", &["cli", "core"], &[]),
        member("cli", &["core"], &[]),
        member("core", &[], &[]),
        member("tools", &["missing"], &[]),
    ]);
    assert_eq!(ws.build_positions().unwrap(), vec![2, 1, 0, 3]);
    let names: Vec<&str> = ws.build_order().unwrap().iter().map(|m| m.name.as_str()).collect();
    assert_eq!(names, vec!["core", "cli", "app", "tools"]);
    assert!(workspace(vec![]).build_positions().unwrap().is_empty());
}

#[test]
fn build_order_detects_cycles() {
    let ws = workspace(vec![
        member("a", &["b"], &[]),
        member("b", &["c"], &[]),
        member("c", &["a"], &[]),
    ]);
    match ws.build_positions() {
        Err(WorkspaceError::CycleDetected { cycle }) => assert_eq!(cycle, vec!["c", "a"]),
        other => panic!("unexpected outcome {:?}", other),
    }
    let own = workspace(vec![member("a", &["a"], &[])]);
    match own.build_order() {
        Err(WorkspaceError::CycleDetected { cycle }) => assert_eq!(cycle, vec!["a", "a"]),
        other => panic!("unexpected outcome {:?}", other.map(|o| o.len())),
    }
}

fn two_member_workspace() -> Workspace {
    let mut core_manifest = Manifest::default();
    core_manifest.package.name = "core".to_string();
    core_manifest.package.version = Version::new(0, 1, 0);
    core_manifest.dependencies.insert(
        "swift-log".to_string(),
        Dependency::registry("swift-log", VersionReq::parse("^1.4").unwrap()),
    );
    let mut cli_manifest = Manifest::default();
    cli_manifest.package.name = "cli".to_string();
    cli_manifest.package.version = Version::new(0, 1, 0);
    cli_manifest.dependencies.insert(
        "swift-log".to_string(),
        Dependency::registry("swift-log", VersionReq::parse("^1.4").unwrap()),
    );
    cli_manifest.dependencies.insert(
        "swift-argument-parser".to_string(),
        Dependency::registry("swift-argument-parser", VersionReq::parse("^1.2").unwrap()),
    );
    Workspace {
        root: "/workspace".to_string(),
        root_manifest: Manifest::default(),
        config: WorkspaceConfig::default(),
        members: vec![
            WorkspaceMember {
                path: "/workspace/packages/core".to_string(),
                name: "core".to_string(),
                manifest: core_manifest,
                workspace_deps: vec![],
            },
            WorkspaceMember {
                path: "/workspace/packages/cli".to_string(),
                name: "cli".to_string(),
                manifest: cli_manifest,
                workspace_deps: vec!["core".to_string()],
            },
        ],
        shared_dependencies: NameMap::new(),
    }
}

#[test]
fn test_workspace_collects_all_deps() {
    let ws = two_member_workspace();
    let all_deps = ws.all_external_dependencies();

    assert!(all_deps.contains_key("swift-log"));
    assert!(all_deps.contains_key("swift-argument-parser"));
    assert!(!all_deps.contains_key("core"));
    assert_eq!(all_deps.len(), 2);

    let unified = WorkspaceResolver::unified_manifest(&ws);
    assert_eq!(unified.package.name, "-workspace");
    assert_eq!(unified.dependencies.len(), 2);
    let per_member = WorkspaceResolver::member_dependencies(&ws);
    assert_eq!(per_member[0], ("core".to_string(), vec!["swift-log".to_string()]));
    assert_eq!(
        per_member[1],
        (
            "cli".to_string(),
            vec!["swift-log".to_string(), "swift-argument-parser".to_string()]
        )
    );
    let mut resolution = Resolution::default();
    resolution.packages.insert(
        "swift-log".to_string(),
        ResolvedDep {
            name: "swift-log".to_string(),
            version: Version::new(1, 5, 4),
            source: ResolvedSource::Registry,
            dependencies: vec![],
        },
    );
    let done = WorkspaceResolver::conclude(&ws, resolution);
    assert_eq!(done.packages_for_member("cli").len(), 1);
    assert_eq!(done.packages_for_member("cli")[0].name, "swift-log");
    assert!(done.packages_for_member("nobody").is_empty());
    assert_eq!(done.all_packages().len(), 1);
}

#[test]
fn members_inherit_from_the_workspace() {
    let mut shared: NameMap<Dependency> = NameMap::new();
    shared.insert(
        "swift-log".to_string(),
        Dependency::registry("swift-log", VersionReq::parse("^1.5").unwrap()),
    );
    let bare = |name: &str| Dependency {
        name: name.to_string(),
        version: None,
        git: None,
        branch: None,
        tag: None,
        revision: None,
        path: None,
        features: vec![],
        optional: false,
    };
    let mut manifest = Manifest::default();
    manifest.package.name = "cli".to_string();
    manifest.dependencies.insert("swift-log".to_string(), bare("swift-log"));
    manifest.dependencies.insert("core".to_string(), bare("core"));
    manifest
        .dependencies
        .insert("nio".to_string(), Dependency::git("nio", "https://x/nio.git"));
    let names = vec!["core".to_string(), "cli".to_string()];
    let loaded = WorkspaceLoader::new()
        .load_member("/ws/cli", manifest, &shared, &names)
        .unwrap();
    assert_eq!(loaded.name, "cli");
    assert_eq!(loaded.workspace_deps, vec!["core"]);
    let log = loaded.manifest.dependencies.get("swift-log").unwrap();
    assert_eq!(log.version.as_ref().unwrap().to_string(), "^1.5");
    assert!(loaded.manifest.dependencies.get("nio").unwrap().git.is_some());

    let mut broken = Manifest::default();
    broken.dependencies.insert("ghost".to_string(), bare("ghost"));
    match WorkspaceLoader::new().load_member("/ws/x", broken, &shared, &names) {
        Err(WorkspaceError::InvalidConfig(m)) => assert_eq!(
            m,
            "Dependency 'ghost' marked as workspace but not found in [workspace.dependencies]"
        ),
        other => panic!("unexpected outcome {:?}", other.map(|m| m.name)),
    }
    let mut kept = Manifest::default();
    kept.dependencies.insert("ghost".to_string(), bare("ghost"));
    let plain = WorkspaceLoader::new()
        .without_inheritance()
        .load_member("/ws/x", kept, &shared, &names)
        .unwrap();
    assert!(plain.workspace_deps.is_empty());
    assert!(plain.manifest.dependencies.contains_key("ghost"));
}

#[test]
fn manifests_are_found_and_entries_read() {
    assert_eq!(
        find_manifest("/p", true, true).unwrap(),
        (ManifestType::GustToml, "/p/Gust.toml".to_string())
    );
    assert_eq!(
        find_manifest("/p", false, true).unwrap(),
        (ManifestType::PackageSwift, "/p/Package.swift".to_string())
    );
    match find_manifest("/p", false, false) {
        Err(ManifestError::NotFound(p)) => assert_eq!(p, "/p"),
        other => panic!("unexpected outcome {:?}", other),
    }
    let dep = parse_raw_dependency("log", RawDependency::Version("1.5".to_string())).unwrap();
    assert_eq!(dep.version.unwrap().to_string(), "^1.5");
    let full = |version: Option<&str>, git: Option<&str>, path: Option<&str>| RawDependency::Full {
        version: version.map(|s| s.to_string()),
        git: git.map(|s| s.to_string()),
        branch: Some("main".to_string()),
        tag: Some("5.8.0".to_string()),
        revision: None,
        path: path.map(|s| s.to_string()),
        features: vec!["tls".to_string()],
        optional: true,
    };
    let dep = parse_raw_dependency("a", full(Some("1"), Some("https://x/a.git"), None)).unwrap();
    assert_eq!(dep.source_kind(), DependencySource::Git);
    assert_eq!(dep.tag.as_deref(), Some("5.8.0"));
    assert_eq!(dep.branch.as_deref(), Some("main"));
    assert!(dep.version.is_none());
    assert_eq!(dep.features, vec!["tls"]);
    assert!(dep.optional);
    let dep = parse_raw_dependency("a", full(Some("1"), Some("u"), Some("../a"))).unwrap();
    assert_eq!(dep.source_kind(), DependencySource::Path);
    assert!(dep.git.is_none() && dep.tag.is_none());
    match parse_raw_dependency("a", full(None, None, None)) {
        Err(ManifestError::ValidationError(m)) => {
            assert_eq!(m, "Dependency a must have version, git, or path")
        }
        other => panic!("unexpected outcome {:?}", other),
    }
    match parse_raw_dependency("a", RawDependency::Version("??".to_string())) {
        Err(ManifestError::ValidationError(m)) => assert!(m.starts_with("Invalid version for a: ")),
        other => panic!("unexpected outcome {:?}", other),
    }
    assert_eq!(parse_target_type("plugin").unwrap(), TargetType::Plugin);
    assert_eq!(
        parse_target_type("binary").unwrap_err().to_string(),
        "Invalid manifest: Unknown target type: binary"
    );
}

#[test]
fn foreign_manifest_is_converted() {
    let text = r#"{
        "name": "swift-nio",
        "toolsVersion": {"_version": "5.7.0"},
        "ignored": [1, 2.5, true, null],
        "dependencies": [
            {"sourceControl": [{"identity": "swift-log",
                "location": {"remote": [{"urlString": "https://a/log.git"},
                                        {"urlString": "https://b/log.git"}]}}]},
            {"fileSystem": [{"identity": "local"}]},
            {"sourceControl": [{"location": {"local": ["/x"]}}]}
        ],
        "targets": [
            {"name": "NIO", "type": "regular", "path": "Sources/NIO",
             "dependencies": [{"byName": ["NIOCore", null]}, {"product": ["X"]}, {"byName": []}]},
            {"name": "nio-bench", "type": "executable", "dependencies": []},
            {"type": "test"}
        ]
    }"#;
    let json = parse_json(text).unwrap();
    let manifest = convert_spm_json(&json).unwrap();
    assert_eq!(manifest.package.name, "swift-nio");
    assert_eq!(manifest.package.version, Version::new(0, 0, 0));
    assert_eq!(manifest.package.swift_tools_version, "5.7.0");
    let deps: Vec<(&str, Option<&str>)> = manifest
        .dependencies
        .entries
        .iter()
        .map(|(n, d)| (n.as_str(), d.git.as_deref()))
        .collect();
    assert_eq!(
        deps,
        vec![("swift-log", Some("https://a/log.git")), ("unknown", Some(""))]
    );
    let targets: Vec<(&str, TargetType, Option<&str>, Vec<String>)> = manifest
        .targets
        .iter()
        .map(|t| (t.name.as_str(), t.target_type, t.path.as_deref(), t.dependencies.clone()))
        .collect();
    assert_eq!(
        targets,
        vec![
            ("NIO", TargetType::Library, Some("Sources/NIO"), vec!["NIOCore".to_string()]),
            ("nio-bench", TargetType::Executable, None, vec![]),
            ("unknown", TargetType::Test, None, vec![]),
        ]
    );
    let nameless = parse_json(r#"{"targets": []}"#).unwrap();
    assert_eq!(
        convert_spm_json(&nameless).unwrap_err().to_string(),
        "Failed to parse Package.swift: Missing package name"
    );
    let plain = convert_spm_json(&parse_json(r#"{"name": "x"}"#).unwrap()).unwrap();
    assert_eq!(plain.package.swift_tools_version, "5.9");
    assert!(plain.dependencies.is_empty() && plain.targets.is_empty());
    assert!(parse_json("{").is_err());
    assert!(matches!(parse_json("[1]").unwrap(), Json::List(_)));
}

#[test]
fn native_manifest_is_written() {
    let mut manifest = Manifest::default();
    manifest.package.name = "MyApp".to_string();
    manifest.package.version = Version::new(1, 0, 0);
    manifest.package.description = Some("An app".to_string());
    manifest.dependencies.insert(
        "swift-log".to_string(),
        Dependency::registry("swift-log", VersionReq::parse("1.5").unwrap()),
    );
    manifest
        .dependencies
        .insert("nio".to_string(), Dependency::git("nio", "https://x/nio.git"));
    manifest.dependencies.insert("local".to_string(), Dependency::path("local", "../l"));
    let mut app = Target::executable("MyApp");
    app.dependencies = vec!["Core".to_string(), "swift-log".to_string()];
    manifest.targets.push(app);
    let mut system = Target::library("CLib");
    system.target_type = TargetType::SystemLibrary;
    manifest.targets.push(system);
    assert_eq!(
        generate_gust_toml(&manifest),
        "[package]\nname = \"MyApp\"\nversion = \"1.0.0\"\nswift-tools-version = \"5.9\"\n\
         description = \"An app\"\n\n[dependencies]\nswift-log = \"^1.5\"\n\
         nio = { git = \"https://x/nio.git\" }\n\n[[target]]\nname = \"MyApp\"\n\
         type = \"executable\"\ndependencies = [\"Core\", \"swift-log\"]\n\n[[target]]\n\
         name = \"CLib\"\ntype = \"systemlibrary\"\n"
    );
    assert_eq!(
        generate_gust_toml(&Manifest::default()),
        "[package]\nname = \"\"\nversion = \"0.1.0\"\nswift-tools-version = \"5.9\"\n"
    );
}

#[test]
fn parsed_manifests_are_gathered() {
    let mut a = Manifest::default();
    a.dependencies.insert("x".to_string(), Dependency::git("x", "u"));
    a.dependencies.insert("y".to_string(), Dependency::git("y", "u"));
    let mut b = Manifest::default();
    b.dependencies.insert("y".to_string(), Dependency::git("y", "u"));
    b.dependencies.insert("z".to_string(), Dependency::git("z", "u"));
    let (parsed, discovered) = collect_parsed(vec![
        ("a".to_string(), "/a".to_string(), Ok(a)),
        ("bad".to_string(), "/bad".to_string(), Err(ManifestError::NotFound("/bad".to_string()))),
        ("b".to_string(), "/b".to_string(), Ok(b)),
    ]);
    let names: Vec<&str> = parsed.iter().map(|p| p.name.as_str()).collect();
    assert_eq!(names, vec!["a", "b"]);
    assert_eq!(parsed[1].dependency_names, vec!["y", "z"]);
    assert_eq!(parsed[1].path, "/b");
    assert_eq!(discovered, vec!["x", "y", "z"]);
}

fn outdated(current: &str, latest: &str) -> OutdatedPackage {
    OutdatedPackage {
        name: "p".to_string(),
        current: current.to_string(),
        latest: latest.to_string(),
        latest_tag: format!("v{}", latest),
    }
}

#[test]
fn updates_are_found_and_filtered() {
    let kept = filter_breaking(
        vec![
            outdated("1.0.0", "1.9.0"),
            outdated("1.0.0", "2.0.0"),
            outdated("0.3.0", "0.3.9"),
            outdated("0.3.0", "0.4.0"),
            outdated("main", "2.0.0"),
        ],
        false,
    );
    let latest: Vec<&str> = kept.iter().map(|u| u.latest.as_str()).collect();
    assert_eq!(latest, vec!["1.9.0", "0.3.9", "2.0.0"]);
    assert_eq!(filter_breaking(vec![outdated("1.0.0", "2.0.0")], true).len(), 1);

    let tags = parse_remote_tags("a\trefs/tags/nightly\nb\trefs/tags/v2.1.0\nc\trefs/tags/1.0.0\n");
    let package = LockedPackage::git("p", Version::new(2, 0, 0), "https://x/p.git", "r".to_string());
    let found = check_for_update(&package, &tags).unwrap();
    assert_eq!(
        (found.name.as_str(), found.current.as_str(), found.latest.as_str(), found.latest_tag.as_str()),
        ("p", "2.0.0", "2.1.0", "v2.1.0")
    );
    let current = LockedPackage::git("p", Version::new(2, 1, 0), "https://x/p.git", "r".to_string());
    assert!(check_for_update(&current, &tags).is_none());
    let registry = LockedPackage::registry("p", Version::new(1, 0, 0), "c".to_string());
    assert!(check_for_update(&registry, &tags).is_none());
    assert!(check_for_update(&package, &vec![]).is_none());

    assert!(should_check(false, None, 100));
    assert!(!should_check(true, None, 100));
    assert!(!should_check(false, Some(100), 100 + 86399));
    assert!(should_check(false, Some(100), 100 + 86400));
    assert!(!should_check(false, Some(200), 100));
    assert!(!is_stale(100, 100 + 86400));
    assert!(is_stale(100, 100 + 86401));
    assert!(is_stale(200, 100));
    assert!(is_newer("1.2.0", "1.1.9"));
    assert!(!is_newer("1.2.0", "1.2.0"));
    assert!(!is_newer("next", "1.2.0"));
    assert_eq!(version_of_release("vv1.2.0"), "1.2.0");
    assert_eq!(detect_target("linux", "x86_64"), Some("x86_64-unknown-linux-gnu"));
    assert_eq!(detect_target("windows", "x86_64"), None);
    assert_eq!(
        download_url("quantbagel/gust", "1.2.0", "aarch64-apple-darwin"),
        "https://github.com/quantbagel/gust/releases/download/v1.2.0/gust-aarch64-apple-darwin.tar.gz"
    );
}

fn float_size(total: u64) -> String {
    let size = total as f64;
    if size < 1024.0 {
        format!("{} B", total)
    } else if size < 1024.0 * 1024.0 {
        format!("{:.1} KB", size / 1024.0)
    } else if size < 1024.0 * 1024.0 * 1024.0 {
        format!("{:.1} MB", size / 1024.0 / 1024.0)
    } else {
        format!("{:.2} GB", size / 1024.0 / 1024.0 / 1024.0)
    }
}

#[test]
fn sizes_read_as_floating_point_would_print_them() {
    let mut samples: Vec<u64> = vec![
        0, 1, 1023, 1024, 1025, 1280, 1331, 1536, 2047, 10 * 1024 + 51, 1048575, 1048576,
        1048577, 1572864, 1073741823, 1073741824, 1073741825, 5 * 1073741824 + 5368709,
        (1 << 53) - 1, 1 << 53, (1 << 53) + 1, (1 << 53) + 3, u64::MAX, u64::MAX - 1024,
        (1 << 63) + 1024, (1 << 63) + 1025, 0x7fff_ffff_ffff_fdff, 0x7fff_ffff_ffff_fe00,
    ];
    let mut x: u64 = 0x9e37_79b9_7f4a_7c15;
    for _ in 0..4000 {
        x ^= x << 13;
        x ^= x >> 7;
        x ^= x << 17;
        samples.push(x);
        samples.push(x >> 20);
        samples.push(x >> 34);
        samples.push(x >> 44);
    }
    for q in 0..3000u64 {
        samples.push((1024 * q + 512) / 10);
        samples.push(((1 << 30) * q + (1 << 29)) / 100);
    }
    for total in samples {
        let stats = CacheStats { count: 0, total_size: total };
        assert_eq!(stats.size_human(), float_size(total), "{}", total);
    }
}

#[test]
fn cache_statistics_count_archives() {
    let files = vec![
        ("a.tar.zst".to_string(), 100u64),
        ("notes.txt".to_string(), 5),
        (".zst".to_string(), 7),
        ("b.zst".to_string(), 1000),
    ];
    let stats = CacheStats::of_files(&files);
    assert_eq!((stats.count, stats.total_size), (2, 1100));
    let huge = vec![("a.zst".to_string(), u64::MAX), ("b.zst".to_string(), 2)];
    assert_eq!(CacheStats::of_files(&huge).total_size, u64::MAX);
    assert_eq!(ManifestCache::new("/c".to_string()).entry_path("k"), "/c/k.json");
    assert_eq!(
        ManifestCache::cache_key(b"x"),
        blake3::hash(b"x").to_hex().to_string()
    );
    assert!(ManifestCache::is_entry_name("k.json"));
    assert!(!ManifestCache::is_entry_name("k.jsonl"));
}

#[test]
fn trees_are_filtered_for_hashing() {
    for name in ["a.swift", ".hidden.swift", "x", "a.b.c", "a.", ".git", "Package.resolved", "m.mm"] {
        let expected = std::path::Path::new(name)
            .extension()
            .map(|e| e.to_string_lossy().to_string());
        assert_eq!(file_extension(name), expected, "{:?}", name);
    }
    assert_eq!(visit(TreeFilter::Sources, "main.swift", false), Visit::Hash);
    assert_eq!(visit(TreeFilter::Sources, "bridge.h", false), Visit::Hash);
    assert_eq!(visit(TreeFilter::Sources, "README.md", false), Visit::Skip);
    assert_eq!(visit(TreeFilter::Sources, ".build", true), Visit::Skip);
    assert_eq!(visit(TreeFilter::Sources, "Package.resolved", false), Visit::Skip);
    assert_eq!(visit(TreeFilter::Sources, "Sources", true), Visit::Descend);
    assert_eq!(visit(TreeFilter::Checkout, ".git", true), Visit::Skip);
    assert_eq!(visit(TreeFilter::Checkout, ".github", true), Visit::Descend);
    assert_eq!(visit(TreeFilter::Checkout, "README.md", false), Visit::Hash);
    assert_eq!(entry_key("", "a.swift"), "a.swift");
    assert_eq!(entry_key("Sources/App", "a.swift"), "Sources/App/a.swift");
    let candidates = gust::hasher::source_dir_candidates("/p", "App");
    assert_eq!(candidates, vec!["/p/Sources/App", "/p/Source/App", "/p/src/App", "/p/App"]);
    assert_eq!(
        gust::hasher::choose_source_dir("/p", &candidates, &vec![false, false, true, true]),
        "/p/src/App"
    );
    assert_eq!(
        gust::hasher::choose_source_dir("/p", &candidates, &vec![false; 4]),
        "/p/Sources"
    );
    assert_eq!(gust::hasher::hash_manifest(None, None), "");
    assert_eq!(
        gust::hasher::hash_manifest(Some(b"native"), Some(b"foreign")),
        blake3::hash(b"native").to_hex().to_string()
    );
    assert_eq!(
        gust::hasher::hash_manifest(None, Some(b"foreign")),
        blake3::hash(b"foreign").to_hex().to_string()
    );
}

#[test]
fn linking_falls_back_to_copying() {
    let (state, action) = link_step(LinkState::Start, LinkEvent::Begin);
    assert!(matches!((state, action), (LinkState::ParentReady, LinkAction::EnsureParent)));
    let (state, action) = link_step(state, LinkEvent::Succeeded { dest_exists: true });
    assert!(matches!((state, action), (LinkState::Cleared, LinkAction::RemoveExisting)));
    let (state, action) = link_step(state, LinkEvent::Succeeded { dest_exists: false });
    assert!(matches!((state, action), (LinkState::LinkTried, LinkAction::HardLink)));
    let (state, action) = link_step(state, LinkEvent::Failed("cross-device".to_string()));
    assert!(matches!((state, action), (LinkState::Finished, LinkAction::Copy)));
    let (_, action) = link_step(state, LinkEvent::Failed("disk full".to_string()));
    match action {
        LinkAction::Fail(CacheError::WriteError(m)) => assert_eq!(m, "disk full"),
        other => panic!("unexpected action {:?}", other),
    }
    let (state, action) =
        link_step(LinkState::ParentReady, LinkEvent::Succeeded { dest_exists: false });
    assert!(matches!((state, action), (LinkState::LinkTried, LinkAction::HardLink)));
    let (_, action) = link_step(state, LinkEvent::Succeeded { dest_exists: true });
    assert!(matches!(action, LinkAction::Done));
    let (_, action) = link_step(LinkState::ParentReady, LinkEvent::Failed("denied".to_string()));
    match action {
        LinkAction::Fail(e) => assert_eq!(e.to_string(), "Failed to create cache directory: denied"),
        other => panic!("unexpected action {:?}", other),
    }
}

#[test]
fn registry_addresses() {
    let base = "https://packages.swift.org";
    assert_eq!(package_url(base, "apple", "swift-log"), "https://packages.swift.org/apple/swift-log");
    assert_eq!(
        version_url(base, "apple", "swift-log", "1.5.4"),
        "https://packages.swift.org/apple/swift-log/1.5.4"
    );
    assert_eq!(
        manifest_url(base, "apple", "swift-log", "1.5.4"),
        "https://packages.swift.org/apple/swift-log/1.5.4/Package.swift"
    );
    assert_eq!(
        archive_url(base, "apple", "swift-log", "1.5.4"),
        "https://packages.swift.org/apple/swift-log/1.5.4.zip"
    );
    assert_eq!(
        lookup_url(base, "https://github.com/apple/swift-log"),
        "https://packages.swift.org/identifiers?url=https%3A%2F%2Fgithub.com%2Fapple%2Fswift-log"
    );
    assert_eq!(
        gust::registry::version_missing("apple", "swift-log", "9.9.9").to_string(),
        "Version not found: apple/swift-log@9.9.9"
    );
}

#[test]
fn plugins_are_discovered_and_checked() {
    let mut manifest = Manifest::default();
    manifest.package.name = "tools".to_string();
    let mut gen = Target::library("Gen");
    gen.target_type = TargetType::Plugin;
    let mut fmt = Target::library("Fmt");
    fmt.target_type = TargetType::Plugin;
    fmt.path = Some("Custom/Fmt".to_string());
    manifest.targets = vec![Target::library("Core"), gen, fmt];
    let found = discover_plugins("/pkg", &manifest);
    let seen: Vec<(&str, &str, &str)> = found
        .iter()
        .map(|p| (p.name.as_str(), p.source_path.as_str(), p.source_package.as_str()))
        .collect();
    assert_eq!(
        seen,
        vec![("Gen", "/pkg/Plugins/Gen", "tools"), ("Fmt", "Custom/Fmt", "tools")]
    );
    let mut manager = PluginManager::new("/cache").without_sandbox();
    manager.discover(&found);
    assert_eq!(manager.plugins().len(), 2);
    assert_eq!(manager.plugins()[0].executable, "/cache/Gen");
    assert_eq!(manager.build_tool_plugins().len(), 2);
    assert!(manager.command_plugins().is_empty());
    assert_eq!(manager.find("Fmt").unwrap().source_package, "tools");
    assert!(manager.find("Nope").is_none());
    let mut command = manager.find("Gen").map(|p| gust::plugin::Plugin {
        name: p.name.clone(),
        capability: gust::types::PluginCapability::Command(gust::types::CommandPluginCapability {
            intent: gust::types::CommandIntent::SourceCodeFormatting,
            permissions: vec![],
        }),
        executable: p.executable.clone(),
        permissions: vec![],
        source_package: p.source_package.clone(),
    }).unwrap();
    assert!(PluginManager::may_run(&command, &vec![]));
    command.permissions = vec![PluginPermission::WriteToPackageDirectory { reason: "fmt".to_string() }];
    assert!(!PluginManager::may_run(&command, &vec![]));
    assert!(PluginManager::may_run(
        &command,
        &vec![PluginPermission::WriteToPackageDirectory { reason: "fmt".to_string() }]
    ));
    assert!(!PluginManager::may_run(manager.find("Gen").unwrap(), &vec![]));
}
