//! Tests of the single parts of the library.

use gust::binary_cache::{BuildFingerprint, LocalBinaryCache};
use gust::builder::{BuildOptions, BuildPlan, Builder};
use gust::hasher::{hash_bytes, hash_listing, should_mmap, FileHash};
use gust::lockfile::{LockedPackage, Lockfile};
use gust::namemap::NameMap;
use gust::package_index::parse_github_url;
use gust::platform::{parse_number, PlatformInfo, SwiftToolchain};
use gust::plugin::discovery::PluginKind;
use gust::plugin::{Plugin, PluginManager};
use gust::registry::{encode, PackageIdentifier};
use gust::resolver::conflict::{ConflictFormatter, ErrorMessageBuilder};
use gust::resolver::error::{
    ConflictDerivation, ConflictingRequirement, DerivationStep, ResolutionSuggestion, ResolveError,
};
use gust::resolver::hints::{ChoiceReason, LockfileHints, ResolutionTrace};
use gust::resolver::package::GustPackage;
use gust::resolver::provider::{
    select_version, GustVersion, MemoryProvider, PackageProvider,
};
use gust::resolver::version_set::GustVersionSet;
use gust::store::GlobalCache;
use gust::text::Order;
use gust::types::{
    BuildConfiguration, CommandIntent, CommandPluginCapability, Dependency, DependencySource,
    Manifest, PluginCapability, ResolutionStrategy, Target, TargetType, WorkspaceConfig,
};
use gust::version::{Version, VersionReq};
use gust::workspace::{Workspace, WorkspaceDiscovery, WorkspaceMember};

#[test]
fn test_build_options_default() {
    let opts = BuildOptions::default();
    assert_eq!(opts.configuration, BuildConfiguration::Debug);
    assert!(opts.target.is_none());
}

#[test]
fn test_hash_bytes() {
    let hash = GlobalCache::hash_bytes(b"hello world");
    assert_eq!(hash.len(), 64);
}

#[test]
fn test_version_requirement() {
    let toolchain = SwiftToolchain {
        swift_path: "/usr/bin/swift".to_string(),
        version: "5.9.2".to_string(),
        major_version: 5,
        minor_version: 9,
    };

    assert!(toolchain.meets_requirement("5.9"));
    assert!(toolchain.meets_requirement("5.8"));
    assert!(!toolchain.meets_requirement("5.10"));
    assert!(!toolchain.meets_requirement("6.0"));
}

#[test]
fn test_plugin_kind_equality() {
    assert_eq!(PluginKind::BuildTool, PluginKind::BuildTool);
    assert_ne!(PluginKind::BuildTool, PluginKind::Command);
}

#[test]
fn test_plugin_manager_creation() {
    let manager = PluginManager::new("/tmp/gust-plugins");
    assert!(manager.plugins().is_empty());
}

#[test]
fn test_plugin_capability_check() {
    let build_tool = Plugin {
        name: "SwiftFormat".to_string(),
        capability: PluginCapability::BuildTool,
        executable: "/bin/swiftformat".to_string(),
        permissions: vec![],
        source_package: "swift-format".to_string(),
    };

    assert!(build_tool.is_build_tool());
    assert!(!build_tool.is_command());

    let command = Plugin {
        name: "DocsPreview".to_string(),
        capability: PluginCapability::Command(CommandPluginCapability {
            intent: CommandIntent::DocumentationGeneration,
            permissions: vec![],
        }),
        executable: "/bin/docs-preview".to_string(),
        permissions: vec![],
        source_package: "swift-docc".to_string(),
    };

    assert!(command.is_command());
    assert!(!command.is_build_tool());
}

#[test]
fn test_package_identifier_display() {
    let id = PackageIdentifier {
        scope: "apple".to_string(),
        name: "swift-argument-parser".to_string(),
    };
    assert_eq!(id.to_string(), "apple.swift-argument-parser");
}

#[test]
fn test_url_encoding() {
    assert_eq!(
        encode("https://github.com/apple/swift-log.git"),
        "https%3A%2F%2Fgithub.com%2Fapple%2Fswift-log.git"
    );
}

#[test]
fn test_format_incompatibility() {
    let requirements = vec![
        ("my-app".to_string(), "^1.4".to_string()),
        ("swift-nio".to_string(), ">=1.5.0".to_string()),
    ];

    let derivation =
        ConflictFormatter::format_incompatibility("swift-log", &requirements, "my-app");

    assert!(derivation.formatted.contains("swift-log"));
    assert!(derivation.formatted.contains("my-app"));
}

#[test]
fn test_format_cycle() {
    let cycle = vec![
        "package-a".to_string(),
        "package-b".to_string(),
        "package-c".to_string(),
    ];

    let output = ConflictFormatter::format_cycle(&cycle);
    assert!(output.contains("package-a"));
    assert!(output.contains("cycle"));
}

#[test]
fn test_error_message_builder() {
    let message = ErrorMessageBuilder::new()
        .add_header("Resolution failed")
        .add_section("Problem", "Version conflict for swift-log")
        .add_list(
            "Conflicting requirements",
            &vec!["my-app requires ^1.4".to_string()],
        )
        .build();

    assert!(message.contains("Resolution failed"));
    assert!(message.contains("Version conflict"));
}

#[test]
fn test_conflicting_requirement_display() {
    let req = ConflictingRequirement {
        from: "swift-nio".to_string(),
        requirement: ">=1.5.0".to_string(),
        dependency_chain: vec!["my-app".to_string()],
    };
    assert!(req.to_string().contains("swift-nio requires >=1.5.0"));
}

#[test]
fn test_derivation_formatting() {
    let mut derivation = ConflictDerivation::new("Incompatible version requirements");
    derivation.add_step(
        DerivationStep::new("swift-nio requires swift-log >=1.5").with_package("swift-log"),
    );
    derivation.format();
    assert!(derivation.formatted.contains("swift-nio requires"));
}

#[test]
fn test_lockfile_hints() {
    let mut hints = LockfileHints::new();
    hints.add_preferred_version("swift-log", Version::new(1, 5, 4));

    assert!(hints.matches_preferred("swift-log", &Version::new(1, 5, 4)));
    assert!(!hints.matches_preferred("swift-log", &Version::new(1, 4, 0)));
    assert!(!hints.matches_preferred("swift-nio", &Version::new(2, 0, 0)));
}

#[test]
fn test_resolution_trace() {
    let mut trace = ResolutionTrace::new();
    trace.record_choice(
        "swift-log",
        &Version::new(1, 5, 4),
        ChoiceReason::LockedHint,
    );
    trace.record_requirement("swift-log", "my-app");
    trace.record_requirement("swift-log", "swift-nio");

    let (version, reason) = trace.get_choice("swift-log").unwrap();
    assert_eq!(*version, Version::new(1, 5, 4));
    assert_eq!(reason, ChoiceReason::LockedHint);

    let required_by = trace.get_required_by("swift-log");
    assert!(required_by.contains(&"my-app".to_string()));
    assert!(required_by.contains(&"swift-nio".to_string()));
}

#[test]
fn test_package_display() {
    assert_eq!(GustPackage::Root.to_string(), "<root>");
    assert_eq!(GustPackage::named("swift-log").to_string(), "swift-log");
}

#[test]
fn test_package_equality() {
    assert_eq!(GustPackage::Root, GustPackage::Root);
    assert_eq!(
        GustPackage::named("swift-log"),
        GustPackage::named("swift-log")
    );
    assert_ne!(GustPackage::Root, GustPackage::named("swift-log"));
}

#[test]
fn test_memory_provider() {
    let mut provider = MemoryProvider::new();
    provider.add_package("swift-log", Version::new(1, 5, 4), vec![]);
    provider.add_package("swift-log", Version::new(1, 4, 0), vec![]);

    let versions = provider.available_versions("swift-log").unwrap();
    assert_eq!(versions.len(), 2);
}

#[test]
fn test_version_set() {
    let set = GustVersionSet::from_req(VersionReq::parse("^1.4").unwrap());
    assert!(set.contains(&GustVersion(Version::new(1, 5, 0))));
    assert!(set.contains(&GustVersion(Version::new(1, 4, 0))));
    assert!(!set.contains(&GustVersion(Version::new(2, 0, 0))));
}

#[test]
fn test_dependency_creation() {
    let dep = Dependency::registry("swift-log", VersionReq::parse("^1.5").unwrap());
    assert_eq!(dep.name, "swift-log");
    assert_eq!(dep.source_kind(), DependencySource::Registry);

    let git_dep = Dependency::git("alamofire", "https://github.com/Alamofire/Alamofire.git")
        .with_tag("5.8.0");
    assert_eq!(git_dep.source_kind(), DependencySource::Git);
    assert_eq!(git_dep.tag, Some("5.8.0".to_string()));
}

#[test]
fn test_target_creation() {
    let exe = Target::executable("MyApp");
    assert_eq!(exe.target_type, TargetType::Executable);

    let lib = Target::library("MyLib");
    assert_eq!(lib.target_type, TargetType::Library);
}

#[test]
fn test_is_excluded() {
    let root = "/workspace";

    assert!(WorkspaceDiscovery::is_excluded(
        "/workspace/deprecated",
        root,
        &vec!["deprecated".to_string()]
    ));

    assert!(WorkspaceDiscovery::is_excluded(
        "/workspace/packages/deprecated-old",
        root,
        &vec!["packages/deprecated-*".to_string()]
    ));

    assert!(!WorkspaceDiscovery::is_excluded(
        "/workspace/packages/core",
        root,
        &vec!["deprecated".to_string()]
    ));
}

#[test]
fn test_filter_members() {
    let ws = Workspace {
        root: "/workspace".to_string(),
        root_manifest: Manifest::default(),
        config: WorkspaceConfig::default(),
        members: vec![
            WorkspaceMember {
                path: "/workspace/packages/core".to_string(),
                name: "core".to_string(),
                manifest: Manifest::default(),
                workspace_deps: vec![],
            },
            WorkspaceMember {
                path: "/workspace/packages/cli".to_string(),
                name: "cli".to_string(),
                manifest: Manifest::default(),
                workspace_deps: vec!["core".to_string()],
            },
        ],
        shared_dependencies: NameMap::new(),
    };

    assert_eq!(ws.filter_members("*").len(), 2);
    assert_eq!(ws.filter_members("core").len(), 1);
    assert_eq!(ws.filter_members("cli").len(), 1);
}

#[test]
fn test_dependency_inheritance_check() {
    let versioned = Dependency::registry("test", VersionReq::parse("^1.0").unwrap());
    assert!(!versioned.is_workspace_inherited());

    let bare = Dependency {
        name: "test".to_string(),
        version: None,
        git: None,
        branch: None,
        tag: None,
        revision: None,
        path: None,
        features: vec![],
        optional: false,
    };
    assert!(bare.is_workspace_inherited());
}

#[test]
fn test_parse_github_url() {
    let (owner, name) = parse_github_url("https://github.com/apple/swift-log.git").unwrap();
    assert_eq!(owner, "apple");
    assert_eq!(name, "swift-log");

    let (owner, name) = parse_github_url("https://github.com/vapor/vapor").unwrap();
    assert_eq!(owner, "vapor");
    assert_eq!(name, "vapor");
}

#[test]
fn github_url_without_slash_names_nothing() {
    assert_eq!(parse_github_url("vapor"), None);
    assert_eq!(
        parse_github_url("a/b.git.git"),
        Some(("a".to_string(), "b".to_string()))
    );
}

#[test]
fn version_text_and_parsing_agree_with_semver() {
    let v = Version::parse("1.5.0-beta.1+build.7").unwrap();
    assert_eq!((v.major, v.minor, v.patch), (1, 5, 0));
    assert_eq!(v.pre, "beta.1");
    assert_eq!(v.build, "build.7");
    assert_eq!(v.to_string(), "1.5.0-beta.1+build.7");
    assert_eq!(v.to_string(), semver::Version::parse("1.5.0-beta.1+build.7").unwrap().to_string());
    assert_eq!(Version::new(10, 0, 204).to_string(), "10.0.204");
    assert!(Version::parse("1.5").is_err());
    assert!(Version::new(0, 0, 0).is_zero());
    assert!(!Version::new(0, 0, 1).is_zero());
}

#[test]
fn version_precedence_follows_semver() {
    let a = Version::parse("1.0.0-alpha").unwrap();
    let b = Version::parse("1.0.0").unwrap();
    assert_eq!(a.compare(&b), Order::Less);
    assert_eq!(b.compare(&a), Order::Greater);
    assert_eq!(b.compare(&b), Order::Equal);
    assert_eq!(Version::new(1, 5, 4).compare(&Version::new(1, 10, 0)), Order::Less);
    let sorted = gust::version::sort_descending(&vec![
        Version::new(1, 4, 0),
        Version::new(2, 0, 0),
        a.clone(),
        Version::new(1, 5, 4),
    ]);
    assert_eq!(
        sorted,
        vec![Version::new(2, 0, 0), Version::new(1, 5, 4), Version::new(1, 4, 0), a]
    );
}

#[test]
fn requirement_is_kept_in_canonical_notation() {
    assert_eq!(VersionReq::parse("1.5").unwrap().to_string(), "^1.5");
    assert_eq!(VersionReq::parse(">=1.5,<2").unwrap().to_string(), ">=1.5, <2");
    assert!(VersionReq::parse("not a requirement").is_err());
    assert!(VersionReq::parse("^1.4").unwrap().matches(&Version::new(1, 5, 0)));
    assert!(!VersionReq::parse("^1.4").unwrap().matches(&Version::new(1, 3, 9)));
}

#[test]
fn version_set_laws_hold_on_concrete_ranges() {
    let a = GustVersionSet::from_req(VersionReq::parse("^1.4").unwrap());
    let b = GustVersionSet::from_req(VersionReq::parse(">=1.5, <3").unwrap());
    let probes = [
        Version::new(1, 3, 0),
        Version::new(1, 4, 0),
        Version::new(1, 5, 4),
        Version::new(2, 0, 0),
        Version::new(3, 0, 0),
    ];
    for v in &probes {
        assert!(!a.intersection(&a.complement()).contains_version(v));
        assert!(a.union(&a.complement()).contains_version(v));
        assert!(GustVersionSet::singleton(GustVersion(v.clone())).contains_version(v));
        assert!(!GustVersionSet::empty().contains_version(v));
        assert!(GustVersionSet::full().contains_version(v));
        assert_eq!(a.intersection(&b).contains_version(v), a.contains_version(v) && b.contains_version(v));
        assert_eq!(a.union(&b).contains_version(v), a.contains_version(v) || b.contains_version(v));
        assert_eq!(
            a.intersection(&b).complement().contains_version(v),
            a.complement().union(&b.complement()).contains_version(v)
        );
        assert_eq!(
            a.union(&b).complement().contains_version(v),
            a.complement().intersection(&b.complement()).contains_version(v)
        );
    }
    assert!(!GustVersionSet::singleton(GustVersion(Version::new(1, 4, 0)))
        .contains(&GustVersion(Version::new(1, 4, 1))));
    assert!(GustVersionSet::empty().is_disjoint(&a));
    assert!(a.is_disjoint(&a.complement()));
    assert!(!a.is_disjoint(&b));
    assert!(a.subset_of(&GustVersionSet::full()));
    assert!(a.subset_of(&a));
    assert!(a.complement().complement().same(&a));
    assert_eq!(a.to_string(), "^1.4");
    assert_eq!(a.complement().to_string(), "not ^1.4");
    assert_eq!(GustVersionSet::full().to_string(), "*");
    assert_eq!(a.intersection(&b).to_string(), "(^1.4 and >=1.5, <3)");
}

#[test]
fn selection_follows_override_hint_and_strategy() {
    let versions = vec![Version::new(1, 4, 0), Version::new(1, 5, 4), Version::new(2, 0, 0)];
    let range = GustVersionSet::from_req(VersionReq::parse("^1.4").unwrap());
    let picked = select_version(&versions, &range, None, None, ResolutionStrategy::Highest);
    assert_eq!(picked, Some((Version::new(1, 5, 4), ChoiceReason::HighestCompatible)));
    let picked = select_version(&versions, &range, None, None, ResolutionStrategy::Lowest);
    assert_eq!(picked, Some((Version::new(1, 4, 0), ChoiceReason::LowestCompatible)));
    let hint = Version::new(1, 4, 0);
    let picked = select_version(&versions, &range, None, Some(&hint), ResolutionStrategy::Highest);
    assert_eq!(picked, Some((Version::new(1, 4, 0), ChoiceReason::LockedHint)));
    let forced = VersionReq::parse("=1.4.0").unwrap();
    let picked =
        select_version(&versions, &range, Some(&forced), Some(&hint), ResolutionStrategy::Highest);
    assert_eq!(picked, Some((Version::new(1, 4, 0), ChoiceReason::Override)));
    let none = GustVersionSet::from_req(VersionReq::parse("^3").unwrap());
    assert_eq!(select_version(&versions, &none, None, None, ResolutionStrategy::Highest), None);
}

#[test]
fn hints_merge_keeps_existing() {
    let mut mine = LockfileHints::new();
    mine.add_preferred_version("a", Version::new(1, 0, 0));
    mine.add_preferred_revision("a", "abc");
    let mut theirs = LockfileHints::new();
    theirs.add_preferred_version("a", Version::new(2, 0, 0));
    theirs.add_preferred_version("b", Version::new(3, 0, 0));
    theirs.add_preferred_revision("b", "def");
    mine.merge(theirs);
    assert_eq!(mine.preferred_version("a"), Some(&Version::new(1, 0, 0)));
    assert_eq!(mine.preferred_version("b"), Some(&Version::new(3, 0, 0)));
    assert_eq!(mine.preferred_revision("a"), Some("abc"));
    assert_eq!(mine.preferred_revision("b"), Some("def"));
    assert_eq!(mine.len(), 4);
    assert!(!mine.is_empty());
    assert!(LockfileHints::new().is_empty());
}

#[test]
fn derivation_is_written_out_exactly() {
    let requirements = vec![
        ("my-app".to_string(), "^1.4".to_string()),
        ("swift-nio".to_string(), ">=1.5.0".to_string()),
    ];
    let derivation =
        ConflictFormatter::format_incompatibility("swift-log", &requirements, "my-app");
    assert_eq!(
        derivation.formatted,
        "Root cause: Incompatible version requirements for swift-log\n\n\
         1. my-app requires swift-log ^1.4\n   - my-app\n\
         2. swift-nio requires swift-log >=1.5.0\n   - swift-nio\n"
    );
    assert_eq!(derivation.to_string(), derivation.formatted);
    assert_eq!(ConflictDerivation::new("cause").to_string(), "cause");
}

#[test]
fn conflict_messages_are_exact() {
    let cycle = vec!["a".to_string(), "b".to_string()];
    assert_eq!(
        ConflictFormatter::format_cycle(&cycle),
        "Dependency cycle detected:\n\n  a\n  ↓\n  b\n  ↓\n  a (cycle)\n"
    );
    assert_eq!(ConflictFormatter::format_cycle(&vec![]), "Dependency cycle detected:\n\n");
    let available = vec![Version::new(1, 3, 0), Version::new(1, 10, 0)];
    assert_eq!(
        ConflictFormatter::format_no_matching_version("pkg", "^2", &available),
        "No version of 'pkg' satisfies the requirement '^2'.\n\n\
         Available versions:\n  1. 1.10.0\n  2. 1.3.0\n"
    );
    assert_eq!(
        ConflictFormatter::format_no_matching_version("pkg", "^2", &vec![]),
        "No version of 'pkg' satisfies the requirement '^2'.\n\n\
         No versions are available for this package."
    );
    let many: Vec<Version> = (0..12).map(|i| Version::new(1, i, 0)).collect();
    let text = ConflictFormatter::format_no_matching_version("pkg", "^2", &many);
    assert!(text.contains("  1. 1.11.0\n"));
    assert!(text.contains("  10. 1.2.0\n"));
    assert!(!text.contains("  11. "));
    assert!(text.ends_with("  ... and 2 more\n"));
    let fixes = ConflictFormatter::suggest_fixes(
        "pkg",
        &vec![("app".to_string(), "^1".to_string())],
        &available,
    );
    let texts: Vec<String> = fixes.iter().map(|f| f.to_string()).collect();
    assert_eq!(
        texts,
        vec![
            "Add override: [overrides]\npkg = \"1.10.0\"".to_string(),
            "Remove pkg constraint from app".to_string(),
        ]
    );
    let message = ErrorMessageBuilder::new()
        .add_header("Resolution failed")
        .add_section("Problem", "conflict")
        .add_list("Asked by", &vec!["app".to_string()])
        .add_suggestions(&fixes)
        .add_suggestions(&vec![])
        .build();
    assert_eq!(
        message,
        "Resolution failed\n\nProblem:\nconflict\n\nAsked by:\n  • app\n\nSuggestions:\n  \
         1. Add override: [overrides]\npkg = \"1.10.0\"\n  2. Remove pkg constraint from app\n"
    );
}

#[test]
fn error_messages_are_exact() {
    let e = ResolveError::NoMatchingVersion {
        package: "pkg".to_string(),
        requirement: "^2".to_string(),
        available: vec![],
    };
    assert_eq!(e.to_string(), "no version of pkg satisfies ^2");
    let e = ResolveError::CycleDetected { cycle: vec!["a".to_string(), "b".to_string()] };
    assert_eq!(e.to_string(), "dependency cycle detected: a -> b");
    assert_eq!(ResolveError::Cancelled.to_string(), "resolution cancelled");
    assert_eq!(
        ResolveError::ProviderError("down".to_string()).to_string(),
        "failed to fetch package info: down"
    );
    let s = ResolutionSuggestion::Upgrade {
        package: "p".to_string(),
        from: Version::new(1, 0, 0),
        to: Version::new(2, 0, 0),
    };
    assert_eq!(s.to_string(), "Upgrade p from 1.0.0 to 2.0.0");
    let s = ResolutionSuggestion::ChangeBranch {
        package: "p".to_string(),
        current: "main".to_string(),
        suggested: "dev".to_string(),
    };
    assert_eq!(s.to_string(), "Change p branch from 'main' to 'dev'");
    let req = ConflictingRequirement {
        from: "swift-nio".to_string(),
        requirement: ">=1.5.0".to_string(),
        dependency_chain: vec!["my-app".to_string(), "x".to_string()],
    };
    assert_eq!(req.to_string(), "swift-nio requires >=1.5.0 (via my-app -> x)");
}

#[test]
fn hash_is_blake3_in_hex_whatever_the_size() {
    for size in [0usize, 1, 4095, 4096, 4097, 70000] {
        let data: Vec<u8> = (0..size).map(|i| (i % 251) as u8).collect();
        assert_eq!(hash_bytes(&data), blake3::hash(&data).to_hex().to_string());
    }
    assert!(!should_mmap(4095));
    assert!(should_mmap(4096));
    assert!(should_mmap(4097));
}

#[test]
fn directory_hash_ignores_listing_order() {
    let file = |p: &str, h: &str| FileHash { path: p.to_string(), hash: h.to_string() };
    let one = hash_listing(vec![file("b/x.swift", "22"), file("a.swift", "11"), file("b.swift", "33")]);
    let two = hash_listing(vec![file("a.swift", "11"), file("b.swift", "33"), file("b/x.swift", "22")]);
    assert_eq!(one, two);
    let expected = blake3::hash(b"a.swift:11\nb.swift:33\nb/x.swift:22\n").to_hex().to_string();
    assert_eq!(one, expected);
    let changed = hash_listing(vec![file("a.swift", "12"), file("b.swift", "33"), file("b/x.swift", "22")]);
    assert_ne!(one, changed);
    assert_eq!(hash_listing(vec![]), blake3::hash(b"").to_hex().to_string());
}

#[test]
fn fingerprint_is_stable_and_sensitive() {
    let make = |source: &str| {
        BuildFingerprint::compute(
            source.to_string(),
            "m".to_string(),
            "d".to_string(),
            "5.9.2".to_string(),
            "macos-arm64".to_string(),
            BuildConfiguration::Release,
            vec!["-O".to_string(), "-g".to_string()],
        )
    };
    let a = make("abc");
    let b = make("abc");
    let c = make("abd");
    assert_eq!(a.fingerprint, b.fingerprint);
    assert_ne!(a.fingerprint, c.fingerprint);
    let expected = blake3::hash(b"abcmd5.9.2macos-arm64release-O-g").to_hex().to_string();
    assert_eq!(a.fingerprint, expected);
    assert_eq!(a.swift_flags, vec!["-O".to_string(), "-g".to_string()]);
}

#[test]
fn archives_round_trip_through_zstd() {
    let tar: Vec<u8> = (0..5000).map(|i| (i % 7) as u8).collect();
    let packed = gust::binary_cache::pack_archive(&tar).unwrap();
    assert_ne!(packed, tar);
    assert_eq!(packed, zstd::encode_all(&tar[..], 1).unwrap());
    assert_eq!(gust::binary_cache::unpack_archive(&packed).unwrap(), tar);
    let other_level = zstd::encode_all(&tar[..], 9).unwrap();
    assert_eq!(gust::binary_cache::unpack_archive(&other_level).unwrap(), tar);
    assert!(gust::binary_cache::unpack_archive(b"not an archive").is_err());
}

#[test]
fn store_layout_is_as_documented() {
    let cache = GlobalCache::open_at("/home/u/.gust");
    assert_eq!(cache.files_dir(), "/home/u/.gust/store/v1/files");
    assert_eq!(cache.packages_dir(), "/home/u/.gust/store/v1/packages");
    assert_eq!(cache.git_dir(), "/home/u/.gust/git");
    assert_eq!(cache.binary_cache_dir(), "/home/u/.gust/binary-cache");
    assert_eq!(cache.content_path("abcdef"), "/home/u/.gust/store/v1/files/ab/abcdef");
    let target = cache.store_target(b"test content");
    assert_eq!(target.hash, blake3::hash(b"test content").to_hex().to_string());
    assert_eq!(
        target.path,
        format!("/home/u/.gust/store/v1/files/{}/{}", &target.hash[..2], target.hash)
    );
    assert_eq!(GlobalCache::open_at("/r/").git_dir(), "/r/git");
    let local = LocalBinaryCache::new("/c/binary-cache".to_string());
    assert_eq!(local.archive_path("f00"), "/c/binary-cache/f00.tar.zst");
    assert_eq!(local.get("f00", true), Some("/c/binary-cache/f00.tar.zst".to_string()));
    assert_eq!(local.get("f00", false), None);
}

#[test]
fn lockfile_diff_with_itself_is_empty() {
    let a = LockedPackage::git("a", Version::new(1, 0, 0), "https://x/a.git", "r1".to_string());
    let b = LockedPackage::registry("b", Version::new(2, 0, 0), "blake3:00".to_string());
    let lock = Lockfile { version: 1, packages: vec![a.clone(), b.clone()] };
    let d = lock.diff(&vec![a.clone(), b.clone()]);
    assert!(d.added.is_empty() && d.removed.is_empty() && d.updated.is_empty());
    assert_eq!(d.unchanged.len(), 2);
    assert!(!d.has_changes());
    assert!(!lock.needs_update(&vec![a.clone(), b.clone()]));
    assert_eq!(d.summary(), "no changes");

    let b2 = LockedPackage::registry("b", Version::new(2, 1, 0), "blake3:01".to_string());
    let c = LockedPackage::registry("c", Version::new(0, 1, 0), "blake3:02".to_string());
    let (d, merged) = lock.merge(vec![c.clone(), b2.clone()]);
    assert_eq!(d.added.iter().map(|p| p.name.clone()).collect::<Vec<_>>(), vec!["c"]);
    assert_eq!(d.removed.iter().map(|p| p.name.clone()).collect::<Vec<_>>(), vec!["a"]);
    assert_eq!(d.updated.len(), 1);
    assert_eq!(d.updated[0].0.version, Version::new(2, 0, 0));
    assert_eq!(d.updated[0].1.version, Version::new(2, 1, 0));
    assert!(d.has_changes());
    assert_eq!(d.summary(), "1 added, 1 removed, 1 updated");
    assert_eq!(
        merged.packages.iter().map(|p| p.name.clone()).collect::<Vec<_>>(),
        vec!["b", "c"]
    );
}

#[test]
fn platform_and_numbers() {
    let p = PlatformInfo::describe("macos", "aarch64");
    assert_eq!(p.triple, "arm64-apple-macosx");
    assert_eq!(p.cache_key(), "macos-aarch64");
    assert_eq!(PlatformInfo::describe("linux", "x86_64").triple, "x86_64-unknown-linux-gnu");
    assert_eq!(PlatformInfo::describe("plan9", "x86_64").triple, "unknown");
    for text in ["0", "42", "+7", "007", "4294967295", "4294967296", "", "+", "-1", "1a", " 1"] {
        assert_eq!(parse_number(text), text.parse::<u32>().ok(), "{:?}", text);
    }
    let t = SwiftToolchain::with_version("/usr/bin/swift", "5.x.9");
    assert_eq!((t.major_version, t.minor_version), (5, 9));
    assert!(t.meets_requirement(""));
    assert!(!t.meets_requirement("5.10"));
}

#[test]
fn build_plan_uses_the_cache_when_it_can() {
    let mut manifest = Manifest::default();
    manifest.targets.push(Target::executable("app"));
    manifest.targets.push(Target::library("core"));
    let mut options = BuildOptions::default();
    options.target = Some("nope".to_string());
    assert!(Builder::plan(&manifest, &options, None, false, false).is_err());
    options.target = Some("app".to_string());
    options.configuration = BuildConfiguration::Release;
    options.jobs = Some(4);
    options.swift_flags = vec!["-O".to_string()];
    match Builder::plan(&manifest, &options, Some("fp"), true, true).unwrap() {
        BuildPlan::Restore { fingerprint } => assert_eq!(fingerprint, "fp"),
        other => panic!("unexpected plan {:?}", other),
    }
    options.force_rebuild = true;
    match Builder::plan(&manifest, &options, Some("fp"), true, true).unwrap() {
        BuildPlan::Compile { arguments, store_as } => {
            assert_eq!(
                arguments,
                vec!["build", "-c", "release", "-j", "4", "--target", "app", "-O"]
            );
            assert_eq!(store_as, Some("fp".to_string()));
        }
        other => panic!("unexpected plan {:?}", other),
    }
    options.use_cache = false;
    match Builder::plan(&manifest, &options, Some("fp"), true, true).unwrap() {
        BuildPlan::Compile { store_as, .. } => assert_eq!(store_as, None),
        other => panic!("unexpected plan {:?}", other),
    }
    let present = vec!["/p/.build/debug/app".to_string(), "/p/.build/debug/libcore.dylib".to_string()];
    assert_eq!(
        gust::builder::find_products("/p/.build/debug", &manifest, &present),
        present
    );
    assert_eq!(Builder::platform_id("macos", "aarch64"), "macos-arm64");
    assert!(gust::builder::shows_line("Compiling Foo.swift", false));
    assert!(!gust::builder::shows_line("note: x", false));
    let names = vec!["b".to_string(), "a".to_string()];
    assert_eq!(
        gust::builder::hash_dependency_names(&names),
        blake3::hash(b"[\"a\", \"b\"]").to_hex().to_string()
    );
}

#[test]
fn url_encoding_covers_non_ascii() {
    assert_eq!(encode("a b"), "a%20b");
    assert_eq!(encode("é~_-."), "%C3%A9~_-.");
    assert_eq!(encode(""), "");
}

#[test]
fn exclusion_patterns() {
    let root = "/ws";
    assert!(!WorkspaceDiscovery::is_excluded("/ws/a/b", root, &vec!["a/*/c*".to_string()]));
    assert!(WorkspaceDiscovery::is_excluded("/ws/a/b", root, &vec!["x".to_string(), "a/*".to_string()]));
    assert!(!WorkspaceDiscovery::is_excluded("/wsx/a", root, &vec!["a".to_string()]));
    assert!(WorkspaceDiscovery::is_excluded("/ws", root, &vec!["".to_string()]));
    assert_eq!(WorkspaceDiscovery::relative("/ws/a", "/ws/"), "a");
    assert_eq!(WorkspaceDiscovery::relative("other", "/ws"), "other");
}
