use gust::binary_cache::{
    artifact_info_url, artifact_url, check_download, is_success, pack_archive, unpack_archive,
    BinaryCacheError,
};
use gust::builder::{BuildOptions, Builder};
use gust::fetch::{sort_tags, GitTag};
use gust::hasher::{hash_bytes, hash_text, sort_listing, FileHash};
use gust::json::{first_in, get_in, parse_json, str_in, Json};
use gust::manifest::{collect_parsed, ManifestError};
use gust::platform::{parse_leading_numbers, PlatformError, PlatformInfo, SwiftToolchain};
use gust::plugin::discovery::discover_all_plugins;
use gust::plugin::protocol::DiagnosticSeverity;
use gust::text::split_words;
use gust::types::{BuildConfiguration, Dependency, Manifest, Target, TargetType};
use gust::version::{Version, VersionReq};
use gust::workspace::WorkspaceDiscovery;

#[test]
fn test_platform_detection() {
    let platform = PlatformInfo::describe("linux", "x86_64");
    assert!(!platform.os.is_empty());
    assert!(!platform.arch.is_empty());
}

#[test]
fn test_diagnostic_severity() {
    assert_eq!(
        serde_json::to_string(DiagnosticSeverity::Error.as_str()).unwrap(),
        "\"error\""
    );
    assert_eq!(
        serde_json::to_string(DiagnosticSeverity::Warning.as_str()).unwrap(),
        "\"warning\""
    );
    assert_eq!(DiagnosticSeverity::Note.as_str(), "note");
    assert_eq!(DiagnosticSeverity::Remark.as_str(), "remark");
}

#[test]
fn platforms_have_the_triples_of_the_toolchain() {
    assert_eq!(PlatformInfo::describe("macos", "aarch64").triple, "arm64-apple-macosx");
    assert_eq!(PlatformInfo::describe("macos", "x86_64").triple, "x86_64-apple-macosx");
    assert_eq!(PlatformInfo::describe("linux", "aarch64").triple, "aarch64-unknown-linux-gnu");
    assert_eq!(PlatformInfo::describe("linux", "x86_64").triple, "x86_64-unknown-linux-gnu");
    assert_eq!(PlatformInfo::describe("windows", "x86_64").triple, "unknown");
    assert_eq!(PlatformInfo::describe("linux", "riscv64").triple, "unknown");
}

#[test]
fn words_are_those_of_the_standard_library() {
    for text in [
        "",
        "   ",
        "one",
        " one  two\tthree\n",
        "Apple Swift version 5.9.2 (swift-5.9.2-RELEASE)",
        "a\u{a0}b\u{3000}c",
        "tab\tsep",
    ] {
        let expected: Vec<String> = text.split_whitespace().map(|w| w.to_string()).collect();
        assert_eq!(split_words(text), expected, "{:?}", text);
    }
}

#[test]
fn the_toolchain_names_its_version_in_its_output() {
    let apple = "swift-driver version: 1.87.3 Apple Swift version 5.9.2 (swiftlang-5.9.2.2.56)\nTarget: arm64-apple-macosx14.0\n";
    assert_eq!(SwiftToolchain::parse_version(apple).unwrap(), "1.87.3");
    let plain = "Swift version 5.10 (swift-5.10-RELEASE)\nTarget: x86_64-unknown-linux-gnu\n";
    assert_eq!(SwiftToolchain::parse_version(plain).unwrap(), "5.10");
    let second_line = "warning: something\nSwift version 6.0.1\n";
    assert_eq!(SwiftToolchain::parse_version(second_line).unwrap(), "6.0.1");
    let short_first = "Swift version\nthe Swift version 5.8 is here\n";
    assert_eq!(SwiftToolchain::parse_version(short_first).unwrap(), "version");
    match SwiftToolchain::parse_version("clang 15.0\n") {
        Err(PlatformError::VersionParseError(output)) => assert_eq!(output, "clang 15.0\n"),
        other => panic!("unexpected: {:?}", other),
    }
    assert!(SwiftToolchain::parse_version("").is_err());
}

#[test]
fn the_toolchain_knows_its_leading_numbers() {
    let toolchain = SwiftToolchain::with_version("/usr/bin/swift", "5.9.2");
    assert_eq!(toolchain.swift_path, "/usr/bin/swift");
    assert_eq!(toolchain.version, "5.9.2");
    assert_eq!((toolchain.major_version, toolchain.minor_version), (5, 9));
    assert_eq!(parse_leading_numbers("6"), (6, 0));
    assert_eq!(parse_leading_numbers(""), (0, 0));
    assert_eq!(parse_leading_numbers("5.x.7"), (5, 7));
    assert_eq!(parse_leading_numbers("5.9-dev"), (5, 0));
    assert_eq!(parse_leading_numbers("4294967296.1"), (1, 0));
}

#[test]
fn artifacts_have_their_addresses_on_the_server() {
    assert_eq!(artifact_url("https://cache.example", "abc"), "https://cache.example/artifacts/abc");
    assert_eq!(
        artifact_info_url("https://cache.example", "abc"),
        "https://cache.example/artifacts/abc.info"
    );
    assert!(is_success(200));
    assert!(is_success(299));
    assert!(!is_success(199));
    assert!(!is_success(300));
    assert!(!is_success(404));
    assert!(check_download(204, "abc").is_ok());
    match check_download(404, "abc") {
        Err(BinaryCacheError::CacheMiss(fingerprint)) => assert_eq!(fingerprint, "abc"),
        other => panic!("unexpected: {:?}", other),
    }
}

#[test]
fn an_archive_gives_back_what_was_packed() {
    for data in [Vec::new(), b"hello".to_vec(), vec![7u8; 100_000], (0..=255u8).collect()] {
        let packed = pack_archive(&data).unwrap();
        assert_eq!(unpack_archive(&packed).unwrap(), data);
        assert_eq!(pack_archive(&data).unwrap(), packed);
    }
    let long = vec![7u8; 100_000];
    assert!(pack_archive(&long).unwrap().len() < long.len());
    match unpack_archive(b"no archive") {
        Err(BinaryCacheError::DecompressionError(message)) => assert!(!message.is_empty()),
        other => panic!("unexpected: {:?}", other),
    }
}

#[test]
fn a_workspace_looks_for_both_manifests() {
    assert_eq!(
        WorkspaceDiscovery::manifest_names(),
        vec!["Gust.toml".to_string(), "Package.swift".to_string()]
    );
}

#[test]
fn the_compiler_is_called_with_the_options() {
    let plain = BuildOptions::default();
    assert_eq!(Builder::command_arguments(&plain), vec!["build".to_string()]);
    let full = BuildOptions {
        configuration: BuildConfiguration::Release,
        jobs: Some(12),
        target: Some("App".to_string()),
        swift_flags: vec!["-Xswiftc".to_string(), "-O".to_string()],
        ..BuildOptions::default()
    };
    assert_eq!(
        Builder::command_arguments(&full),
        vec!["build", "-c", "release", "-j", "12", "--target", "App", "-Xswiftc", "-O"]
    );
    let none = BuildOptions { jobs: Some(0), ..BuildOptions::default() };
    assert_eq!(Builder::command_arguments(&none), vec!["build", "-j", "0"]);
}

fn tag(name: &str, version: Option<Version>) -> GitTag {
    GitTag { name: name.to_string(), version, sha: format!("sha-{}", name) }
}

#[test]
fn tags_are_ordered_newest_version_first() {
    let sorted = sort_tags(vec![
        tag("nightly", None),
        tag("1.2.0", Some(Version::new(1, 2, 0))),
        tag("v2.0.0", Some(Version::new(2, 0, 0))),
        tag("beta", None),
        tag("v1.2.0", Some(Version::new(1, 2, 0))),
        tag("0.9.0", Some(Version::new(0, 9, 0))),
    ]);
    let names: Vec<&str> = sorted.iter().map(|t| t.name.as_str()).collect();
    assert_eq!(names, vec!["v2.0.0", "1.2.0", "v1.2.0", "0.9.0", "nightly", "beta"]);
    assert_eq!(sorted[0].sha, "sha-v2.0.0");
    assert!(sort_tags(vec![]).is_empty());
}

#[test]
fn a_text_is_hashed_as_its_bytes() {
    assert_eq!(hash_text("héllo"), hash_bytes("héllo".as_bytes()));
    assert_eq!(hash_text(""), blake3::hash(b"").to_hex().to_string());
    assert_ne!(hash_text("a"), hash_text("b"));
}

#[test]
fn a_listing_is_sorted_by_path() {
    let file = |path: &str, hash: &str| FileHash { path: path.to_string(), hash: hash.to_string() };
    let sorted = sort_listing(vec![
        file("b/x.swift", "3"),
        file("a.swift", "1"),
        file("b.swift", "4"),
        file("a/z.swift", "2"),
        file("B.swift", "0"),
    ]);
    let seen: Vec<(&str, &str)> =
        sorted.iter().map(|f| (f.path.as_str(), f.hash.as_str())).collect();
    let mut expected = vec![
        ("b/x.swift", "3"),
        ("a.swift", "1"),
        ("b.swift", "4"),
        ("a/z.swift", "2"),
        ("B.swift", "0"),
    ];
    expected.sort();
    assert_eq!(seen, expected);
}

#[test]
fn plugins_of_several_packages_come_in_order() {
    let package = |name: &str, plugins: &[&str]| {
        let mut manifest = Manifest::default();
        manifest.package.name = name.to_string();
        manifest.targets.push(Target::library("Lib"));
        for p in plugins {
            let mut target = Target::library(p);
            target.target_type = TargetType::Plugin;
            manifest.targets.push(target);
        }
        (format!("/src/{}", name), manifest)
    };
    let found = discover_all_plugins(&vec![
        package("one", &["Gen"]),
        package("none", &[]),
        package("two", &["Lint", "Fmt"]),
    ]);
    let seen: Vec<(&str, &str, &str)> = found
        .iter()
        .map(|p| (p.name.as_str(), p.source_path.as_str(), p.source_package.as_str()))
        .collect();
    assert_eq!(
        seen,
        vec![
            ("Gen", "/src/one/Plugins/Gen", "one"),
            ("Lint", "/src/two/Plugins/Lint", "two"),
            ("Fmt", "/src/two/Plugins/Fmt", "two"),
        ]
    );
    assert!(discover_all_plugins(&vec![]).is_empty());
}

#[test]
fn members_of_a_document_are_found_by_name() {
    let doc = parse_json(r#"{"a": {"b": ["x", 2]}, "n": 1.50, "t": true, "z": null, "a2": "s"}"#)
        .unwrap();
    let a = get_in(Some(&doc), "a");
    assert!(matches!(a, Some(Json::Table(_))));
    let b = get_in(a, "b");
    assert_eq!(b.and_then(|j| j.as_array()).map(|items| items.len()), Some(2));
    assert_eq!(str_in(first_in(b)), Some("x"));
    assert_eq!(str_in(get_in(Some(&doc), "a2")), Some("s"));
    assert_eq!(str_in(get_in(Some(&doc), "n")), None);
    assert!(matches!(doc.get("n"), Some(Json::Number(n)) if n == "1.5"));
    assert!(matches!(doc.get("t"), Some(Json::Bool(true))));
    assert!(matches!(doc.get("z"), Some(Json::Null)));
    assert!(get_in(Some(&doc), "missing").is_none());
    assert!(get_in(None, "a").is_none());
    assert!(first_in(get_in(Some(&doc), "a")).is_none());
    assert!(first_in(None).is_none());
    let again = parse_json(r#"{"k": 1, "k": 2}"#).unwrap();
    assert!(matches!(again.get("k"), Some(Json::Number(n)) if n == "2"));
    assert_eq!(parse_json("{").unwrap_err(), parse_json("{").unwrap_err());
    assert!(!parse_json("{").unwrap_err().is_empty());
}

#[test]
fn what_was_read_keeps_its_name_and_place() {
    let mut with_deps = Manifest::default();
    with_deps.package.name = "nio".to_string();
    with_deps.dependencies.insert(
        "log".to_string(),
        Dependency::registry("log", VersionReq::parse("^1").unwrap()),
    );
    with_deps.dependencies.insert("atomics".to_string(), Dependency::git("atomics", "https://x/a"));
    let mut other = Manifest::default();
    other.package.name = "crypto".to_string();
    other.dependencies.insert("log".to_string(), Dependency::git("log", "https://x/log"));
    let (parsed, discovered) = collect_parsed(vec![
        ("swift-nio".to_string(), "/git/swift-nio".to_string(), Ok(with_deps)),
        (
            "broken".to_string(),
            "/git/broken".to_string(),
            Err(ManifestError::NotFound("/git/broken".to_string())),
        ),
        ("swift-crypto".to_string(), "/git/swift-crypto".to_string(), Ok(other)),
    ]);
    let seen: Vec<(&str, &str, &str, Vec<String>)> = parsed
        .iter()
        .map(|p| {
            (
                p.name.as_str(),
                p.path.as_str(),
                p.manifest.package.name.as_str(),
                p.dependency_names.clone(),
            )
        })
        .collect();
    assert_eq!(
        seen,
        vec![
            (
                "swift-nio",
                "/git/swift-nio",
                "nio",
                vec!["log".to_string(), "atomics".to_string()]
            ),
            ("swift-crypto", "/git/swift-crypto", "crypto", vec!["log".to_string()]),
        ]
    );
    assert_eq!(discovered, vec!["log".to_string(), "atomics".to_string()]);
}

fn locked(name: &str, dependencies: &[&str]) -> gust::lockfile::LockedPackage {
    let mut package =
        gust::lockfile::LockedPackage::git(name, Version::new(1, 0, 0), "https://x/r", "abc".to_string());
    package.dependencies = dependencies.iter().map(|d| d.to_string()).collect();
    package
}

fn shape(packages: &[gust::lockfile::LockedPackage]) -> Vec<(String, Vec<String>)> {
    packages.iter().map(|p| (p.name.clone(), p.dependencies.clone())).collect()
}

#[test]
fn a_lockfile_is_written_in_one_form() {
    let lockfile = gust::lockfile::Lockfile {
        version: 1,
        packages: vec![
            locked("nio", &["log", "atomics", "collections"]),
            locked("Zlib", &[]),
            locked("atomics", &[]),
            locked("log", &["b", "a", "B"]),
        ],
    };
    let written = lockfile.canonical();
    assert_eq!(written.version, 1);
    let deps = |names: &[&str]| names.iter().map(|d| d.to_string()).collect::<Vec<String>>();
    assert_eq!(
        shape(&written.packages),
        vec![
            ("Zlib".to_string(), deps(&[])),
            ("atomics".to_string(), deps(&[])),
            ("log".to_string(), deps(&["B", "a", "b"])),
            ("nio".to_string(), deps(&["atomics", "collections", "log"])),
        ]
    );
    assert!(written.packages[3].same(&locked("nio", &["atomics", "collections", "log"])));
    let again = written.canonical();
    assert_eq!(shape(&again.packages), shape(&written.packages));
    assert_eq!(gust::text::sort_strings(&deps(&["b", "", "a", "b", "ab"])), deps(&["", "a", "ab", "b", "b"]));

    let shuffled = vec![
        locked("log", &["a", "B", "b"]),
        locked("atomics", &[]),
        locked("nio", &["collections", "log", "atomics"]),
        locked("Zlib", &[]),
    ];
    assert!(matches!(
        gust::installer::plan_lockfile(Some(&written), shuffled),
        gust::installer::LockPlan::Keep
    ));
    match gust::installer::plan_lockfile(Some(&written), vec![locked("nio", &["log", "atomics"])]) {
        gust::installer::LockPlan::Write { lockfile, diff } => {
            assert_eq!(
                shape(&lockfile.packages),
                vec![("nio".to_string(), deps(&["atomics", "log"]))]
            );
            assert_eq!(diff.summary(), "3 removed, 1 updated");
        }
        gust::installer::LockPlan::Keep => panic!("a changed lockfile must be written"),
    }
}

#[test]
fn members_are_found_by_name_and_by_path() {
    let member = |name: &str| gust::workspace::WorkspaceMember {
        path: format!("/ws/packages/{}", name),
        name: name.to_string(),
        manifest: Manifest::default(),
        workspace_deps: vec![],
    };
    let mut second = member("core");
    second.path = "/ws/other/core".to_string();
    let ws = gust::workspace::Workspace {
        root: "/ws".to_string(),
        root_manifest: Manifest::default(),
        config: gust::types::WorkspaceConfig::default(),
        members: vec![member("core"), member("cli"), second],
        shared_dependencies: gust::namemap::NameMap::new(),
    };
    assert!(ws.is_member("/ws/packages/cli"));
    assert!(ws.is_member("/ws/other/core"));
    assert!(!ws.is_member("/ws/packages"));
    assert!(!ws.is_member("cli"));
    assert_eq!(ws.get_member("core").map(|m| m.path.as_str()), Some("/ws/packages/core"));
    assert_eq!(ws.get_member("cli").map(|m| m.path.as_str()), Some("/ws/packages/cli"));
    assert!(ws.get_member("nobody").is_none());
    assert_eq!(ws.member_position("core"), Some(0));
    assert_eq!(ws.member_names(), vec!["core", "cli", "core"]);
}

#[test]
fn a_command_plugin_tells_its_intent() {
    let plugin = |capability: gust::types::PluginCapability| gust::plugin::Plugin {
        name: "fmt".to_string(),
        capability,
        executable: "/cache/fmt".to_string(),
        permissions: vec![],
        source_package: "tools".to_string(),
    };
    let command = plugin(gust::types::PluginCapability::Command(
        gust::types::CommandPluginCapability {
            intent: gust::types::CommandIntent::SourceCodeFormatting,
            permissions: vec![],
        },
    ));
    assert!(command.is_command());
    assert!(!command.is_build_tool());
    assert!(matches!(
        command.command_intent().map(|c| &c.intent),
        Some(gust::types::CommandIntent::SourceCodeFormatting)
    ));
    let tool = plugin(gust::types::PluginCapability::BuildTool);
    assert!(tool.is_build_tool());
    assert!(tool.command_intent().is_none());
}

#[test]
fn a_plugin_runs_only_with_what_it_asks_for() {
    let write = |reason: &str| gust::types::PluginPermission::WriteToPackageDirectory {
        reason: reason.to_string(),
    };
    let net = |scope: gust::types::NetworkScope, reason: &str| {
        gust::types::PluginPermission::AllowNetworkConnections { scope, reason: reason.to_string() }
    };
    let command = |permissions: Vec<gust::types::PluginPermission>| gust::plugin::Plugin {
        name: "fmt".to_string(),
        capability: gust::types::PluginCapability::Command(gust::types::CommandPluginCapability {
            intent: gust::types::CommandIntent::SourceCodeFormatting,
            permissions: vec![],
        }),
        executable: "/cache/fmt".to_string(),
        permissions,
        source_package: "tools".to_string(),
    };
    let manager = gust::plugin::PluginManager::authorize;

    assert!(manager(&command(vec![]), &vec![]).is_ok());
    assert!(manager(
        &command(vec![write("format"), net(gust::types::NetworkScope::All, "rules")]),
        &vec![net(gust::types::NetworkScope::All, "rules"), write("format")]
    )
    .is_ok());

    match manager(
        &command(vec![
            write("format"),
            net(gust::types::NetworkScope::Local(8080), "fetch \"x\"\n"),
            net(gust::types::NetworkScope::Denied, "none"),
        ]),
        &vec![write("format"), net(gust::types::NetworkScope::Local(8081), "fetch \"x\"\n")],
    ) {
        Err(gust::plugin::PluginError::PermissionDenied(message)) => assert_eq!(
            message,
            "Plugin requires permission: AllowNetworkConnections { scope: Local(8080), reason: \"fetch \\\"x\\\"\\n\" }"
        ),
        other => panic!("unexpected: {:?}", other),
    }
    match manager(&command(vec![net(gust::types::NetworkScope::Denied, "r")]), &vec![]) {
        Err(gust::plugin::PluginError::PermissionDenied(message)) => assert_eq!(
            message,
            "Plugin requires permission: AllowNetworkConnections { scope: None, reason: \"r\" }"
        ),
        other => panic!("unexpected: {:?}", other),
    }
    match manager(&command(vec![write("different reason")]), &vec![write("a reason")]) {
        Err(gust::plugin::PluginError::PermissionDenied(message)) => assert_eq!(
            message,
            "Plugin requires permission: WriteToPackageDirectory { reason: \"different reason\" }"
        ),
        other => panic!("unexpected: {:?}", other),
    }
    let mut tool = command(vec![]);
    tool.capability = gust::types::PluginCapability::BuildTool;
    match manager(&tool, &vec![]) {
        Err(gust::plugin::PluginError::ExecutionFailed(message)) => {
            assert_eq!(message, "Not a command plugin")
        }
        other => panic!("unexpected: {:?}", other),
    }
    assert!(!gust::plugin::PluginManager::may_run(&tool, &vec![]));
    assert!(gust::plugin::PluginManager::may_run(&command(vec![]), &vec![]));
}

#[test]
fn what_is_missing_is_named_in_the_error() {
    match gust::registry::package_missing("apple", "swift-log") {
        gust::registry::RegistryError::NotFound(package) => assert_eq!(package, "apple/swift-log"),
        other => panic!("unexpected: {:?}", other),
    }
    match gust::registry::version_missing("apple", "swift-log", "9.9.9") {
        gust::registry::RegistryError::VersionNotFound(package, version) => {
            assert_eq!(package, "apple/swift-log");
            assert_eq!(version, "9.9.9");
        }
        other => panic!("unexpected: {:?}", other),
    }
    let mut manifest = Manifest::default();
    manifest.targets.push(Target::executable("app"));
    let options = BuildOptions { target: Some("nope".to_string()), ..BuildOptions::default() };
    match Builder::plan(&manifest, &options, Some("fp"), true, true) {
        Err(gust::builder::BuildError::TargetNotFound(target)) => assert_eq!(target, "nope"),
        other => panic!("unexpected: {:?}", other),
    }
}

fn search_by_the_book(urls: &[&str], query: &str, limit: usize) -> Vec<(String, String, String)> {
    let query_lower = query.to_lowercase();
    let mut matches: Vec<(String, String, String)> = urls
        .iter()
        .filter_map(|url| {
            let (owner, name) = gust::package_index::parse_github_url(url)?;
            if name.to_lowercase().contains(&query_lower)
                || owner.to_lowercase().contains(&query_lower)
            {
                Some((name, owner, url.to_string()))
            } else {
                None
            }
        })
        .collect();
    matches.sort_by(|a, b| {
        let a_name = a.0.to_lowercase();
        let b_name = b.0.to_lowercase();
        let a_exact = a_name == query_lower;
        let b_exact = b_name == query_lower;
        if a_exact != b_exact {
            return b_exact.cmp(&a_exact);
        }
        let a_starts = a_name.starts_with(&query_lower);
        let b_starts = b_name.starts_with(&query_lower);
        if a_starts != b_starts {
            return b_starts.cmp(&a_starts);
        }
        a_name.cmp(&b_name)
    });
    matches.into_iter().take(limit).collect()
}

#[test]
fn a_search_puts_the_best_answers_first() {
    let urls = [
        "https://github.com/apple/swift-log.git",
        "https://github.com/vapor/vapor.git",
        "https://github.com/vapor/fluent",
        "https://github.com/Alamofire/Alamofire.git",
        "https://github.com/apple/swift-nio.git",
        "https://github.com/someone/Vapor-Utils.git",
        "https://github.com/vaporware/zebra.git",
        "https://github.com/x/VAPOR.git",
        "https://github.com/apple/swift-log-extras.git",
        "no-slash",
        "https://github.com/swift-server/async-http-client.git.git",
        "https://github.com/other/log.git",
        "https://github.com/ÄPFEL/Öl.git",
    ];
    let list: Vec<String> = urls.iter().map(|u| u.to_string()).collect();
    for query in ["vapor", "VAPOR", "log", "swift", "apple", "", "zzz", "öl", "a", "swift-log"] {
        for limit in [0usize, 1, 2, 3, 100] {
            let found: Vec<(String, String, String)> =
                gust::package_index::search_in(&list, query, limit)
                    .into_iter()
                    .map(|p| (p.name, p.owner, p.url))
                    .collect();
            assert_eq!(found, search_by_the_book(&urls, query, limit), "{:?} {}", query, limit);
        }
    }
    let names: Vec<String> = gust::package_index::search_in(&list, "vapor", 10)
        .into_iter()
        .map(|p| format!("{}/{}", p.owner, p.name))
        .collect();
    assert_eq!(
        names,
        vec!["vapor/vapor", "x/VAPOR", "someone/Vapor-Utils", "vapor/fluent", "vaporware/zebra"]
    );
}

#[test]
fn lists_are_written_as_the_standard_library_writes_them() {
    for names in [
        vec![],
        vec!["a"],
        vec!["b", "a"],
        vec!["swift-log", "with \"quotes\"", "tab\there", "new\nline", "back\\slash", "é", "\u{1}"],
        vec!["", ""],
    ] {
        let owned: Vec<String> = names.iter().map(|n| n.to_string()).collect();
        assert_eq!(gust::text::format_debug_list(&owned), format!("{:?}", owned));
        let mut sorted = owned.clone();
        sorted.sort();
        assert_eq!(
            gust::builder::hash_dependency_names(&owned),
            blake3::hash(format!("{:?}", sorted).as_bytes()).to_hex().to_string()
        );
    }
}

fn raw_manifest() -> gust::manifest::RawManifest {
    gust::manifest::RawManifest {
        package: gust::manifest::RawPackage {
            name: "app".to_string(),
            version: "1.2.3".to_string(),
            swift_tools_version: "5.9".to_string(),
            description: Some("an app".to_string()),
            license: None,
            authors: vec!["me".to_string()],
            repository: None,
        },
        dependencies: vec![
            ("log".to_string(), gust::manifest::RawDependency::Version("^1.5".to_string())),
            (
                "nio".to_string(),
                gust::manifest::RawDependency::Full {
                    version: None,
                    git: Some("https://x/nio.git".to_string()),
                    branch: None,
                    tag: Some("2.0.0".to_string()),
                    revision: None,
                    path: None,
                    features: vec!["tls".to_string()],
                    optional: true,
                },
            ),
            ("log".to_string(), gust::manifest::RawDependency::Version("^1.6".to_string())),
        ],
        dev_dependencies: vec![],
        targets: vec![
            gust::manifest::RawTarget {
                name: "app".to_string(),
                target_type: "executable".to_string(),
                path: Some("Sources/app".to_string()),
                dependencies: vec!["log".to_string()],
            },
            gust::manifest::RawTarget {
                name: "gen".to_string(),
                target_type: "plugin".to_string(),
                path: None,
                dependencies: vec![],
            },
        ],
        binary_cache: None,
        build: None,
        overrides: gust::namemap::NameMap::new(),
        constraints: gust::namemap::NameMap::new(),
        workspace: Some(gust::manifest::RawWorkspace {
            members: vec!["packages/*".to_string()],
            exclude: vec![],
            dependencies: vec![
                ("bad".to_string(), gust::manifest::RawDependency::Version("not a range".to_string())),
                ("log".to_string(), gust::manifest::RawDependency::Version("^1".to_string())),
            ],
            package_defaults: None,
        }),
    }
}

#[test]
fn a_manifest_is_read_from_its_entries() {
    let manifest = gust::manifest::manifest_of_raw(raw_manifest()).unwrap();
    assert_eq!(manifest.package.name, "app");
    assert_eq!(manifest.package.version, Version::new(1, 2, 3));
    assert_eq!(manifest.package.swift_tools_version, "5.9");
    assert_eq!(manifest.package.description.as_deref(), Some("an app"));
    assert_eq!(manifest.package.authors, vec!["me".to_string()]);
    let names: Vec<&str> = manifest.dependencies.entries.iter().map(|e| e.0.as_str()).collect();
    assert_eq!(names, vec!["log", "nio"]);
    assert_eq!(
        manifest.dependencies.get("log").unwrap().version.as_ref().unwrap().to_string(),
        "^1.6"
    );
    let nio = manifest.dependencies.get("nio").unwrap();
    assert_eq!(nio.tag.as_deref(), Some("2.0.0"));
    assert_eq!(nio.features, vec!["tls".to_string()]);
    assert!(nio.optional);
    assert_eq!(manifest.targets.len(), 2);
    assert_eq!(manifest.targets[0].target_type, TargetType::Executable);
    assert_eq!(manifest.targets[0].path.as_deref(), Some("Sources/app"));
    assert_eq!(manifest.targets[1].target_type, TargetType::Plugin);
    assert!(manifest.targets[1].resources.is_empty());
    let workspace = manifest.workspace.unwrap();
    assert_eq!(workspace.members, vec!["packages/*".to_string()]);
    assert_eq!(workspace.dependencies.len(), 1);
    assert!(workspace.dependencies.contains_key("log"));
    assert!(workspace.dev_dependencies.is_empty());
}

#[test]
fn the_first_entry_that_means_nothing_is_the_error() {
    let message = |raw: gust::manifest::RawManifest| match gust::manifest::manifest_of_raw(raw) {
        Err(ManifestError::ValidationError(m)) => m,
        other => panic!("unexpected: {:?}", other.map(|m| m.package.name)),
    };
    let mut raw = raw_manifest();
    raw.package.version = "one".to_string();
    raw.targets[0].target_type = "kernel".to_string();
    assert!(message(raw).starts_with("Invalid version: "));

    let mut raw = raw_manifest();
    raw.dependencies.push((
        "none".to_string(),
        gust::manifest::RawDependency::Full {
            version: None,
            git: None,
            branch: None,
            tag: None,
            revision: None,
            path: None,
            features: vec![],
            optional: false,
        },
    ));
    raw.dev_dependencies
        .push(("dev".to_string(), gust::manifest::RawDependency::Version("???".to_string())));
    raw.targets[1].target_type = "kernel".to_string();
    assert_eq!(message(raw), "Dependency none must have version, git, or path");

    let mut raw = raw_manifest();
    raw.dev_dependencies
        .push(("dev".to_string(), gust::manifest::RawDependency::Version("???".to_string())));
    raw.targets[1].target_type = "kernel".to_string();
    assert!(message(raw).starts_with("Invalid version for dev: "));

    let mut raw = raw_manifest();
    raw.targets[0].target_type = "kernel".to_string();
    raw.targets[1].target_type = "driver".to_string();
    assert_eq!(message(raw), "Unknown target type: kernel");
}

#[test]
fn source_kinds_are_written_and_read_back() {
    for (source, name) in [
        (gust::types::DependencySource::Registry, "registry"),
        (gust::types::DependencySource::Git, "git"),
        (gust::types::DependencySource::Path, "path"),
    ] {
        assert_eq!(gust::lockfile::source_name(source), name);
        assert_eq!(gust::lockfile::parse_source(name), Some(source));
    }
    assert_eq!(gust::lockfile::parse_source("Git"), None);
    assert_eq!(gust::lockfile::parse_source(""), None);
}

#[test]
fn the_lockfile_stands_for_the_dependencies_where_there_is_one() {
    let names = vec!["b".to_string(), "a".to_string()];
    assert_eq!(
        gust::builder::hash_dependencies(Some(b"locked"), &names),
        blake3::hash(b"locked").to_hex().to_string()
    );
    assert_eq!(
        gust::builder::hash_dependencies(None, &names),
        blake3::hash(b"[\"a\", \"b\"]").to_hex().to_string()
    );
    let mut manifest = Manifest::default();
    manifest.targets.push(Target::executable("app"));
    let wanted = BuildOptions { target: Some("app".to_string()), ..BuildOptions::default() };
    assert!(Builder::check_target(&manifest, &wanted).is_ok());
    assert!(Builder::check_target(&manifest, &BuildOptions::default()).is_ok());
    let missing = BuildOptions { target: Some("nope".to_string()), ..BuildOptions::default() };
    assert!(matches!(
        Builder::check_target(&manifest, &missing),
        Err(gust::builder::BuildError::TargetNotFound(t)) if t == "nope"
    ));
}

#[test]
fn hints_are_counted_by_package() {
    let mut mine = gust::resolver::hints::LockfileHints::new();
    assert_eq!(mine.len(), 0);
    assert!(mine.is_empty());
    mine.add_preferred_version("a", Version::new(1, 0, 0));
    mine.add_preferred_version("a", Version::new(1, 1, 0));
    mine.add_preferred_revision("a", "abc");
    assert_eq!(mine.len(), 2);
    let mut other = gust::resolver::hints::LockfileHints::new();
    other.add_preferred_version("a", Version::new(2, 0, 0));
    other.add_preferred_version("b", Version::new(3, 0, 0));
    other.add_preferred_revision("c", "def");
    assert_eq!(other.len(), 3);
    mine.merge(other);
    assert_eq!(mine.preferred_version("a"), Some(&Version::new(1, 1, 0)));
    assert_eq!(mine.preferred_version("b"), Some(&Version::new(3, 0, 0)));
    assert_eq!(mine.preferred_revision("c"), Some("def"));
    assert_eq!(mine.len(), 4);
    assert!(!mine.is_empty());
}

#[test]
fn an_archive_of_any_level_is_unpacked() {
    let data: Vec<u8> = (0..50_000u32).map(|i| (i % 251) as u8).collect();
    for level in [-5, 0, 1, 3, 9, 19, 22] {
        let packed = gust::binary_cache::pack_archive_at(&data, level).unwrap();
        assert_eq!(unpack_archive(&packed).unwrap(), data, "level {}", level);
        assert_eq!(packed, zstd::encode_all(data.as_slice(), level).unwrap());
    }
    assert_eq!(
        gust::binary_cache::pack_archive_at(&data, 1).unwrap(),
        pack_archive(&data).unwrap()
    );
}

#[test]
fn results_stand_in_the_order_of_the_batch() {
    let done = |name: &str| -> Result<gust::fetch::FetchResult, gust::fetch::FetchError> {
        Ok(gust::fetch::Fetcher::linked(name, "/d", "sum".to_string()))
    };
    let failed = || -> Result<gust::fetch::FetchResult, gust::fetch::FetchError> {
        Err(gust::fetch::FetchError::IoError("disk".to_string()))
    };
    let shape = |results: Vec<Result<gust::fetch::FetchResult, gust::fetch::FetchError>>| {
        results
            .into_iter()
            .map(|r| match r {
                Ok(f) => f.name,
                Err(e) => e.to_string(),
            })
            .collect::<Vec<String>>()
    };
    let one_by_one = gust::fetch::collect_in_order(
        4,
        vec![(0, done("a")), (1, failed()), (2, done("c")), (3, done("d"))],
    );
    let all_at_once = gust::fetch::collect_in_order(
        4,
        vec![(3, done("d")), (1, failed()), (0, done("a")), (2, done("c"))],
    );
    let expected = vec!["a", "IO error: disk", "c", "d"];
    assert_eq!(shape(one_by_one), expected);
    assert_eq!(shape(all_at_once), expected);
    assert_eq!(
        shape(gust::fetch::collect_in_order(3, vec![(2, done("c")), (7, done("x"))])),
        vec!["Git error: cancelled", "Git error: cancelled", "c"]
    );
    assert_eq!(
        shape(gust::fetch::collect_in_order(1, vec![(0, done("old")), (0, done("new"))])),
        vec!["new"]
    );
    assert!(gust::fetch::collect_in_order(0, vec![(0, done("a"))]).is_empty());
}
