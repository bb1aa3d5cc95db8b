//! Builds: what to run, and when the artifact cache stands in for a run.

use vstd::prelude::*;
use crate::binary_cache::{binary_cache_error_text, BinaryCacheError, LocalBinaryCache};
use crate::hasher::{blake3_hex, hash_bytes, hash_text};
use crate::paths::{join_path, joined};
use crate::platform::{platform_error_text, PlatformError, SwiftToolchain};
use crate::text::{
    concat, concat3, debug_list, decimal, format_debug_list, has_substring, push_decimal,
    sort_strings, sorted_texts, str_contains, str_eq, views,
};
use crate::types::{BuildConfiguration, Manifest, TargetType};

verus! {

/// What can go wrong in a build.
#[derive(Debug)]
pub enum BuildError {
    ToolchainError(PlatformError),
    BuildFailed(String),
    IoError(String),
    TargetNotFound(String),
    CacheError(BinaryCacheError),
}

/// The message of an error.
pub open spec fn build_error_text(e: BuildError) -> Seq<char> {
    match e {
        BuildError::ToolchainError(p) => "Swift toolchain not found: "@ + platform_error_text(p),
        BuildError::BuildFailed(m) => "Build failed: "@ + m@,
        BuildError::IoError(m) => "IO error: "@ + m@,
        BuildError::TargetNotFound(t) => "Target not found: "@ + t@,
        BuildError::CacheError(c) => "Cache error: "@ + binary_cache_error_text(c),
    }
}

impl BuildError {
    /// The message of the error.
    pub fn to_string(&self) -> (out: String)
        ensures
            out@ == build_error_text(*self),
    {
        match self {
            BuildError::ToolchainError(p) => concat(
                "Swift toolchain not found: ",
                p.to_string().as_str(),
            ),
            BuildError::BuildFailed(m) => concat("Build failed: ", m.as_str()),
            BuildError::IoError(m) => concat("IO error: ", m.as_str()),
            BuildError::TargetNotFound(t) => concat("Target not found: ", t.as_str()),
            BuildError::CacheError(c) => concat("Cache error: ", c.to_string().as_str()),
        }
    }
}

/// How to build.
#[derive(Debug)]
pub struct BuildOptions {
    pub configuration: BuildConfiguration,
    /// Number of parallel jobs; the toolchain decides where none is given.
    pub jobs: Option<usize>,
    /// The one target to build; all targets where none is given.
    pub target: Option<String>,
    /// Flags handed on to the compiler.
    pub swift_flags: Vec<String>,
    pub verbose: bool,
    /// Whether the artifact cache is used at all.
    pub use_cache: bool,
    /// Whether to build even where the cache holds the outputs.
    pub force_rebuild: bool,
}

impl Default for BuildOptions {
    fn default() -> (r: Self)
        ensures
            r.configuration == BuildConfiguration::Debug,
            r.jobs is None,
            r.target is None,
            r.swift_flags@.len() == 0,
            !r.verbose,
            r.use_cache,
            !r.force_rebuild,
    {
        BuildOptions {
            configuration: BuildConfiguration::Debug,
            jobs: None,
            target: None,
            swift_flags: Vec::new(),
            verbose: false,
            use_cache: true,
            force_rebuild: false,
        }
    }
}

/// The arguments of the build command for the given options: `build`, the
/// configuration unless it is debug, the number of jobs, the target, and
/// the flags.
pub open spec fn build_arguments(
    configuration: BuildConfiguration,
    jobs: Option<usize>,
    target: Option<Seq<char>>,
    flags: Seq<Seq<char>>,
) -> Seq<Seq<char>> {
    seq!["build"@] + (match configuration {
        BuildConfiguration::Release => seq!["-c"@, "release"@],
        BuildConfiguration::Debug => Seq::<Seq<char>>::empty(),
    }) + (match jobs {
        Some(n) => seq!["-j"@, decimal(n as nat)],
        None => Seq::<Seq<char>>::empty(),
    }) + (match target {
        Some(t) => seq!["--target"@, t],
        None => Seq::<Seq<char>>::empty(),
    }) + flags
}

/// What a build comes down to.
#[derive(Debug)]
pub enum BuildPlan {
    /// The cache holds the outputs: unpack the archive of the fingerprint.
    Restore { fingerprint: String },
    /// Run the compiler with the arguments, and afterwards store the outputs
    /// under `store_as` where that is given.
    Compile { arguments: Vec<String>, store_as: Option<String> },
}

/// Whether the manifest has a target called `name`.
pub open spec fn has_target(manifest: Manifest, name: Seq<char>) -> bool {
    exists|i: int| 0 <= i < manifest.targets@.len() && (#[trigger] manifest.targets@[i]).name@ == name
}

/// Whether a line of the compiler's output is shown: every line in verbose
/// mode, else the lines on compiling and linking.
pub open spec fn line_shown(line: Seq<char>, verbose: bool) -> bool {
    verbose || has_substring(line, "Compiling"@) || has_substring(line, "Linking"@)
}

/// Whether a line of the compiler's output is shown.
pub fn shows_line(line: &str, verbose: bool) -> (r: bool)
    ensures
        r == line_shown(line@, verbose),
{
    verbose || str_contains(line, "Compiling") || str_contains(line, "Linking")
}

/// The name of a platform in fingerprints: the operating system, with
/// anything but `macos`, `linux` and `windows` as `unknown`, and the
/// architecture, as `arm64`, `x86_64` or `unknown`.
pub open spec fn platform_id_of(os: Seq<char>, arch: Seq<char>) -> Seq<char> {
    (if os == "macos"@ {
        "macos"@
    } else if os == "linux"@ {
        "linux"@
    } else if os == "windows"@ {
        "windows"@
    } else {
        "unknown"@
    }) + "-"@ + (if arch == "aarch64"@ {
        "arm64"@
    } else if arch == "x86_64"@ {
        "x86_64"@
    } else {
        "unknown"@
    })
}

/// The hash that stands for the dependencies of a project without a
/// lockfile: that of the debug notation of the sorted dependency names.
pub fn hash_dependency_names(names: &Vec<String>) -> (r: String)
    ensures
        r@ == blake3_hex(vstd::utf8::encode_utf8(debug_list(sorted_texts(views(names@))))),
{
    let sorted = sort_strings(names);
    hash_text(format_debug_list(&sorted).as_str())
}

/// The hash that stands for the dependencies of a project: that of the
/// lockfile where there is one, else that of the dependency names, see
/// `hash_dependency_names`.
pub fn hash_dependencies(lockfile: Option<&[u8]>, names: &Vec<String>) -> (r: String)
    ensures
        r@ == (match lockfile {
            Some(bytes) => blake3_hex(bytes@),
            None => blake3_hex(
                vstd::utf8::encode_utf8(debug_list(sorted_texts(views(names@)))),
            ),
        }),
{
    match lockfile {
        Some(bytes) => hash_bytes(bytes),
        None => hash_dependency_names(names),
    }
}

/// The products that a build leaves behind: for each executable target the
/// file of its name, for each library target its static library or else
/// its dynamic one, as far as they are among the files that are there.
pub open spec fn product_of(
    build_dir: Seq<char>,
    name: Seq<char>,
    kind: TargetType,
    present: Seq<Seq<char>>,
) -> Option<Seq<char>> {
    match kind {
        TargetType::Executable => {
            let path = joined(build_dir, name);
            if present.contains(path) {
                Some(path)
            } else {
                None
            }
        },
        TargetType::Library => {
            let fixed = joined(build_dir, "lib"@ + name + ".a"@);
            let dynamic = joined(build_dir, "lib"@ + name + ".dylib"@);
            if present.contains(fixed) {
                Some(fixed)
            } else if present.contains(dynamic) {
                Some(dynamic)
            } else {
                None
            }
        },
        _ => None,
    }
}

/// The products of the first `upto` targets.
pub open spec fn products_of(
    build_dir: Seq<char>,
    manifest: Manifest,
    present: Seq<Seq<char>>,
    upto: int,
) -> Seq<Seq<char>>
    decreases upto,
{
    if upto <= 0 {
        Seq::<Seq<char>>::empty()
    } else {
        let rest = products_of(build_dir, manifest, present, upto - 1);
        let target = manifest.targets@[upto - 1];
        match product_of(build_dir, target.name@, target.target_type, present) {
            Some(p) => rest.push(p),
            None => rest,
        }
    }
}

fn is_present(present: &Vec<String>, path: &str) -> (r: bool)
    ensures
        r == views(present@).contains(path@),
{
    let mut i: usize = 0;
    while i < present.len()
        invariant
            i <= present@.len(),
            forall|j: int| 0 <= j < i ==> present@[j]@ != path@,
        decreases present@.len() - i,
    {
        if str_eq(present[i].as_str(), path) {
            assert(views(present@)[i as int] == path@);
            return true;
        }
        i = i + 1;
    }
    assert forall|j: int| 0 <= j < views(present@).len() implies views(present@)[j] != path@ by {
        assert(views(present@)[j] == present@[j]@);
    }
    false
}

/// The products of a build among the files that are in the build
/// directory.
pub fn find_products(build_dir: &str, manifest: &Manifest, present: &Vec<String>) -> (out: Vec<
    String,
>)
    ensures
        views(out@) == products_of(
            build_dir@,
            *manifest,
            views(present@),
            manifest.targets@.len() as int,
        ),
{
    let mut out: Vec<String> = Vec::new();
    let mut i: usize = 0;
    assert(views(out@) =~= products_of(build_dir@, *manifest, views(present@), 0));
    while i < manifest.targets.len()
        invariant
            i <= manifest.targets@.len(),
            views(out@) == products_of(build_dir@, *manifest, views(present@), i as int),
        decreases manifest.targets@.len() - i,
    {
        let target = &manifest.targets[i];
        let ghost before = out@;
        match target.target_type {
            TargetType::Executable => {
                let path = join_path(build_dir, target.name.as_str());
                if is_present(present, path.as_str()) {
                    out.push(path);
                    assert(views(out@) =~= views(before).push(path@));
                }
            },
            TargetType::Library => {
                let fixed = join_path(
                    build_dir,
                    concat3("lib", target.name.as_str(), ".a").as_str(),
                );
                let dynamic = join_path(
                    build_dir,
                    concat3("lib", target.name.as_str(), ".dylib").as_str(),
                );
                if is_present(present, fixed.as_str()) {
                    out.push(fixed);
                    assert(views(out@) =~= views(before).push(fixed@));
                } else if is_present(present, dynamic.as_str()) {
                    out.push(dynamic);
                    assert(views(out@) =~= views(before).push(dynamic@));
                }
            },
            _ => {},
        }
        i = i + 1;
    }
    out
}

/// Plans and describes the builds of a project.
#[derive(Debug)]
pub struct Builder {
    project_dir: String,
    toolchain: SwiftToolchain,
    binary_cache: Option<LocalBinaryCache>,
}

impl Builder {
    /// The directory of the project.
    pub closed spec fn project_dir(&self) -> Seq<char> {
        self.project_dir@
    }

    /// The toolchain that builds.
    pub closed spec fn toolchain(&self) -> SwiftToolchain {
        self.toolchain
    }

    /// The artifact cache, where there is one.
    pub closed spec fn cache(&self) -> Option<LocalBinaryCache> {
        self.binary_cache
    }

    /// A builder for the project in `project_dir`.
    pub fn new(
        project_dir: String,
        toolchain: SwiftToolchain,
        binary_cache: Option<LocalBinaryCache>,
    ) -> (r: Self)
        ensures
            r.project_dir() == project_dir@,
            r.toolchain() == toolchain,
            r.cache() == binary_cache,
    {
        Builder { project_dir, toolchain, binary_cache }
    }

    /// The toolchain that builds.
    pub fn swift(&self) -> (r: &SwiftToolchain)
        ensures
            *r == self.toolchain(),
    {
        &self.toolchain
    }

    /// The artifact cache, where there is one.
    pub fn binary_cache(&self) -> (r: Option<&LocalBinaryCache>)
        ensures
            match r {
                Some(c) => self.cache() == Some(*c),
                None => self.cache() is None,
            },
    {
        match &self.binary_cache {
            Some(c) => Some(c),
            None => None,
        }
    }

    /// The directory that holds the outputs of a configuration:
    /// `.build/<configuration>` in the project.
    pub fn build_dir(&self, config: BuildConfiguration) -> (out: String)
        ensures
            out@ == joined(joined(self.project_dir(), ".build"@), config.name()),
    {
        join_path(
            join_path(self.project_dir.as_str(), ".build").as_str(),
            config.to_string().as_str(),
        )
    }

    /// The name of the platform in fingerprints.
    pub fn platform_id(os: &str, arch: &str) -> (out: String)
        ensures
            out@ == platform_id_of(os@, arch@),
    {
        let system = if str_eq(os, "macos") {
            "macos"
        } else if str_eq(os, "linux") {
            "linux"
        } else if str_eq(os, "windows") {
            "windows"
        } else {
            "unknown"
        };
        let machine = if str_eq(arch, "aarch64") {
            "arm64"
        } else if str_eq(arch, "x86_64") {
            "x86_64"
        } else {
            "unknown"
        };
        concat3(system, "-", machine)
    }

    /// The arguments of the build command for the given options.
    pub fn command_arguments(options: &BuildOptions) -> (out: Vec<String>)
        ensures
            views(out@) == build_arguments(
                options.configuration,
                options.jobs,
                crate::types::opt_text(options.target),
                views(options.swift_flags@),
            ),
    {
        let mut out: Vec<String> = Vec::new();
        out.push(String::from_str("build"));
        match options.configuration {
            BuildConfiguration::Release => {
                out.push(String::from_str("-c"));
                out.push(String::from_str("release"));
            },
            BuildConfiguration::Debug => {},
        }
        match options.jobs {
            Some(n) => {
                out.push(String::from_str("-j"));
                let mut text = String::new();
                push_decimal(&mut text, n as u64);
                out.push(text);
            },
            None => {},
        }
        match &options.target {
            Some(t) => {
                out.push(String::from_str("--target"));
                out.push(t.clone());
            },
            None => {},
        }
        let ghost head = views(out@);
        assert(head =~= build_arguments(
            options.configuration,
            options.jobs,
            crate::types::opt_text(options.target),
            Seq::<Seq<char>>::empty(),
        ));
        let mut i: usize = 0;
        assert(views(out@) =~= head + views(options.swift_flags@).take(0));
        while i < options.swift_flags.len()
            invariant
                i <= options.swift_flags@.len(),
                views(out@) == head + views(options.swift_flags@).take(i as int),
            decreases options.swift_flags@.len() - i,
        {
            let ghost before = out@;
            out.push(options.swift_flags[i].clone());
            assert(views(out@) =~= views(before).push(options.swift_flags@[i as int]@));
            assert(views(options.swift_flags@).take(i + 1) =~= views(options.swift_flags@).take(
                i as int,
            ).push(options.swift_flags@[i as int]@));
            assert(views(out@) =~= head + views(options.swift_flags@).take(i + 1));
            i = i + 1;
        }
        assert(views(options.swift_flags@).take(i as int) =~= views(options.swift_flags@));
        out
    }

    /// Checks that the target that is asked for exists: a build of a
    /// target that the manifest does not have is refused before anything
    /// is hashed or run.
    pub fn check_target(manifest: &Manifest, options: &BuildOptions) -> (r: Result<
        (),
        BuildError,
    >)
        ensures
            match r {
                Err(e) => {
                    &&& options.target matches Some(t)
                    &&& !has_target(*manifest, t@)
                    &&& e matches BuildError::TargetNotFound(name)
                    &&& name@ == t@
                },
                Ok(_) => options.target matches Some(t) ==> has_target(*manifest, t@),
            },
    {
        match &options.target {
            Some(wanted) => {
                let mut found = false;
                let mut i: usize = 0;
                while i < manifest.targets.len() && !found
                    invariant
                        i <= manifest.targets@.len(),
                        found ==> has_target(*manifest, wanted@),
                        !found ==> forall|j: int|
                            0 <= j < i ==> (#[trigger] manifest.targets@[j]).name@ != wanted@,
                    decreases manifest.targets@.len() - i, (if found { 0int } else { 1int }),
                {
                    if str_eq(manifest.targets[i].name.as_str(), wanted.as_str()) {
                        found = true;
                    } else {
                        i = i + 1;
                    }
                }
                if !found {
                    return Err(BuildError::TargetNotFound(wanted.clone()));
                }
                Ok(())
            },
            None => Ok(()),
        }
    }

    /// What the build of `manifest` comes down to.
    ///
    /// A target that is asked for must exist. The outputs are restored from
    /// the cache where caching is on, no rebuild is forced, and the cache
    /// holds the fingerprint. Otherwise the compiler runs, and its outputs
    /// are stored where caching is on and there is a cache to store them in.
    pub fn plan(
        manifest: &Manifest,
        options: &BuildOptions,
        fingerprint: Option<&str>,
        has_cache: bool,
        cache_hit: bool,
    ) -> (r: Result<BuildPlan, BuildError>)
        ensures
            match r {
                Err(e) => {
                    &&& options.target matches Some(t)
                    &&& !has_target(*manifest, t@)
                    &&& e matches BuildError::TargetNotFound(name)
                    &&& name@ == t@
                },
                Ok(plan) => {
                    &&& options.target matches Some(t) ==> has_target(*manifest, t@)
                    &&& match plan {
                        BuildPlan::Restore { fingerprint: f } => {
                            &&& options.use_cache && !options.force_rebuild && has_cache
                                && cache_hit
                            &&& fingerprint matches Some(given) && f@ == given@
                        },
                        BuildPlan::Compile { arguments, store_as } => {
                            &&& !(options.use_cache && !options.force_rebuild && has_cache
                                && cache_hit && fingerprint is Some)
                            &&& views(arguments@) == build_arguments(
                                options.configuration,
                                options.jobs,
                                crate::types::opt_text(options.target),
                                views(options.swift_flags@),
                            )
                            &&& match store_as {
                                Some(f) => {
                                    &&& options.use_cache
                                    &&& has_cache
                                    &&& fingerprint matches Some(given)
                                    &&& f@ == given@
                                },
                                None => !(options.use_cache && has_cache && fingerprint is Some),
                            }
                        },
                    }
                },
            },
    {
        match Builder::check_target(manifest, options) {
            Err(e) => {
                return Err(e);
            },
            Ok(_) => {},
        }
        match fingerprint {
            Some(f) => {
                if options.use_cache && !options.force_rebuild && has_cache && cache_hit {
                    return Ok(BuildPlan::Restore { fingerprint: String::from_str(f) });
                }
            },
            None => {},
        }
        let store_as = match fingerprint {
            Some(f) => if options.use_cache && has_cache {
                Some(String::from_str(f))
            } else {
                None
            },
            None => None,
        };
        Ok(BuildPlan::Compile { arguments: Builder::command_arguments(options), store_as })
    }
}

} // verus!
