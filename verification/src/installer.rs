//! Installing the dependencies of a project: which lockfile counts, which
//! packages are still to be discovered, what is to be fetched, and what the
//! new lockfile holds.
//!
//! The library decides; its caller reads the manifests, runs the fetches
//! and writes the files.

use vstd::prelude::*;
use crate::fetch::{fetch_error_text, FetchError, FetchResult, Fetcher};
use crate::lockfile::{locked_views, LockedModel, LockedPackage, Lockfile, LockfileDiff};
use crate::manifest::ParsedDependency;
use crate::namemap::NameMap;
use crate::paths::{join_path, joined};
use crate::resolver::hints::LockfileHints;
use crate::resolver::{Resolution, ResolvedDep, ResolvedModel, ResolvedSource, SourceModel};
use crate::store::GlobalCache;
use crate::text::{
    char_is_alphanumeric, concat, decimal, from_chars, is_alphanumeric, join, join_strings,
    push_decimal, str_eq, strip_prefix, to_chars, trim, trimmed, views,
};
use crate::types::{
    clone_opt, clone_strings, opt_text, Dependency, DependencyModel, DependencySource, Manifest,
    source_kind_of,
};
use crate::version::{semver_version, version_text, Version, VersionModel};

verus! {

/// How to install.
#[derive(Debug)]
pub struct InstallOptions {
    /// Whether the lockfile is to be taken as it is.
    pub frozen: bool,
    /// How many fetches may run at once.
    pub concurrency: usize,
}

impl Default for InstallOptions {
    fn default() -> (r: Self)
        ensures
            !r.frozen,
            r.concurrency == 0,
    {
        InstallOptions { frozen: false, concurrency: 0 }
    }
}

/// What an installation did.
#[derive(Debug)]
pub struct InstallResult {
    /// The number of packages that were installed.
    pub installed: usize,
}

/// What can go wrong in an installation.
#[derive(Debug)]
pub enum InstallError {
    /// The lockfile was to be taken as it is, and there is none.
    FrozenWithoutLockfile,
    /// Fetches failed; the texts are their messages.
    FetchErrors(Vec<String>),
}

/// The message of an error.
pub open spec fn install_error_text(e: InstallError) -> Seq<char> {
    match e {
        InstallError::FrozenWithoutLockfile => "No lockfile found but --frozen was specified"@,
        InstallError::FetchErrors(messages) => "Fetch errors: "@ + join(views(messages@), ", "@),
    }
}

impl InstallError {
    /// The message of the error.
    pub fn to_string(&self) -> (out: String)
        ensures
            out@ == install_error_text(*self),
    {
        match self {
            InstallError::FrozenWithoutLockfile => String::from_str(
                "No lockfile found but --frozen was specified",
            ),
            InstallError::FetchErrors(messages) => concat(
                "Fetch errors: ",
                join_strings(messages, ", ").as_str(),
            ),
        }
    }
}

/// How a character of a package name is written in a directory name:
/// letters, numbers, `-` and `_` as they are, anything else as `_`.
pub open spec fn sanitized_char(c: char) -> char {
    if is_alphanumeric(c) || c == '-' || c == '_' {
        c
    } else {
        '_'
    }
}

/// A package name as a directory name.
pub open spec fn sanitized(name: Seq<char>) -> Seq<char> {
    name.map_values(|c: char| sanitized_char(c))
}

/// Makes a directory name out of a package name.
pub fn sanitize_name(name: &str) -> (out: String)
    ensures
        out@ == sanitized(name@),
{
    let chars = to_chars(name);
    let mut out: Vec<char> = Vec::new();
    let mut i: usize = 0;
    while i < chars.len()
        invariant
            i <= chars@.len(),
            out@.len() == i,
            forall|j: int| 0 <= j < i ==> out@[j] == sanitized_char(chars@[j]),
        decreases chars@.len() - i,
    {
        let c = chars[i];
        if char_is_alphanumeric(c) || c == '-' || c == '_' {
            out.push(c);
        } else {
            out.push('_');
        }
        i = i + 1;
    }
    assert(out@ =~= sanitized(name@));
    from_chars(&out)
}

/// The version that a tag stands for: the tag without the white space
/// around it, or what follows its leading `v` or `V`, read as a version.
pub open spec fn version_of_tag(tag: Seq<char>) -> Option<VersionModel> {
    let t = trimmed(tag);
    match semver_version(t) {
        Ok(v) => Some(v),
        Err(_) => {
            if crate::text::has_prefix(t, "v"@) {
                match semver_version(t.skip("v"@.len() as int)) {
                    Ok(v) => Some(v),
                    Err(_) => None,
                }
            } else if crate::text::has_prefix(t, "V"@) {
                match semver_version(t.skip("V"@.len() as int)) {
                    Ok(v) => Some(v),
                    Err(_) => None,
                }
            } else {
                None
            }
        },
    }
}

/// The version that a tag stands for.
pub fn parse_version_from_tag(tag: &str) -> (r: Option<Version>)
    ensures
        match r {
            Some(v) => version_of_tag(tag@) == Some(v@),
            None => version_of_tag(tag@) is None,
        },
{
    let t = trim(tag);
    match Version::parse(t.as_str()) {
        Ok(v) => {
            return Some(v);
        },
        Err(_) => {},
    }
    let rest = match strip_prefix(t.as_str(), "v") {
        Some(r) => Some(r),
        None => strip_prefix(t.as_str(), "V"),
    };
    match rest {
        Some(r) => match Version::parse(r.as_str()) {
            Ok(v) => Some(v),
            Err(_) => None,
        },
        None => None,
    }
}

/// The resolved package that a locked package stands for. A git package is
/// taken at the tag of its version, unless the version is zero.
pub open spec fn resolved_of_locked(p: LockedModel) -> ResolvedModel {
    ResolvedModel {
        name: p.name,
        version: p.version,
        source: match p.source {
            DependencySource::Git => SourceModel::Git {
                url: match p.git {
                    Some(u) => u,
                    None => Seq::<char>::empty(),
                },
                revision: match p.revision {
                    Some(r) => r,
                    None => Seq::<char>::empty(),
                },
                tag: if p.version != crate::resolver::provider::root_version() {
                    Some(version_text(p.version))
                } else {
                    None
                },
            },
            DependencySource::Path => SourceModel::Path { path: Seq::<char>::empty() },
            DependencySource::Registry => SourceModel::Registry,
        },
        dependencies: p.dependencies,
    }
}

fn text_or_empty(o: &Option<String>) -> (r: String)
    ensures
        r@ == (match opt_text(*o) {
            Some(t) => t,
            None => Seq::<char>::empty(),
        }),
{
    match o {
        Some(s) => s.clone(),
        None => String::new(),
    }
}

/// Whether `r` is the resolution that the locked packages stand for: an
/// entry for each of them, in order and under its name, and no account of
/// how it was arrived at.
pub open spec fn is_locked_resolution(packages: Seq<LockedPackage>, r: Resolution) -> bool {
    &&& r.packages.entries@.len() == packages.len()
    &&& r.metadata.entries@.len() == 0
    &&& forall|i: int|
        0 <= i < packages.len() ==> (#[trigger] r.packages.entries@[i]).0@ == packages[i].name@
            && r.packages.entries@[i].1@ == resolved_of_locked(packages[i]@)
}

/// The resolution that a lockfile stands for: its packages as they are
/// locked, in order.
pub fn resolution_from_lockfile(lockfile: &Lockfile) -> (r: Resolution)
    ensures
        is_locked_resolution(lockfile.packages@, r),
{
    let mut entries: Vec<(String, ResolvedDep)> = Vec::new();
    let mut i: usize = 0;
    while i < lockfile.packages.len()
        invariant
            i <= lockfile.packages@.len(),
            entries@.len() == i,
            forall|j: int|
                0 <= j < i ==> (#[trigger] entries@[j]).0@ == lockfile.packages@[j].name@
                    && entries@[j].1@ == resolved_of_locked(lockfile.packages@[j]@),
        decreases lockfile.packages@.len() - i,
    {
        let p = &lockfile.packages[i];
        let source = match p.source {
            DependencySource::Git => ResolvedSource::Git {
                url: text_or_empty(&p.git),
                revision: text_or_empty(&p.revision),
                tag: if !p.version.is_zero() {
                    Some(p.version.to_string())
                } else {
                    None
                },
            },
            DependencySource::Path => ResolvedSource::Path { path: String::new() },
            DependencySource::Registry => ResolvedSource::Registry,
        };
        entries.push(
            (
                p.name.clone(),
                ResolvedDep {
                    name: p.name.clone(),
                    version: p.version.clone(),
                    source,
                    dependencies: clone_strings(&p.dependencies),
                },
            ),
        );
        i = i + 1;
    }
    Resolution { packages: NameMap { entries }, metadata: NameMap::new() }
}

/// The hints that a lockfile gives to a resolution: for each package its
/// version, and its revision where it has one. Of two packages of the same
/// name the later one counts.
pub fn hints_from_lockfile(lockfile: &Lockfile) -> (r: LockfileHints)
    ensures
        forall|name: Seq<char>|
            r.version_hint(name) == last_locked_version(locked_views(lockfile.packages@), name),
        forall|name: Seq<char>|
            r.revision_hint(name) == last_locked_revision(locked_views(lockfile.packages@), name),
{
    let ghost all = locked_views(lockfile.packages@);
    let mut hints = LockfileHints::new();
    let mut i: usize = 0;
    while i < lockfile.packages.len()
        invariant
            i <= lockfile.packages@.len(),
            all == locked_views(lockfile.packages@),
            forall|name: Seq<char>|
                hints.version_hint(name) == last_locked_version(all.take(i as int), name),
            forall|name: Seq<char>|
                hints.revision_hint(name) == last_locked_revision(all.take(i as int), name),
        decreases lockfile.packages@.len() - i,
    {
        let p = &lockfile.packages[i];
        let ghost before = hints;
        proof {
            let t = all.take(i + 1);
            assert(t.drop_last() =~= all.take(i as int));
            assert(t.last() == p@);
        }
        hints.add_preferred_version(p.name.as_str(), p.version.clone());
        let ghost middle = hints;
        match &p.revision {
            Some(r) => {
                hints.add_preferred_revision(p.name.as_str(), r.as_str());
            },
            None => {},
        }
        proof {
            assert forall|name: Seq<char>|
                hints.version_hint(name) == last_locked_version(all.take(i + 1), name) by {
                assert(before.version_hint(name) == last_locked_version(all.take(i as int), name));
                assert(hints.version_hint(name) == middle.version_hint(name));
            }
            assert forall|name: Seq<char>|
                hints.revision_hint(name) == last_locked_revision(all.take(i + 1), name) by {
                assert(before.revision_hint(name) == last_locked_revision(
                    all.take(i as int),
                    name,
                ));
                assert(middle.revision_hint(name) == before.revision_hint(name));
            }
        }
        i = i + 1;
    }
    assert(all.take(i as int) =~= all);
    hints
}

/// The version of the last package called `name`.
pub open spec fn last_locked_version(packages: Seq<LockedModel>, name: Seq<char>) -> Option<
    VersionModel,
>
    decreases packages.len(),
{
    if packages.len() == 0 {
        None
    } else if packages.last().name == name {
        Some(packages.last().version)
    } else {
        last_locked_version(packages.drop_last(), name)
    }
}

/// The revision of the last package called `name` that has one.
pub open spec fn last_locked_revision(packages: Seq<LockedModel>, name: Seq<char>) -> Option<
    Seq<char>,
>
    decreases packages.len(),
{
    if packages.len() == 0 {
        None
    } else if packages.last().name == name && packages.last().revision is Some {
        packages.last().revision
    } else {
        last_locked_revision(packages.drop_last(), name)
    }
}

/// What an installation starts from.
#[derive(Debug)]
pub enum Posture {
    /// The lockfile is taken as it is: this is the resolution.
    Locked(Resolution),
    /// The dependencies are resolved, with these hints.
    Resolve(LockfileHints),
}

/// Decides what an installation starts from. A frozen installation takes
/// the lockfile as the resolution and fails without one. Any other
/// installation resolves, with the lockfile as hints where there is one.
pub fn decide_posture(frozen: bool, lockfile: Option<&Lockfile>) -> (r: Result<
    Posture,
    InstallError,
>)
    ensures
        match r {
            Err(e) => frozen && lockfile is None && e is FrozenWithoutLockfile,
            Ok(Posture::Locked(res)) => {
                &&& frozen
                &&& lockfile matches Some(l)
                &&& is_locked_resolution(l.packages@, res)
            },
            Ok(Posture::Resolve(hints)) => {
                &&& !frozen
                &&& forall|name: Seq<char>|
                    hints.version_hint(name) == (match lockfile {
                        Some(l) => last_locked_version(locked_views(l.packages@), name),
                        None => None,
                    })
                &&& forall|name: Seq<char>|
                    hints.revision_hint(name) == (match lockfile {
                        Some(l) => last_locked_revision(locked_views(l.packages@), name),
                        None => None,
                    })
            },
        },
{
    if frozen {
        match lockfile {
            Some(l) => Ok(Posture::Locked(resolution_from_lockfile(l))),
            None => Err(InstallError::FrozenWithoutLockfile),
        }
    } else {
        match lockfile {
            Some(l) => Ok(Posture::Resolve(hints_from_lockfile(l))),
            None => Ok(Posture::Resolve(LockfileHints::new())),
        }
    }
}

/// The number of rounds after which the discovery of dependencies stops,
/// whatever is still pending.
pub const MAX_ITERATIONS: usize = 20;

/// The mathematical values of a list of pending dependencies.
pub open spec fn pending_views(s: Seq<(String, Dependency)>) -> Seq<(Seq<char>, DependencyModel)> {
    s.map_values(|e: (String, Dependency)| (e.0@, e.1@))
}

/// The first dependency pending under `name`.
pub open spec fn pending_dep(pending: Seq<(Seq<char>, DependencyModel)>, name: Seq<char>) -> Option<
    DependencyModel,
>
    decreases pending.len(),
{
    if pending.len() == 0 {
        None
    } else if pending[0].0 == name {
        Some(pending[0].1)
    } else {
        pending_dep(pending.drop_first(), name)
    }
}

/// The resolved package that a package becomes once its manifest was read.
/// It comes from where the dependency that asked for it says. A package
/// that nothing pending asked for counts as a git package of unknown
/// address.
pub open spec fn resolved_of_parsed(p: ParsedDependency, dep: Option<DependencyModel>) -> ResolvedModel {
    ResolvedModel {
        name: p.name@,
        version: p.manifest.package.version@,
        source: match dep {
            Some(d) => match source_kind_of(d) {
                DependencySource::Git => SourceModel::Git {
                    url: match d.git {
                        Some(u) => u,
                        None => Seq::<char>::empty(),
                    },
                    revision: match d.revision {
                        Some(r) => r,
                        None => "HEAD"@,
                    },
                    tag: d.tag,
                },
                DependencySource::Path => SourceModel::Path {
                    path: match d.path {
                        Some(p) => p,
                        None => Seq::<char>::empty(),
                    },
                },
                DependencySource::Registry => SourceModel::Registry,
            },
            None => SourceModel::Git { url: Seq::<char>::empty(), revision: "HEAD"@, tag: None },
        },
        dependencies: views(p.dependency_names@),
    }
}

/// The position of the last package called `name` among those that were
/// read.
pub open spec fn last_parsed(parsed: Seq<ParsedDependency>, name: Seq<char>) -> Option<int>
    decreases parsed.len(),
{
    if parsed.len() == 0 {
        None
    } else if parsed.last().name@ == name {
        Some(parsed.len() - 1)
    } else {
        last_parsed(parsed.drop_last(), name)
    }
}

proof fn lemma_last_parsed(parsed: Seq<ParsedDependency>, name: Seq<char>)
    ensures
        last_parsed(parsed, name) matches Some(i) ==> 0 <= i < parsed.len() && parsed[i].name@
            == name,
    decreases parsed.len(),
{
    if parsed.len() > 0 && parsed.last().name@ != name {
        lemma_last_parsed(parsed.drop_last(), name);
    }
}

/// Whether the package at position `i` is the first one whose manifest
/// depends on `name`.
pub open spec fn is_first_source(parsed: Seq<ParsedDependency>, name: Seq<char>, i: int) -> bool {
    &&& 0 <= i < parsed.len()
    &&& parsed[i].manifest.dependencies.has(name)
    &&& forall|j: int| 0 <= j < i ==> !(#[trigger] parsed[j]).manifest.dependencies.has(name)
}

/// What the first manifest that depends on `name` says of it.
pub open spec fn source_dep(parsed: Seq<ParsedDependency>, name: Seq<char>) -> Option<
    DependencyModel,
> {
    if exists|i: int| is_first_source(parsed, name, i) {
        let i = choose|i: int| is_first_source(parsed, name, i);
        Some(parsed[i].manifest.dependencies.value_of(name)@)
    } else {
        None
    }
}

/// The resolved package that a map holds for `name`.
pub open spec fn package_in(packages: NameMap<ResolvedDep>, name: Seq<char>) -> Option<
    ResolvedModel,
> {
    if packages.has(name) {
        Some(packages.value_of(name)@)
    } else {
        None
    }
}

/// The dependencies that are pending after a round: of the names that
/// turned up, in order, those that are not resolved and that the first
/// manifest naming them wants from a repository or a path.
pub open spec fn queued(
    discovered: Seq<Seq<char>>,
    parsed: Seq<ParsedDependency>,
    packages: NameMap<ResolvedDep>,
) -> Seq<(Seq<char>, DependencyModel)>
    decreases discovered.len(),
{
    if discovered.len() == 0 {
        Seq::<(Seq<char>, DependencyModel)>::empty()
    } else {
        let rest = queued(discovered.drop_last(), parsed, packages);
        let name = discovered.last();
        if packages.has(name) {
            rest
        } else {
            match source_dep(parsed, name) {
                Some(d) => if d.git is Some || d.path is Some {
                    rest.push((name, d))
                } else {
                    rest
                },
                None => rest,
            }
        }
    }
}

/// The pending dependencies that are not resolved yet, in order.
pub open spec fn unresolved(
    pending: Seq<(Seq<char>, DependencyModel)>,
    packages: NameMap<ResolvedDep>,
) -> Seq<(Seq<char>, DependencyModel)>
    decreases pending.len(),
{
    if pending.len() == 0 {
        pending
    } else {
        let rest = unresolved(pending.drop_last(), packages);
        if packages.has(pending.last().0) {
            rest
        } else {
            rest.push(pending.last())
        }
    }
}

/// What a round says it does.
pub open spec fn round_message(count: nat, depth: nat) -> Seq<char> {
    if depth == 1 {
        "Resolving "@ + decimal(count) + " direct dependencies"@
    } else {
        "Resolving "@ + decimal(count) + " transitive dependencies (depth "@ + decimal(depth)
            + ")"@
    }
}

fn find_pending<'a>(pending: &'a Vec<(String, Dependency)>, name: &str) -> (r: Option<
    &'a Dependency,
>)
    ensures
        match r {
            Some(d) => pending_dep(pending_views(pending@), name@) == Some(d@),
            None => pending_dep(pending_views(pending@), name@) is None,
        },
{
    let ghost all = pending_views(pending@);
    let mut i: usize = 0;
    assert(all.skip(0) =~= all);
    while i < pending.len()
        invariant
            i <= pending@.len(),
            all == pending_views(pending@),
            pending_dep(all, name@) == pending_dep(all.skip(i as int), name@),
        decreases pending@.len() - i,
    {
        proof {
            let rest = all.skip(i as int);
            assert(rest[0] == (pending@[i as int].0@, pending@[i as int].1@));
            assert(rest.drop_first() =~= all.skip(i + 1));
        }
        if str_eq(pending[i].0.as_str(), name) {
            return Some(&pending[i].1);
        }
        i = i + 1;
    }
    assert(all.skip(i as int).len() == 0);
    None
}

fn find_source<'a>(parsed: &'a Vec<ParsedDependency>, name: &str) -> (r: Option<&'a Dependency>)
    ensures
        match r {
            Some(d) => source_dep(parsed@, name@) == Some(d@),
            None => source_dep(parsed@, name@) is None,
        },
{
    let mut i: usize = 0;
    while i < parsed.len()
        invariant
            i <= parsed@.len(),
            forall|j: int| 0 <= j < i ==> !(#[trigger] parsed@[j]).manifest.dependencies.has(name@),
        decreases parsed@.len() - i,
    {
        match parsed[i].manifest.dependencies.get(name) {
            Some(d) => {
                proof {
                    assert(is_first_source(parsed@, name@, i as int));
                    let k = choose|k: int| is_first_source(parsed@, name@, k);
                    if k < i {
                        assert(!parsed@[k].manifest.dependencies.has(name@));
                    } else if i < k {
                        assert(!parsed@[i as int].manifest.dependencies.has(name@));
                    }
                }
                return Some(d);
            },
            None => {},
        }
        i = i + 1;
    }
    None
}

/// A package that a round wants present.
#[derive(Debug)]
pub struct WantedPackage {
    pub name: String,
    pub dependency: Dependency,
    /// The directory of the checkout in the store.
    pub checkout: String,
}

/// One round of discovery: the packages whose manifests are to be read.
#[derive(Debug)]
pub struct Round {
    /// The number of the round, from one.
    pub depth: usize,
    pub message: String,
    pub wanted: Vec<WantedPackage>,
}

/// The discovery of the dependencies of a project, round by round.
///
/// What a package depends on is known only once its sources are there. So
/// each round names the packages that are pending; its caller fetches them
/// and reads their manifests; and what the manifests name becomes pending
/// in the next round. The discovery ends when nothing is pending, and after
/// `MAX_ITERATIONS` rounds in any case.
#[derive(Debug)]
pub struct Discovery {
    packages: NameMap<ResolvedDep>,
    pending: Vec<(String, Dependency)>,
    iteration: usize,
}

impl Discovery {
    /// The packages that are resolved.
    pub closed spec fn packages(&self) -> NameMap<ResolvedDep> {
        self.packages
    }

    /// The dependencies that are pending.
    pub closed spec fn pending(&self) -> Seq<(Seq<char>, DependencyModel)> {
        pending_views(self.pending@)
    }

    /// The number of rounds that were begun.
    pub closed spec fn iteration(&self) -> nat {
        self.iteration as nat
    }

    /// Never more rounds are begun than `MAX_ITERATIONS`.
    pub closed spec fn wf(&self) -> bool {
        self.iteration <= MAX_ITERATIONS
    }

    /// The discovery for a manifest: its dependencies are pending, nothing
    /// is resolved.
    pub fn start(manifest: &Manifest) -> (r: Self)
        ensures
            r.wf(),
            r.iteration() == 0,
            r.packages().entries@.len() == 0,
            r.pending() == Seq::new(
                manifest.dependencies.entries@.len(),
                |i: int|
                    (manifest.dependencies.entries@[i].0@, manifest.dependencies.entries@[i].1@),
            ),
    {
        let mut pending: Vec<(String, Dependency)> = Vec::new();
        let mut i: usize = 0;
        while i < manifest.dependencies.entries.len()
            invariant
                i <= manifest.dependencies.entries@.len(),
                pending@.len() == i,
                forall|j: int|
                    0 <= j < i ==> pending@[j].0@ == manifest.dependencies.entries@[j].0@
                        && pending@[j].1@ == manifest.dependencies.entries@[j].1@,
            decreases manifest.dependencies.entries@.len() - i,
        {
            let e = &manifest.dependencies.entries[i];
            pending.push((e.0.clone(), e.1.clone()));
            i = i + 1;
        }
        let r = Discovery { packages: NameMap::new(), pending, iteration: 0 };
        assert(r.pending() =~= Seq::new(
            manifest.dependencies.entries@.len(),
            |i: int| (manifest.dependencies.entries@[i].0@, manifest.dependencies.entries@[i].1@),
        ));
        r
    }

    /// Begins the next round, if there is to be one. There is none when
    /// nothing is pending and when `MAX_ITERATIONS` rounds were begun.
    /// Otherwise the round is counted, what was resolved meanwhile is no
    /// longer pending, and the round names what remains, unless nothing
    /// does.
    pub fn next_round(&mut self, cache: &GlobalCache) -> (r: Option<Round>)
        requires
            old(self).wf(),
        ensures
            final(self).wf(),
            final(self).packages() == old(self).packages(),
            if old(self).pending().len() == 0 || old(self).iteration() >= MAX_ITERATIONS {
                &&& r is None
                &&& final(self).pending() == old(self).pending()
                &&& final(self).iteration() == old(self).iteration()
            } else {
                &&& final(self).iteration() == old(self).iteration() + 1
                &&& final(self).pending() == unresolved(old(self).pending(), old(self).packages())
                &&& r is Some == (final(self).pending().len() > 0)
                &&& r matches Some(round) ==> {
                    &&& round.depth == final(self).iteration()
                    &&& round.message@ == round_message(
                        final(self).pending().len(),
                        final(self).iteration(),
                    )
                    &&& round.wanted@.len() == final(self).pending().len()
                    &&& forall|i: int|
                        0 <= i < round.wanted@.len() ==> {
                            let w = #[trigger] round.wanted@[i];
                            &&& w.name@ == final(self).pending()[i].0
                            &&& w.dependency@ == final(self).pending()[i].1
                            &&& w.checkout@ == joined(
                                joined(cache.root(), "git"@),
                                sanitized(w.name@),
                            )
                        }
                }
            },
    {
        if self.pending.len() == 0 || self.iteration >= MAX_ITERATIONS {
            assert(self.pending@.len() == pending_views(self.pending@).len());
            return None;
        }
        assert(self.pending@.len() == pending_views(self.pending@).len());
        self.iteration = self.iteration + 1;
        let ghost all = pending_views(self.pending@);
        let mut kept: Vec<(String, Dependency)> = Vec::new();
        let mut wanted: Vec<WantedPackage> = Vec::new();
        let mut i: usize = 0;
        assert(pending_views(kept@) =~= unresolved(all.take(0), self.packages));
        while i < self.pending.len()
            invariant
                i <= self.pending@.len(),
                all == pending_views(self.pending@),
                pending_views(kept@) == unresolved(all.take(i as int), self.packages),
                wanted@.len() == kept@.len(),
                forall|k: int|
                    0 <= k < wanted@.len() ==> {
                        let w = #[trigger] wanted@[k];
                        &&& w.name@ == kept@[k].0@
                        &&& w.dependency@ == kept@[k].1@
                        &&& w.checkout@ == joined(joined(cache.root(), "git"@), sanitized(w.name@))
                    },
            decreases self.pending@.len() - i,
        {
            let name = self.pending[i].0.as_str();
            proof {
                let t = all.take(i + 1);
                assert(t.drop_last() =~= all.take(i as int));
                assert(t.last() == (self.pending@[i as int].0@, self.pending@[i as int].1@));
            }
            if !self.packages.contains_key(name) {
                let ghost before = kept@;
                let dep = self.pending[i].1.clone();
                let checkout = cache.checkout_dir(sanitize_name(name).as_str());
                wanted.push(
                    WantedPackage {
                        name: String::from_str(name),
                        dependency: self.pending[i].1.clone(),
                        checkout,
                    },
                );
                kept.push((String::from_str(name), dep));
                assert(pending_views(kept@) =~= pending_views(before).push(
                    (self.pending@[i as int].0@, self.pending@[i as int].1@),
                ));
            }
            i = i + 1;
        }
        assert(all.take(i as int) =~= all);
        self.pending = kept;
        assert(self.pending@.len() == pending_views(self.pending@).len());
        if self.pending.len() == 0 {
            return None;
        }
        let count = self.pending.len();
        let mut message = String::from_str("Resolving ");
        push_decimal(&mut message, count as u64);
        if self.iteration == 1 {
            message.append(" direct dependencies");
        } else {
            message.append(" transitive dependencies (depth ");
            push_decimal(&mut message, self.iteration as u64);
            message.append(")");
        }
        proof {
            assert forall|k: int| 0 <= k < wanted@.len() implies {
                let w = #[trigger] wanted@[k];
                &&& w.name@ == self.pending()[k].0
                &&& w.dependency@ == self.pending()[k].1
            } by {
                assert(pending_views(self.pending@)[k] == (
                    self.pending@[k].0@,
                    self.pending@[k].1@,
                ));
            }
        }
        Some(Round { depth: self.iteration, message, wanted })
    }

    /// Takes in what a round found out. Each package whose manifest was
    /// read becomes resolved, in place of what was resolved under its name.
    /// Then the names that turned up make up the new pending dependencies:
    /// see `queued`.
    pub fn absorb(&mut self, parsed: &Vec<ParsedDependency>, discovered: &Vec<String>)
        requires
            old(self).wf(),
        ensures
            final(self).wf(),
            final(self).iteration() == old(self).iteration(),
            forall|name: Seq<char>|
                #[trigger] package_in(final(self).packages(), name) == (match last_parsed(
                    parsed@,
                    name,
                ) {
                    Some(i) => Some(
                        resolved_of_parsed(parsed@[i], pending_dep(old(self).pending(), name)),
                    ),
                    None => package_in(old(self).packages(), name),
                }),
            final(self).pending() == queued(views(discovered@), parsed@, final(self).packages()),
    {
        let ghost start = self.packages;
        let ghost asked = pending_views(self.pending@);
        let mut i: usize = 0;
        while i < parsed.len()
            invariant
                i <= parsed@.len(),
                self.iteration == old(self).iteration,
                self.pending == old(self).pending,
                asked == pending_views(self.pending@),
                forall|name: Seq<char>|
                    #[trigger] package_in(self.packages, name) == (match last_parsed(
                        parsed@.take(i as int),
                        name,
                    ) {
                        Some(j) => Some(
                            resolved_of_parsed(parsed@[j], pending_dep(asked, name)),
                        ),
                        None => package_in(start, name),
                    }),
            decreases parsed@.len() - i,
        {
            let p = &parsed[i];
            let ghost before = self.packages;
            let dep = find_pending(&self.pending, p.name.as_str());
            let source = match dep {
                Some(d) => match d.source_kind() {
                    DependencySource::Git => ResolvedSource::Git {
                        url: text_or_empty(&d.git),
                        revision: match &d.revision {
                            Some(r) => r.clone(),
                            None => String::from_str("HEAD"),
                        },
                        tag: clone_opt(&d.tag),
                    },
                    DependencySource::Path => ResolvedSource::Path { path: text_or_empty(&d.path) },
                    DependencySource::Registry => ResolvedSource::Registry,
                },
                None => ResolvedSource::Git {
                    url: String::new(),
                    revision: String::from_str("HEAD"),
                    tag: None,
                },
            };
            let resolved = ResolvedDep {
                name: p.name.clone(),
                version: p.manifest.package.version.clone(),
                source,
                dependencies: clone_strings(&p.dependency_names),
            };
            assert(resolved@ == resolved_of_parsed(*p, pending_dep(asked, p.name@)));
            self.packages.insert(p.name.clone(), resolved);
            proof {
                let t = parsed@.take(i + 1);
                assert(t.drop_last() =~= parsed@.take(i as int));
                assert(t.last() == *p);
                assert forall|name: Seq<char>|
                    #[trigger] package_in(self.packages, name) == (match last_parsed(t, name) {
                        Some(j) => Some(
                            resolved_of_parsed(parsed@[j], pending_dep(asked, name)),
                        ),
                        None => package_in(start, name),
                    }) by {
                    assert(package_in(before, name) == (match last_parsed(
                        parsed@.take(i as int),
                        name,
                    ) {
                        Some(j) => Some(
                            resolved_of_parsed(parsed@[j], pending_dep(asked, name)),
                        ),
                        None => package_in(start, name),
                    }));
                    lemma_last_parsed(parsed@.take(i as int), name);
                }
            }
            i = i + 1;
        }
        assert(parsed@.take(i as int) =~= parsed@);
        let ghost all = views(discovered@);
        let mut queue: Vec<(String, Dependency)> = Vec::new();
        let mut k: usize = 0;
        assert(pending_views(queue@) =~= queued(all.take(0), parsed@, self.packages));
        while k < discovered.len()
            invariant
                k <= discovered@.len(),
                all == views(discovered@),
                pending_views(queue@) == queued(all.take(k as int), parsed@, self.packages),
            decreases discovered@.len() - k,
        {
            let name = discovered[k].as_str();
            proof {
                let t = all.take(k + 1);
                assert(t.drop_last() =~= all.take(k as int));
                assert(t.last() == name@);
            }
            if !self.packages.contains_key(name) {
                match find_source(parsed, name) {
                    Some(d) => {
                        if d.git.is_some() || d.path.is_some() {
                            let ghost before = queue@;
                            queue.push((String::from_str(name), d.clone()));
                            assert(pending_views(queue@) =~= pending_views(before).push(
                                (name@, d@),
                            ));
                        }
                    },
                    None => {},
                }
            }
            k = k + 1;
        }
        assert(all.take(k as int) =~= all);
        self.pending = queue;
    }

    /// Whether the discovery stopped at the bound with dependencies still
    /// pending or not looked at: `MAX_ITERATIONS` rounds were begun.
    pub fn reached_bound(&self) -> (r: bool)
        ensures
            r == (self.iteration() >= MAX_ITERATIONS),
    {
        self.iteration >= MAX_ITERATIONS
    }

    /// The outcome of the discovery: the packages that were resolved, and
    /// whether the discovery stopped at the bound, in which case packages
    /// may be missing.
    pub fn finish(self) -> (r: (Resolution, bool))
        ensures
            r.0.packages == self.packages(),
            r.0.metadata.entries@.len() == 0,
            r.1 == (self.iteration() >= MAX_ITERATIONS),
    {
        let warning = self.iteration >= MAX_ITERATIONS;
        (Resolution { packages: self.packages, metadata: NameMap::new() }, warning)
    }
}

/// A package that is to be fetched.
#[derive(Debug)]
pub struct FetchRequest {
    pub name: String,
    /// Where the package comes from.
    pub dependency: Dependency,
    /// The directory of the checkout in the store.
    pub dest: String,
    /// The tag at which a git package is taken.
    pub tag: Option<String>,
}

/// What is to be fetched for a resolved package: a git package from its
/// repository at its revision and tag, a path package from its directory,
/// a registry package not at all.
pub open spec fn request_of(p: ResolvedModel) -> Option<(DependencyModel, Option<Seq<char>>)> {
    match p.source {
        SourceModel::Git { url, revision, tag } => Some(
            (
                DependencyModel {
                    git: Some(url),
                    revision: Some(revision),
                    tag,
                    ..crate::types::bare_dependency(p.name)
                },
                tag,
            ),
        ),
        SourceModel::Path { path } => Some(
            (DependencyModel { path: Some(path), ..crate::types::bare_dependency(p.name) }, None),
        ),
        SourceModel::Registry => None,
    }
}

/// The positions of the first `upto` packages that are to be fetched.
pub open spec fn fetched_positions(packages: Seq<(String, ResolvedDep)>, upto: int) -> Seq<int>
    decreases upto,
{
    if upto <= 0 {
        Seq::<int>::empty()
    } else {
        let rest = fetched_positions(packages, upto - 1);
        if request_of(packages[upto - 1].1@) is Some {
            rest.push(upto - 1)
        } else {
            rest
        }
    }
}

/// The packages of a resolution that are to be fetched, in order, each
/// with the directory of its checkout in the store.
pub fn fetch_requests(resolution: &Resolution, cache: &GlobalCache) -> (out: Vec<FetchRequest>)
    ensures
        out@.len() == fetched_positions(
            resolution.packages.entries@,
            resolution.packages.entries@.len() as int,
        ).len(),
        forall|k: int|
            0 <= k < out@.len() ==> {
                let at = fetched_positions(
                    resolution.packages.entries@,
                    resolution.packages.entries@.len() as int,
                )[k];
                let entry = resolution.packages.entries@[at];
                let r = #[trigger] out@[k];
                &&& r.name@ == entry.0@
                &&& Some((r.dependency@, opt_text(r.tag))) == request_of(
                    ResolvedModel { name: entry.0@, ..entry.1@ },
                )
                &&& r.dest@ == joined(joined(cache.root(), "git"@), sanitized(entry.0@))
            },
{
    let entries = &resolution.packages.entries;
    let mut out: Vec<FetchRequest> = Vec::new();
    let mut i: usize = 0;
    while i < entries.len()
        invariant
            i <= entries@.len(),
            entries == &resolution.packages.entries,
            out@.len() == fetched_positions(entries@, i as int).len(),
            forall|k: int|
                0 <= k < out@.len() ==> {
                    let at = fetched_positions(entries@, i as int)[k];
                    let r = #[trigger] out@[k];
                    &&& 0 <= at < i
                    &&& r.name@ == entries@[at].0@
                    &&& Some((r.dependency@, opt_text(r.tag))) == request_of(
                        ResolvedModel { name: entries@[at].0@, ..entries@[at].1@ },
                    )
                    &&& r.dest@ == joined(joined(cache.root(), "git"@), sanitized(entries@[at].0@))
                },
        decreases entries@.len() - i,
    {
        let name = entries[i].0.as_str();
        let ghost before = out@;
        let ghost earlier = fetched_positions(entries@, i as int);
        let request = match &entries[i].1.source {
            ResolvedSource::Git { url, revision, tag } => {
                let mut d = Dependency::git(name, url.as_str());
                d.revision = Some(revision.clone());
                d.tag = clone_opt(tag);
                Some((d, clone_opt(tag)))
            },
            ResolvedSource::Path { path } => Some((Dependency::path(name, path.as_str()), None)),
            ResolvedSource::Registry => None,
        };
        match request {
            Some((dependency, tag)) => {
                let dest = cache.checkout_dir(sanitize_name(name).as_str());
                out.push(FetchRequest { name: String::from_str(name), dependency, dest, tag });
            },
            None => {},
        }
        proof {
            let later = fetched_positions(entries@, i + 1);
            assert forall|k: int| 0 <= k < out@.len() implies {
                let at = later[k];
                let r = #[trigger] out@[k];
                &&& 0 <= at < i + 1
                &&& r.name@ == entries@[at].0@
                &&& Some((r.dependency@, opt_text(r.tag))) == request_of(
                    ResolvedModel { name: entries@[at].0@, ..entries@[at].1@ },
                )
                &&& r.dest@ == joined(joined(cache.root(), "git"@), sanitized(entries@[at].0@))
            } by {
                if k < before.len() {
                    assert(out@[k] == before[k]);
                    assert(later[k] == earlier[k]);
                }
            }
        }
        i = i + 1;
    }
    out
}

/// The result that stands for a package whose checkout is in the store
/// already.
pub fn cached_result(request: &FetchRequest) -> (r: FetchResult)
    ensures
        r.name@ == request.name@,
        r.path@ == request.dest@,
        r.checksum@.len() == 0,
        r.revision is None,
        opt_text(r.tag) == opt_text(request.tag),
{
    FetchResult {
        name: request.name.clone(),
        path: request.dest.clone(),
        checksum: String::new(),
        revision: None,
        tag: clone_opt(&request.tag),
    }
}

/// The messages of the fetches among the first `upto` that failed.
pub open spec fn failure_messages(results: Seq<Result<FetchResult, FetchError>>, upto: int) -> Seq<
    Seq<char>,
>
    decreases upto,
{
    if upto <= 0 {
        Seq::<Seq<char>>::empty()
    } else {
        let rest = failure_messages(results, upto - 1);
        match results[upto - 1] {
            Ok(_) => rest,
            Err(e) => rest.push(fetch_error_text(e)),
        }
    }
}

/// The fetches among the first `upto` that succeeded.
pub open spec fn successes(results: Seq<Result<FetchResult, FetchError>>, upto: int) -> Seq<
    FetchResult,
>
    decreases upto,
{
    if upto <= 0 {
        Seq::<FetchResult>::empty()
    } else {
        let rest = successes(results, upto - 1);
        match results[upto - 1] {
            Ok(r) => rest.push(r),
            Err(_) => rest,
        }
    }
}

/// Gathers the results of a batch of fetches. A single failure fails the
/// batch, with the messages of all failures. Otherwise the results are
/// handed back: those of the packages that were in the store already, then
/// those that were fetched, in order.
pub fn collect_results(
    cached: Vec<FetchResult>,
    fetched: Vec<Result<FetchResult, FetchError>>,
) -> (r: Result<Vec<FetchResult>, InstallError>)
    ensures
        match r {
            Ok(all) => failure_messages(fetched@, fetched@.len() as int).len() == 0 && all@
                == cached@ + successes(fetched@, fetched@.len() as int),
            Err(e) => e matches InstallError::FetchErrors(m) && m@.len() > 0 && views(m@)
                == failure_messages(fetched@, fetched@.len() as int),
        },
{
    let ghost all = fetched@;
    let mut input: Vec<Result<FetchResult, FetchError>> = Vec::new();
    let mut rest = fetched;
    while rest.len() > 0
        invariant
            input@.len() + rest@.len() == all.len(),
            forall|j: int| 0 <= j < rest@.len() ==> rest@[j] == all[j],
            forall|j: int| 0 <= j < input@.len() ==> input@[j] == all[all.len() - 1 - j],
        decreases rest@.len(),
    {
        let x = rest.pop().unwrap();
        input.push(x);
    }
    let mut results = cached;
    let mut errors: Vec<String> = Vec::new();
    let ghost mut done: int = 0;
    assert(results@ =~= cached@ + successes(all, 0));
    assert(views(errors@) =~= failure_messages(all, 0));
    while input.len() > 0
        invariant
            0 <= done <= all.len(),
            input@.len() == all.len() - done,
            forall|j: int| 0 <= j < input@.len() ==> input@[j] == all[all.len() - 1 - j],
            results@ == cached@ + successes(all, done),
            views(errors@) == failure_messages(all, done),
        decreases input@.len(),
    {
        let x = input.pop().unwrap();
        assert(x == all[done]);
        match x {
            Ok(r) => {
                results.push(r);
                assert(results@ =~= cached@ + successes(all, done + 1));
            },
            Err(e) => {
                let ghost before = errors@;
                errors.push(e.to_string());
                assert(views(errors@) =~= views(before).push(fetch_error_text(e)));
            },
        }
        proof {
            done = done + 1;
        }
    }
    assert(views(errors@).len() == errors@.len());
    if errors.len() > 0 {
        Err(InstallError::FetchErrors(errors))
    } else {
        Ok(results)
    }
}

/// The first result for the package `name`.
pub open spec fn result_for(results: Seq<FetchResult>, name: Seq<char>) -> Option<FetchResult>
    decreases results.len(),
{
    if results.len() == 0 {
        None
    } else if results[0].name@ == name {
        Some(results[0])
    } else {
        result_for(results.drop_first(), name)
    }
}

fn find_result<'a>(results: &'a Vec<FetchResult>, name: &str) -> (r: Option<&'a FetchResult>)
    ensures
        match r {
            Some(x) => result_for(results@, name@) == Some(*x),
            None => result_for(results@, name@) is None,
        },
{
    let mut i: usize = 0;
    assert(results@.skip(0) =~= results@);
    while i < results.len()
        invariant
            i <= results@.len(),
            result_for(results@, name@) == result_for(results@.skip(i as int), name@),
        decreases results@.len() - i,
    {
        proof {
            let rest = results@.skip(i as int);
            assert(rest[0] == results@[i as int]);
            assert(rest.drop_first() =~= results@.skip(i + 1));
        }
        if str_eq(results[i].name.as_str(), name) {
            return Some(&results[i]);
        }
        i = i + 1;
    }
    assert(results@.skip(i as int).len() == 0);
    None
}

/// What the lockfile holds for a resolved package, given the result of
/// its fetch if there is one.
///
/// A git package is locked at the version that its tag stands for, the tag
/// being that of the resolution or else that of the fetch, and at the
/// version of the resolution where no tag stands for a version. Its
/// revision is that of the fetch or else that of the resolution. A registry
/// package is locked with the checksum of the fetch. A path package is not
/// locked.
pub open spec fn locked_of(
    name: Seq<char>,
    p: ResolvedModel,
    fetched: Option<FetchResult>,
) -> Option<LockedModel> {
    match p.source {
        SourceModel::Git { url, revision, tag } => {
            let from_tag = match (if tag is Some {
                tag
            } else {
                match fetched {
                    Some(f) => opt_text(f.tag),
                    None => None,
                }
            }) {
                Some(t) => version_of_tag(t),
                None => None,
            };
            Some(
                LockedModel {
                    name,
                    version: match from_tag {
                        Some(v) => v,
                        None => p.version,
                    },
                    source: DependencySource::Git,
                    git: Some(url),
                    revision: Some(
                        match fetched {
                            Some(f) => match f.revision {
                                Some(r) => r@,
                                None => revision,
                            },
                            None => revision,
                        },
                    ),
                    checksum: None,
                    dependencies: p.dependencies,
                },
            )
        },
        SourceModel::Registry => Some(
            LockedModel {
                name,
                version: p.version,
                source: DependencySource::Registry,
                git: None,
                revision: None,
                checksum: Some(
                    match fetched {
                        Some(f) => "blake3:"@ + f.checksum@,
                        None => Seq::<char>::empty(),
                    },
                ),
                dependencies: p.dependencies,
            },
        ),
        SourceModel::Path { path } => None,
    }
}

/// What the lockfile holds for the first `upto` packages, in order.
pub open spec fn locked_entries(
    packages: Seq<(String, ResolvedDep)>,
    results: Seq<FetchResult>,
    upto: int,
) -> Seq<LockedModel>
    decreases upto,
{
    if upto <= 0 {
        Seq::<LockedModel>::empty()
    } else {
        let rest = locked_entries(packages, results, upto - 1);
        let entry = packages[upto - 1];
        match locked_of(entry.0@, entry.1@, result_for(results, entry.0@)) {
            Some(l) => rest.push(l),
            None => rest,
        }
    }
}

/// What the lockfile holds for a resolution whose packages were fetched
/// with the given results, in the order of the resolution.
pub fn lock_entries(resolution: &Resolution, results: &Vec<FetchResult>) -> (out: Vec<
    LockedPackage,
>)
    ensures
        locked_views(out@) == locked_entries(
            resolution.packages.entries@,
            results@,
            resolution.packages.entries@.len() as int,
        ),
{
    let entries = &resolution.packages.entries;
    let mut out: Vec<LockedPackage> = Vec::new();
    let mut i: usize = 0;
    assert(locked_views(out@) =~= locked_entries(entries@, results@, 0));
    while i < entries.len()
        invariant
            i <= entries@.len(),
            entries == &resolution.packages.entries,
            locked_views(out@) == locked_entries(entries@, results@, i as int),
        decreases entries@.len() - i,
    {
        let name = entries[i].0.as_str();
        let resolved = &entries[i].1;
        let fetched = find_result(results, name);
        let ghost before = out@;
        match &resolved.source {
            ResolvedSource::Git { url, revision, tag } => {
                let from_tag = match tag {
                    Some(t) => parse_version_from_tag(t.as_str()),
                    None => match fetched {
                        Some(f) => match &f.tag {
                            Some(t) => parse_version_from_tag(t.as_str()),
                            None => None,
                        },
                        None => None,
                    },
                };
                let version = match from_tag {
                    Some(v) => v,
                    None => resolved.version.clone(),
                };
                let rev = match fetched {
                    Some(f) => match &f.revision {
                        Some(r) => r.clone(),
                        None => revision.clone(),
                    },
                    None => revision.clone(),
                };
                let mut locked = LockedPackage::git(name, version, url.as_str(), rev);
                locked.dependencies = clone_strings(&resolved.dependencies);
                out.push(locked);
                assert(locked_views(out@) =~= locked_views(before).push(locked@));
            },
            ResolvedSource::Registry => {
                let checksum = match fetched {
                    Some(f) => concat("blake3:", f.checksum.as_str()),
                    None => String::new(),
                };
                let mut locked = LockedPackage::registry(name, resolved.version.clone(), checksum);
                locked.dependencies = clone_strings(&resolved.dependencies);
                out.push(locked);
                assert(locked_views(out@) =~= locked_views(before).push(locked@));
            },
            ResolvedSource::Path { path } => {},
        }
        i = i + 1;
    }
    out
}

/// What is to become of the lockfile.
#[derive(Debug)]
pub enum LockPlan {
    /// The lockfile is up to date; nothing is written.
    Keep,
    /// Write this lockfile; `diff` tells how it differs from the old one.
    Write { lockfile: Lockfile, diff: LockfileDiff },
}

/// Decides what is to become of the lockfile. The new packages count, in
/// the form in which a lockfile is written; the old lockfile only shows in
/// the difference. A lockfile is written only if something was added,
/// removed or updated.
pub fn plan_lockfile(existing: Option<&Lockfile>, new_packages: Vec<LockedPackage>) -> (r: LockPlan)
    ensures
        ({
            let old = match existing {
                Some(l) => locked_views(l.packages@),
                None => Seq::<LockedModel>::empty(),
            };
            let new = crate::lockfile::canonical_of(locked_views(new_packages@));
            let changed = crate::lockfile::added_of(old, new).len() > 0
                || crate::lockfile::removed_of(old, new).len() > 0 || crate::lockfile::updated_of(
                old,
                new,
            ).len() > 0;
            match r {
                LockPlan::Keep => !changed,
                LockPlan::Write { lockfile, diff } => {
                    &&& changed
                    &&& diff.is_diff(old, new)
                    &&& locked_views(lockfile.packages@) == new
                    &&& lockfile.version == (match existing {
                        Some(l) => l.version,
                        None => 1,
                    })
                },
            }
        }),
{
    let empty = Lockfile::default();
    let base: &Lockfile = match existing {
        Some(l) => l,
        None => &empty,
    };
    assert(existing is None ==> locked_views(base.packages@) =~= Seq::<LockedModel>::empty());
    let packages = crate::lockfile::canonical_packages(&new_packages);
    let diff = base.diff(&packages);
    assert(locked_views(diff.added@).len() == diff.added@.len());
    assert(locked_views(diff.removed@).len() == diff.removed@.len());
    assert(crate::lockfile::update_views(diff.updated@).len() == diff.updated@.len());
    if diff.has_changes() {
        LockPlan::Write { lockfile: Lockfile { version: base.version, packages }, diff }
    } else {
        LockPlan::Keep
    }
}

/// Installs the dependencies of a project.
#[derive(Debug)]
pub struct Installer {
    project_dir: String,
    cache: GlobalCache,
    fetcher: Fetcher,
    options: InstallOptions,
}

impl Installer {
    /// The directory of the project.
    pub closed spec fn project_dir(&self) -> Seq<char> {
        self.project_dir@
    }

    /// The store that the installer works with.
    pub closed spec fn store(&self) -> GlobalCache {
        self.cache
    }

    /// The number of fetches that may run at once.
    pub closed spec fn concurrency(&self) -> usize {
        self.fetcher.limit()
    }

    /// Whether the lockfile is to be taken as it is.
    pub closed spec fn frozen(&self) -> bool {
        self.options.frozen
    }

    /// An installer for the project in `project_dir`.
    pub fn new(project_dir: String, cache: GlobalCache, options: InstallOptions) -> (r: Self)
        ensures
            r.project_dir() == project_dir@,
            r.store() == cache,
            r.concurrency() == options.concurrency,
            r.frozen() == options.frozen,
    {
        let fetcher = Fetcher::new(None).with_concurrency(options.concurrency);
        Installer { project_dir, cache, fetcher, options }
    }

    /// The store that the installer works with.
    pub fn cache(&self) -> (r: &GlobalCache)
        ensures
            *r == self.store(),
    {
        &self.cache
    }

    /// The fetcher of the installer.
    pub fn fetcher(&self) -> (r: &Fetcher)
        ensures
            r.limit() == self.concurrency(),
    {
        &self.fetcher
    }

    /// Whether the lockfile is to be taken as it is.
    pub fn is_frozen(&self) -> (r: bool)
        ensures
            r == self.frozen(),
    {
        self.options.frozen
    }

    /// Where the lockfile of the project lives.
    pub fn lockfile_path(&self) -> (out: String)
        ensures
            out@ == joined(self.project_dir(), "Gust.lock"@),
    {
        join_path(self.project_dir.as_str(), "Gust.lock")
    }

    /// The directory of the links to the checkouts of the project.
    pub fn checkouts_dir(&self) -> (out: String)
        ensures
            out@ == joined(joined(self.project_dir(), ".build"@), "checkouts"@),
    {
        join_path(join_path(self.project_dir.as_str(), ".build").as_str(), "checkouts")
    }

    /// Where the link to the checkout of the package `name` goes.
    pub fn link_path(&self, name: &str) -> (out: String)
        ensures
            out@ == joined(joined(joined(self.project_dir(), ".build"@), "checkouts"@), name@),
    {
        join_path(self.checkouts_dir().as_str(), name)
    }
}

/// A discovery never begins more rounds than `MAX_ITERATIONS`: it ends at
/// or before the bound, whatever the manifests hold.
pub proof fn lemma_discovery_is_bounded(d: Discovery)
    requires
        d.wf(),
    ensures
        d.iteration() <= MAX_ITERATIONS,
{
}

} // verus!
