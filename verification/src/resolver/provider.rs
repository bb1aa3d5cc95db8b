//! Where package data comes from, and how a version is chosen.
//!
//! A `PackageProvider` answers two questions: which versions of a package
//! exist, and what a version of a package depends on. The
//! `GustDependencyProvider` holds the rules of a resolution (overrides,
//! constraints, hints and strategy) and answers the questions that a version
//! solver asks while it runs: which package to decide next, which version to
//! try, and what that version requires.

use vstd::prelude::*;
use crate::namemap::{has_name, index_of, lemma_first_exists, NameMap};
use crate::resolver::error::ResolveError;
use crate::resolver::hints::{ChoiceReason, LockfileHints, ResolutionTrace};
use crate::resolver::package::{GustPackage, PackageModel};
use crate::resolver::version_set::{
    holds, intersection_of, merged, set_text, GustVersionSet, SetModel,
};
use crate::types::{Dependency, DependencyModel, Manifest, ResolutionStrategy};
use crate::version::{
    highest, lemma_extremes_are_members, lowest, pick_highest, pick_lowest, semver_requirement,
    version_views, Version, VersionModel, VersionReq,
};

verus! {

/// The mathematical values of a list of dependencies.
pub open spec fn dependency_views(s: Seq<Dependency>) -> Seq<DependencyModel> {
    s.map_values(|d: Dependency| d@)
}

/// A source of package data. A provider answers the same question the same
/// way for as long as a resolution runs.
pub trait PackageProvider {
    /// The versions that the provider knows of `package`, in the order in
    /// which it lists them; `None` where it answers with an error.
    spec fn versions_of(&self, package: Seq<char>) -> Option<Seq<VersionModel>>;

    /// What `version` of `package` depends on; `None` where the provider
    /// answers with an error.
    spec fn dependencies_of(&self, package: Seq<char>, version: VersionModel) -> Option<
        Seq<DependencyModel>,
    >;

    /// All versions of `package`.
    fn available_versions(&self, package: &str) -> (r: Result<Vec<Version>, ResolveError>)
        ensures
            match r {
                Ok(v) => self.versions_of(package@) == Some(version_views(v@)),
                Err(_) => self.versions_of(package@) is None,
            },
    ;

    /// The dependencies of `version` of `package`.
    fn dependencies(&self, package: &str, version: &Version) -> (r: Result<
        Vec<Dependency>,
        ResolveError,
    >)
        ensures
            match r {
                Ok(d) => self.dependencies_of(package@, version@) == Some(dependency_views(d@)),
                Err(_) => self.dependencies_of(package@, version@) is None,
            },
    ;
}

impl<P: PackageProvider> PackageProvider for &P {
    open spec fn versions_of(&self, package: Seq<char>) -> Option<Seq<VersionModel>> {
        (**self).versions_of(package)
    }

    open spec fn dependencies_of(&self, package: Seq<char>, version: VersionModel) -> Option<
        Seq<DependencyModel>,
    > {
        (**self).dependencies_of(package, version)
    }

    fn available_versions(&self, package: &str) -> (r: Result<Vec<Version>, ResolveError>) {
        (**self).available_versions(package)
    }

    fn dependencies(&self, package: &str, version: &Version) -> (r: Result<
        Vec<Dependency>,
        ResolveError,
    >) {
        (**self).dependencies(package, version)
    }
}

/// A version as the solver sees it.
#[derive(Debug, PartialEq, Eq, Hash)]
pub struct GustVersion(pub Version);

impl Clone for GustVersion {
    fn clone(&self) -> (r: Self)
        ensures
            r == *self,
    {
        GustVersion(self.0.clone())
    }
}

impl GustVersion {
    /// The notation of the version.
    pub fn to_string(&self) -> (out: String)
        ensures
            out@ == crate::version::version_text(self.0@),
    {
        self.0.to_string()
    }

    /// How this version stands to `other` in precedence.
    pub fn compare(&self, other: &GustVersion) -> (r: crate::text::Order)
        ensures
            r == crate::version::semver_order(self.0@, other.0@),
    {
        self.0.compare(&other.0)
    }
}

/// A copy of a list of versions.
pub fn clone_versions(v: &Vec<Version>) -> (r: Vec<Version>)
    ensures
        version_views(r@) == version_views(v@),
{
    let mut r: Vec<Version> = Vec::new();
    let mut i: usize = 0;
    while i < v.len()
        invariant
            i <= v@.len(),
            r@.len() == i,
            forall|j: int| 0 <= j < i ==> r@[j]@ == v@[j]@,
        decreases v@.len() - i,
    {
        r.push(v[i].clone());
        i = i + 1;
    }
    assert(version_views(r@) =~= version_views(v@));
    r
}

/// A copy of a list of dependencies.
pub fn clone_dependencies(v: &Vec<Dependency>) -> (r: Vec<Dependency>)
    ensures
        dependency_views(r@) == dependency_views(v@),
{
    let mut r: Vec<Dependency> = Vec::new();
    let mut i: usize = 0;
    while i < v.len()
        invariant
            i <= v@.len(),
            r@.len() == i,
            forall|j: int| 0 <= j < i ==> r@[j]@ == v@[j]@,
        decreases v@.len() - i,
    {
        r.push(v[i].clone());
        i = i + 1;
    }
    assert(dependency_views(r@) =~= dependency_views(v@));
    r
}

/// A release held by a `MemoryProvider`: a version and its dependencies.
pub struct Release {
    pub version: Version,
    pub dependencies: Vec<Dependency>,
}

/// The versions of a list of releases.
pub open spec fn release_versions(releases: Seq<Release>) -> Seq<VersionModel> {
    releases.map_values(|r: Release| r.version@)
}

/// Whether the release at position `i` is the first one of `version`.
pub open spec fn is_first_release(releases: Seq<Release>, version: VersionModel, i: int) -> bool {
    &&& 0 <= i < releases.len()
    &&& releases[i].version@ == version
    &&& forall|j: int| 0 <= j < i ==> releases[j].version@ != version
}

/// The dependencies of the first release of `version`, if there is one.
pub open spec fn release_dependencies(releases: Seq<Release>, version: VersionModel) -> Option<
    Seq<DependencyModel>,
> {
    if exists|i: int| is_first_release(releases, version, i) {
        let i = choose|i: int| is_first_release(releases, version, i);
        Some(dependency_views(releases[i].dependencies@))
    } else {
        None
    }
}

/// A provider that holds its packages in memory.
pub struct MemoryProvider {
    packages: NameMap<Vec<Release>>,
}

impl MemoryProvider {
    /// The releases held for `package`, in the order in which they were
    /// added; `None` for a package that was never added.
    pub closed spec fn releases_of(&self, package: Seq<char>) -> Option<Seq<Release>> {
        if self.packages.has(package) {
            Some(self.packages.value_of(package)@)
        } else {
            None
        }
    }

    /// A provider without packages.
    pub fn new() -> (r: Self)
        ensures
            forall|p: Seq<char>| r.releases_of(p) is None,
    {
        MemoryProvider { packages: NameMap::new() }
    }

    /// Adds a release of `name` behind those that are there.
    pub fn add_package(&mut self, name: &str, version: Version, deps: Vec<Dependency>)
        ensures
            final(self).releases_of(name@) == Some(
                (match old(self).releases_of(name@) {
                    Some(r) => r,
                    None => Seq::<Release>::empty(),
                }).push(Release { version, dependencies: deps }),
            ),
            forall|p: Seq<char>|
                p != name@ ==> final(self).releases_of(p) == old(self).releases_of(p),
    {
        let ghost before = self.packages.entries@;
        match self.packages.position(name) {
            Some(at) => {
                self.packages.entries[at].1.push(Release { version, dependencies: deps });
                proof {
                    let after = self.packages.entries@;
                    assert forall|p: Seq<char>|
                        has_name(after, p) == has_name(before, p) && (has_name(before, p)
                            ==> index_of(after, p) == index_of(before, p)) by {
                        crate::resolver::hints::lemma_same_names(after, before, p);
                    }
                    assert forall|p: Seq<char>| p != name@ implies final(self).releases_of(p)
                        == old(self).releases_of(p) by {
                        if has_name(before, p) {
                            lemma_first_exists(before, p);
                            let k = index_of(before, p);
                            assert(k != at);
                            assert(after[k] == before[k]);
                        }
                    }
                }
            },
            None => {
                let mut releases: Vec<Release> = Vec::new();
                releases.push(Release { version, dependencies: deps });
                self.packages.insert(String::from_str(name), releases);
                assert(releases@ =~= Seq::<Release>::empty().push(
                    Release { version, dependencies: deps },
                ));
            },
        }
    }
}

impl PackageProvider for MemoryProvider {
    open spec fn versions_of(&self, package: Seq<char>) -> Option<Seq<VersionModel>> {
        match self.releases_of(package) {
            Some(releases) => Some(release_versions(releases)),
            None => None,
        }
    }

    open spec fn dependencies_of(&self, package: Seq<char>, version: VersionModel) -> Option<
        Seq<DependencyModel>,
    > {
        match self.releases_of(package) {
            Some(releases) => release_dependencies(releases, version),
            None => None,
        }
    }

    /// The versions of the releases of `package`, in the order in which they
    /// were added. A package that was never added is not found.
    fn available_versions(&self, package: &str) -> (r: Result<Vec<Version>, ResolveError>)
        ensures
            r matches Err(e) ==> (e matches ResolveError::PackageNotFound { name, suggestions }
                && name@ == package@ && suggestions@.len() == 0),
    {
        match self.packages.get(package) {
            Some(releases) => {
                let mut out: Vec<Version> = Vec::new();
                let mut i: usize = 0;
                while i < releases.len()
                    invariant
                        i <= releases@.len(),
                        out@.len() == i,
                        forall|j: int| 0 <= j < i ==> out@[j]@ == releases@[j].version@,
                    decreases releases@.len() - i,
                {
                    out.push(releases[i].version.clone());
                    i = i + 1;
                }
                assert(version_views(out@) =~= release_versions(releases@));
                Ok(out)
            },
            None => Err(
                ResolveError::PackageNotFound {
                    name: String::from_str(package),
                    suggestions: Vec::new(),
                },
            ),
        }
    }

    /// The dependencies of the first release of `package` with the given
    /// version. Where there is none, the package is not found.
    fn dependencies(&self, package: &str, version: &Version) -> (r: Result<
        Vec<Dependency>,
        ResolveError,
    >)
        ensures
            r matches Err(e) ==> (e matches ResolveError::PackageNotFound { name, suggestions }
                && name@ == package@ && suggestions@.len() == 0),
    {
        match self.packages.get(package) {
            Some(releases) => {
                let mut i: usize = 0;
                while i < releases.len()
                    invariant
                        i <= releases@.len(),
                        self.releases_of(package@) == Some(releases@),
                        forall|j: int| 0 <= j < i ==> releases@[j].version@ != version@,
                    decreases releases@.len() - i,
                {
                    if releases[i].version.same(version) {
                        proof {
                            assert(is_first_release(releases@, version@, i as int));
                            let k = choose|k: int| is_first_release(releases@, version@, k);
                            assert(k == i) by {
                                if k < i {
                                    assert(releases@[k].version@ != version@);
                                } else if i < k {
                                    assert(releases@[i as int].version@ != version@);
                                }
                            }
                        }
                        return Ok(clone_dependencies(&releases[i].dependencies));
                    }
                    i = i + 1;
                }
                assert(!exists|k: int| is_first_release(releases@, version@, k));
                Err(
                    ResolveError::PackageNotFound {
                        name: String::from_str(package),
                        suggestions: Vec::new(),
                    },
                )
            },
            None => Err(
                ResolveError::PackageNotFound {
                    name: String::from_str(package),
                    suggestions: Vec::new(),
                },
            ),
        }
    }
}

/// The versions of a list that the set `range` holds, in the order of the
/// list.
pub open spec fn fitting(versions: Seq<VersionModel>, range: SetModel) -> Seq<VersionModel>
    decreases versions.len(),
{
    if versions.len() == 0 {
        Seq::<VersionModel>::empty()
    } else {
        let rest = fitting(versions.drop_last(), range);
        if holds(range, versions.last()) {
            rest.push(versions.last())
        } else {
            rest
        }
    }
}

/// Every version of `fitting(versions, range)` is one of `versions` that
/// `range` holds.
pub proof fn lemma_fitting(versions: Seq<VersionModel>, range: SetModel, v: VersionModel)
    ensures
        fitting(versions, range).contains(v) == (versions.contains(v) && holds(range, v)),
    decreases versions.len(),
{
    if versions.len() > 0 {
        let rest = versions.drop_last();
        lemma_fitting(rest, range, v);
        let found = fitting(versions, range);
        if found.contains(v) {
            let i = choose|i: int| 0 <= i < found.len() && found[i] == v;
            if holds(range, versions.last()) && i == found.len() - 1 {
                assert(versions[versions.len() - 1] == v);
            } else {
                assert(fitting(rest, range)[i] == v);
                let j = choose|j: int| 0 <= j < rest.len() && rest[j] == v;
                assert(versions[j] == v);
            }
        }
        if versions.contains(v) && holds(range, v) {
            let j = choose|j: int| 0 <= j < versions.len() && versions[j] == v;
            if j == versions.len() - 1 {
                assert(found[found.len() - 1] == v);
            } else {
                assert(rest[j] == v);
                let i = choose|i: int|
                    0 <= i < fitting(rest, range).len() && fitting(rest, range)[i] == v;
                assert(found[i] == v);
            }
        }
    }
}

/// The outcome of a choice: the version and the reason, or nothing where no
/// version fits.
///
/// Among the versions that `range` holds, an override picks the highest one
/// that it admits. Without such a version the hinted version is taken if it
/// fits. Otherwise the strategy decides: the lowest version that fits, or the
/// highest.
pub open spec fn selection(
    versions: Seq<VersionModel>,
    range: SetModel,
    forced: Option<Seq<char>>,
    hint: Option<VersionModel>,
    strategy: ResolutionStrategy,
) -> Option<(VersionModel, ChoiceReason)> {
    let fit = fitting(versions, range);
    let forced_fit = match forced {
        Some(req) => fitting(fit, SetModel::Req(req)),
        None => Seq::<VersionModel>::empty(),
    };
    if forced_fit.len() > 0 {
        Some((highest(forced_fit), ChoiceReason::Override))
    } else if hint is Some && fit.contains(hint->0) {
        Some((hint->0, ChoiceReason::LockedHint))
    } else if fit.len() == 0 {
        None
    } else if strategy is Lowest {
        Some((lowest(fit), ChoiceReason::LowestCompatible))
    } else {
        Some((highest(fit), ChoiceReason::HighestCompatible))
    }
}

/// A version that is selected is one of the available versions, and the
/// range holds it.
pub proof fn lemma_selection_fits(
    versions: Seq<VersionModel>,
    range: SetModel,
    forced: Option<Seq<char>>,
    hint: Option<VersionModel>,
    strategy: ResolutionStrategy,
)
    ensures
        selection(versions, range, forced, hint, strategy) matches Some((v, _)) ==> holds(range, v)
            && versions.contains(v),
        selection(versions, range, forced, hint, strategy) is None ==> forall|v: VersionModel|
            versions.contains(v) ==> !holds(range, v),
{
    let fit = fitting(versions, range);
    match selection(versions, range, forced, hint, strategy) {
        Some((v, _)) => {
            let forced_fit = match forced {
                Some(req) => fitting(fit, SetModel::Req(req)),
                None => Seq::<VersionModel>::empty(),
            };
            if forced_fit.len() > 0 {
                lemma_extremes_are_members(forced_fit);
                lemma_fitting(fit, SetModel::Req(forced->0), v);
            } else if hint is Some && fit.contains(hint->0) {
            } else {
                lemma_extremes_are_members(fit);
            }
            lemma_fitting(versions, range, v);
        },
        None => {
            assert forall|v: VersionModel| versions.contains(v) implies !holds(range, v) by {
                lemma_fitting(versions, range, v);
                if holds(range, v) {
                    assert(fit.contains(v));
                }
            }
        },
    }
}

/// The versions of `versions` that `range` holds.
pub fn filter_versions(versions: &Vec<Version>, range: &GustVersionSet) -> (out: Vec<Version>)
    ensures
        version_views(out@) == fitting(version_views(versions@), range@),
{
    let ghost all = version_views(versions@);
    let mut out: Vec<Version> = Vec::new();
    let mut i: usize = 0;
    assert(version_views(out@) =~= fitting(all.take(0), range@));
    while i < versions.len()
        invariant
            i <= versions@.len(),
            all == version_views(versions@),
            version_views(out@) == fitting(all.take(i as int), range@),
        decreases versions@.len() - i,
    {
        proof {
            let t = all.take(i + 1);
            assert(t.drop_last() =~= all.take(i as int));
            assert(t.last() == versions@[i as int]@);
        }
        if range.contains_version(&versions[i]) {
            let ghost before = out@;
            out.push(versions[i].clone());
            assert(version_views(out@) =~= version_views(before).push(versions@[i as int]@));
        }
        i = i + 1;
    }
    assert(all.take(i as int) =~= all);
    out
}

/// Whether `v` is one of `versions`.
pub fn has_version(versions: &Vec<Version>, v: &Version) -> (r: bool)
    ensures
        r == version_views(versions@).contains(v@),
{
    let mut i: usize = 0;
    while i < versions.len()
        invariant
            i <= versions@.len(),
            forall|j: int| 0 <= j < i ==> versions@[j]@ != v@,
        decreases versions@.len() - i,
    {
        if versions[i].same(v) {
            assert(version_views(versions@)[i as int] == v@);
            return true;
        }
        i = i + 1;
    }
    assert forall|j: int| 0 <= j < version_views(versions@).len() implies version_views(
        versions@,
    )[j] != v@ by {
        assert(version_views(versions@)[j] == versions@[j]@);
    }
    false
}

/// The model of an optional requirement.
pub open spec fn req_view(o: Option<&VersionReq>) -> Option<Seq<char>> {
    match o {
        Some(r) => Some(r@),
        None => None,
    }
}

/// The model of an optional version.
pub open spec fn version_view(o: Option<&Version>) -> Option<VersionModel> {
    match o {
        Some(v) => Some(v@),
        None => None,
    }
}

/// The model of an optional choice.
pub open spec fn choice_view(o: Option<(Version, ChoiceReason)>) -> Option<
    (VersionModel, ChoiceReason),
> {
    match o {
        Some((v, reason)) => Some((v@, reason)),
        None => None,
    }
}

/// Chooses a version of a package among `versions`: see `selection`.
pub fn select_version(
    versions: &Vec<Version>,
    range: &GustVersionSet,
    forced: Option<&VersionReq>,
    hint: Option<&Version>,
    strategy: ResolutionStrategy,
) -> (r: Option<(Version, ChoiceReason)>)
    ensures
        choice_view(r) == selection(
            version_views(versions@),
            range@,
            req_view(forced),
            version_view(hint),
            strategy,
        ),
{
    let fit = filter_versions(versions, range);
    match forced {
        Some(req) => {
            let forced_range = GustVersionSet::from_req(req.clone());
            let forced_fit = filter_versions(&fit, &forced_range);
            match pick_highest(&forced_fit) {
                Some(at) => {
                    assert(version_views(forced_fit@).len() == forced_fit@.len());
                    return Some((forced_fit[at].clone(), ChoiceReason::Override));
                },
                None => {
                    assert(version_views(forced_fit@).len() == forced_fit@.len());
                },
            }
        },
        None => {},
    }
    match hint {
        Some(locked) => {
            if has_version(&fit, locked) {
                return Some((locked.clone(), ChoiceReason::LockedHint));
            }
        },
        None => {},
    }
    assert(version_views(fit@).len() == fit@.len());
    match strategy {
        ResolutionStrategy::Lowest => match pick_lowest(&fit) {
            Some(at) => Some((fit[at].clone(), ChoiceReason::LowestCompatible)),
            None => None,
        },
        _ => match pick_highest(&fit) {
            Some(at) => Some((fit[at].clone(), ChoiceReason::HighestCompatible)),
            None => None,
        },
    }
}

/// The requirement that a table of requirement texts holds for `name`: the
/// last entry of that name whose text is a requirement.
pub open spec fn requirement_table(entries: Seq<(String, String)>, name: Seq<char>) -> Option<
    Seq<char>,
>
    decreases entries.len(),
{
    if entries.len() == 0 {
        None
    } else {
        let last = entries.last();
        if last.0@ == name && semver_requirement(last.1@) is Ok {
            Some(semver_requirement(last.1@)->Ok_0)
        } else {
            requirement_table(entries.drop_last(), name)
        }
    }
}

/// The requirement that a map holds for `name`.
pub open spec fn requirement_in(m: NameMap<VersionReq>, name: Seq<char>) -> Option<Seq<char>> {
    if m.has(name) {
        Some(m.value_of(name)@)
    } else {
        None
    }
}

/// Parses a table of requirement texts. Entries whose text is no requirement
/// are left out.
pub fn parse_requirements(table: &NameMap<String>) -> (out: NameMap<VersionReq>)
    ensures
        forall|name: Seq<char>|
            #[trigger] requirement_in(out, name) == requirement_table(table.entries@, name),
{
    let ghost all = table.entries@;
    let mut out: NameMap<VersionReq> = NameMap::new();
    let mut i: usize = 0;
    while i < table.entries.len()
        invariant
            i <= table.entries@.len(),
            all == table.entries@,
            forall|name: Seq<char>|
                #[trigger] requirement_in(out, name) == requirement_table(
                    all.take(i as int),
                    name,
                ),
        decreases table.entries@.len() - i,
    {
        let ghost before = out;
        let key = table.entries[i].0.as_str();
        match VersionReq::parse(table.entries[i].1.as_str()) {
            Ok(req) => {
                out.insert(String::from_str(key), req);
            },
            Err(_) => {},
        }
        proof {
            let t = all.take(i + 1);
            assert(t.drop_last() =~= all.take(i as int));
            assert(t.last() == all[i as int]);
            assert forall|name: Seq<char>|
                #[trigger] requirement_in(out, name) == requirement_table(t, name) by {
                assert(requirement_in(before, name) == requirement_table(
                    all.take(i as int),
                    name,
                ));
            }
        }
        i = i + 1;
    }
    assert(all.take(i as int) =~= all);
    out
}

/// The set of versions that a dependency admits, given what is forced and
/// what is constrained for the package it names. An override stands in
/// place of whatever the dependency asks. Otherwise the dependency's own
/// requirement counts, any version where it has none, and a constraint
/// narrows it further.
pub open spec fn edge_range(
    dep: DependencyModel,
    forced: Option<Seq<char>>,
    constraint: Option<Seq<char>>,
) -> SetModel {
    match forced {
        Some(req) => SetModel::Req(req),
        None => {
            let base = match dep.version {
                Some(req) => SetModel::Req(req),
                None => SetModel::Full,
            };
            match constraint {
                Some(c) => intersection_of(base, SetModel::Req(c)),
                None => base,
            }
        },
    }
}

/// The mathematical values of a list of edges.
pub open spec fn edge_views(s: Seq<(GustPackage, GustVersionSet)>) -> Seq<
    (PackageModel, SetModel),
> {
    s.map_values(|e: (GustPackage, GustVersionSet)| (e.0@, e.1@))
}

/// What a list of dependencies adds to those that ask for `target`: `by`,
/// once for each dependency that names `target`.
pub open spec fn requests(deps: Seq<DependencyModel>, target: Seq<char>, by: Seq<char>) -> Seq<
    Seq<char>,
>
    decreases deps.len(),
{
    if deps.len() == 0 {
        Seq::<Seq<char>>::empty()
    } else {
        let rest = requests(deps.drop_last(), target, by);
        if deps.last().name == target {
            rest.push(by)
        } else {
            rest
        }
    }
}

/// The version that the root of a resolution is given.
pub open spec fn root_version() -> VersionModel {
    VersionModel {
        major: 0,
        minor: 0,
        patch: 0,
        pre: Seq::<char>::empty(),
        build: Seq::<char>::empty(),
    }
}

/// The priority of a package with `count` known versions: a hundred more
/// than the count, as far as the number type reaches.
pub open spec fn count_priority(count: nat) -> u32 {
    if 100 + count <= u32::MAX {
        (100 + count) as u32
    } else {
        u32::MAX
    }
}

/// The rules of one resolution and the answers to a solver's questions.
pub struct GustDependencyProvider<P: PackageProvider> {
    provider: P,
    root_dependencies: Vec<Dependency>,
    overrides: NameMap<VersionReq>,
    constraints: NameMap<VersionReq>,
    hints: LockfileHints,
    strategy: ResolutionStrategy,
    trace: ResolutionTrace,
    version_cache: NameMap<Vec<Version>>,
}

impl<P: PackageProvider> GustDependencyProvider<P> {
    /// The provider of package data.
    pub closed spec fn source(&self) -> P {
        self.provider
    }

    /// The requirement that an override forces on `name`.
    pub closed spec fn forced(&self, name: Seq<char>) -> Option<Seq<char>> {
        requirement_in(self.overrides, name)
    }

    /// The requirement that a constraint adds for `name`.
    pub closed spec fn constraint(&self, name: Seq<char>) -> Option<Seq<char>> {
        requirement_in(self.constraints, name)
    }

    /// The version that the lockfile hints for `name`.
    pub closed spec fn hint_for(&self, name: Seq<char>) -> Option<VersionModel> {
        self.hints.version_hint(name)
    }

    /// The strategy of the resolution.
    pub closed spec fn strategy(&self) -> ResolutionStrategy {
        self.strategy
    }

    /// The record of the choices made so far.
    pub closed spec fn record(&self) -> ResolutionTrace {
        self.trace
    }

    /// The dependencies of the root.
    pub closed spec fn root_requirements(&self) -> Seq<DependencyModel> {
        dependency_views(self.root_dependencies@)
    }

    /// Whether every list of versions that is kept is the provider's answer.
    pub closed spec fn wf(&self) -> bool {
        forall|i: int|
            0 <= i < self.version_cache.entries@.len() ==> self.provider.versions_of(
                (#[trigger] self.version_cache.entries@[i]).0@,
            ) == Some(version_views(self.version_cache.entries@[i].1@))
    }

    /// Whether two providers follow the same rules.
    pub open spec fn same_rules(&self, other: &Self) -> bool {
        &&& self.source() == other.source()
        &&& self.strategy() == other.strategy()
        &&& self.root_requirements() == other.root_requirements()
        &&& forall|name: Seq<char>| #[trigger] self.forced(name) == other.forced(name)
        &&& forall|name: Seq<char>| #[trigger] self.constraint(name) == other.constraint(name)
        &&& forall|name: Seq<char>| #[trigger] self.hint_for(name) == other.hint_for(name)
    }

    /// The edges that a list of dependencies stands for: one for each
    /// dependency, to the package it names.
    pub open spec fn edges_for(&self, deps: Seq<DependencyModel>) -> Seq<(PackageModel, SetModel)> {
        Seq::new(
            deps.len(),
            |i: int|
                (
                    PackageModel::Named(deps[i].name),
                    edge_range(deps[i], self.forced(deps[i].name), self.constraint(deps[i].name)),
                ),
        )
    }

    proof fn lemma_rules_kept(mid: Self, now: Self, start: Self)
        requires
            mid.same_rules(&start),
            now.provider == mid.provider,
            now.overrides == mid.overrides,
            now.constraints == mid.constraints,
            now.hints == mid.hints,
            now.strategy == mid.strategy,
            now.root_dependencies == mid.root_dependencies,
            now.version_cache == mid.version_cache,
        ensures
            now.same_rules(&start),
            mid.wf() ==> now.wf(),
    {
        assert forall|name: Seq<char>| #[trigger] now.forced(name) == start.forced(name) by {
            assert(mid.forced(name) == start.forced(name));
        }
        assert forall|name: Seq<char>| #[trigger]
            now.constraint(name) == start.constraint(name) by {
            assert(mid.constraint(name) == start.constraint(name));
        }
        assert forall|name: Seq<char>| #[trigger] now.hint_for(name) == start.hint_for(name) by {
            assert(mid.hint_for(name) == start.hint_for(name));
        }
    }

    /// The rules of a resolution of `manifest` against `provider`: the
    /// manifest's overrides and constraints as far as they are requirements,
    /// no hints, and the strategy that picks the highest version.
    pub fn new(provider: P, manifest: &Manifest) -> (r: Self)
        ensures
            r.wf(),
            r.source() == provider,
            r.strategy() == ResolutionStrategy::Highest,
            r.root_requirements() == Seq::new(
                manifest.dependencies.entries@.len(),
                |i: int| manifest.dependencies.entries@[i].1@,
            ),
            forall|name: Seq<char>|
                #[trigger] r.forced(name) == requirement_table(manifest.overrides.entries@, name),
            forall|name: Seq<char>|
                #[trigger] r.constraint(name) == requirement_table(
                    manifest.constraints.entries@,
                    name,
                ),
            forall|name: Seq<char>| #[trigger] r.hint_for(name) is None,
            forall|name: Seq<char>|
                r.record().choice_of(name) is None && r.record().requirers_of(name).len() == 0,
    {
        let mut root: Vec<Dependency> = Vec::new();
        let mut i: usize = 0;
        while i < manifest.dependencies.entries.len()
            invariant
                i <= manifest.dependencies.entries@.len(),
                root@.len() == i,
                forall|j: int| 0 <= j < i ==> root@[j]@ == manifest.dependencies.entries@[j].1@,
            decreases manifest.dependencies.entries@.len() - i,
        {
            root.push(manifest.dependencies.entries[i].1.clone());
            i = i + 1;
        }
        let r = GustDependencyProvider {
            provider,
            root_dependencies: root,
            overrides: parse_requirements(&manifest.overrides),
            constraints: parse_requirements(&manifest.constraints),
            hints: LockfileHints::new(),
            strategy: ResolutionStrategy::Highest,
            trace: ResolutionTrace::new(),
            version_cache: NameMap::new(),
        };
        assert(r.root_requirements() =~= Seq::new(
            manifest.dependencies.entries@.len(),
            |i: int| manifest.dependencies.entries@[i].1@,
        ));
        r
    }

    /// The same rules with the given hints.
    pub fn with_hints(self, hints: LockfileHints) -> (r: Self)
        ensures
            self.wf() ==> r.wf(),
            r.source() == self.source(),
            r.strategy() == self.strategy(),
            r.root_requirements() == self.root_requirements(),
            r.record() == self.record(),
            forall|name: Seq<char>| #[trigger] r.forced(name) == self.forced(name),
            forall|name: Seq<char>| #[trigger] r.constraint(name) == self.constraint(name),
            forall|name: Seq<char>| #[trigger] r.hint_for(name) == hints.version_hint(name),
    {
        let mut r = self;
        r.hints = hints;
        r
    }

    /// The same rules with the given strategy.
    pub fn with_strategy(self, strategy: ResolutionStrategy) -> (r: Self)
        ensures
            self.wf() ==> r.wf(),
            r.source() == self.source(),
            r.strategy() == strategy,
            r.root_requirements() == self.root_requirements(),
            r.record() == self.record(),
            forall|name: Seq<char>| #[trigger] r.forced(name) == self.forced(name),
            forall|name: Seq<char>| #[trigger] r.constraint(name) == self.constraint(name),
            forall|name: Seq<char>| #[trigger] r.hint_for(name) == self.hint_for(name),
    {
        let mut r = self;
        r.strategy = strategy;
        r
    }

    /// The record of the choices made so far.
    pub fn trace(&self) -> (r: &ResolutionTrace)
        ensures
            *r == self.record(),
    {
        &self.trace
    }

    /// The versions of `package`, asked of the provider once and kept.
    pub fn get_versions(&mut self, package: &str) -> (r: Result<Vec<Version>, ResolveError>)
        requires
            old(self).wf(),
        ensures
            final(self).wf(),
            final(self).same_rules(old(self)),
            final(self).record() == old(self).record(),
            match r {
                Ok(v) => old(self).source().versions_of(package@) == Some(version_views(v@)),
                Err(_) => old(self).source().versions_of(package@) is None,
            },
    {
        match self.version_cache.position(package) {
            Some(at) => {
                return Ok(clone_versions(&self.version_cache.entries[at].1));
            },
            None => {},
        }
        match self.provider.available_versions(package) {
            Ok(versions) => {
                let kept = clone_versions(&versions);
                let ghost before = self.version_cache.entries@;
                self.version_cache.insert(String::from_str(package), kept);
                proof {
                    let after = self.version_cache.entries@;
                    assert(after == before.push((after.last().0, kept)));
                    assert forall|i: int| 0 <= i < after.len() implies self.provider.versions_of(
                        (#[trigger] after[i]).0@,
                    ) == Some(version_views(after[i].1@)) by {
                        if i < before.len() {
                            assert(after[i] == before[i]);
                        }
                    }
                }
                Ok(versions)
            },
            Err(e) => Err(e),
        }
    }

    /// The order in which the solver is to decide packages: the lower
    /// number first. The root comes first, then the packages with an
    /// override, then the others by the number of their versions. A
    /// package whose versions cannot be had comes late, so that the error
    /// surfaces.
    pub fn prioritize(&mut self, package: &GustPackage) -> (r: u32)
        requires
            old(self).wf(),
        ensures
            final(self).wf(),
            final(self).same_rules(old(self)),
            final(self).record() == old(self).record(),
            r == (match package@ {
                PackageModel::Root => 0u32,
                PackageModel::Named(name) => if old(self).forced(name) is Some {
                    1u32
                } else {
                    match old(self).source().versions_of(name) {
                        Some(versions) => count_priority(versions.len()),
                        None => 1000u32,
                    }
                },
            }),
    {
        match package {
            GustPackage::Root => 0,
            GustPackage::Named(name) => {
                if self.overrides.contains_key(name.as_str()) {
                    1
                } else {
                    match self.get_versions(name.as_str()) {
                        Ok(versions) => {
                            assert(version_views(versions@).len() == versions@.len());
                            if versions.len() <= (u32::MAX - 100) as usize {
                                100 + versions.len() as u32
                            } else {
                                u32::MAX
                            }
                        },
                        Err(_) => 1000,
                    }
                }
            },
        }
    }

    /// The version to try for `package`, among those that `range` holds: see
    /// `selection`. The root is given version zero. The choice is recorded
    /// with its reason. A version that is chosen is always one that `range`
    /// holds.
    pub fn choose_version(&mut self, package: &GustPackage, range: &GustVersionSet) -> (r: Result<
        Option<Version>,
        ResolveError,
    >)
        requires
            old(self).wf(),
        ensures
            final(self).wf(),
            final(self).same_rules(old(self)),
            forall|p: Seq<char>|
                final(self).record().requirers_of(p) == old(self).record().requirers_of(p),
            match package@ {
                PackageModel::Root => {
                    &&& r matches Ok(Some(v))
                    &&& v@ == root_version()
                    &&& final(self).record() == old(self).record()
                },
                PackageModel::Named(name) => match old(self).source().versions_of(name) {
                    None => r is Err && final(self).record() == old(self).record(),
                    Some(versions) => {
                        let chosen = selection(
                            versions,
                            range@,
                            old(self).forced(name),
                            old(self).hint_for(name),
                            old(self).strategy(),
                        );
                        &&& r is Ok
                        &&& match chosen {
                            Some((v, reason)) => {
                                &&& r->Ok_0 matches Some(picked)
                                &&& picked@ == v
                                &&& holds(range@, v)
                                &&& final(self).record().choice_of(name) == Some((v, reason))
                                &&& forall|p: Seq<char>|
                                    p != name ==> final(self).record().choice_of(p) == old(
                                        self,
                                    ).record().choice_of(p)
                            },
                            None => r->Ok_0 is None && final(self).record() == old(self).record(),
                        }
                    },
                },
            },
    {
        match package {
            GustPackage::Root => Ok(Some(Version::new(0, 0, 0))),
            GustPackage::Named(name) => {
                let versions = match self.get_versions(name.as_str()) {
                    Ok(v) => v,
                    Err(e) => {
                        return Err(e);
                    },
                };
                let ghost mid = *self;
                let chosen = select_version(
                    &versions,
                    range,
                    self.overrides.get(name.as_str()),
                    self.hints.preferred_version(name.as_str()),
                    self.strategy,
                );
                proof {
                    assert(mid.forced(name@) == old(self).forced(name@));
                    assert(mid.hint_for(name@) == old(self).hint_for(name@));
                    lemma_selection_fits(
                        version_views(versions@),
                        range@,
                        old(self).forced(name@),
                        old(self).hint_for(name@),
                        old(self).strategy(),
                    );
                }
                match chosen {
                    Some((version, reason)) => {
                        self.trace.record_choice(name.as_str(), &version, reason);
                        proof {
                            Self::lemma_rules_kept(mid, *self, *old(self));
                        }
                        Ok(Some(version))
                    },
                    None => Ok(None),
                }
            },
        }
    }

    /// The provider of package data.
    pub fn provider(&self) -> (r: &P)
        ensures
            *r == self.source(),
    {
        &self.provider
    }

    /// The dependencies of the root.
    pub fn root_dependencies(&self) -> (r: &Vec<Dependency>)
        ensures
            dependency_views(r@) == self.root_requirements(),
    {
        &self.root_dependencies
    }

    /// The versions that a dependency admits: see `edge_range`.
    pub fn range_of(&self, dep: &Dependency) -> (r: GustVersionSet)
        ensures
            r@ == edge_range(dep@, self.forced(dep@.name), self.constraint(dep@.name)),
            r.known().len() == 0,
    {
        let name = dep.name.as_str();
        let range = match self.overrides.get(name) {
            Some(forced) => GustVersionSet::from_req(forced.clone()),
            None => {
                let base = match &dep.version {
                    Some(req) => GustVersionSet::from_req(req.clone()),
                    None => GustVersionSet::any(),
                };
                match self.constraints.get(name) {
                    Some(c) => base.intersection(&GustVersionSet::from_req(c.clone())),
                    None => base,
                }
            },
        };
        assert(range.known() =~= Seq::<VersionModel>::empty()) by {
            assert(merged(Seq::<VersionModel>::empty(), Seq::<VersionModel>::empty())
                =~= Seq::<VersionModel>::empty());
        }
        range
    }

    /// The versions that an edge to `name` is told of: those that the
    /// provider knows of the package, each once.
    pub open spec fn edge_known(&self, name: Seq<char>) -> Seq<VersionModel> {
        match self.source().versions_of(name) {
            Some(versions) => merged(Seq::<VersionModel>::empty(), versions),
            None => Seq::<VersionModel>::empty(),
        }
    }

    /// Whether `edges` are the edges of `deps`, each told of the versions
    /// of the package it leads to.
    pub open spec fn are_edges(
        &self,
        edges: Seq<(GustPackage, GustVersionSet)>,
        deps: Seq<DependencyModel>,
    ) -> bool {
        &&& edge_views(edges) == self.edges_for(deps)
        &&& forall|i: int|
            0 <= i < edges.len() ==> (#[trigger] edges[i]).1.known() == self.edge_known(
                deps[i].name,
            )
    }

    fn edges_of(&mut self, deps: &Vec<Dependency>) -> (out: Vec<(GustPackage, GustVersionSet)>)
        requires
            old(self).wf(),
        ensures
            final(self).wf(),
            final(self).same_rules(old(self)),
            final(self).record() == old(self).record(),
            old(self).are_edges(out@, dependency_views(deps@)),
    {
        let mut out: Vec<(GustPackage, GustVersionSet)> = Vec::new();
        let mut i: usize = 0;
        while i < deps.len()
            invariant
                i <= deps@.len(),
                out@.len() == i,
                self.wf(),
                self.same_rules(old(self)),
                self.record() == old(self).record(),
                forall|j: int|
                    0 <= j < i ==> (#[trigger] out@[j]).0@ == PackageModel::Named(deps@[j]@.name)
                        && out@[j].1@ == edge_range(
                        deps@[j]@,
                        old(self).forced(deps@[j]@.name),
                        old(self).constraint(deps@[j]@.name),
                    ) && out@[j].1.known() == old(self).edge_known(deps@[j]@.name),
            decreases deps@.len() - i,
        {
            let dep = &deps[i];
            let name = dep.name.as_str();
            let ghost mid = *self;
            proof {
                assert(mid.forced(name@) == old(self).forced(name@));
                assert(mid.constraint(name@) == old(self).constraint(name@));
            }
            let range = self.range_of(dep);
            assert(range.known() =~= Seq::<VersionModel>::empty());
            let told = match self.get_versions(name) {
                Ok(versions) => range.within(&versions),
                Err(_) => range,
            };
            proof {
                Self::lemma_rules_chain(*self, mid, *old(self));
            }
            out.push((GustPackage::named(name), told));
            i = i + 1;
        }
        assert(edge_views(out@) =~= old(self).edges_for(dependency_views(deps@)));
        out
    }

    /// What `version` of `package` requires: for each dependency the package
    /// it names and the versions admitted, see `edge_range`. The root's
    /// dependencies are those of the manifest; any other package's are the
    /// provider's, and each is recorded as a request by `package`.
    pub fn get_dependencies(&mut self, package: &GustPackage, version: &Version) -> (r: Result<
        Vec<(GustPackage, GustVersionSet)>,
        ResolveError,
    >)
        requires
            old(self).wf(),
        ensures
            final(self).wf(),
            final(self).same_rules(old(self)),
            forall|p: Seq<char>|
                final(self).record().choice_of(p) == old(self).record().choice_of(p),
            match package@ {
                PackageModel::Root => {
                    &&& r matches Ok(edges)
                    &&& old(self).are_edges(edges@, old(self).root_requirements())
                    &&& final(self).record() == old(self).record()
                },
                PackageModel::Named(name) => match old(self).source().dependencies_of(
                    name,
                    version@,
                ) {
                    None => r is Err && final(self).record() == old(self).record(),
                    Some(deps) => {
                        &&& r matches Ok(edges)
                        &&& old(self).are_edges(edges@, deps)
                        &&& forall|p: Seq<char>|
                            final(self).record().requirers_of(p) == old(
                                self,
                            ).record().requirers_of(p) + requests(deps, p, name)
                    },
                },
            },
    {
        match package {
            GustPackage::Root => {
                let deps = clone_dependencies(&self.root_dependencies);
                Ok(self.edges_of(&deps))
            },
            GustPackage::Named(name) => {
                let deps = match self.provider.dependencies(name.as_str(), version) {
                    Ok(d) => d,
                    Err(e) => {
                        return Err(e);
                    },
                };
                let ghost all = dependency_views(deps@);
                let ghost start = self.trace;
                let mut i: usize = 0;
                assert forall|p: Seq<char>|
                    self.trace.requirers_of(p) == start.requirers_of(p) + requests(
                        all.take(0),
                        p,
                        name@,
                    ) by {
                    assert(start.requirers_of(p) + Seq::<Seq<char>>::empty()
                        =~= start.requirers_of(p));
                }
                while i < deps.len()
                    invariant
                        i <= deps@.len(),
                        all == dependency_views(deps@),
                        self.wf(),
                        self.same_rules(old(self)),
                        forall|p: Seq<char>| self.trace.choice_of(p) == start.choice_of(p),
                        forall|p: Seq<char>|
                            self.trace.requirers_of(p) == start.requirers_of(p) + requests(
                                all.take(i as int),
                                p,
                                name@,
                            ),
                    decreases deps@.len() - i,
                {
                    let ghost before = self.trace;
                    let ghost mid = *self;
                    self.trace.record_requirement(deps[i].name.as_str(), name.as_str());
                    proof {
                        Self::lemma_rules_kept(mid, *self, *old(self));
                        let t = all.take(i + 1);
                        assert(t.drop_last() =~= all.take(i as int));
                        assert(t.last() == deps@[i as int]@);
                        assert forall|p: Seq<char>|
                            self.trace.requirers_of(p) == start.requirers_of(p) + requests(
                                t,
                                p,
                                name@,
                            ) by {
                            assert(before.requirers_of(p) == start.requirers_of(p) + requests(
                                all.take(i as int),
                                p,
                                name@,
                            ));
                            if p == deps@[i as int]@.name {
                                assert(self.trace.requirers_of(p) =~= start.requirers_of(p)
                                    + requests(all.take(i as int), p, name@).push(name@));
                            }
                        }
                    }
                    i = i + 1;
                }
                assert(all.take(i as int) =~= all);
                let ghost settled = *self;
                let edges = self.edges_of(&deps);
                proof {
                    Self::lemma_rules_chain(*self, settled, *old(self));
                    Self::lemma_same_edges(settled, *old(self), edges@, all);
                }
                Ok(edges)
            },
        }
    }

    /// The range of the root's dependency at position `i`.
    pub open spec fn root_range(&self, i: int) -> SetModel {
        let dep = self.root_requirements()[i];
        edge_range(dep, self.forced(dep.name), self.constraint(dep.name))
    }

    /// Whether the root's dependency at position `i` names a package whose
    /// versions are known and of which none fits the range of the
    /// dependency.
    pub open spec fn root_gap(&self, i: int) -> bool {
        match self.source().versions_of(self.root_requirements()[i].name) {
            Some(versions) => fitting(versions, self.root_range(i)).len() == 0,
            None => false,
        }
    }

    /// Whether `e` reports the first dependency of the root that no known
    /// version satisfies: with its name, its range as text, and the versions
    /// that are known of it.
    pub open spec fn reports_first_gap(&self, e: ResolveError) -> bool {
        exists|i: int|
            {
                &&& 0 <= i < self.root_requirements().len()
                &&& #[trigger] self.root_gap(i)
                &&& forall|j: int| 0 <= j < i ==> !self.root_gap(j)
                &&& e matches ResolveError::NoMatchingVersion { package, requirement, available }
                &&& package@ == self.root_requirements()[i].name
                &&& requirement@ == set_text(self.root_range(i))
                &&& Some(version_views(available@)) == self.source().versions_of(package@)
            }
    }

    /// Looks for a dependency of the root that no known version satisfies,
    /// and reports the first one.
    pub fn find_root_gap(&mut self) -> (r: Option<ResolveError>)
        requires
            old(self).wf(),
        ensures
            final(self).wf(),
            final(self).same_rules(old(self)),
            final(self).record() == old(self).record(),
            match r {
                Some(e) => old(self).reports_first_gap(e),
                None => forall|i: int|
                    0 <= i < old(self).root_requirements().len() ==> !old(self).root_gap(i),
            },
    {
        let deps = clone_dependencies(&self.root_dependencies);
        let edges = self.edges_of(&deps);
        let ghost wanted = old(self).root_requirements();
        assert(edges@.len() == edge_views(edges@).len());
        let mut i: usize = 0;
        while i < edges.len()
            invariant
                i <= edges@.len(),
                edges@.len() == wanted.len(),
                wanted == old(self).root_requirements(),
                edge_views(edges@) == old(self).edges_for(wanted),
                self.wf(),
                self.same_rules(old(self)),
                self.record() == old(self).record(),
                forall|j: int| 0 <= j < i ==> !old(self).root_gap(j),
            decreases edges@.len() - i,
        {
            proof {
                assert(edge_views(edges@)[i as int] == (edges@[i as int].0@, edges@[i as int].1@));
                assert(old(self).source() == self.source());
            }
            match &edges[i].0 {
                GustPackage::Named(name) => {
                    let ghost mid = *self;
                    match self.get_versions(name.as_str()) {
                        Ok(versions) => {
                            proof {
                                Self::lemma_rules_chain(*self, mid, *old(self));
                            }
                            let fit = filter_versions(&versions, &edges[i].1);
                            assert(version_views(fit@).len() == fit@.len());
                            if fit.len() == 0 {
                                assert(old(self).root_gap(i as int));
                                return Some(
                                    ResolveError::NoMatchingVersion {
                                        package: name.clone(),
                                        requirement: edges[i].1.to_string(),
                                        available: versions,
                                    },
                                );
                            }
                        },
                        Err(_) => {
                            proof {
                                Self::lemma_rules_chain(*self, mid, *old(self));
                            }
                        },
                    }
                },
                GustPackage::Root => {},
            }
            i = i + 1;
        }
        None
    }

    proof fn lemma_same_edges(
        a: Self,
        b: Self,
        edges: Seq<(GustPackage, GustVersionSet)>,
        deps: Seq<DependencyModel>,
    )
        requires
            a.same_rules(&b),
            a.are_edges(edges, deps),
        ensures
            b.are_edges(edges, deps),
    {
        assert(edge_views(edges).len() == edges.len());
        assert forall|i: int| 0 <= i < deps.len() implies a.edges_for(deps)[i] == b.edges_for(
            deps,
        )[i] by {
            assert(a.forced(deps[i].name) == b.forced(deps[i].name));
            assert(a.constraint(deps[i].name) == b.constraint(deps[i].name));
        }
        assert(a.edges_for(deps) =~= b.edges_for(deps));
    }

    proof fn lemma_rules_chain(now: Self, mid: Self, start: Self)
        requires
            now.same_rules(&mid),
            mid.same_rules(&start),
        ensures
            now.same_rules(&start),
    {
        assert forall|name: Seq<char>| #[trigger] now.forced(name) == start.forced(name) by {
            assert(mid.forced(name) == start.forced(name));
        }
        assert forall|name: Seq<char>| #[trigger]
            now.constraint(name) == start.constraint(name) by {
            assert(mid.constraint(name) == start.constraint(name));
        }
        assert forall|name: Seq<char>| #[trigger] now.hint_for(name) == start.hint_for(name) by {
            assert(mid.hint_for(name) == start.hint_for(name));
        }
    }
}

} // verus!
