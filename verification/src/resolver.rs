//! Dependency resolution: the version-set algebra, the rules by which a
//! version is chosen for a package, the check of a solution against the
//! requirements, and the shape of a finished resolution.

pub mod version_set;
pub mod package;
pub mod audit;
pub mod hints;
pub mod error;
pub mod conflict;
pub mod provider;

use vstd::prelude::*;
use crate::namemap::NameMap;
use crate::namemap::is_first;
use crate::resolver::audit::{
    admitted, asked_at, audit, first_entry, met, reports_unmet, satisfied, solution_views,
    unmet_at,
};
use crate::resolver::version_set::holds;
use crate::resolver::error::{ConflictDerivation, ResolveError};
use crate::resolver::hints::LockfileHints;
use crate::resolver::package::{GustPackage, PackageModel};
use crate::resolver::provider::{GustDependencyProvider, PackageProvider};
use crate::text::views;
use crate::types::{DependencyModel, Manifest, ResolutionMetadata, ResolutionStrategy};
use crate::version::{version_text, Version, VersionModel};

verus! {

/// Where a resolved package comes from.
#[derive(Debug)]
pub enum ResolvedSource {
    Registry,
    Git { url: String, revision: String, tag: Option<String> },
    Path { path: String },
}

/// A package with the version that the resolution settled on.
#[derive(Debug)]
pub struct ResolvedDep {
    pub name: String,
    pub version: Version,
    pub source: ResolvedSource,
    /// The names of the packages it depends on.
    pub dependencies: Vec<String>,
}

/// Where a resolved package comes from, as mathematical values.
pub enum SourceModel {
    Registry,
    Git { url: Seq<char>, revision: Seq<char>, tag: Option<Seq<char>> },
    Path { path: Seq<char> },
}

/// A resolved package as mathematical values.
pub struct ResolvedModel {
    pub name: Seq<char>,
    pub version: VersionModel,
    pub source: SourceModel,
    pub dependencies: Seq<Seq<char>>,
}

impl View for ResolvedSource {
    type V = SourceModel;

    open spec fn view(&self) -> SourceModel {
        match self {
            ResolvedSource::Registry => SourceModel::Registry,
            ResolvedSource::Git { url, revision, tag } => SourceModel::Git {
                url: url@,
                revision: revision@,
                tag: crate::types::opt_text(*tag),
            },
            ResolvedSource::Path { path } => SourceModel::Path { path: path@ },
        }
    }
}

impl View for ResolvedDep {
    type V = ResolvedModel;

    open spec fn view(&self) -> ResolvedModel {
        ResolvedModel {
            name: self.name@,
            version: self.version@,
            source: self.source@,
            dependencies: views(self.dependencies@),
        }
    }
}

/// The outcome of a resolution: for each package its version, and why it
/// is there.
#[derive(Debug)]
pub struct Resolution {
    pub packages: NameMap<ResolvedDep>,
    pub metadata: NameMap<ResolutionMetadata>,
}

impl Default for Resolution {
    fn default() -> (r: Self)
        ensures
            r.packages.entries@.len() == 0,
            r.metadata.entries@.len() == 0,
    {
        Resolution { packages: NameMap::new(), metadata: NameMap::new() }
    }
}

/// How a run of the version solver ended.
#[derive(Debug)]
pub enum SolverOutcome {
    /// Every package was given a version.
    Solved(Vec<(GustPackage, Version)>),
    /// No assignment exists; the text is the solver's account of why.
    NoSolution(String),
    /// The dependencies of a version could not be had.
    DependenciesFailed { package: GustPackage, version: Version, source: ResolveError },
    /// No version could be chosen for a package.
    ChoiceFailed { package: GustPackage, source: ResolveError },
    /// The run was cancelled.
    Cancelled(ResolveError),
}

/// The named packages of a solution with their versions, in order. The root
/// is left out.
pub open spec fn named_part(solution: Seq<(GustPackage, Version)>) -> Seq<
    (Seq<char>, VersionModel),
>
    decreases solution.len(),
{
    if solution.len() == 0 {
        Seq::<(Seq<char>, VersionModel)>::empty()
    } else {
        let rest = named_part(solution.drop_last());
        match solution.last().0@ {
            PackageModel::Root => rest,
            PackageModel::Named(name) => rest.push((name, solution.last().1@)),
        }
    }
}

/// The names of the packages that a list of dependencies names; nothing
/// where the list could not be had.
pub open spec fn dependency_names(deps: Option<Seq<DependencyModel>>) -> Seq<Seq<char>> {
    match deps {
        Some(d) => d.map_values(|x: DependencyModel| x.name),
        None => Seq::<Seq<char>>::empty(),
    }
}

/// The message for dependencies that could not be had.
pub open spec fn dependencies_failed_text(
    package: PackageModel,
    version: VersionModel,
    source: ResolveError,
) -> Seq<char> {
    "Failed to get dependencies for "@ + crate::resolver::package::package_text(package) + " "@
        + version_text(version) + ": "@ + crate::resolver::error::error_text(source)
}

/// The message for a version that could not be chosen.
pub open spec fn choice_failed_text(package: PackageModel, source: ResolveError) -> Seq<char> {
    "Failed to choose version for "@ + crate::resolver::package::package_text(package) + ": "@
        + crate::resolver::error::error_text(source)
}

/// Resolves the dependencies of a manifest against a provider. The solver
/// itself runs outside: `rules` hands it the answers to its questions, and
/// `conclude` turns its outcome into a resolution.
pub struct Resolver<P: PackageProvider> {
    provider: P,
    hints: LockfileHints,
    strategy: ResolutionStrategy,
}

impl<P: PackageProvider> Resolver<P> {
    /// The provider of package data.
    pub closed spec fn source(&self) -> P {
        self.provider
    }

    /// The hints of the resolver.
    pub closed spec fn hints(&self) -> LockfileHints {
        self.hints
    }

    /// The strategy of the resolver.
    pub closed spec fn strategy(&self) -> ResolutionStrategy {
        self.strategy
    }

    /// A resolver without hints that picks the highest version.
    pub fn new(provider: P) -> (r: Self)
        ensures
            r.source() == provider,
            r.strategy() == ResolutionStrategy::Highest,
            forall|p: Seq<char>| r.hints().version_hint(p) is None,
    {
        Resolver { provider, hints: LockfileHints::new(), strategy: ResolutionStrategy::Highest }
    }

    /// The same resolver with the given hints.
    pub fn with_hints(self, hints: LockfileHints) -> (r: Self)
        ensures
            r.source() == self.source(),
            r.strategy() == self.strategy(),
            r.hints() == hints,
    {
        let mut r = self;
        r.hints = hints;
        r
    }

    /// The same resolver with the given strategy.
    pub fn with_strategy(self, strategy: ResolutionStrategy) -> (r: Self)
        ensures
            r.source() == self.source(),
            r.hints() == self.hints(),
            r.strategy() == strategy,
    {
        let mut r = self;
        r.strategy = strategy;
        r
    }

    /// The rules for a resolution of `manifest`: those of the manifest, with
    /// the hints and the strategy of this resolver.
    pub fn rules(&self, manifest: &Manifest) -> (r: GustDependencyProvider<&P>)
        ensures
            r.wf(),
            r.source() == &self.source(),
            r.strategy() == self.strategy(),
            r.root_requirements() == Seq::new(
                manifest.dependencies.entries@.len(),
                |i: int| manifest.dependencies.entries@[i].1@,
            ),
            forall|name: Seq<char>|
                #[trigger] r.forced(name) == crate::resolver::provider::requirement_table(
                    manifest.overrides.entries@,
                    name,
                ),
            forall|name: Seq<char>|
                #[trigger] r.constraint(name) == crate::resolver::provider::requirement_table(
                    manifest.constraints.entries@,
                    name,
                ),
            forall|name: Seq<char>| #[trigger] r.hint_for(name) == self.hints().version_hint(name),
            forall|name: Seq<char>|
                r.record().choice_of(name) is None && r.record().requirers_of(name).len() == 0,
    {
        GustDependencyProvider::new(&self.provider, manifest).with_hints(
            self.hints.clone(),
        ).with_strategy(self.strategy)
    }

    /// Whether `r` is the resolution that the solution stands for: an entry
    /// for each named package, in order, with the version of the solution,
    /// the names of its dependencies as the provider gives them, and those
    /// that asked for it.
    pub open spec fn resolution_of(
        &self,
        rules: &GustDependencyProvider<&P>,
        solution: Seq<(GustPackage, Version)>,
        r: Resolution,
    ) -> bool {
        let named = named_part(solution);
        &&& r.packages.entries@.len() == named.len()
        &&& r.metadata.entries@.len() == named.len()
        &&& forall|i: int|
            0 <= i < named.len() ==> {
                let entry = #[trigger] r.packages.entries@[i];
                let meta = r.metadata.entries@[i];
                &&& entry.0@ == named[i].0
                &&& entry.1.name@ == named[i].0
                &&& entry.1.version@ == named[i].1
                &&& entry.1.source is Registry
                &&& views(entry.1.dependencies@) == dependency_names(
                    self.source().dependencies_of(named[i].0, named[i].1),
                )
                &&& meta.0@ == named[i].0
                &&& views(meta.1.required_by@) == rules.record().requirers_of(named[i].0)
                &&& meta.1.constraints@.len() == 0
            }
    }

    /// Turns the outcome of the solver's run into a resolution or an error.
    ///
    /// A solution that meets every requirement becomes a resolution, see
    /// `resolution_of`; one that does not is refused with the first
    /// requirement that it fails. Where no solution exists and a
    /// dependency of the root has no version that satisfies it, that
    /// dependency is reported; otherwise the solver's account is handed on.
    /// A failure of the provider is reported with the package it concerned,
    /// and a cancellation as it came.
    pub fn conclude(&self, rules: &mut GustDependencyProvider<&P>, outcome: SolverOutcome) -> (r:
        Result<Resolution, ResolveError>)
        requires
            old(rules).wf(),
            old(rules).source() == &self.source(),
        ensures
            final(rules).wf(),
            final(rules).same_rules(old(rules)),
            final(rules).record() == old(rules).record(),
            match outcome {
                SolverOutcome::Solved(solution) => if satisfied(
                    *old(rules),
                    solution_views(solution@),
                ) {
                    r matches Ok(res) && self.resolution_of(old(rules), solution@, res)
                } else {
                    r matches Err(e) && reports_unmet(*old(rules), solution_views(solution@), e)
                },
                SolverOutcome::NoSolution(report) => r matches Err(e) && (if exists|i: int|
                    0 <= i < old(rules).root_requirements().len() && #[trigger] old(rules).root_gap(
                        i,
                    ) {
                    old(rules).reports_first_gap(e)
                } else {
                    e matches ResolveError::NoSolution { message, derivation, suggestions }
                        && message@ == "No solution found for dependency constraints"@
                        && derivation.root_cause@ == report@ && derivation.steps@.len() == 0
                        && derivation.formatted@.len() == 0 && suggestions@.len() == 0
                }),
                SolverOutcome::DependenciesFailed { package, version, source } => r matches Err(
                    ResolveError::ProviderError(m),
                ) && m@ == dependencies_failed_text(package@, version@, source),
                SolverOutcome::ChoiceFailed { package, source } => r matches Err(
                    ResolveError::ProviderError(m),
                ) && m@ == choice_failed_text(package@, source),
                SolverOutcome::Cancelled(e) => r == Err::<Resolution, ResolveError>(e),
            },
    {
        match outcome {
            SolverOutcome::Solved(solution) => {
                match audit(&*rules, &solution) {
                    Some(e) => {
                        return Err(e);
                    },
                    None => {},
                }
                let mut packages: Vec<(String, ResolvedDep)> = Vec::new();
                let mut metadata: Vec<(String, ResolutionMetadata)> = Vec::new();
                let mut i: usize = 0;
                while i < solution.len()
                    invariant
                        i <= solution@.len(),
                        rules.record() == old(rules).record(),
                        self.resolution_of(
                            old(rules),
                            solution@.take(i as int),
                            Resolution {
                                packages: NameMap { entries: packages },
                                metadata: NameMap { entries: metadata },
                            },
                        ),
                    decreases solution@.len() - i,
                {
                    let ghost before = named_part(solution@.take(i as int));
                    let ghost old_packages = packages@;
                    let ghost old_metadata = metadata@;
                    proof {
                        let t = solution@.take(i + 1);
                        assert(t.drop_last() =~= solution@.take(i as int));
                        assert(t.last() == solution@[i as int]);
                    }
                    match &solution[i].0 {
                        GustPackage::Named(name) => {
                            let version = &solution[i].1;
                            let dep_names = match self.provider.dependencies(
                                name.as_str(),
                                version,
                            ) {
                                Ok(deps) => {
                                    let mut names: Vec<String> = Vec::new();
                                    let mut k: usize = 0;
                                    while k < deps.len()
                                        invariant
                                            k <= deps@.len(),
                                            names@.len() == k,
                                            forall|j: int|
                                                0 <= j < k ==> names@[j]@ == deps@[j]@.name,
                                        decreases deps@.len() - k,
                                    {
                                        names.push(deps[k].name.clone());
                                        k = k + 1;
                                    }
                                    assert(views(names@) =~= dependency_names(
                                        self.source().dependencies_of(name@, version@),
                                    ));
                                    names
                                },
                                Err(_) => {
                                    let names: Vec<String> = Vec::new();
                                    assert(views(names@) =~= dependency_names(
                                        self.source().dependencies_of(name@, version@),
                                    ));
                                    names
                                },
                            };
                            metadata.push((name.clone(), rules.trace().to_metadata(name.as_str())));
                            packages.push(
                                (
                                    name.clone(),
                                    ResolvedDep {
                                        name: name.clone(),
                                        version: version.clone(),
                                        source: ResolvedSource::Registry,
                                        dependencies: dep_names,
                                    },
                                ),
                            );
                            proof {
                                let named = named_part(solution@.take(i + 1));
                                assert(named == before.push((name@, version@)));
                                assert forall|j: int| 0 <= j < named.len() implies {
                                    let entry = #[trigger] packages@[j];
                                    let meta = metadata@[j];
                                    &&& entry.0@ == named[j].0
                                    &&& entry.1.name@ == named[j].0
                                    &&& entry.1.version@ == named[j].1
                                    &&& entry.1.source is Registry
                                    &&& views(entry.1.dependencies@) == dependency_names(
                                        self.source().dependencies_of(named[j].0, named[j].1),
                                    )
                                    &&& meta.0@ == named[j].0
                                    &&& views(meta.1.required_by@) == old(
                                        rules,
                                    ).record().requirers_of(named[j].0)
                                    &&& meta.1.constraints@.len() == 0
                                } by {
                                    if j < before.len() {
                                        assert(packages@[j] == old_packages[j]);
                                        assert(metadata@[j] == old_metadata[j]);
                                    }
                                }
                            }
                        },
                        GustPackage::Root => {},
                    }
                    i = i + 1;
                }
                assert(solution@.take(i as int) =~= solution@);
                Ok(
                    Resolution {
                        packages: NameMap { entries: packages },
                        metadata: NameMap { entries: metadata },
                    },
                )
            },
            SolverOutcome::NoSolution(report) => {
                match rules.find_root_gap() {
                    Some(e) => Err(e),
                    None => Err(
                        ResolveError::NoSolution {
                            message: String::from_str("No solution found for dependency constraints"),
                            derivation: ConflictDerivation::new(report.as_str()),
                            suggestions: Vec::new(),
                        },
                    ),
                }
            },
            SolverOutcome::DependenciesFailed { package, version, source } => {
                let mut m = String::from_str("Failed to get dependencies for ");
                m.append(package.to_string().as_str());
                m.append(" ");
                m.append(version.to_string().as_str());
                m.append(": ");
                m.append(source.to_string().as_str());
                Err(ResolveError::ProviderError(m))
            },
            SolverOutcome::ChoiceFailed { package, source } => {
                let mut m = String::from_str("Failed to choose version for ");
                m.append(package.to_string().as_str());
                m.append(": ");
                m.append(source.to_string().as_str());
                Err(ResolveError::ProviderError(m))
            },
            SolverOutcome::Cancelled(e) => Err(e),
        }
    }
}

proof fn lemma_named_from(solution: Seq<(GustPackage, Version)>, i: int)
    requires
        0 <= i < named_part(solution).len(),
    ensures
        exists|w: int|
            0 <= w < solution.len() && (#[trigger] solution[w]).0@ == PackageModel::Named(
                named_part(solution)[i].0,
            ) && solution[w].1@ == named_part(solution)[i].1,
    decreases solution.len(),
{
    let rest = solution.drop_last();
    if i < named_part(rest).len() {
        lemma_named_from(rest, i);
        let w = choose|w: int|
            0 <= w < rest.len() && (#[trigger] rest[w]).0@ == PackageModel::Named(
                named_part(rest)[i].0,
            ) && rest[w].1@ == named_part(rest)[i].1;
        assert(solution[w] == rest[w]);
    } else {
        assert(solution[solution.len() - 1] == solution.last());
    }
}

proof fn lemma_named_first(solution: Seq<(GustPackage, Version)>, name: Seq<char>, w: int)
    requires
        first_entry(solution_views(solution), PackageModel::Named(name), w),
    ensures
        exists|j: int|
            0 <= j < named_part(solution).len() && (#[trigger] named_part(solution)[j]) == (
                name,
                solution[w].1@,
            ) && forall|h: int| 0 <= h < j ==> (#[trigger] named_part(solution)[h]).0 != name,
    decreases solution.len(),
{
    let all = solution_views(solution);
    let rest = solution.drop_last();
    let before = named_part(rest);
    assert(all[w] == (solution[w].0@, solution[w].1@));
    if w == solution.len() - 1 {
        assert(named_part(solution) == before.push((name, solution[w].1@)));
        assert forall|h: int| 0 <= h < before.len() implies (#[trigger] named_part(solution)[h]).0
            != name by {
            lemma_named_from(rest, h);
            let v = choose|v: int|
                0 <= v < rest.len() && (#[trigger] rest[v]).0@ == PackageModel::Named(before[h].0)
                    && rest[v].1@ == before[h].1;
            assert(all[v].0 == solution[v].0@);
        }
        assert(named_part(solution)[before.len() as int] == (name, solution[w].1@));
    } else {
        assert forall|h: int| 0 <= h < w implies (#[trigger] solution_views(rest)[h]).0
            != PackageModel::Named(name) by {
            assert(all[h].0 == solution[h].0@);
        }
        assert(solution_views(rest)[w] == all[w]);
        lemma_named_first(rest, name, w);
        let j = choose|j: int|
            0 <= j < before.len() && (#[trigger] before[j]) == (name, rest[w].1@) && forall|h: int|
                0 <= h < j ==> (#[trigger] before[h]).0 != name;
        assert(named_part(solution)[j] == before[j]);
        assert forall|h: int| 0 <= h < j implies (#[trigger] named_part(solution)[h]).0
            != name by {
            assert(named_part(solution)[h] == before[h]);
        }
    }
}

/// Whether the resolution holds the package that `dep` names at a version
/// that the rules admit for `dep`.
pub open spec fn meets<P: PackageProvider>(
    rules: GustDependencyProvider<P>,
    res: Resolution,
    dep: DependencyModel,
) -> bool {
    exists|j: int| #[trigger]
        is_first(res.packages.entries@, dep.name, j) && holds(
            admitted(rules, dep),
            res.packages.entries@[j].1.version@,
        )
}

proof fn lemma_met_in_resolution<P: PackageProvider>(
    resolver: Resolver<P>,
    rules: GustDependencyProvider<&P>,
    solution: Seq<(GustPackage, Version)>,
    res: Resolution,
    dep: DependencyModel,
)
    requires
        resolver.resolution_of(&rules, solution, res),
        met(solution_views(solution), dep.name, admitted(rules, dep)),
    ensures
        meets(rules, res, dep),
{
    let all = solution_views(solution);
    let w = choose|w: int| #[trigger]
        first_entry(all, PackageModel::Named(dep.name), w) && holds(
            admitted(rules, dep),
            all[w].1,
        );
    lemma_named_first(solution, dep.name, w);
    let named = named_part(solution);
    let j = choose|j: int|
        0 <= j < named.len() && (#[trigger] named[j]) == (dep.name, solution[w].1@) && forall|
            h: int,
        |
            0 <= h < j ==> (#[trigger] named[h]).0 != dep.name;
    assert(res.packages.entries@[j].0@ == named[j].0);
    assert forall|h: int| 0 <= h < j implies (#[trigger] res.packages.entries@[h]).0@
        != dep.name by {
        assert(named[h].0 != dep.name);
    }
    assert(is_first(res.packages.entries@, dep.name, j));
}

/// A resolution gives every package that the root depends on, at a version
/// that the dependency admits.
pub proof fn lemma_root_requirements_are_met<P: PackageProvider>(
    resolver: Resolver<P>,
    rules: GustDependencyProvider<&P>,
    solution: Seq<(GustPackage, Version)>,
    res: Resolution,
    k: int,
)
    requires
        satisfied(rules, solution_views(solution)),
        resolver.resolution_of(&rules, solution, res),
        0 <= k < rules.root_requirements().len(),
    ensures
        meets(rules, res, rules.root_requirements()[k]),
{
    assert(!unmet_at(rules, solution_views(solution), 0, k));
    lemma_met_in_resolution(resolver, rules, solution, res, rules.root_requirements()[k]);
}

/// A resolution gives every package that one of its packages depends on,
/// at a version that the dependency admits: no version in it breaks a
/// requirement of the graph.
pub proof fn lemma_requirements_are_met<P: PackageProvider>(
    resolver: Resolver<P>,
    rules: GustDependencyProvider<&P>,
    solution: Seq<(GustPackage, Version)>,
    res: Resolution,
    i: int,
    deps: Seq<DependencyModel>,
    k: int,
)
    requires
        rules.source() == &resolver.source(),
        satisfied(rules, solution_views(solution)),
        resolver.resolution_of(&rules, solution, res),
        0 <= i < res.packages.entries@.len(),
        resolver.source().dependencies_of(
            res.packages.entries@[i].0@,
            res.packages.entries@[i].1.version@,
        ) == Some(deps),
        0 <= k < deps.len(),
    ensures
        meets(rules, res, deps[k]),
{
    let all = solution_views(solution);
    let named = named_part(solution);
    assert(res.packages.entries@[i].0@ == named[i].0);
    lemma_named_from(solution, i);
    let w = choose|w: int|
        0 <= w < solution.len() && (#[trigger] solution[w]).0@ == PackageModel::Named(named[i].0)
            && solution[w].1@ == named[i].1;
    assert(all[w] == (solution[w].0@, solution[w].1@));
    assert(asked_at(rules, all, w + 1) == deps);
    assert(!unmet_at(rules, all, w + 1, k));
    lemma_met_in_resolution(resolver, rules, solution, res, deps[k]);
}

/// A manifest without dependencies resolves to nothing: the solution that
/// holds the root alone meets every requirement, and the resolution that
/// stands for it is empty.
pub proof fn lemma_empty_manifest_resolves_to_nothing<P: PackageProvider>(
    resolver: Resolver<P>,
    rules: GustDependencyProvider<&P>,
    root: (GustPackage, Version),
    res: Resolution,
)
    requires
        rules.root_requirements().len() == 0,
        root.0@ == PackageModel::Root,
        resolver.resolution_of(&rules, seq![root], res),
    ensures
        satisfied(rules, solution_views(seq![root])),
        res.packages.entries@.len() == 0,
        res.metadata.entries@.len() == 0,
{
    let solution = seq![root];
    assert(solution.drop_last() =~= Seq::<(GustPackage, Version)>::empty());
    assert(named_part(solution.drop_last()).len() == 0);
    assert(named_part(solution).len() == 0);
    let all = solution_views(solution);
    assert forall|a: int, k: int| !#[trigger] unmet_at(rules, all, a, k) by {
        if a == 1 {
            assert(all[0] == (root.0@, root.1@));
        }
    }
}

} // verus!
