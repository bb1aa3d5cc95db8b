//! Checking a solution against the requirements that it has to meet.
//!
//! The solver runs outside the library. Before a solution becomes a
//! resolution it is checked here: every dependency of the root and of every
//! package of the solution must name a package that the solution holds, at
//! a version that the dependency admits.

use vstd::prelude::*;
use crate::resolver::error::{ConflictingRequirement, ResolveError};
use crate::resolver::package::{package_text, GustPackage, PackageModel};
use crate::resolver::provider::{
    dependency_views, edge_range, GustDependencyProvider, PackageProvider,
};
use crate::resolver::version_set::{holds, set_text, SetModel};
use crate::types::{Dependency, DependencyModel};
use crate::version::{Version, VersionModel};

verus! {

/// The mathematical values of a solution.
pub open spec fn solution_views(s: Seq<(GustPackage, Version)>) -> Seq<
    (PackageModel, VersionModel),
> {
    s.map_values(|e: (GustPackage, Version)| (e.0@, e.1@))
}

/// Whether the entry at `i` is the first one of the solution for `package`.
pub open spec fn first_entry(
    solution: Seq<(PackageModel, VersionModel)>,
    package: PackageModel,
    i: int,
) -> bool {
    &&& 0 <= i < solution.len()
    &&& solution[i].0 == package
    &&& forall|j: int| 0 <= j < i ==> (#[trigger] solution[j]).0 != package
}

/// Whether the solution gives the package `name` a version that `range`
/// holds.
pub open spec fn met(
    solution: Seq<(PackageModel, VersionModel)>,
    name: Seq<char>,
    range: SetModel,
) -> bool {
    exists|i: int| #[trigger]
        first_entry(solution, PackageModel::Named(name), i) && holds(range, solution[i].1)
}

/// Who asks at place `a` of the check: at the first place the root, at
/// each further place the package of the entry before it.
pub open spec fn asker_at(solution: Seq<(PackageModel, VersionModel)>, a: int) -> PackageModel {
    if a == 0 {
        PackageModel::Root
    } else {
        solution[a - 1].0
    }
}

/// What is asked at place `a` of the check: at the first place what the
/// root depends on, at each further place what the package of the entry
/// before it depends on at its version. Nothing is asked for an entry of
/// the root, nor where the provider knows no dependencies.
pub open spec fn asked_at<P: PackageProvider>(
    rules: GustDependencyProvider<P>,
    solution: Seq<(PackageModel, VersionModel)>,
    a: int,
) -> Seq<DependencyModel> {
    if a == 0 {
        rules.root_requirements()
    } else {
        match solution[a - 1].0 {
            PackageModel::Root => Seq::<DependencyModel>::empty(),
            PackageModel::Named(name) => match rules.source().dependencies_of(
                name,
                solution[a - 1].1,
            ) {
                Some(deps) => deps,
                None => Seq::<DependencyModel>::empty(),
            },
        }
    }
}

/// The versions that the rules admit for a dependency.
pub open spec fn admitted<P: PackageProvider>(
    rules: GustDependencyProvider<P>,
    dep: DependencyModel,
) -> SetModel {
    edge_range(dep, rules.forced(dep.name), rules.constraint(dep.name))
}

/// Whether the solution fails the dependency at position `k` of place `a`.
pub open spec fn unmet_at<P: PackageProvider>(
    rules: GustDependencyProvider<P>,
    solution: Seq<(PackageModel, VersionModel)>,
    a: int,
    k: int,
) -> bool {
    &&& 0 <= a <= solution.len()
    &&& 0 <= k < asked_at(rules, solution, a).len()
    &&& !met(
        solution,
        asked_at(rules, solution, a)[k].name,
        admitted(rules, asked_at(rules, solution, a)[k]),
    )
}

/// Whether the solution meets every requirement: whatever the root or a
/// package of the solution depends on is in the solution, at a version
/// that the dependency admits.
pub open spec fn satisfied<P: PackageProvider>(
    rules: GustDependencyProvider<P>,
    solution: Seq<(PackageModel, VersionModel)>,
) -> bool {
    forall|a: int, k: int| !#[trigger] unmet_at(rules, solution, a, k)
}

/// Whether `e` tells that `asker` asks for versions `range` of the package
/// `name`, which the solution does not give.
pub open spec fn tells_unmet(
    e: ResolveError,
    asker: PackageModel,
    name: Seq<char>,
    range: SetModel,
) -> bool {
    &&& e matches ResolveError::VersionConflict { package, conflicts, derivation }
    &&& package@ == name
    &&& conflicts@.len() == 1
    &&& conflicts@[0].from@ == package_text(asker)
    &&& conflicts@[0].requirement@ == set_text(range)
    &&& conflicts@[0].dependency_chain@.len() == 0
    &&& derivation is None
}

/// Whether `e` reports the first requirement that the solution fails.
pub open spec fn reports_unmet<P: PackageProvider>(
    rules: GustDependencyProvider<P>,
    solution: Seq<(PackageModel, VersionModel)>,
    e: ResolveError,
) -> bool {
    exists|a: int, k: int|
        {
            &&& #[trigger] unmet_at(rules, solution, a, k)
            &&& forall|b: int, j: int|
                b < a || (b == a && j < k) ==> !#[trigger] unmet_at(rules, solution, b, j)
            &&& tells_unmet(
                e,
                asker_at(solution, a),
                asked_at(rules, solution, a)[k].name,
                admitted(rules, asked_at(rules, solution, a)[k]),
            )
        }
}

fn find_entry(solution: &Vec<(GustPackage, Version)>, package: &GustPackage) -> (r: Option<usize>)
    ensures
        match r {
            Some(i) => first_entry(solution_views(solution@), package@, i as int),
            None => forall|i: int|
                0 <= i < solution@.len() ==> (#[trigger] solution_views(solution@)[i]).0
                    != package@,
        },
{
    let mut i: usize = 0;
    while i < solution.len()
        invariant
            i <= solution@.len(),
            forall|j: int| 0 <= j < i ==> (#[trigger] solution_views(solution@)[j]).0 != package@,
        decreases solution@.len() - i,
    {
        if solution[i].0.same(package) {
            return Some(i);
        }
        i = i + 1;
    }
    None
}

/// The position of the first dependency of `deps` that the solution fails.
fn first_unmet_of<P: PackageProvider>(
    rules: &GustDependencyProvider<P>,
    deps: &Vec<Dependency>,
    solution: &Vec<(GustPackage, Version)>,
) -> (r: Option<usize>)
    ensures
        match r {
            Some(k) => k < deps@.len() && !met(
                solution_views(solution@),
                deps@[k as int]@.name,
                admitted(*rules, deps@[k as int]@),
            ) && forall|j: int|
                0 <= j < k ==> met(
                    solution_views(solution@),
                    (#[trigger] deps@[j])@.name,
                    admitted(*rules, deps@[j]@),
                ),
            None => forall|j: int|
                0 <= j < deps@.len() ==> met(
                    solution_views(solution@),
                    (#[trigger] deps@[j])@.name,
                    admitted(*rules, deps@[j]@),
                ),
        },
{
    let ghost all = solution_views(solution@);
    let mut k: usize = 0;
    while k < deps.len()
        invariant
            k <= deps@.len(),
            all == solution_views(solution@),
            forall|j: int|
                0 <= j < k ==> met(all, (#[trigger] deps@[j])@.name, admitted(*rules, deps@[j]@)),
        decreases deps@.len() - k,
    {
        let dep = &deps[k];
        let range = rules.range_of(dep);
        let wanted = GustPackage::named(dep.name.as_str());
        let good = match find_entry(solution, &wanted) {
            Some(i) => {
                let inside = range.contains_version(&solution[i].1);
                proof {
                    assert(all[i as int].1 == solution@[i as int].1@);
                    if !inside {
                        assert forall|w: int| #[trigger]
                            first_entry(all, PackageModel::Named(dep@.name), w) implies w == i by {
                            if w < i {
                                assert(all[w].0 == wanted@);
                            } else if i < w {
                                assert(all[i as int].0 == wanted@);
                            }
                        }
                    }
                }
                inside
            },
            None => {
                assert forall|w: int| !#[trigger]
                    first_entry(all, PackageModel::Named(dep@.name), w) by {
                    if 0 <= w < all.len() {
                        assert(all[w].0 != wanted@);
                    }
                }
                false
            },
        };
        if !good {
            return Some(k);
        }
        k = k + 1;
    }
    None
}

fn unmet_error(asker: &GustPackage, dep: &Dependency, range_text: String) -> (e: ResolveError)
    ensures
        e matches ResolveError::VersionConflict { package, conflicts, derivation } && package@
            == dep@.name && conflicts@.len() == 1 && conflicts@[0].from@ == package_text(asker@)
            && conflicts@[0].requirement == range_text && conflicts@[0].dependency_chain@.len()
            == 0 && derivation is None,
{
    let mut conflicts: Vec<ConflictingRequirement> = Vec::new();
    conflicts.push(
        ConflictingRequirement {
            from: asker.to_string(),
            requirement: range_text,
            dependency_chain: Vec::new(),
        },
    );
    ResolveError::VersionConflict { package: dep.name.clone(), conflicts, derivation: None }
}

/// Checks a solution against the rules of the resolution. Nothing comes
/// back where the solution meets every requirement, see `satisfied`;
/// otherwise the first requirement that it fails is reported, those of the
/// root before those of the packages of the solution in their order.
pub fn audit<P: PackageProvider>(
    rules: &GustDependencyProvider<P>,
    solution: &Vec<(GustPackage, Version)>,
) -> (r: Option<ResolveError>)
    ensures
        match r {
            None => satisfied(*rules, solution_views(solution@)),
            Some(e) => reports_unmet(*rules, solution_views(solution@), e),
        },
{
    let ghost all = solution_views(solution@);
    let root = GustPackage::Root;
    let root_deps = rules.root_dependencies();
    assert(asked_at(*rules, all, 0) == dependency_views(root_deps@));
    match report(rules, &root, root_deps, solution, Ghost(0)) {
        Some(e) => {
            return Some(e);
        },
        None => {},
    }
    let mut i: usize = 0;
    while i < solution.len()
        invariant
            i <= solution@.len(),
            all == solution_views(solution@),
            forall|b: int, j: int| b <= i ==> !#[trigger] unmet_at(*rules, all, b, j),
        decreases solution@.len() - i,
    {
        let ghost a = i + 1;
        assert(all[i as int] == (solution@[i as int].0@, solution@[i as int].1@));
        match &solution[i].0 {
            GustPackage::Root => {},
            GustPackage::Named(name) => match rules.provider().dependencies(
                name.as_str(),
                &solution[i].1,
            ) {
                Ok(deps) => {
                    assert(asked_at(*rules, all, a) == dependency_views(deps@));
                    match report(rules, &solution[i].0, &deps, solution, Ghost(a)) {
                        Some(e) => {
                            return Some(e);
                        },
                        None => {},
                    }
                },
                Err(_) => {},
            },
        }
        i = i + 1;
    }
    None
}

/// Checks the dependencies `deps`, which are those asked at place `a`, and
/// reports the first one that the solution fails.
fn report<P: PackageProvider>(
    rules: &GustDependencyProvider<P>,
    asker: &GustPackage,
    deps: &Vec<Dependency>,
    solution: &Vec<(GustPackage, Version)>,
    Ghost(a): Ghost<int>,
) -> (r: Option<ResolveError>)
    requires
        0 <= a <= solution@.len(),
        asked_at(*rules, solution_views(solution@), a) == dependency_views(deps@),
        asker_at(solution_views(solution@), a) == asker@,
        forall|b: int, j: int|
            b < a ==> !#[trigger] unmet_at(*rules, solution_views(solution@), b, j),
    ensures
        match r {
            None => forall|b: int, j: int|
                b <= a ==> !#[trigger] unmet_at(*rules, solution_views(solution@), b, j),
            Some(e) => reports_unmet(*rules, solution_views(solution@), e),
        },
{
    let ghost all = solution_views(solution@);
    let ghost asked = dependency_views(deps@);
    match first_unmet_of(rules, deps, solution) {
        Some(k) => {
            let e = unmet_error(asker, &deps[k], rules.range_of(&deps[k]).to_string());
            proof {
                assert(asked[k as int] == deps@[k as int]@);
                assert(unmet_at(*rules, all, a, k as int));
                assert forall|b: int, j: int| b < a || (b == a && j < k) implies !#[trigger] unmet_at(
                    *rules,
                    all,
                    b,
                    j,
                ) by {
                    if b == a && 0 <= j {
                        assert(asked[j] == deps@[j]@);
                    }
                }
                assert(tells_unmet(
                    e,
                    asker_at(all, a),
                    asked[k as int].name,
                    admitted(*rules, asked[k as int]),
                ));
            }
            Some(e)
        },
        None => {
            assert forall|b: int, j: int| b <= a implies !#[trigger] unmet_at(*rules, all, b, j) by {
                if b == a && 0 <= j < asked.len() {
                    assert(asked[j] == deps@[j]@);
                }
            }
            None
        },
    }
}

} // verus!
