//! What can go wrong in a resolution, and how a conflict is explained.

use vstd::prelude::*;
use crate::text::{decimal, join, join_strings, push_decimal, views};
use crate::version::{version_text, Version};

verus! {

/// A requirement that takes part in a conflict.
#[derive(Debug)]
pub struct ConflictingRequirement {
    /// The package that asks.
    pub from: String,
    /// What it asks for.
    pub requirement: String,
    /// The path from the root to the package that asks.
    pub dependency_chain: Vec<String>,
}

/// How a conflicting requirement is written.
pub open spec fn requirement_text(
    from: Seq<char>,
    requirement: Seq<char>,
    chain: Seq<Seq<char>>,
) -> Seq<char> {
    let head = from + " requires "@ + requirement;
    if chain.len() > 0 {
        head + " (via "@ + join(chain, " -> "@) + ")"@
    } else {
        head
    }
}

impl ConflictingRequirement {
    /// The requirement in words: who asks for what, and by which path.
    pub fn to_string(&self) -> (out: String)
        ensures
            out@ == requirement_text(
                self.from@,
                self.requirement@,
                views(self.dependency_chain@),
            ),
    {
        let mut out = self.from.clone();
        out.append(" requires ");
        out.append(self.requirement.as_str());
        if self.dependency_chain.len() > 0 {
            out.append(" (via ");
            let chain = join_strings(&self.dependency_chain, " -> ");
            out.append(chain.as_str());
            out.append(")");
        }
        out
    }
}

/// One step of the derivation of a conflict.
#[derive(Debug)]
pub struct DerivationStep {
    pub description: String,
    pub packages_involved: Vec<String>,
}

impl DerivationStep {
    /// A step with the given description that involves no package yet.
    pub fn new(description: &str) -> (r: Self)
        ensures
            r.description@ == description@,
            r.packages_involved@.len() == 0,
    {
        DerivationStep { description: String::from_str(description), packages_involved: Vec::new() }
    }

    /// The same step, with `package` added to those involved.
    pub fn with_package(self, package: &str) -> (r: Self)
        ensures
            r.description@ == self.description@,
            views(r.packages_involved@) == views(self.packages_involved@).push(package@),
    {
        let mut r = self;
        let ghost before = r.packages_involved@;
        r.packages_involved.push(String::from_str(package));
        assert(views(r.packages_involved@) =~= views(before).push(package@));
        r
    }
}

/// The lines that name the packages of a step.
pub open spec fn packages_text(packages: Seq<Seq<char>>) -> Seq<char>
    decreases packages.len(),
{
    if packages.len() == 0 {
        Seq::<char>::empty()
    } else {
        packages_text(packages.drop_last()) + "   - "@ + packages.last() + "\n"@
    }
}

/// The numbered lines of the steps.
pub open spec fn steps_text(steps: Seq<DerivationStep>) -> Seq<char>
    decreases steps.len(),
{
    if steps.len() == 0 {
        Seq::<char>::empty()
    } else {
        steps_text(steps.drop_last()) + decimal(steps.len()) + ". "@ + steps.last().description@
            + "\n"@ + packages_text(views(steps.last().packages_involved@))
    }
}

/// A derivation written out: the root cause, an empty line, then the steps,
/// numbered from one, each followed by the packages it involves.
pub open spec fn derivation_text(root_cause: Seq<char>, steps: Seq<DerivationStep>) -> Seq<char> {
    "Root cause: "@ + root_cause + "\n"@ + "\n"@ + steps_text(steps)
}

/// How a conflict came about.
#[derive(Debug)]
pub struct ConflictDerivation {
    pub root_cause: String,
    pub steps: Vec<DerivationStep>,
    /// The derivation written out, once `format` has run.
    pub formatted: String,
}

impl ConflictDerivation {
    /// A derivation with a root cause and no steps.
    pub fn new(root_cause: &str) -> (r: Self)
        ensures
            r.root_cause@ == root_cause@,
            r.steps@.len() == 0,
            r.formatted@.len() == 0,
    {
        let r = ConflictDerivation {
            root_cause: String::from_str(root_cause),
            steps: Vec::new(),
            formatted: String::new(),
        };
        r
    }

    /// Adds a step at the end.
    pub fn add_step(&mut self, step: DerivationStep)
        ensures
            final(self).steps@ == old(self).steps@.push(step),
            final(self).root_cause == old(self).root_cause,
            final(self).formatted == old(self).formatted,
    {
        self.steps.push(step);
    }

    /// Writes the derivation out into `formatted`.
    pub fn format(&mut self)
        ensures
            final(self).formatted@ == derivation_text(old(self).root_cause@, old(self).steps@),
            final(self).root_cause == old(self).root_cause,
            final(self).steps == old(self).steps,
    {
        let mut out = String::from_str("Root cause: ");
        out.append(self.root_cause.as_str());
        out.append("\n");
        out.append("\n");
        let ghost head = out@;
        let mut i: usize = 0;
        assert(out@ =~= head + steps_text(self.steps@.take(0)));
        while i < self.steps.len()
            invariant
                i <= self.steps@.len(),
                out@ == head + steps_text(self.steps@.take(i as int)),
            decreases self.steps@.len() - i,
        {
            let step = &self.steps[i];
            let ghost before = out@;
            push_decimal(&mut out, (i + 1) as u64);
            out.append(". ");
            out.append(step.description.as_str());
            out.append("\n");
            let ghost line = out@;
            let mut k: usize = 0;
            assert(out@ =~= line + packages_text(views(step.packages_involved@).take(0)));
            while k < step.packages_involved.len()
                invariant
                    k <= step.packages_involved@.len(),
                    out@ == line + packages_text(views(step.packages_involved@).take(k as int)),
                decreases step.packages_involved@.len() - k,
            {
                proof {
                    let t = views(step.packages_involved@).take(k + 1);
                    assert(t.drop_last() =~= views(step.packages_involved@).take(k as int));
                    assert(t.last() == step.packages_involved@[k as int]@);
                }
                out.append("   - ");
                out.append(step.packages_involved[k].as_str());
                out.append("\n");
                assert(out@ =~= line + packages_text(
                    views(step.packages_involved@).take(k + 1),
                ));
                k = k + 1;
            }
            proof {
                assert(views(step.packages_involved@).take(k as int) =~= views(
                    step.packages_involved@,
                ));
                let t = self.steps@.take(i + 1);
                assert(t.drop_last() =~= self.steps@.take(i as int));
                assert(t.last() == *step);
                assert(out@ =~= head + steps_text(t));
            }
            i = i + 1;
        }
        assert(self.steps@.take(i as int) =~= self.steps@);
        self.formatted = out;
    }

    /// The derivation as shown to the user: the formatted text where there
    /// is one, else the root cause alone.
    pub fn to_string(&self) -> (out: String)
        ensures
            out@ == (if self.formatted@.len() == 0 {
                self.root_cause@
            } else {
                self.formatted@
            }),
    {
        if self.formatted.as_str().unicode_len() == 0 {
            self.root_cause.clone()
        } else {
            self.formatted.clone()
        }
    }
}

/// A way out of a failed resolution.
#[derive(Debug)]
#[allow(inconsistent_fields)]
pub enum ResolutionSuggestion {
    /// Move a dependency up to a later version.
    Upgrade { package: String, from: Version, to: Version },
    /// Move a dependency down to an earlier version.
    Downgrade { package: String, from: Version, to: Version },
    /// Force a version with an override.
    AddOverride { package: String, version: String },
    /// Drop a constraint that stands in the way.
    RemoveConstraint { package: String, from: String },
    /// Follow another branch or tag.
    ChangeBranch { package: String, current: String, suggested: String },
}

/// A suggestion in words.
pub open spec fn suggestion_text(s: ResolutionSuggestion) -> Seq<char> {
    match s {
        ResolutionSuggestion::Upgrade { package, from, to } => "Upgrade "@ + package@ + " from "@
            + version_text(from@) + " to "@ + version_text(to@),
        ResolutionSuggestion::Downgrade { package, from, to } => "Downgrade "@ + package@
            + " from "@ + version_text(from@) + " to "@ + version_text(to@),
        ResolutionSuggestion::AddOverride { package, version } => "Add override: [overrides]\n"@
            + package@ + " = \""@ + version@ + "\""@,
        ResolutionSuggestion::RemoveConstraint { package, from } => "Remove "@ + package@
            + " constraint from "@ + from@,
        ResolutionSuggestion::ChangeBranch { package, current, suggested } => "Change "@ + package@
            + " branch from '"@ + current@ + "' to '"@ + suggested@ + "'"@,
    }
}

impl ResolutionSuggestion {
    /// The suggestion in words.
    pub fn to_string(&self) -> (out: String)
        ensures
            out@ == suggestion_text(*self),
    {
        match self {
            ResolutionSuggestion::Upgrade { package, from, to } => {
                let mut out = String::from_str("Upgrade ");
                out.append(package.as_str());
                out.append(" from ");
                out.append(from.to_string().as_str());
                out.append(" to ");
                out.append(to.to_string().as_str());
                out
            },
            ResolutionSuggestion::Downgrade { package, from, to } => {
                let mut out = String::from_str("Downgrade ");
                out.append(package.as_str());
                out.append(" from ");
                out.append(from.to_string().as_str());
                out.append(" to ");
                out.append(to.to_string().as_str());
                out
            },
            ResolutionSuggestion::AddOverride { package, version } => {
                let mut out = String::from_str("Add override: [overrides]\n");
                out.append(package.as_str());
                out.append(" = \"");
                out.append(version.as_str());
                out.append("\"");
                out
            },
            ResolutionSuggestion::RemoveConstraint { package, from } => {
                let mut out = String::from_str("Remove ");
                out.append(package.as_str());
                out.append(" constraint from ");
                out.append(from.as_str());
                out
            },
            ResolutionSuggestion::ChangeBranch { package, current, suggested } => {
                let mut out = String::from_str("Change ");
                out.append(package.as_str());
                out.append(" branch from '");
                out.append(current.as_str());
                out.append("' to '");
                out.append(suggested.as_str());
                out.append("'");
                out
            },
        }
    }
}

/// A failed resolution.
#[derive(Debug)]
#[allow(inconsistent_fields)]
pub enum ResolveError {
    /// No version of a package satisfies what is asked of it.
    NoMatchingVersion { package: String, requirement: String, available: Vec<Version> },
    /// Dependencies ask for versions of a package that exclude each other.
    VersionConflict {
        package: String,
        conflicts: Vec<ConflictingRequirement>,
        derivation: Option<ConflictDerivation>,
    },
    /// No source knows the package.
    PackageNotFound { name: String, suggestions: Vec<String> },
    /// The dependencies form a cycle.
    CycleDetected { cycle: Vec<String> },
    /// The resolution was cancelled.
    Cancelled,
    /// No assignment of versions satisfies all requirements.
    NoSolution {
        message: String,
        derivation: ConflictDerivation,
        suggestions: Vec<ResolutionSuggestion>,
    },
    /// The provider of package data failed.
    ProviderError(String),
}

/// A cycle written as a chain of arrows.
pub open spec fn cycle_text(cycle: Seq<Seq<char>>) -> Seq<char> {
    join(cycle, " -> "@)
}

/// Writes a cycle as a chain of arrows.
pub fn format_cycle(cycle: &Vec<String>) -> (out: String)
    ensures
        out@ == cycle_text(views(cycle@)),
{
    join_strings(cycle, " -> ")
}

/// The message of an error.
pub open spec fn error_text(e: ResolveError) -> Seq<char> {
    match e {
        ResolveError::NoMatchingVersion { package, requirement, available } => "no version of "@
            + package@ + " satisfies "@ + requirement@,
        ResolveError::VersionConflict { package, conflicts, derivation } => "version conflict for "@
            + package@,
        ResolveError::PackageNotFound { name, suggestions } => "package not found: "@ + name@,
        ResolveError::CycleDetected { cycle } => "dependency cycle detected: "@ + cycle_text(
            views(cycle@),
        ),
        ResolveError::Cancelled => "resolution cancelled"@,
        ResolveError::NoSolution { message, derivation, suggestions } => "no solution found: "@
            + message@,
        ResolveError::ProviderError(message) => "failed to fetch package info: "@ + message@,
    }
}

impl ResolveError {
    /// The message of the error.
    pub fn to_string(&self) -> (out: String)
        ensures
            out@ == error_text(*self),
    {
        match self {
            ResolveError::NoMatchingVersion { package, requirement, available } => {
                let mut out = String::from_str("no version of ");
                out.append(package.as_str());
                out.append(" satisfies ");
                out.append(requirement.as_str());
                out
            },
            ResolveError::VersionConflict { package, conflicts, derivation } => {
                let mut out = String::from_str("version conflict for ");
                out.append(package.as_str());
                out
            },
            ResolveError::PackageNotFound { name, suggestions } => {
                let mut out = String::from_str("package not found: ");
                out.append(name.as_str());
                out
            },
            ResolveError::CycleDetected { cycle } => {
                let mut out = String::from_str("dependency cycle detected: ");
                out.append(format_cycle(cycle).as_str());
                out
            },
            ResolveError::Cancelled => String::from_str("resolution cancelled"),
            ResolveError::NoSolution { message, derivation, suggestions } => {
                let mut out = String::from_str("no solution found: ");
                out.append(message.as_str());
                out
            },
            ResolveError::ProviderError(message) => {
                let mut out = String::from_str("failed to fetch package info: ");
                out.append(message.as_str());
                out
            },
        }
    }
}

} // verus!
