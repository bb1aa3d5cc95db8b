//! Messages for failed resolutions.

use vstd::prelude::*;
use crate::resolver::error::{
    derivation_text, suggestion_text, ConflictDerivation, DerivationStep, ResolutionSuggestion,
};
use crate::text::{decimal, join, join_strings, push_decimal, views};
use crate::version::{
    descending, highest, pick_highest, sort_descending, version_text, version_views, Version,
    VersionModel,
};

verus! {

/// Writes conflicts out for the user.
pub struct ConflictFormatter;

/// The description of the step that records one requirement.
pub open spec fn step_description(
    from: Seq<char>,
    package: Seq<char>,
    requirement: Seq<char>,
) -> Seq<char> {
    from + " requires "@ + package + " "@ + requirement
}

/// Whether `steps` records the requirements, one step each, in order.
pub open spec fn steps_record(
    steps: Seq<DerivationStep>,
    package: Seq<char>,
    requirements: Seq<(String, String)>,
) -> bool {
    &&& steps.len() == requirements.len()
    &&& forall|i: int|
        0 <= i < steps.len() ==> (#[trigger] steps[i]).description@ == step_description(
            requirements[i].0@,
            package,
            requirements[i].1@,
        ) && views(steps[i].packages_involved@) == seq![requirements[i].0@]
}

/// The numbered lines of the first versions of a list.
pub open spec fn version_lines(versions: Seq<VersionModel>) -> Seq<char>
    decreases versions.len(),
{
    if versions.len() == 0 {
        Seq::<char>::empty()
    } else {
        version_lines(versions.drop_last()) + "  "@ + decimal(versions.len()) + ". "@
            + version_text(versions.last()) + "\n"@
    }
}

/// The message for a requirement that no version satisfies. It lists the ten
/// highest versions, the highest first, and says how many more there are.
pub open spec fn no_matching_version_text(
    package: Seq<char>,
    requirement: Seq<char>,
    available: Seq<VersionModel>,
) -> Seq<char> {
    let head = "No version of '"@ + package + "' satisfies the requirement '"@ + requirement
        + "'.\n\n"@;
    if available.len() == 0 {
        head + "No versions are available for this package."@
    } else {
        let sorted = descending(available);
        let shown = if sorted.len() > 10 {
            sorted.take(10)
        } else {
            sorted
        };
        let list = head + "Available versions:\n"@ + version_lines(shown);
        if sorted.len() > 10 {
            list + "  ... and "@ + decimal((sorted.len() - 10) as nat) + " more\n"@
        } else {
            list
        }
    }
}

/// The lines of a cycle: each package on a line of its own, an arrow
/// between neighbours.
pub open spec fn cycle_lines(cycle: Seq<Seq<char>>) -> Seq<char>
    decreases cycle.len(),
{
    if cycle.len() == 0 {
        Seq::<char>::empty()
    } else if cycle.len() == 1 {
        "  "@ + cycle[0] + "\n"@
    } else {
        cycle_lines(cycle.drop_last()) + "  ↓\n"@ + "  "@ + cycle.last() + "\n"@
    }
}

/// The message for a dependency cycle: the packages in order, then the first
/// one again, marked as closing the cycle.
pub open spec fn cycle_message(cycle: Seq<Seq<char>>) -> Seq<char> {
    let head = "Dependency cycle detected:\n\n"@ + cycle_lines(cycle);
    if cycle.len() > 0 {
        head + "  ↓\n"@ + "  "@ + cycle[0] + " (cycle)\n"@
    } else {
        head
    }
}

/// The lengths of the lists that `descending` goes through.
proof fn lemma_descending_len(s: Seq<VersionModel>)
    ensures
        descending(s).len() == s.len(),
{
    lemma_ascending_len(s);
}

proof fn lemma_ascending_len(s: Seq<VersionModel>)
    ensures
        crate::version::ascending(s).len() == s.len(),
    decreases s.len(),
{
    if s.len() > 0 {
        lemma_ascending_len(s.drop_last());
        lemma_insert_len(crate::version::ascending(s.drop_last()), s.last());
    }
}

proof fn lemma_insert_len(s: Seq<VersionModel>, x: VersionModel)
    ensures
        crate::version::insert_ascending(s, x).len() == s.len() + 1,
    decreases s.len(),
{
    if s.len() > 0 {
        lemma_insert_len(s.drop_last(), x);
    }
}

impl ConflictFormatter {
    /// The derivation of a conflict over `package`: one step for each
    /// requirement, naming who asks and what for, written out.
    pub fn format_incompatibility(
        package: &str,
        requirements: &Vec<(String, String)>,
        _root_name: &str,
    ) -> (d: ConflictDerivation)
        ensures
            d.root_cause@ == "Incompatible version requirements for "@ + package@,
            steps_record(d.steps@, package@, requirements@),
            d.formatted@ == derivation_text(d.root_cause@, d.steps@),
    {
        let mut cause = String::from_str("Incompatible version requirements for ");
        cause.append(package);
        let mut derivation = ConflictDerivation::new(cause.as_str());
        let mut i: usize = 0;
        while i < requirements.len()
            invariant
                i <= requirements@.len(),
                derivation.root_cause@ == "Incompatible version requirements for "@ + package@,
                steps_record(derivation.steps@, package@, requirements@.take(i as int)),
            decreases requirements@.len() - i,
        {
            let from = requirements[i].0.as_str();
            let mut description = String::from_str(from);
            description.append(" requires ");
            description.append(package);
            description.append(" ");
            description.append(requirements[i].1.as_str());
            let step = DerivationStep::new(description.as_str()).with_package(from);
            let ghost before = derivation.steps@;
            derivation.add_step(step);
            proof {
                assert(views(step.packages_involved@) =~= seq![from@]);
                let t = requirements@.take(i + 1);
                assert forall|k: int| 0 <= k < derivation.steps@.len() implies (
                #[trigger] derivation.steps@[k]).description@ == step_description(
                    t[k].0@,
                    package@,
                    t[k].1@,
                ) && views(derivation.steps@[k].packages_involved@) == seq![t[k].0@] by {
                    if k < i {
                        assert(derivation.steps@[k] == before[k]);
                        assert(t[k] == requirements@.take(i as int)[k]);
                    }
                }
            }
            i = i + 1;
        }
        assert(requirements@.take(i as int) =~= requirements@);
        derivation.format();
        derivation
    }

    /// Ways out of a conflict over `package`: an override to the highest
    /// available version, where there is one, then for each requirement the
    /// removal of the constraint of the package that asks.
    pub fn suggest_fixes(
        package: &str,
        requirements: &Vec<(String, String)>,
        available_versions: &Vec<Version>,
    ) -> (out: Vec<ResolutionSuggestion>)
        ensures
            out@.len() == requirements@.len() + (if available_versions@.len() > 0 {
                1int
            } else {
                0int
            }),
            available_versions@.len() > 0 ==> (out@[0] matches ResolutionSuggestion::AddOverride {
                package: p,
                version: v,
            } && p@ == package@ && v@ == version_text(
                highest(version_views(available_versions@)),
            )),
            forall|i: int|
                0 <= i < requirements@.len() ==> (#[trigger] out@[out@.len() - requirements@.len()
                    + i] matches ResolutionSuggestion::RemoveConstraint { package: p, from: f }
                    && p@ == package@ && f@ == requirements@[i].0@),
    {
        let mut out: Vec<ResolutionSuggestion> = Vec::new();
        match pick_highest(available_versions) {
            Some(at) => {
                out.push(
                    ResolutionSuggestion::AddOverride {
                        package: String::from_str(package),
                        version: available_versions[at].to_string(),
                    },
                );
            },
            None => {},
        }
        let ghost base = out@;
        let mut i: usize = 0;
        assert(available_versions@.len() > 0 ==> base.len() == 1 && (
        base[0] matches ResolutionSuggestion::AddOverride { package: p, version: v } && p@
            == package@ && v@ == version_text(highest(version_views(available_versions@)))));
        while i < requirements.len()
            invariant
                i <= requirements@.len(),
                out@.len() == base.len() + i,
                base.len() == (if available_versions@.len() > 0 {
                    1int
                } else {
                    0int
                }),
                available_versions@.len() > 0 ==> (
                base[0] matches ResolutionSuggestion::AddOverride { package: p, version: v } && p@
                    == package@ && v@ == version_text(
                    highest(version_views(available_versions@)),
                )),
                forall|k: int| 0 <= k < base.len() ==> out@[k] == base[k],
                forall|k: int|
                    0 <= k < i ==> (#[trigger] out@[base.len() + k]
                        matches ResolutionSuggestion::RemoveConstraint { package: p, from: f }
                        && p@ == package@ && f@ == requirements@[k].0@),
            decreases requirements@.len() - i,
        {
            out.push(
                ResolutionSuggestion::RemoveConstraint {
                    package: String::from_str(package),
                    from: requirements[i].0.clone(),
                },
            );
            i = i + 1;
        }
        out
    }

    /// The message for a requirement on `package` that no version satisfies.
    pub fn format_no_matching_version(
        package: &str,
        requirement: &str,
        available: &Vec<Version>,
    ) -> (out: String)
        requires
            available@.len() <= u64::MAX,
        ensures
            out@ == no_matching_version_text(package@, requirement@, version_views(available@)),
    {
        let mut out = String::from_str("No version of '");
        out.append(package);
        out.append("' satisfies the requirement '");
        out.append(requirement);
        out.append("'.\n\n");
        if available.len() == 0 {
            out.append("No versions are available for this package.");
            return out;
        }
        out.append("Available versions:\n");
        let sorted = sort_descending(available);
        proof {
            lemma_descending_len(version_views(available@));
            assert(version_views(sorted@).len() == sorted@.len());
        }
        let shown: usize = if sorted.len() > 10 {
            10
        } else {
            sorted.len()
        };
        let ghost head = out@;
        let ghost all = version_views(sorted@);
        let mut i: usize = 0;
        assert(out@ =~= head + version_lines(all.take(0)));
        while i < shown
            invariant
                i <= shown <= sorted@.len(),
                all == version_views(sorted@),
                out@ == head + version_lines(all.take(i as int)),
            decreases shown - i,
        {
            proof {
                let t = all.take(i + 1);
                assert(t.drop_last() =~= all.take(i as int));
                assert(t.last() == sorted@[i as int]@);
            }
            out.append("  ");
            push_decimal(&mut out, (i + 1) as u64);
            out.append(". ");
            out.append(sorted[i].to_string().as_str());
            out.append("\n");
            assert(out@ =~= head + version_lines(all.take(i + 1)));
            i = i + 1;
        }
        if sorted.len() > 10 {
            out.append("  ... and ");
            push_decimal(&mut out, (sorted.len() - 10) as u64);
            out.append(" more\n");
        } else {
            assert(all.take(i as int) =~= all);
        }
        out
    }

    /// The message for a dependency cycle.
    pub fn format_cycle(cycle: &Vec<String>) -> (out: String)
        ensures
            out@ == cycle_message(views(cycle@)),
    {
        let mut out = String::from_str("Dependency cycle detected:\n\n");
        let ghost head = out@;
        let ghost all = views(cycle@);
        let mut i: usize = 0;
        assert(out@ =~= head + cycle_lines(all.take(0)));
        while i < cycle.len()
            invariant
                i <= cycle@.len(),
                all == views(cycle@),
                out@ == head + cycle_lines(all.take(i as int)),
            decreases cycle@.len() - i,
        {
            proof {
                let t = all.take(i + 1);
                assert(t.drop_last() =~= all.take(i as int));
                assert(t.last() == cycle@[i as int]@);
                assert(t[0] == cycle@[0]@);
            }
            if i > 0 {
                out.append("  ↓\n");
            }
            out.append("  ");
            out.append(cycle[i].as_str());
            out.append("\n");
            assert(out@ =~= head + cycle_lines(all.take(i + 1)));
            i = i + 1;
        }
        assert(all.take(i as int) =~= all);
        if cycle.len() > 0 {
            out.append("  ↓\n");
            out.append("  ");
            out.append(cycle[0].as_str());
            out.append(" (cycle)\n");
        }
        out
    }
}

/// The lines of a list of items, each behind a bullet.
pub open spec fn bullet_lines(items: Seq<Seq<char>>) -> Seq<char>
    decreases items.len(),
{
    if items.len() == 0 {
        Seq::<char>::empty()
    } else {
        bullet_lines(items.drop_last()) + "  • "@ + items.last() + "\n"@
    }
}

/// The numbered lines of a list of suggestions.
pub open spec fn suggestion_lines(suggestions: Seq<ResolutionSuggestion>) -> Seq<char>
    decreases suggestions.len(),
{
    if suggestions.len() == 0 {
        Seq::<char>::empty()
    } else {
        suggestion_lines(suggestions.drop_last()) + "  "@ + decimal(suggestions.len()) + ". "@
            + suggestion_text(suggestions.last()) + "\n"@
    }
}

/// Builds an error message out of sections.
pub struct ErrorMessageBuilder {
    sections: Vec<String>,
}

impl ErrorMessageBuilder {
    /// The sections added so far.
    pub closed spec fn sections(&self) -> Seq<Seq<char>> {
        views(self.sections@)
    }

    /// A builder without sections.
    pub fn new() -> (r: Self)
        ensures
            r.sections().len() == 0,
    {
        let r = ErrorMessageBuilder { sections: Vec::new() };
        assert(views(r.sections@) =~= Seq::<Seq<char>>::empty());
        r
    }

    fn with(self, section: String) -> (r: Self)
        ensures
            r.sections() == self.sections().push(section@),
    {
        let mut r = self;
        let ghost before = r.sections@;
        r.sections.push(section);
        assert(views(r.sections@) =~= views(before).push(section@));
        r
    }

    /// Adds a header line.
    pub fn add_header(self, header: &str) -> (r: Self)
        ensures
            r.sections() == self.sections().push(header@ + "\n"@),
    {
        let mut section = String::from_str(header);
        section.append("\n");
        self.with(section)
    }

    /// Adds a titled section.
    pub fn add_section(self, title: &str, content: &str) -> (r: Self)
        ensures
            r.sections() == self.sections().push(title@ + ":\n"@ + content@ + "\n"@),
    {
        let mut section = String::from_str(title);
        section.append(":\n");
        section.append(content);
        section.append("\n");
        self.with(section)
    }

    /// Adds a titled list, one bullet for each item.
    pub fn add_list(self, title: &str, items: &Vec<String>) -> (r: Self)
        ensures
            r.sections() == self.sections().push(title@ + ":\n"@ + bullet_lines(views(items@))),
    {
        let mut section = String::from_str(title);
        section.append(":\n");
        let ghost head = section@;
        let ghost all = views(items@);
        let mut i: usize = 0;
        assert(section@ =~= head + bullet_lines(all.take(0)));
        while i < items.len()
            invariant
                i <= items@.len(),
                all == views(items@),
                section@ == head + bullet_lines(all.take(i as int)),
            decreases items@.len() - i,
        {
            proof {
                let t = all.take(i + 1);
                assert(t.drop_last() =~= all.take(i as int));
                assert(t.last() == items@[i as int]@);
            }
            section.append("  • ");
            section.append(items[i].as_str());
            section.append("\n");
            assert(section@ =~= head + bullet_lines(all.take(i + 1)));
            i = i + 1;
        }
        assert(all.take(i as int) =~= all);
        self.with(section)
    }

    /// Adds the suggestions as a numbered list. Without suggestions nothing
    /// is added.
    pub fn add_suggestions(self, suggestions: &Vec<ResolutionSuggestion>) -> (r: Self)
        ensures
            r.sections() == (if suggestions@.len() == 0 {
                self.sections()
            } else {
                self.sections().push("Suggestions:\n"@ + suggestion_lines(suggestions@))
            }),
    {
        if suggestions.len() == 0 {
            return self;
        }
        let mut section = String::from_str("Suggestions:\n");
        let ghost head = section@;
        let mut i: usize = 0;
        assert(section@ =~= head + suggestion_lines(suggestions@.take(0)));
        while i < suggestions.len()
            invariant
                i <= suggestions@.len(),
                section@ == head + suggestion_lines(suggestions@.take(i as int)),
            decreases suggestions@.len() - i,
        {
            proof {
                let t = suggestions@.take(i + 1);
                assert(t.drop_last() =~= suggestions@.take(i as int));
                assert(t.last() == suggestions@[i as int]);
            }
            section.append("  ");
            push_decimal(&mut section, (i + 1) as u64);
            section.append(". ");
            section.append(suggestions[i].to_string().as_str());
            section.append("\n");
            assert(section@ =~= head + suggestion_lines(suggestions@.take(i + 1)));
            i = i + 1;
        }
        assert(suggestions@.take(i as int) =~= suggestions@);
        self.with(section)
    }

    /// The message: the sections, an empty line between neighbours.
    pub fn build(self) -> (out: String)
        ensures
            out@ == join(self.sections(), "\n"@),
    {
        join_strings(&self.sections, "\n")
    }
}

impl Default for ErrorMessageBuilder {
    fn default() -> (r: Self)
        ensures
            r.sections().len() == 0,
    {
        ErrorMessageBuilder::new()
    }
}

} // verus!
