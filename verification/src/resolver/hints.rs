//! Hints from an earlier lockfile, and the record of why each version was
//! chosen.

use vstd::prelude::*;
use crate::namemap::{
    has_name, index_of, lemma_first_exists, lemma_first_unique, lemma_has_name_step,
    lemma_names_count, names_of, NameMap,
};
use crate::text::views;
use crate::types::{clone_strings, ResolutionMetadata};
use crate::version::{Version, VersionModel};

verus! {

/// Versions and revisions that an earlier resolution settled on. The
/// resolver prefers them where they still fit.
#[derive(Debug)]
pub struct LockfileHints {
    preferred_versions: NameMap<Version>,
    preferred_revisions: NameMap<String>,
}

impl LockfileHints {
    /// No package is hinted at twice.
    #[verifier::type_invariant]
    spec fn distinct(self) -> bool {
        self.preferred_versions.wf() && self.preferred_revisions.wf()
    }

    /// The version hinted for `package`, if there is one.
    pub closed spec fn version_hint(&self, package: Seq<char>) -> Option<VersionModel> {
        hinted_version(self.preferred_versions, package)
    }

    /// The revision hinted for `package`, if there is one.
    pub closed spec fn revision_hint(&self, package: Seq<char>) -> Option<Seq<char>> {
        hinted_revision(self.preferred_revisions, package)
    }

    /// The packages for which a version is hinted.
    pub open spec fn versioned(&self) -> Set<Seq<char>> {
        Set::new(|p: Seq<char>| self.version_hint(p) is Some)
    }

    /// The packages for which a revision is hinted.
    pub open spec fn revisioned(&self) -> Set<Seq<char>> {
        Set::new(|p: Seq<char>| self.revision_hint(p) is Some)
    }

    /// The number of packages with a version hint, and the number of
    /// packages with a revision hint.
    pub open spec fn counts(&self) -> (nat, nat) {
        (self.versioned().len(), self.revisioned().len())
    }

    proof fn lemma_counts(&self)
        requires
            self.distinct(),
        ensures
            self.versioned().finite(),
            self.revisioned().finite(),
            self.counts() == (
                self.preferred_versions.entries@.len(),
                self.preferred_revisions.entries@.len(),
            ),
    {
        lemma_names_count(self.preferred_versions.entries@);
        lemma_names_count(self.preferred_revisions.entries@);
        assert(self.versioned() =~= names_of(self.preferred_versions.entries@));
        assert(self.revisioned() =~= names_of(self.preferred_revisions.entries@));
    }

    /// No hints.
    pub fn new() -> (r: Self)
        ensures
            forall|p: Seq<char>| r.version_hint(p) is None && r.revision_hint(p) is None,
            r.counts() == (0nat, 0nat),
    {
        let r = LockfileHints {
            preferred_versions: NameMap::new(),
            preferred_revisions: NameMap::new(),
        };
        proof {
            r.lemma_counts();
        }
        r
    }

    /// Hints `version` for `package`, in place of an earlier hint. A
    /// package that had no version hint is one more that has one.
    pub fn add_preferred_version(&mut self, package: &str, version: Version)
        ensures
            final(self).version_hint(package@) == Some(version@),
            forall|p: Seq<char>|
                p != package@ ==> final(self).version_hint(p) == old(self).version_hint(p),
            forall|p: Seq<char>| final(self).revision_hint(p) == old(self).revision_hint(p),
            final(self).counts() == (
                old(self).counts().0 + (if old(self).version_hint(package@) is Some {
                    0nat
                } else {
                    1nat
                }),
                old(self).counts().1,
            ),
    {
        proof {
            use_type_invariant(&*self);
            self.lemma_counts();
        }
        let mut versions: NameMap<Version> = NameMap::new();
        core::mem::swap(&mut versions, &mut self.preferred_versions);
        versions.insert(String::from_str(package), version);
        self.preferred_versions = versions;
        proof {
            self.lemma_counts();
            assert(self.versioned() =~= old(self).versioned().insert(package@));
            assert(self.revisioned() =~= old(self).revisioned());
        }
    }

    /// Hints `revision` for `package`, in place of an earlier hint. A
    /// package that had no revision hint is one more that has one.
    pub fn add_preferred_revision(&mut self, package: &str, revision: &str)
        ensures
            final(self).revision_hint(package@) == Some(revision@),
            forall|p: Seq<char>|
                p != package@ ==> final(self).revision_hint(p) == old(self).revision_hint(p),
            forall|p: Seq<char>| final(self).version_hint(p) == old(self).version_hint(p),
            final(self).counts() == (
                old(self).counts().0,
                old(self).counts().1 + (if old(self).revision_hint(package@) is Some {
                    0nat
                } else {
                    1nat
                }),
            ),
    {
        proof {
            use_type_invariant(&*self);
            self.lemma_counts();
        }
        let mut revisions: NameMap<String> = NameMap::new();
        core::mem::swap(&mut revisions, &mut self.preferred_revisions);
        revisions.insert(String::from_str(package), String::from_str(revision));
        self.preferred_revisions = revisions;
        proof {
            self.lemma_counts();
            assert(self.revisioned() =~= old(self).revisioned().insert(package@));
            assert(self.versioned() =~= old(self).versioned());
        }
    }

    /// The version hinted for `package`.
    pub fn preferred_version(&self, package: &str) -> (r: Option<&Version>)
        ensures
            match r {
                Some(v) => self.version_hint(package@) == Some(v@),
                None => self.version_hint(package@) is None,
            },
    {
        self.preferred_versions.get(package)
    }

    /// The revision hinted for `package`.
    pub fn preferred_revision(&self, package: &str) -> (r: Option<&str>)
        ensures
            match r {
                Some(s) => self.revision_hint(package@) == Some(s@),
                None => self.revision_hint(package@) is None,
            },
    {
        match self.preferred_revisions.get(package) {
            Some(s) => Some(s.as_str()),
            None => None,
        }
    }

    /// Whether `version` is the one hinted for `package`.
    pub fn matches_preferred(&self, package: &str, version: &Version) -> (r: bool)
        ensures
            r == (self.version_hint(package@) == Some(version@)),
    {
        match self.preferred_versions.get(package) {
            Some(v) => v.same(version),
            None => false,
        }
    }

    /// Whether there is no hint at all: no package has a version hint or a
    /// revision hint.
    pub fn is_empty(&self) -> (r: bool)
        ensures
            r == (self.counts() == (0nat, 0nat)),
            r == (forall|p: Seq<char>|
                self.version_hint(p) is None && self.revision_hint(p) is None),
    {
        proof {
            use_type_invariant(self);
            self.lemma_counts();
            if self.preferred_versions.entries@.len() > 0 {
                assert(self.version_hint(self.preferred_versions.entries@[0].0@) is Some);
            }
            if self.preferred_revisions.entries@.len() > 0 {
                assert(self.revision_hint(self.preferred_revisions.entries@[0].0@) is Some);
            }
        }
        self.preferred_versions.is_empty() && self.preferred_revisions.is_empty()
    }

    /// The number of hints: the packages with a version hint and the
    /// packages with a revision hint, a package with both counted twice.
    pub fn len(&self) -> (r: usize)
        requires
            self.counts().0 + self.counts().1 <= usize::MAX,
        ensures
            r == self.counts().0 + self.counts().1,
    {
        proof {
            use_type_invariant(self);
            self.lemma_counts();
        }
        self.preferred_versions.len() + self.preferred_revisions.len()
    }

    /// Takes over the hints of `other` for the packages that have none here.
    /// Where both hint at a package, the hint that is already here stays.
    /// So the packages with a hint are those that had one and, beyond
    /// them, those that `other` hints at.
    pub fn merge(&mut self, other: LockfileHints)
        ensures
            forall|p: Seq<char>|
                final(self).version_hint(p) == (if old(self).version_hint(p) is Some {
                    old(self).version_hint(p)
                } else {
                    other.version_hint(p)
                }),
            forall|p: Seq<char>|
                final(self).revision_hint(p) == (if old(self).revision_hint(p) is Some {
                    old(self).revision_hint(p)
                } else {
                    other.revision_hint(p)
                }),
            final(self).counts() == (
                old(self).counts().0 + other.versioned().difference(old(self).versioned()).len(),
                old(self).counts().1 + other.revisioned().difference(
                    old(self).revisioned(),
                ).len(),
            ),
    {
        proof {
            use_type_invariant(&*self);
            use_type_invariant(&other);
            self.lemma_counts();
            other.lemma_counts();
        }
        let mut versions: NameMap<Version> = NameMap::new();
        core::mem::swap(&mut versions, &mut self.preferred_versions);
        merge_versions(&mut versions, &other.preferred_versions);
        self.preferred_versions = versions;
        let mut revisions: NameMap<String> = NameMap::new();
        core::mem::swap(&mut revisions, &mut self.preferred_revisions);
        merge_revisions(&mut revisions, &other.preferred_revisions);
        self.preferred_revisions = revisions;
        proof {
            self.lemma_counts();
            let more_versions = other.versioned().difference(old(self).versioned());
            assert(self.versioned() =~= old(self).versioned() + more_versions);
            assert(old(self).versioned().disjoint(more_versions));
            vstd::set_lib::lemma_set_disjoint_lens(old(self).versioned(), more_versions);
            let more_revisions = other.revisioned().difference(old(self).revisioned());
            assert(self.revisioned() =~= old(self).revisioned() + more_revisions);
            assert(old(self).revisioned().disjoint(more_revisions));
            vstd::set_lib::lemma_set_disjoint_lens(old(self).revisioned(), more_revisions);
        }
    }
}

/// The version that a map of hints holds for `package`.
pub open spec fn hinted_version(m: NameMap<Version>, package: Seq<char>) -> Option<VersionModel> {
    if m.has(package) {
        Some(m.value_of(package)@)
    } else {
        None
    }
}

/// The revision that a map of hints holds for `package`.
pub open spec fn hinted_revision(m: NameMap<String>, package: Seq<char>) -> Option<Seq<char>> {
    if m.has(package) {
        Some(m.value_of(package)@)
    } else {
        None
    }
}

fn merge_versions(mine: &mut NameMap<Version>, theirs: &NameMap<Version>)
    ensures
        old(mine).wf() ==> final(mine).wf(),
        forall|p: Seq<char>|
            #[trigger] hinted_version(*final(mine), p) == (if hinted_version(*old(mine), p)
                is Some {
                hinted_version(*old(mine), p)
            } else {
                hinted_version(*theirs, p)
            }),
{
    let ghost start = *mine;
    let ghost all = theirs.entries@;
    let mut i: usize = 0;
    while i < theirs.entries.len()
        invariant
            i <= theirs.entries@.len(),
            all == theirs.entries@,
            start.wf() ==> mine.wf(),
            forall|p: Seq<char>|
                #[trigger] hinted_version(*mine, p) == (if hinted_version(start, p) is Some {
                    hinted_version(start, p)
                } else if has_name(all.take(i as int), p) {
                    hinted_version(*theirs, p)
                } else {
                    None
                }),
        decreases theirs.entries@.len() - i,
    {
        let ghost before = *mine;
        let name = theirs.entries[i].0.as_str();
        let present = mine.contains_key(name);
        if !present {
            let v = theirs.entries[i].1.clone();
            mine.insert(String::from_str(name), v);
        }
        proof {
            let key = name@;
            assert forall|p: Seq<char>|
                #[trigger] hinted_version(*mine, p) == (if hinted_version(start, p) is Some {
                    hinted_version(start, p)
                } else if has_name(all.take(i + 1), p) {
                    hinted_version(*theirs, p)
                } else {
                    None
                }) by {
                assert(hinted_version(before, p) == (if hinted_version(start, p) is Some {
                    hinted_version(start, p)
                } else if has_name(all.take(i as int), p) {
                    hinted_version(*theirs, p)
                } else {
                    None
                }));
                lemma_has_name_step(all, i as int, p);
                if p == key {
                    if !present {
                        assert(hinted_version(before, key) is None);
                        if has_name(all.take(i as int), key) {
                            lemma_take_has(all, i as int, key);
                        }
                        lemma_first_unique(all, key, i as int);
                    }
                }
            }
        }
        i = i + 1;
    }
    proof {
        assert(all.take(i as int) =~= all);
        assert forall|p: Seq<char>|
            #[trigger] hinted_version(*mine, p) == (if hinted_version(start, p) is Some {
                hinted_version(start, p)
            } else {
                hinted_version(*theirs, p)
            }) by {
            if !has_name(all, p) {
                assert(hinted_version(*theirs, p) is None);
            }
        }
    }
}

fn merge_revisions(mine: &mut NameMap<String>, theirs: &NameMap<String>)
    ensures
        old(mine).wf() ==> final(mine).wf(),
        forall|p: Seq<char>|
            #[trigger] hinted_revision(*final(mine), p) == (if hinted_revision(*old(mine), p)
                is Some {
                hinted_revision(*old(mine), p)
            } else {
                hinted_revision(*theirs, p)
            }),
{
    let ghost start = *mine;
    let ghost all = theirs.entries@;
    let mut i: usize = 0;
    while i < theirs.entries.len()
        invariant
            i <= theirs.entries@.len(),
            all == theirs.entries@,
            start.wf() ==> mine.wf(),
            forall|p: Seq<char>|
                #[trigger] hinted_revision(*mine, p) == (if hinted_revision(start, p) is Some {
                    hinted_revision(start, p)
                } else if has_name(all.take(i as int), p) {
                    hinted_revision(*theirs, p)
                } else {
                    None
                }),
        decreases theirs.entries@.len() - i,
    {
        let ghost before = *mine;
        let name = theirs.entries[i].0.as_str();
        let present = mine.contains_key(name);
        if !present {
            let v = theirs.entries[i].1.clone();
            mine.insert(String::from_str(name), v);
        }
        proof {
            let key = name@;
            assert forall|p: Seq<char>|
                #[trigger] hinted_revision(*mine, p) == (if hinted_revision(start, p) is Some {
                    hinted_revision(start, p)
                } else if has_name(all.take(i + 1), p) {
                    hinted_revision(*theirs, p)
                } else {
                    None
                }) by {
                assert(hinted_revision(before, p) == (if hinted_revision(start, p) is Some {
                    hinted_revision(start, p)
                } else if has_name(all.take(i as int), p) {
                    hinted_revision(*theirs, p)
                } else {
                    None
                }));
                lemma_has_name_step(all, i as int, p);
                if p == key {
                    if !present {
                        assert(hinted_revision(before, key) is None);
                        if has_name(all.take(i as int), key) {
                            lemma_take_has(all, i as int, key);
                        }
                        lemma_first_unique(all, key, i as int);
                    }
                }
            }
        }
        i = i + 1;
    }
    proof {
        assert(all.take(i as int) =~= all);
        assert forall|p: Seq<char>|
            #[trigger] hinted_revision(*mine, p) == (if hinted_revision(start, p) is Some {
                hinted_revision(start, p)
            } else {
                hinted_revision(*theirs, p)
            }) by {
            if !has_name(all, p) {
                assert(hinted_revision(*theirs, p) is None);
            }
        }
    }
}

/// A name found in the beginning of a list is found in the list.
pub proof fn lemma_take_has<V>(all: Seq<(String, V)>, n: int, key: Seq<char>)
    requires
        0 <= n <= all.len(),
        has_name(all.take(n), key),
    ensures
        has_name(all, key),
{
    let w = choose|w: int| 0 <= w < all.take(n).len() && all.take(n)[w].0@ == key;
    assert(all[w].0@ == key);
}

impl Clone for LockfileHints {
    fn clone(&self) -> (r: Self)
        ensures
            forall|p: Seq<char>| r.version_hint(p) == self.version_hint(p),
            forall|p: Seq<char>| r.revision_hint(p) == self.revision_hint(p),
            r.counts() == self.counts(),
    {
        let mut versions: Vec<(String, Version)> = Vec::new();
        let mut i: usize = 0;
        while i < self.preferred_versions.entries.len()
            invariant
                i <= self.preferred_versions.entries@.len(),
                versions@.len() == i,
                forall|j: int|
                    0 <= j < i ==> versions@[j].0@ == self.preferred_versions.entries@[j].0@
                        && versions@[j].1@ == self.preferred_versions.entries@[j].1@,
            decreases self.preferred_versions.entries@.len() - i,
        {
            let e = &self.preferred_versions.entries[i];
            versions.push((e.0.clone(), e.1.clone()));
            i = i + 1;
        }
        let mut revisions: Vec<(String, String)> = Vec::new();
        let mut j: usize = 0;
        while j < self.preferred_revisions.entries.len()
            invariant
                j <= self.preferred_revisions.entries@.len(),
                revisions@.len() == j,
                forall|k: int|
                    0 <= k < j ==> revisions@[k].0@ == self.preferred_revisions.entries@[k].0@
                        && revisions@[k].1@ == self.preferred_revisions.entries@[k].1@,
            decreases self.preferred_revisions.entries@.len() - j,
        {
            let e = &self.preferred_revisions.entries[j];
            revisions.push((e.0.clone(), e.1.clone()));
            j = j + 1;
        }
        proof {
            use_type_invariant(self);
            assert forall|a: int, b: int|
                0 <= a < versions@.len() && 0 <= b < versions@.len() && a != b implies versions@[a].0@
                != versions@[b].0@ by {
                assert(self.preferred_versions.entries@[a].0@
                    != self.preferred_versions.entries@[b].0@);
            }
            assert forall|a: int, b: int|
                0 <= a < revisions@.len() && 0 <= b < revisions@.len() && a != b implies revisions@[a].0@
                != revisions@[b].0@ by {
                assert(self.preferred_revisions.entries@[a].0@
                    != self.preferred_revisions.entries@[b].0@);
            }
        }
        let r = LockfileHints {
            preferred_versions: NameMap { entries: versions },
            preferred_revisions: NameMap { entries: revisions },
        };
        proof {
            assert forall|p: Seq<char>| r.version_hint(p) == self.version_hint(p) by {
                lemma_same_names(r.preferred_versions.entries@, self.preferred_versions.entries@, p);
            }
            assert forall|p: Seq<char>| r.revision_hint(p) == self.revision_hint(p) by {
                lemma_same_names(
                    r.preferred_revisions.entries@,
                    self.preferred_revisions.entries@,
                    p,
                );
            }
            assert(r.versioned() =~= self.versioned());
            assert(r.revisioned() =~= self.revisioned());
        }
        r
    }
}

/// Two lists with the same names in the same places find a name at the same
/// position.
pub proof fn lemma_same_names<V, W>(a: Seq<(String, V)>, b: Seq<(String, W)>, key: Seq<char>)
    requires
        a.len() == b.len(),
        forall|i: int| 0 <= i < a.len() ==> a[i].0@ == b[i].0@,
    ensures
        has_name(a, key) == has_name(b, key),
        has_name(a, key) ==> index_of(a, key) == index_of(b, key) && 0 <= index_of(a, key)
            < a.len(),
{
    if has_name(a, key) {
        let w = choose|i: int| 0 <= i < a.len() && a[i].0@ == key;
        assert(b[w].0@ == key);
        lemma_first_exists(a, key);
        let p = index_of(a, key);
        assert(crate::namemap::is_first(b, key, p)) by {
            assert(b[p].0@ == key);
            assert forall|j: int| 0 <= j < p implies b[j].0@ != key by {
                assert(a[j].0@ != key);
            }
        }
        lemma_first_unique(b, key, p);
    }
    if has_name(b, key) {
        let w = choose|i: int| 0 <= i < b.len() && b[i].0@ == key;
        assert(a[w].0@ == key);
    }
}

/// Why a version was chosen.
#[derive(Debug, Clone, Copy, PartialEq, Eq, Structural)]
pub enum ChoiceReason {
    /// It is the version of the lockfile.
    LockedHint,
    /// It is the highest version that fits.
    HighestCompatible,
    /// It is the lowest version that fits.
    LowestCompatible,
    /// An override forces it.
    Override,
    /// No other version is available.
    OnlyOption,
}

impl ChoiceReason {
    /// The reason in words.
    pub open spec fn text(self) -> Seq<char> {
        match self {
            ChoiceReason::LockedHint => "locked"@,
            ChoiceReason::HighestCompatible => "highest compatible"@,
            ChoiceReason::LowestCompatible => "lowest compatible"@,
            ChoiceReason::Override => "override"@,
            ChoiceReason::OnlyOption => "only option"@,
        }
    }

    /// The reason in words.
    pub fn to_string(&self) -> (out: String)
        ensures
            out@ == self.text(),
    {
        match self {
            ChoiceReason::LockedHint => String::from_str("locked"),
            ChoiceReason::HighestCompatible => String::from_str("highest compatible"),
            ChoiceReason::LowestCompatible => String::from_str("lowest compatible"),
            ChoiceReason::Override => String::from_str("override"),
            ChoiceReason::OnlyOption => String::from_str("only option"),
        }
    }
}

/// The record of a resolution: the version chosen for each package with the
/// reason, and for each package those that asked for it.
#[derive(Debug)]
pub struct ResolutionTrace {
    choices: NameMap<(Version, ChoiceReason)>,
    required_by: NameMap<Vec<String>>,
}

impl ResolutionTrace {
    /// The choice recorded for `package`, if there is one.
    pub closed spec fn choice_of(&self, package: Seq<char>) -> Option<(VersionModel, ChoiceReason)> {
        if self.choices.has(package) {
            Some((self.choices.value_of(package).0@, self.choices.value_of(package).1))
        } else {
            None
        }
    }

    /// The packages recorded as asking for `package`, in the order recorded.
    pub closed spec fn requirers_of(&self, package: Seq<char>) -> Seq<Seq<char>> {
        if self.required_by.has(package) {
            views(self.required_by.value_of(package)@)
        } else {
            Seq::<Seq<char>>::empty()
        }
    }

    /// An empty record.
    pub fn new() -> (r: Self)
        ensures
            forall|p: Seq<char>| r.choice_of(p) is None && r.requirers_of(p).len() == 0,
    {
        ResolutionTrace { choices: NameMap::new(), required_by: NameMap::new() }
    }

    /// Records that `version` was chosen for `package`, in place of an
    /// earlier choice.
    pub fn record_choice(&mut self, package: &str, version: &Version, reason: ChoiceReason)
        ensures
            final(self).choice_of(package@) == Some((version@, reason)),
            forall|p: Seq<char>|
                p != package@ ==> final(self).choice_of(p) == old(self).choice_of(p),
            forall|p: Seq<char>| final(self).requirers_of(p) == old(self).requirers_of(p),
    {
        self.choices.insert(String::from_str(package), (version.clone(), reason));
    }

    /// Records that `required_by` asks for `package`.
    pub fn record_requirement(&mut self, package: &str, required_by: &str)
        ensures
            final(self).requirers_of(package@) == old(self).requirers_of(package@).push(
                required_by@,
            ),
            forall|p: Seq<char>|
                p != package@ ==> final(self).requirers_of(p) == old(self).requirers_of(p),
            forall|p: Seq<char>| final(self).choice_of(p) == old(self).choice_of(p),
    {
        let mut list = match self.required_by.get(package) {
            Some(names) => clone_strings(names),
            None => Vec::new(),
        };
        let ghost before = list@;
        list.push(String::from_str(required_by));
        proof {
            assert(views(list@) =~= views(before).push(required_by@));
            assert(views(before) =~= old(self).requirers_of(package@));
        }
        self.required_by.insert(String::from_str(package), list);
    }

    /// The version chosen for `package` and the reason.
    pub fn get_choice(&self, package: &str) -> (r: Option<(&Version, ChoiceReason)>)
        ensures
            match r {
                Some((v, reason)) => self.choice_of(package@) == Some((v@, reason)),
                None => self.choice_of(package@) is None,
            },
    {
        match self.choices.get(package) {
            Some(entry) => Some((&entry.0, entry.1)),
            None => None,
        }
    }

    /// The packages that asked for `package`.
    pub fn get_required_by(&self, package: &str) -> (r: Vec<String>)
        ensures
            views(r@) == self.requirers_of(package@),
    {
        match self.required_by.get(package) {
            Some(names) => clone_strings(names),
            None => {
                let r: Vec<String> = Vec::new();
                assert(views(r@) =~= Seq::<Seq<char>>::empty());
                r
            },
        }
    }

    /// What the lockfile is told of `package`: those that asked for it.
    pub fn to_metadata(&self, package: &str) -> (r: ResolutionMetadata)
        ensures
            views(r.required_by@) == self.requirers_of(package@),
            r.constraints@.len() == 0,
    {
        ResolutionMetadata { required_by: self.get_required_by(package), constraints: Vec::new() }
    }
}

} // verus!
