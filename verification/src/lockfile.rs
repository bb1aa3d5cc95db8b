//! The lockfile: the packages that a resolution settled on, and how one
//! lockfile differs from another.

use vstd::prelude::*;
use crate::text::{
    decimal, lemma_sorted_order_in_order, lemma_sorted_texts_in_order, lemma_sorting_keeps_order,
    lemma_sorting_twice, positions, push_decimal, sort_order, sort_strings, sorted_order,
    sorted_texts, str_eq, views,
};
use crate::types::{clone_opt, clone_strings, opt_text, DependencySource};
use crate::version::{Version, VersionModel};

verus! {

/// A locked package as mathematical values.
pub struct LockedModel {
    pub name: Seq<char>,
    pub version: VersionModel,
    pub source: DependencySource,
    pub git: Option<Seq<char>>,
    pub revision: Option<Seq<char>>,
    pub checksum: Option<Seq<char>>,
    pub dependencies: Seq<Seq<char>>,
}

/// A package pinned to a version and to the place it came from.
#[derive(Debug)]
pub struct LockedPackage {
    pub name: String,
    pub version: Version,
    pub source: DependencySource,
    /// Repository URL, for a git package.
    pub git: Option<String>,
    /// Commit, for a git package.
    pub revision: Option<String>,
    /// Content hash, for a registry package.
    pub checksum: Option<String>,
    pub dependencies: Vec<String>,
}

impl View for LockedPackage {
    type V = LockedModel;

    open spec fn view(&self) -> LockedModel {
        LockedModel {
            name: self.name@,
            version: self.version@,
            source: self.source,
            git: opt_text(self.git),
            revision: opt_text(self.revision),
            checksum: opt_text(self.checksum),
            dependencies: views(self.dependencies@),
        }
    }
}

impl Clone for LockedPackage {
    fn clone(&self) -> (r: Self)
        ensures
            r@ == self@,
    {
        LockedPackage {
            name: self.name.clone(),
            version: self.version.clone(),
            source: self.source,
            git: clone_opt(&self.git),
            revision: clone_opt(&self.revision),
            checksum: clone_opt(&self.checksum),
            dependencies: clone_strings(&self.dependencies),
        }
    }
}

/// Whether two optional texts are the same.
pub fn same_opt(a: &Option<String>, b: &Option<String>) -> (r: bool)
    ensures
        r == (opt_text(*a) == opt_text(*b)),
{
    match (a, b) {
        (Some(x), Some(y)) => str_eq(x.as_str(), y.as_str()),
        (None, None) => true,
        _ => false,
    }
}

/// Whether two lists of texts are the same.
pub fn same_strings(a: &Vec<String>, b: &Vec<String>) -> (r: bool)
    ensures
        r == (views(a@) == views(b@)),
{
    if a.len() != b.len() {
        assert(views(a@).len() != views(b@).len());
        return false;
    }
    let mut i: usize = 0;
    while i < a.len()
        invariant
            i <= a@.len(),
            a@.len() == b@.len(),
            forall|j: int| 0 <= j < i ==> a@[j]@ == b@[j]@,
        decreases a@.len() - i,
    {
        if !str_eq(a[i].as_str(), b[i].as_str()) {
            assert(views(a@)[i as int] != views(b@)[i as int]);
            return false;
        }
        i = i + 1;
    }
    assert(views(a@) =~= views(b@));
    true
}

impl LockedPackage {
    /// A package locked to a commit of a git repository.
    pub fn git(name: &str, version: Version, url: &str, revision: String) -> (r: Self)
        ensures
            r@ == (LockedModel {
                name: name@,
                version: version@,
                source: DependencySource::Git,
                git: Some(url@),
                revision: Some(revision@),
                checksum: None,
                dependencies: Seq::<Seq<char>>::empty(),
            }),
    {
        let r = LockedPackage {
            name: String::from_str(name),
            version,
            source: DependencySource::Git,
            git: Some(String::from_str(url)),
            revision: Some(revision),
            checksum: None,
            dependencies: Vec::new(),
        };
        assert(views(r.dependencies@) =~= Seq::<Seq<char>>::empty());
        r
    }

    /// A package locked to a release of a registry.
    pub fn registry(name: &str, version: Version, checksum: String) -> (r: Self)
        ensures
            r@ == (LockedModel {
                name: name@,
                version: version@,
                source: DependencySource::Registry,
                git: None,
                revision: None,
                checksum: Some(checksum@),
                dependencies: Seq::<Seq<char>>::empty(),
            }),
    {
        let r = LockedPackage {
            name: String::from_str(name),
            version,
            source: DependencySource::Registry,
            git: None,
            revision: None,
            checksum: Some(checksum),
            dependencies: Vec::new(),
        };
        assert(views(r.dependencies@) =~= Seq::<Seq<char>>::empty());
        r
    }

    /// Whether the two packages agree in every field.
    pub fn same(&self, other: &LockedPackage) -> (r: bool)
        ensures
            r == (self@ == other@),
    {
        let source = match (self.source, other.source) {
            (DependencySource::Registry, DependencySource::Registry) => true,
            (DependencySource::Git, DependencySource::Git) => true,
            (DependencySource::Path, DependencySource::Path) => true,
            _ => false,
        };
        let r = str_eq(self.name.as_str(), other.name.as_str()) && self.version.same(
            &other.version,
        ) && source && same_opt(&self.git, &other.git) && same_opt(&self.revision, &other.revision)
            && same_opt(&self.checksum, &other.checksum) && same_strings(
            &self.dependencies,
            &other.dependencies,
        );
        r
    }
}

/// How the kind of a source is written in a lockfile.
pub open spec fn source_text(source: DependencySource) -> Seq<char> {
    match source {
        DependencySource::Registry => "registry"@,
        DependencySource::Git => "git"@,
        DependencySource::Path => "path"@,
    }
}

/// The kind of source that a text of a lockfile stands for; a text that
/// is none of the three names stands for nothing.
pub open spec fn source_of_text(text: Seq<char>) -> Option<DependencySource> {
    if text == "registry"@ {
        Some(DependencySource::Registry)
    } else if text == "git"@ {
        Some(DependencySource::Git)
    } else if text == "path"@ {
        Some(DependencySource::Path)
    } else {
        None
    }
}

/// How the kind of a source is written in a lockfile.
pub fn source_name(source: DependencySource) -> (r: &'static str)
    ensures
        r@ == source_text(source),
{
    match source {
        DependencySource::Registry => "registry",
        DependencySource::Git => "git",
        DependencySource::Path => "path",
    }
}

/// The kind of source that a text of a lockfile stands for.
pub fn parse_source(text: &str) -> (r: Option<DependencySource>)
    ensures
        r == source_of_text(text@),
{
    if str_eq(text, "registry") {
        Some(DependencySource::Registry)
    } else if str_eq(text, "git") {
        Some(DependencySource::Git)
    } else if str_eq(text, "path") {
        Some(DependencySource::Path)
    } else {
        None
    }
}

/// The kind of a source is read back as it was written.
pub proof fn lemma_source_text_is_read_back(source: DependencySource)
    ensures
        source_of_text(source_text(source)) == Some(source),
{
    reveal_strlit("registry");
    reveal_strlit("git");
    reveal_strlit("path");
    assert("registry"@.len() == 8);
    assert("git"@.len() == 3);
    assert("path"@.len() == 4);
}

/// The mathematical values of a list of locked packages.
pub open spec fn locked_views(s: Seq<LockedPackage>) -> Seq<LockedModel> {
    s.map_values(|p: LockedPackage| p@)
}

/// Whether the entry at position `i` is the first package called `name`.
pub open spec fn first_named(packages: Seq<LockedModel>, name: Seq<char>, i: int) -> bool {
    &&& 0 <= i < packages.len()
    &&& packages[i].name == name
    &&& forall|j: int| 0 <= j < i ==> packages[j].name != name
}

/// Whether a package called `name` is in the list.
pub open spec fn names(packages: Seq<LockedModel>, name: Seq<char>) -> bool {
    exists|i: int| 0 <= i < packages.len() && (#[trigger] packages[i]).name == name
}

/// The first package called `name`.
pub open spec fn named(packages: Seq<LockedModel>, name: Seq<char>) -> LockedModel {
    packages[choose|i: int| first_named(packages, name, i)]
}

/// Whether no two packages of the list have the same name.
pub open spec fn distinct(packages: Seq<LockedModel>) -> bool {
    forall|i: int, j: int|
        0 <= i < packages.len() && 0 <= j < packages.len() && i != j ==> (
        #[trigger] packages[i]).name != (#[trigger] packages[j]).name
}

/// How a package of the new list stands to the old list.
pub enum Change {
    Added,
    Updated,
    Unchanged,
}

/// How `package` stands to the list `old`: added where the old list does
/// not name it, unchanged where the old list holds it as it is, updated
/// where the old list holds it with other content.
pub open spec fn change_of(old: Seq<LockedModel>, package: LockedModel) -> Change {
    if !names(old, package.name) {
        Change::Added
    } else if named(old, package.name) == package {
        Change::Unchanged
    } else {
        Change::Updated
    }
}

/// The packages of `new` that were added to `old`, in order.
pub open spec fn added_of(old: Seq<LockedModel>, new: Seq<LockedModel>) -> Seq<LockedModel>
    decreases new.len(),
{
    if new.len() == 0 {
        Seq::<LockedModel>::empty()
    } else {
        let rest = added_of(old, new.drop_last());
        if change_of(old, new.last()) is Added {
            rest.push(new.last())
        } else {
            rest
        }
    }
}

/// The packages of `new` that `old` holds unchanged, in order.
pub open spec fn unchanged_of(old: Seq<LockedModel>, new: Seq<LockedModel>) -> Seq<LockedModel>
    decreases new.len(),
{
    if new.len() == 0 {
        Seq::<LockedModel>::empty()
    } else {
        let rest = unchanged_of(old, new.drop_last());
        if change_of(old, new.last()) is Unchanged {
            rest.push(new.last())
        } else {
            rest
        }
    }
}

/// The packages of `new` that `old` holds with other content, each with
/// what `old` holds, in order.
pub open spec fn updated_of(old: Seq<LockedModel>, new: Seq<LockedModel>) -> Seq<
    (LockedModel, LockedModel),
>
    decreases new.len(),
{
    if new.len() == 0 {
        Seq::<(LockedModel, LockedModel)>::empty()
    } else {
        let rest = updated_of(old, new.drop_last());
        if change_of(old, new.last()) is Updated {
            rest.push((named(old, new.last().name), new.last()))
        } else {
            rest
        }
    }
}

/// The packages of `old` that `new` does not name, in order.
pub open spec fn removed_of(old: Seq<LockedModel>, new: Seq<LockedModel>) -> Seq<LockedModel>
    decreases old.len(),
{
    if old.len() == 0 {
        Seq::<LockedModel>::empty()
    } else {
        let rest = removed_of(old.drop_last(), new);
        if !names(new, old.last().name) {
            rest.push(old.last())
        } else {
            rest
        }
    }
}

/// The difference between two lockfiles.
#[derive(Debug)]
pub struct LockfileDiff {
    /// Packages that only the new lockfile has.
    pub added: Vec<LockedPackage>,
    /// Packages that only the old lockfile has.
    pub removed: Vec<LockedPackage>,
    /// Packages that both have with different content: the old one, then
    /// the new one.
    pub updated: Vec<(LockedPackage, LockedPackage)>,
    /// Packages that both have with the same content.
    pub unchanged: Vec<LockedPackage>,
}

/// The mathematical values of a list of updates.
pub open spec fn update_views(s: Seq<(LockedPackage, LockedPackage)>) -> Seq<
    (LockedModel, LockedModel),
> {
    s.map_values(|u: (LockedPackage, LockedPackage)| (u.0@, u.1@))
}

/// One part of a summary, such as `2 added`; nothing for a count of zero.
pub open spec fn summary_part(count: nat, what: Seq<char>) -> Seq<Seq<char>> {
    if count == 0 {
        Seq::<Seq<char>>::empty()
    } else {
        seq![decimal(count) + " "@ + what]
    }
}

/// The summary of a difference: how many packages were added, removed and
/// updated, leaving out what did not happen.
pub open spec fn summary_text(added: nat, removed: nat, updated: nat) -> Seq<char> {
    let parts = summary_part(added, "added"@) + summary_part(removed, "removed"@) + summary_part(
        updated,
        "updated"@,
    );
    if parts.len() == 0 {
        "no changes"@
    } else {
        crate::text::join(parts, ", "@)
    }
}

impl LockfileDiff {
    /// Whether `self` is the difference between the lists `old` and `new`.
    pub open spec fn is_diff(&self, old: Seq<LockedModel>, new: Seq<LockedModel>) -> bool {
        &&& locked_views(self.added@) == added_of(old, new)
        &&& locked_views(self.removed@) == removed_of(old, new)
        &&& update_views(self.updated@) == updated_of(old, new)
        &&& locked_views(self.unchanged@) == unchanged_of(old, new)
    }

    /// Whether anything was added, removed or updated.
    pub fn has_changes(&self) -> (r: bool)
        ensures
            r == (self.added@.len() > 0 || self.removed@.len() > 0 || self.updated@.len() > 0),
    {
        self.added.len() > 0 || self.removed.len() > 0 || self.updated.len() > 0
    }

    /// The difference in words.
    pub fn summary(&self) -> (out: String)
        ensures
            out@ == summary_text(self.added@.len(), self.removed@.len(), self.updated@.len()),
    {
        let mut parts: Vec<String> = Vec::new();
        assert(views(parts@) =~= Seq::<Seq<char>>::empty());
        if self.added.len() > 0 {
            let mut part = String::new();
            push_decimal(&mut part, self.added.len() as u64);
            part.append(" ");
            part.append("added");
            let ghost before = parts@;
            parts.push(part);
            assert(views(parts@) =~= views(before) + summary_part(self.added@.len(), "added"@));
        }
        let ghost first = views(parts@);
        assert(first =~= summary_part(self.added@.len(), "added"@));
        if self.removed.len() > 0 {
            let mut part = String::new();
            push_decimal(&mut part, self.removed.len() as u64);
            part.append(" ");
            part.append("removed");
            let ghost before = parts@;
            parts.push(part);
            assert(views(parts@) =~= views(before) + summary_part(
                self.removed@.len(),
                "removed"@,
            ));
        }
        let ghost second = views(parts@);
        assert(second =~= first + summary_part(self.removed@.len(), "removed"@));
        if self.updated.len() > 0 {
            let mut part = String::new();
            push_decimal(&mut part, self.updated.len() as u64);
            part.append(" ");
            part.append("updated");
            let ghost before = parts@;
            parts.push(part);
            assert(views(parts@) =~= views(before) + summary_part(
                self.updated@.len(),
                "updated"@,
            ));
        }
        assert(views(parts@) =~= second + summary_part(self.updated@.len(), "updated"@));
        if parts.len() == 0 {
            String::from_str("no changes")
        } else {
            crate::text::join_strings(&parts, ", ")
        }
    }
}

/// The position of the first package called `name`.
pub fn find_locked(packages: &Vec<LockedPackage>, name: &str) -> (r: Option<usize>)
    ensures
        match r {
            Some(i) => first_named(locked_views(packages@), name@, i as int) && names(
                locked_views(packages@),
                name@,
            ) && locked_views(packages@)[i as int] == named(locked_views(packages@), name@),
            None => !names(locked_views(packages@), name@),
        },
{
    let ghost all = locked_views(packages@);
    let mut i: usize = 0;
    while i < packages.len()
        invariant
            i <= packages@.len(),
            all == locked_views(packages@),
            forall|j: int| 0 <= j < i ==> all[j].name != name@,
        decreases packages@.len() - i,
    {
        if str_eq(packages[i].name.as_str(), name) {
            proof {
                assert(all[i as int].name == name@);
                assert(first_named(all, name@, i as int));
                let k = choose|k: int| first_named(all, name@, k);
                if k < i {
                    assert(all[k].name != name@);
                } else if i < k {
                    assert(all[i as int].name != name@);
                }
            }
            return Some(i);
        }
        i = i + 1;
    }
    None
}

/// The difference between the package lists `old` and `new`.
pub fn diff_packages(old: &Vec<LockedPackage>, new: &Vec<LockedPackage>) -> (d: LockfileDiff)
    ensures
        d.is_diff(locked_views(old@), locked_views(new@)),
{
    let ghost o = locked_views(old@);
    let ghost n = locked_views(new@);
    let mut added: Vec<LockedPackage> = Vec::new();
    let mut updated: Vec<(LockedPackage, LockedPackage)> = Vec::new();
    let mut unchanged: Vec<LockedPackage> = Vec::new();
    let mut i: usize = 0;
    assert(locked_views(added@) =~= added_of(o, n.take(0)));
    assert(update_views(updated@) =~= updated_of(o, n.take(0)));
    assert(locked_views(unchanged@) =~= unchanged_of(o, n.take(0)));
    while i < new.len()
        invariant
            i <= new@.len(),
            o == locked_views(old@),
            n == locked_views(new@),
            locked_views(added@) == added_of(o, n.take(i as int)),
            update_views(updated@) == updated_of(o, n.take(i as int)),
            locked_views(unchanged@) == unchanged_of(o, n.take(i as int)),
        decreases new@.len() - i,
    {
        proof {
            let t = n.take(i + 1);
            assert(t.drop_last() =~= n.take(i as int));
            assert(t.last() == new@[i as int]@);
        }
        let package = &new[i];
        match find_locked(old, package.name.as_str()) {
            None => {
                let ghost before = added@;
                added.push(package.clone());
                assert(locked_views(added@) =~= locked_views(before).push(package@));
            },
            Some(at) => {
                assert(o[at as int] == old@[at as int]@);
                if old[at].same(package) {
                    let ghost before = unchanged@;
                    unchanged.push(package.clone());
                    assert(locked_views(unchanged@) =~= locked_views(before).push(package@));
                } else {
                    let ghost before = updated@;
                    updated.push((old[at].clone(), package.clone()));
                    assert(update_views(updated@) =~= update_views(before).push(
                        (old@[at as int]@, package@),
                    ));
                }
            },
        }
        i = i + 1;
    }
    assert(n.take(i as int) =~= n);
    let mut removed: Vec<LockedPackage> = Vec::new();
    let mut k: usize = 0;
    assert(locked_views(removed@) =~= removed_of(o.take(0), n));
    while k < old.len()
        invariant
            k <= old@.len(),
            o == locked_views(old@),
            n == locked_views(new@),
            locked_views(removed@) == removed_of(o.take(k as int), n),
        decreases old@.len() - k,
    {
        proof {
            let t = o.take(k + 1);
            assert(t.drop_last() =~= o.take(k as int));
            assert(t.last() == old@[k as int]@);
        }
        match find_locked(new, old[k].name.as_str()) {
            None => {
                let ghost before = removed@;
                removed.push(old[k].clone());
                assert(locked_views(removed@) =~= locked_views(before).push(old@[k as int]@));
            },
            Some(_) => {},
        }
        k = k + 1;
    }
    assert(o.take(k as int) =~= o);
    LockfileDiff { added, removed, updated, unchanged }
}

/// The packages in the order of their names. Packages of the same name
/// keep their order.
pub fn sort_by_name(packages: &Vec<LockedPackage>) -> (out: Vec<LockedPackage>)
    ensures
        out@.len() == packages@.len(),
        forall|k: int|
            0 <= k < out@.len() ==> (#[trigger] out@[k])@ == packages@[sorted_order(
                package_names(locked_views(packages@)),
                packages@.len() as int,
            )[k]]@,
{
    let mut keys: Vec<String> = Vec::new();
    let mut i: usize = 0;
    while i < packages.len()
        invariant
            i <= packages@.len(),
            keys@.len() == i,
            forall|j: int| 0 <= j < i ==> keys@[j]@ == packages@[j].name@,
        decreases packages@.len() - i,
    {
        keys.push(packages[i].name.clone());
        i = i + 1;
    }
    assert(views(keys@) =~= package_names(locked_views(packages@)));
    let order = sort_order(&keys);
    let mut out: Vec<LockedPackage> = Vec::new();
    let mut k: usize = 0;
    while k < order.len()
        invariant
            k <= order@.len(),
            order@.len() == packages@.len(),
            forall|j: int| 0 <= j < order@.len() ==> order@[j] < packages@.len(),
            out@.len() == k,
            forall|j: int| 0 <= j < k ==> (#[trigger] out@[j])@ == packages@[order@[j] as int]@,
        decreases order@.len() - k,
    {
        out.push(packages[order[k]].clone());
        k = k + 1;
    }
    proof {
        assert forall|j: int| 0 <= j < out@.len() implies (#[trigger] out@[j])@
            == packages@[sorted_order(
            package_names(locked_views(packages@)),
            packages@.len() as int,
        )[j]]@ by {
            assert(positions(order@)[j] == order@[j] as int);
        }
    }
    out
}

/// The names of a list of packages.
pub open spec fn package_names(packages: Seq<LockedModel>) -> Seq<Seq<char>> {
    packages.map_values(|p: LockedModel| p.name)
}

/// A package as it is written: with its dependencies in ascending order.
pub open spec fn canonical_package(p: LockedModel) -> LockedModel {
    LockedModel { dependencies: sorted_texts(p.dependencies), ..p }
}

/// The packages as a lockfile is written: in the order of their names,
/// each with its dependencies in ascending order. Packages of the same
/// name keep their order.
pub open spec fn canonical_of(packages: Seq<LockedModel>) -> Seq<LockedModel> {
    Seq::new(
        packages.len(),
        |k: int|
            canonical_package(
                packages[sorted_order(package_names(packages), packages.len() as int)[k]],
            ),
    )
}

/// The packages as a lockfile is written: see `canonical_of`.
pub fn canonical_packages(packages: &Vec<LockedPackage>) -> (out: Vec<LockedPackage>)
    ensures
        locked_views(out@) == canonical_of(locked_views(packages@)),
{
    let sorted = sort_by_name(packages);
    let mut out: Vec<LockedPackage> = Vec::new();
    let mut k: usize = 0;
    while k < sorted.len()
        invariant
            k <= sorted@.len(),
            out@.len() == k,
            forall|j: int|
                0 <= j < k ==> (#[trigger] out@[j])@ == canonical_package(sorted@[j]@),
        decreases sorted@.len() - k,
    {
        let p = &sorted[k];
        out.push(
            LockedPackage {
                name: p.name.clone(),
                version: p.version.clone(),
                source: p.source,
                git: clone_opt(&p.git),
                revision: clone_opt(&p.revision),
                checksum: clone_opt(&p.checksum),
                dependencies: sort_strings(&p.dependencies),
            },
        );
        k = k + 1;
    }
    proof {
        let all = locked_views(packages@);
        let order = sorted_order(package_names(all), all.len() as int);
        lemma_sorted_order_in_order(package_names(all), all.len() as int);
        assert forall|j: int| 0 <= j < out@.len() implies locked_views(out@)[j] == canonical_of(
            all,
        )[j] by {
            assert(0 <= order[j] < all.len());
            assert(sorted@[j]@ == packages@[order[j]]@);
            assert(all[order[j]] == packages@[order[j]]@);
            assert(locked_views(out@)[j] == out@[j]@);
        }
        assert(locked_views(out@) =~= canonical_of(all));
    }
    out
}

/// The packages that a resolution settled on.
#[derive(Debug)]
pub struct Lockfile {
    /// The version of the lockfile format.
    pub version: u32,
    pub packages: Vec<LockedPackage>,
}

impl Default for Lockfile {
    fn default() -> (r: Self)
        ensures
            r.version == 1,
            r.packages@.len() == 0,
    {
        Lockfile { version: 1, packages: Vec::new() }
    }
}

impl Lockfile {
    /// Whether no two packages have the same name.
    pub open spec fn wf(&self) -> bool {
        distinct(locked_views(self.packages@))
    }

    /// The difference between this lockfile and the package list `new`.
    pub fn diff(&self, new: &Vec<LockedPackage>) -> (d: LockfileDiff)
        ensures
            d.is_diff(locked_views(self.packages@), locked_views(new@)),
    {
        diff_packages(&self.packages, new)
    }

    /// Whether the package list `new` differs from this lockfile: whether a
    /// package was added, removed or updated.
    pub fn needs_update(&self, new: &Vec<LockedPackage>) -> (r: bool)
        ensures
            r == (added_of(locked_views(self.packages@), locked_views(new@)).len() > 0
                || removed_of(locked_views(self.packages@), locked_views(new@)).len() > 0
                || updated_of(locked_views(self.packages@), locked_views(new@)).len() > 0),
    {
        let d = self.diff(new);
        assert(locked_views(d.added@).len() == d.added@.len());
        assert(locked_views(d.removed@).len() == d.removed@.len());
        assert(update_views(d.updated@).len() == d.updated@.len());
        d.has_changes()
    }

    /// The lockfile as it is written: see `canonical_of`.
    pub fn canonical(&self) -> (r: Lockfile)
        ensures
            r.version == self.version,
            locked_views(r.packages@) == canonical_of(locked_views(self.packages@)),
    {
        Lockfile { version: self.version, packages: canonical_packages(&self.packages) }
    }

    /// Puts the package list `new` in place of the packages of this
    /// lockfile. The new list counts; this lockfile only shows in the
    /// difference that is handed back with the new lockfile, whose packages
    /// are in the order of their names.
    pub fn merge(&self, new: Vec<LockedPackage>) -> (r: (LockfileDiff, Lockfile))
        ensures
            r.0.is_diff(locked_views(self.packages@), locked_views(new@)),
            r.1.version == self.version,
            r.1.packages@.len() == new@.len(),
            forall|k: int|
                0 <= k < new@.len() ==> (#[trigger] r.1.packages@[k])@ == new@[sorted_order(
                    package_names(locked_views(new@)),
                    new@.len() as int,
                )[k]]@,
    {
        let d = self.diff(&new);
        let packages = sort_by_name(&new);
        (d, Lockfile { version: self.version, packages })
    }
}

proof fn lemma_first_named_exists(packages: Seq<LockedModel>, name: Seq<char>, w: int)
    requires
        0 <= w < packages.len(),
        packages[w].name == name,
    ensures
        exists|i: int| first_named(packages, name, i),
    decreases w,
{
    if exists|j: int| 0 <= j < w && (#[trigger] packages[j]).name == name {
        let j = choose|j: int| 0 <= j < w && (#[trigger] packages[j]).name == name;
        lemma_first_named_exists(packages, name, j);
    } else {
        assert(first_named(packages, name, w));
    }
}

proof fn lemma_self_unchanged(packages: Seq<LockedModel>, i: int)
    requires
        distinct(packages),
        0 <= i < packages.len(),
    ensures
        change_of(packages, packages[i]) is Unchanged,
{
    let name = packages[i].name;
    lemma_first_named_exists(packages, name, i);
    let k = choose|k: int| first_named(packages, name, k);
    assert(k == i);
}

proof fn lemma_diff_with_self(packages: Seq<LockedModel>, n: int)
    requires
        distinct(packages),
        0 <= n <= packages.len(),
    ensures
        added_of(packages, packages.take(n)).len() == 0,
        updated_of(packages, packages.take(n)).len() == 0,
        unchanged_of(packages, packages.take(n)) == packages.take(n),
        removed_of(packages.take(n), packages).len() == 0,
    decreases n,
{
    if n > 0 {
        lemma_diff_with_self(packages, n - 1);
        let t = packages.take(n);
        assert(t.drop_last() =~= packages.take(n - 1));
        assert(t.last() == packages[n - 1]);
        lemma_self_unchanged(packages, n - 1);
        assert(unchanged_of(packages, t) =~= t);
    } else {
        assert(unchanged_of(packages, packages.take(0)) =~= packages.take(0));
    }
}

/// The difference between a lockfile and itself has nothing added, nothing
/// removed and nothing updated: every package is unchanged.
pub proof fn lemma_diff_of_self_is_empty(lockfile: Lockfile, d: LockfileDiff)
    requires
        lockfile.wf(),
        d.is_diff(locked_views(lockfile.packages@), locked_views(lockfile.packages@)),
    ensures
        d.added@.len() == 0,
        d.removed@.len() == 0,
        d.updated@.len() == 0,
        locked_views(d.unchanged@) == locked_views(lockfile.packages@),
{
    let p = locked_views(lockfile.packages@);
    lemma_diff_with_self(p, p.len() as int);
    assert(p.take(p.len() as int) =~= p);
    assert(locked_views(d.added@).len() == d.added@.len());
    assert(locked_views(d.removed@).len() == d.removed@.len());
    assert(update_views(d.updated@).len() == d.updated@.len());
}

/// A lockfile that is written as it was read is written the same way
/// again: the form in which a lockfile is written is a fixed point.
pub proof fn lemma_canonical_is_fixed(packages: Seq<LockedModel>)
    ensures
        canonical_of(canonical_of(packages)) == canonical_of(packages),
{
    let once = canonical_of(packages);
    let names = package_names(packages);
    let order = sorted_order(names, packages.len() as int);
    lemma_sorted_order_in_order(names, packages.len() as int);
    assert forall|k: int| 0 <= k < once.len() implies package_names(once)[k] == sorted_texts(
        names,
    )[k] by {
        assert(0 <= order[k] < packages.len());
        assert(names[order[k]] == packages[order[k]].name);
    }
    assert(package_names(once) =~= sorted_texts(names));
    lemma_sorted_texts_in_order(names);
    lemma_sorting_keeps_order(package_names(once));
    assert forall|k: int| 0 <= k < once.len() implies canonical_of(once)[k] == once[k] by {
        assert(0 <= order[k] < packages.len());
        lemma_sorting_twice(packages[order[k]].dependencies);
    }
    assert(canonical_of(once) =~= once);
}

} // verus!
