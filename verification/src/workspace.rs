//! Workspaces: several packages under one root that share a lockfile.

use vstd::prelude::*;
use crate::namemap::NameMap;
use crate::resolver::error::{error_text, ResolveError};
use crate::resolver::{Resolution, ResolvedDep};
use crate::text::{
    chars_occur_at, chars_slice, concat, concat3, from_chars, has_prefix, has_substring,
    has_suffix, push_char, split, split_on, str_contains, str_ends_with, str_eq,
    str_starts_with, to_chars, views,
};
use crate::types::{Dependency, DependencyModel, Manifest, WorkspaceConfig};

verus! {

/// What can go wrong with a workspace.
#[derive(Debug)]
pub enum WorkspaceError {
    NotFound(String),
    ManifestError(String),
    InvalidConfig(String),
    MemberNotFound(String),
    GlobError(String),
    IoError(String),
    CycleDetected { cycle: Vec<String> },
    ResolverError(ResolveError),
}

/// The message of an error.
pub open spec fn workspace_error_text(e: WorkspaceError) -> Seq<char> {
    match e {
        WorkspaceError::NotFound(p) => "No workspace found in "@ + p@
            + " or any parent directory"@,
        WorkspaceError::ManifestError(m) => "Failed to read manifest: "@ + m@,
        WorkspaceError::InvalidConfig(m) => "Invalid workspace configuration: "@ + m@,
        WorkspaceError::MemberNotFound(m) => "Member not found: "@ + m@,
        WorkspaceError::GlobError(m) => "Glob pattern error: "@ + m@,
        WorkspaceError::IoError(m) => "IO error: "@ + m@,
        WorkspaceError::CycleDetected { cycle } => "Cycle detected in workspace dependencies"@,
        WorkspaceError::ResolverError(e) => "Resolver error: "@ + error_text(e),
    }
}

impl WorkspaceError {
    /// The message of the error.
    pub fn to_string(&self) -> (out: String)
        ensures
            out@ == workspace_error_text(*self),
    {
        match self {
            WorkspaceError::NotFound(p) => concat3(
                "No workspace found in ",
                p.as_str(),
                " or any parent directory",
            ),
            WorkspaceError::ManifestError(m) => concat("Failed to read manifest: ", m.as_str()),
            WorkspaceError::InvalidConfig(m) => concat(
                "Invalid workspace configuration: ",
                m.as_str(),
            ),
            WorkspaceError::MemberNotFound(m) => concat("Member not found: ", m.as_str()),
            WorkspaceError::GlobError(m) => concat("Glob pattern error: ", m.as_str()),
            WorkspaceError::IoError(m) => concat("IO error: ", m.as_str()),
            WorkspaceError::CycleDetected { cycle } => String::from_str(
                "Cycle detected in workspace dependencies",
            ),
            WorkspaceError::ResolverError(e) => concat("Resolver error: ", e.to_string().as_str()),
        }
    }
}

/// The path `path` as seen from `root`: what follows `root` and the `/`
/// behind it, or `path` itself where it does not lie under `root`.
pub open spec fn relative_to(path: Seq<char>, root: Seq<char>) -> Seq<char> {
    if path == root {
        Seq::<char>::empty()
    } else if root.len() > 0 && root.last() == '/' && has_prefix(path, root) {
        path.skip(root.len() as int)
    } else if root.len() > 0 && has_prefix(path, root + seq!['/']) {
        path.skip(root.len() as int + 1)
    } else {
        path
    }
}

/// Whether an exclusion pattern covers the relative path `rel`. A pattern
/// without `*` covers the path equal to it. A pattern with one `*` covers
/// the paths that begin with what stands before the `*` and end with what
/// stands behind it. A pattern with more than one `*` covers nothing.
pub open spec fn pattern_covers(pattern: Seq<char>, rel: Seq<char>) -> bool {
    let parts = split(pattern, '*');
    if parts.len() == 1 {
        rel == parts[0]
    } else if parts.len() == 2 {
        has_prefix(rel, parts[0]) && has_suffix(rel, parts[1])
    } else {
        false
    }
}

/// Whether one of the patterns covers `rel`.
pub open spec fn covered(patterns: Seq<Seq<char>>, rel: Seq<char>) -> bool {
    exists|i: int| 0 <= i < patterns.len() && pattern_covers(#[trigger] patterns[i], rel)
}

/// Finds the members of a workspace.
pub struct WorkspaceDiscovery;

impl WorkspaceDiscovery {
    /// The path `path` as seen from `root`.
    pub fn relative(path: &str, root: &str) -> (out: String)
        ensures
            out@ == relative_to(path@, root@),
    {
        if str_eq(path, root) {
            return String::new();
        }
        let p = to_chars(path);
        let r = to_chars(root);
        if r.len() == 0 || !chars_occur_at(&p, &r, 0) {
            proof {
                if r.len() > 0 {
                    assert(!has_prefix(path@, root@));
                    if has_prefix(path@, root@ + seq!['/']) {
                        assert(path@.subrange(0, root@.len() as int) =~= (root@ + seq!['/']).subrange(
                            0,
                            root@.len() as int,
                        ));
                        assert((root@ + seq!['/']).subrange(0, root@.len() as int) =~= root@);
                        assert(path@.subrange(0, (root@ + seq!['/']).len() as int).subrange(
                            0,
                            root@.len() as int,
                        ) =~= path@.subrange(0, root@.len() as int));
                    }
                }
            }
            return String::from_str(path);
        }
        let cut: usize = if r[r.len() - 1] == '/' {
            r.len()
        } else if p.len() > r.len() && p[r.len()] == '/' {
            proof {
                assert(path@.subrange(0, root@.len() as int + 1) =~= root@ + seq!['/']);
            }
            r.len() + 1
        } else {
            proof {
                if has_prefix(path@, root@ + seq!['/']) {
                    assert(path@.subrange(0, root@.len() as int + 1)[root@.len() as int] == '/');
                }
            }
            return String::from_str(path);
        };
        let out = from_chars(&chars_slice(&p, cut, p.len()));
        assert(out@ =~= path@.skip(cut as int));
        out
    }

    /// Whether the directory `path` under the workspace `root` is excluded
    /// by one of the patterns.
    pub fn is_excluded(path: &str, root: &str, exclude: &Vec<String>) -> (r: bool)
        ensures
            r == covered(views(exclude@), relative_to(path@, root@)),
    {
        let rel = WorkspaceDiscovery::relative(path, root);
        let mut i: usize = 0;
        while i < exclude.len()
            invariant
                i <= exclude@.len(),
                rel@ == relative_to(path@, root@),
                forall|j: int| 0 <= j < i ==> !pattern_covers(#[trigger] views(exclude@)[j], rel@),
            decreases exclude@.len() - i,
        {
            let parts = split_on(exclude[i].as_str(), '*');
            let covers = if parts.len() == 1 {
                str_eq(rel.as_str(), parts[0].as_str())
            } else if parts.len() == 2 {
                str_starts_with(rel.as_str(), parts[0].as_str()) && str_ends_with(
                    rel.as_str(),
                    parts[1].as_str(),
                )
            } else {
                false
            };
            proof {
                assert(views(parts@).len() == parts@.len());
                assert(views(exclude@)[i as int] == exclude@[i as int]@);
                if parts.len() >= 1 {
                    assert(views(parts@)[0] == parts@[0]@);
                }
                if parts.len() >= 2 {
                    assert(views(parts@)[1] == parts@[1]@);
                }
                assert(covers == pattern_covers(exclude@[i as int]@, rel@));
            }
            if covers {
                return true;
            }
            i = i + 1;
        }
        false
    }

    /// The names of the files that make a directory a package.
    pub fn manifest_names() -> (out: Vec<String>)
        ensures
            out@.len() == 2,
            out@[0]@ == "Gust.toml"@,
            out@[1]@ == "Package.swift"@,
    {
        let mut out: Vec<String> = Vec::new();
        out.push(String::from_str("Gust.toml"));
        out.push(String::from_str("Package.swift"));
        out
    }
}

/// A package of a workspace.
#[derive(Debug)]
pub struct WorkspaceMember {
    /// The directory of the member.
    pub path: String,
    pub name: String,
    /// The manifest of the member, with what it inherits from the workspace
    /// filled in.
    pub manifest: Manifest,
    /// The names of the other members that this one depends on.
    pub workspace_deps: Vec<String>,
}

/// A workspace with its members.
#[derive(Debug)]
pub struct Workspace {
    /// The directory of the workspace.
    pub root: String,
    pub root_manifest: Manifest,
    pub config: WorkspaceConfig,
    pub members: Vec<WorkspaceMember>,
    /// The dependencies that members may inherit.
    pub shared_dependencies: NameMap<Dependency>,
}

/// Whether the member at position `i` is the first one called `name`.
pub open spec fn first_member(members: Seq<WorkspaceMember>, name: Seq<char>, i: int) -> bool {
    &&& 0 <= i < members.len()
    &&& members[i].name@ == name
    &&& forall|j: int| 0 <= j < i ==> members[j].name@ != name
}

/// Whether a member is called `name`.
pub open spec fn has_member(members: Seq<WorkspaceMember>, name: Seq<char>) -> bool {
    exists|i: int| 0 <= i < members.len() && (#[trigger] members[i]).name@ == name
}

/// A text without its `*`.
pub open spec fn without_stars(s: Seq<char>) -> Seq<char>
    decreases s.len(),
{
    if s.len() == 0 {
        s
    } else if s.last() == '*' {
        without_stars(s.drop_last())
    } else {
        without_stars(s.drop_last()).push(s.last())
    }
}

/// Whether a filter selects a member: `*` selects every member, any other
/// filter those whose name or path holds the filter without its `*`.
pub open spec fn selected(pattern: Seq<char>, member: WorkspaceMember) -> bool {
    pattern == "*"@ || has_substring(member.name@, without_stars(pattern)) || has_substring(
        member.path@,
        without_stars(pattern),
    )
}

/// The positions of the members among the first `upto` that a filter
/// selects.
pub open spec fn selection_of(members: Seq<WorkspaceMember>, pattern: Seq<char>, upto: int) -> Seq<
    int,
>
    decreases upto,
{
    if upto <= 0 {
        Seq::<int>::empty()
    } else {
        let rest = selection_of(members, pattern, upto - 1);
        if selected(pattern, members[upto - 1]) {
            rest.push(upto - 1)
        } else {
            rest
        }
    }
}

impl Workspace {
    /// The position of the first member called `name`.
    pub fn member_position(&self, name: &str) -> (r: Option<usize>)
        ensures
            match r {
                Some(i) => first_member(self.members@, name@, i as int),
                None => !has_member(self.members@, name@),
            },
    {
        let mut i: usize = 0;
        while i < self.members.len()
            invariant
                i <= self.members@.len(),
                forall|j: int| 0 <= j < i ==> self.members@[j].name@ != name@,
            decreases self.members@.len() - i,
        {
            if str_eq(self.members[i].name.as_str(), name) {
                return Some(i);
            }
            i = i + 1;
        }
        None
    }

    /// Whether `path` is the directory of a member.
    pub fn is_member(&self, path: &str) -> (r: bool)
        ensures
            r == exists|i: int|
                0 <= i < self.members@.len() && (#[trigger] self.members@[i]).path@ == path@,
    {
        let mut i: usize = 0;
        while i < self.members.len()
            invariant
                i <= self.members@.len(),
                forall|j: int| 0 <= j < i ==> (#[trigger] self.members@[j]).path@ != path@,
            decreases self.members@.len() - i,
        {
            if str_eq(self.members[i].path.as_str(), path) {
                return true;
            }
            i = i + 1;
        }
        false
    }

    /// The first member called `name`.
    pub fn get_member(&self, name: &str) -> (r: Option<&WorkspaceMember>)
        ensures
            match r {
                Some(m) => exists|i: int|
                    first_member(self.members@, name@, i) && *m == self.members@[i],
                None => !has_member(self.members@, name@),
            },
    {
        match self.member_position(name) {
            Some(i) => Some(&self.members[i]),
            None => None,
        }
    }

    /// The names of the members, in order.
    pub fn member_names(&self) -> (out: Vec<String>)
        ensures
            out@.len() == self.members@.len(),
            forall|i: int| 0 <= i < out@.len() ==> out@[i]@ == self.members@[i].name@,
    {
        let mut out: Vec<String> = Vec::new();
        let mut i: usize = 0;
        while i < self.members.len()
            invariant
                i <= self.members@.len(),
                out@.len() == i,
                forall|j: int| 0 <= j < i ==> out@[j]@ == self.members@[j].name@,
            decreases self.members@.len() - i,
        {
            out.push(self.members[i].name.clone());
            i = i + 1;
        }
        out
    }

    /// The members that a filter selects, in order.
    pub fn filter_members(&self, pattern: &str) -> (out: Vec<&WorkspaceMember>)
        ensures
            out@.len() == selection_of(self.members@, pattern@, self.members@.len() as int).len(),
            forall|k: int|
                0 <= k < out@.len() ==> *(#[trigger] out@[k]) == self.members@[selection_of(
                    self.members@,
                    pattern@,
                    self.members@.len() as int,
                )[k]],
    {
        let all = str_eq(pattern, "*");
        let chars = to_chars(pattern);
        let mut stripped = String::new();
        let mut c: usize = 0;
        assert(stripped@ =~= without_stars(chars@.take(0)));
        while c < chars.len()
            invariant
                c <= chars@.len(),
                stripped@ == without_stars(chars@.take(c as int)),
            decreases chars@.len() - c,
        {
            proof {
                let t = chars@.take(c + 1);
                assert(t.drop_last() =~= chars@.take(c as int));
                assert(t.last() == chars@[c as int]);
            }
            if chars[c] != '*' {
                push_char(&mut stripped, chars[c]);
            }
            c = c + 1;
        }
        assert(chars@.take(c as int) =~= chars@);
        let mut out: Vec<&WorkspaceMember> = Vec::new();
        let mut i: usize = 0;
        while i < self.members.len()
            invariant
                i <= self.members@.len(),
                all == (pattern@ == "*"@),
                stripped@ == without_stars(pattern@),
                out@.len() == selection_of(self.members@, pattern@, i as int).len(),
                forall|k: int|
                    0 <= k < out@.len() ==> *(#[trigger] out@[k]) == self.members@[selection_of(
                        self.members@,
                        pattern@,
                        i as int,
                    )[k]],
            decreases self.members@.len() - i,
        {
            let member = &self.members[i];
            let ghost before = out@;
            let ghost earlier = selection_of(self.members@, pattern@, i as int);
            if all || str_contains(member.name.as_str(), stripped.as_str()) || str_contains(
                member.path.as_str(),
                stripped.as_str(),
            ) {
                out.push(member);
            }
            proof {
                let later = selection_of(self.members@, pattern@, i + 1);
                assert forall|k: int| 0 <= k < out@.len() implies *(#[trigger] out@[k])
                    == self.members@[later[k]] by {
                    if k < before.len() {
                        assert(out@[k] == before[k]);
                        assert(later[k] == earlier[k]);
                    }
                }
            }
            i = i + 1;
        }
        out
    }
}

/// A map from names to values as mathematical values, in order.
pub open spec fn put<V>(entries: Seq<(Seq<char>, V)>, key: Seq<char>, value: V) -> Seq<
    (Seq<char>, V),
>
    decreases entries.len(),
{
    if entries.len() == 0 {
        seq![(key, value)]
    } else if entries[0].0 == key {
        entries.update(0, (key, value))
    } else {
        seq![entries[0]] + put(entries.drop_first(), key, value)
    }
}

/// The mathematical values of a map of dependencies.
pub open spec fn dependency_entries(s: Seq<(String, Dependency)>) -> Seq<
    (Seq<char>, DependencyModel),
> {
    s.map_values(|e: (String, Dependency)| (e.0@, e.1@))
}

/// An insertion into a map puts the entry into its list of values: in
/// place of the entry of that name, or behind all entries.
pub proof fn lemma_put_matches_insert(
    before: Seq<(String, Dependency)>,
    after: Seq<(String, Dependency)>,
    key: Seq<char>,
    value: DependencyModel,
)
    requires
        crate::namemap::has_name(before, key) ==> after.len() == before.len() && (forall|j: int|
            0 <= j < before.len() && j != crate::namemap::index_of(before, key) ==> after[j]
                == before[j]) && after[crate::namemap::index_of(before, key)].0@ == key
            && after[crate::namemap::index_of(before, key)].1@ == value,
        !crate::namemap::has_name(before, key) ==> after.len() == before.len() + 1 && (forall|
            j: int,
        |
            0 <= j < before.len() ==> after[j] == before[j]) && after[before.len() as int].0@ == key
            && after[before.len() as int].1@ == value,
    ensures
        dependency_entries(after) == put(dependency_entries(before), key, value),
    decreases before.len(),
{
    let b = dependency_entries(before);
    let a = dependency_entries(after);
    if before.len() == 0 {
        assert(!crate::namemap::has_name(before, key));
        assert(a =~= seq![(key, value)]);
    } else if before[0].0@ == key {
        assert(crate::namemap::is_first(before, key, 0));
        crate::namemap::lemma_first_unique(before, key, 0);
        assert(a =~= b.update(0, (key, value)));
    } else {
        let rest_before = before.drop_first();
        let rest_after = after.drop_first();
        if crate::namemap::has_name(before, key) {
            crate::namemap::lemma_first_exists(before, key);
            let at = crate::namemap::index_of(before, key);
            assert(at > 0);
            assert(crate::namemap::is_first(rest_before, key, at - 1)) by {
                assert(rest_before[at - 1] == before[at]);
                assert forall|j: int| 0 <= j < at - 1 implies rest_before[j].0@ != key by {
                    assert(rest_before[j] == before[j + 1]);
                }
            }
            crate::namemap::lemma_first_unique(rest_before, key, at - 1);
            assert forall|j: int|
                0 <= j < rest_before.len() && j != at - 1 implies rest_after[j]
                == rest_before[j] by {
                assert(rest_after[j] == after[j + 1]);
                assert(rest_before[j] == before[j + 1]);
            }
            assert(rest_after[at - 1] == after[at]);
        } else {
            assert(!crate::namemap::has_name(rest_before, key)) by {
                if crate::namemap::has_name(rest_before, key) {
                    let w = choose|w: int| 0 <= w < rest_before.len() && rest_before[w].0@ == key;
                    assert(before[w + 1].0@ == key);
                }
            }
            assert forall|j: int| 0 <= j < rest_before.len() implies rest_after[j]
                == rest_before[j] by {
                assert(rest_after[j] == after[j + 1]);
                assert(rest_before[j] == before[j + 1]);
            }
            assert(rest_after[rest_before.len() as int] == after[before.len() as int]);
        }
        lemma_put_matches_insert(rest_before, rest_after, key, value);
        assert(dependency_entries(rest_before) =~= b.drop_first());
        assert(dependency_entries(rest_after) =~= a.drop_first());
        assert(a =~= seq![b[0]] + put(b.drop_first(), key, value));
    }
}

/// The external dependencies of the first `upto` entries of a member: those
/// that name no member, put into `sofar`.
pub open spec fn externals_of_member(
    members: Seq<WorkspaceMember>,
    sofar: Seq<(Seq<char>, DependencyModel)>,
    entries: Seq<(String, Dependency)>,
    upto: int,
) -> Seq<(Seq<char>, DependencyModel)>
    decreases upto,
{
    if upto <= 0 {
        sofar
    } else {
        let rest = externals_of_member(members, sofar, entries, upto - 1);
        let entry = entries[upto - 1];
        if has_member(members, entry.0@) {
            rest
        } else {
            put(rest, entry.0@, entry.1@)
        }
    }
}

/// The external dependencies of the first `upto` members.
pub open spec fn externals(members: Seq<WorkspaceMember>, upto: int) -> Seq<
    (Seq<char>, DependencyModel),
>
    decreases upto,
{
    if upto <= 0 {
        Seq::<(Seq<char>, DependencyModel)>::empty()
    } else {
        let entries = members[upto - 1].manifest.dependencies.entries@;
        externals_of_member(members, externals(members, upto - 1), entries, entries.len() as int)
    }
}

impl Workspace {
    /// The dependencies of all members on packages outside the workspace,
    /// by name. Where several members depend on a package, what the last
    /// one says of it counts.
    pub fn all_external_dependencies(&self) -> (out: NameMap<Dependency>)
        ensures
            dependency_entries(out.entries@) == externals(
                self.members@,
                self.members@.len() as int,
            ),
    {
        let mut out: NameMap<Dependency> = NameMap::new();
        let mut m: usize = 0;
        assert(dependency_entries(out.entries@) =~= externals(self.members@, 0));
        while m < self.members.len()
            invariant
                m <= self.members@.len(),
                dependency_entries(out.entries@) == externals(self.members@, m as int),
            decreases self.members@.len() - m,
        {
            let entries = &self.members[m].manifest.dependencies.entries;
            let ghost start = dependency_entries(out.entries@);
            let mut i: usize = 0;
            while i < entries.len()
                invariant
                    i <= entries@.len(),
                    m < self.members@.len(),
                    entries == &self.members@[m as int].manifest.dependencies.entries,
                    dependency_entries(out.entries@) == externals_of_member(
                        self.members@,
                        start,
                        entries@,
                        i as int,
                    ),
                decreases entries@.len() - i,
            {
                let name = entries[i].0.as_str();
                if self.member_position(name).is_none() {
                    let ghost before = out.entries@;
                    let dep = entries[i].1.clone();
                    out.insert(String::from_str(name), dep);
                    proof {
                        if crate::namemap::has_name(before, name@) {
                            crate::namemap::lemma_first_exists(before, name@);
                        }
                        lemma_put_matches_insert(before, out.entries@, name@, entries@[i as int].1@);
                    }
                }
                i = i + 1;
            }
            m = m + 1;
        }
        out
    }
}

/// What a dependency of a member becomes when the member is loaded.
pub enum Inherited {
    /// The dependency is on another member and stays as it is.
    Member,
    /// The dependency is taken from the workspace.
    Shared,
    /// The dependency stays as it is.
    Own,
    /// The dependency is to be taken from the workspace, which has none of
    /// that name.
    Missing,
}

/// What the dependency `dep` called `name` becomes when a member is
/// loaded: a dependency on another member stays as it is; one without a
/// source of its own is taken from the workspace; any other stays as it is.
pub open spec fn inheritance(
    name: Seq<char>,
    dep: DependencyModel,
    shared: NameMap<Dependency>,
    member_names: Seq<Seq<char>>,
) -> Inherited {
    if member_names.contains(name) {
        Inherited::Member
    } else if dep.version is None && dep.git is None && dep.path is None {
        if shared.has(name) {
            Inherited::Shared
        } else {
            Inherited::Missing
        }
    } else {
        Inherited::Own
    }
}

/// Whether the dependency at position `i` is to be taken from the
/// workspace, which has none of that name.
pub open spec fn lacks_shared(
    entries: Seq<(String, Dependency)>,
    shared: NameMap<Dependency>,
    names: Seq<Seq<char>>,
    i: int,
) -> bool {
    inheritance(entries[i].0@, entries[i].1@, shared, names) is Missing
}

/// The message for a dependency that the workspace lacks.
pub open spec fn missing_shared_text(name: Seq<char>) -> Seq<char> {
    "Dependency '"@ + name + "' marked as workspace but not found in [workspace.dependencies]"@
}

/// The names among the first `upto` dependencies that are members.
pub open spec fn member_dependencies(
    entries: Seq<(String, Dependency)>,
    member_names: Seq<Seq<char>>,
    upto: int,
) -> Seq<Seq<char>>
    decreases upto,
{
    if upto <= 0 {
        Seq::<Seq<char>>::empty()
    } else {
        let rest = member_dependencies(entries, member_names, upto - 1);
        if member_names.contains(entries[upto - 1].0@) {
            rest.push(entries[upto - 1].0@)
        } else {
            rest
        }
    }
}

/// Loads the members of a workspace.
#[derive(Debug)]
pub struct WorkspaceLoader {
    resolve_inheritance: bool,
}

impl Clone for WorkspaceLoader {
    fn clone(&self) -> (r: Self)
        ensures
            r == *self,
    {
        WorkspaceLoader { resolve_inheritance: self.resolve_inheritance }
    }
}

impl Default for WorkspaceLoader {
    fn default() -> (r: Self)
        ensures
            r.inherits(),
    {
        WorkspaceLoader::new()
    }
}

fn is_listed(names: &Vec<String>, name: &str) -> (r: bool)
    ensures
        r == views(names@).contains(name@),
{
    let mut i: usize = 0;
    while i < names.len()
        invariant
            i <= names@.len(),
            forall|j: int| 0 <= j < i ==> names@[j]@ != name@,
        decreases names@.len() - i,
    {
        if str_eq(names[i].as_str(), name) {
            assert(views(names@)[i as int] == name@);
            return true;
        }
        i = i + 1;
    }
    assert forall|j: int| 0 <= j < views(names@).len() implies views(names@)[j] != name@ by {
        assert(views(names@)[j] == names@[j]@);
    }
    false
}

impl WorkspaceLoader {
    /// Whether members inherit dependencies from the workspace.
    pub closed spec fn inherits(&self) -> bool {
        self.resolve_inheritance
    }

    /// A loader whose members inherit from the workspace.
    pub fn new() -> (r: Self)
        ensures
            r.inherits(),
    {
        WorkspaceLoader { resolve_inheritance: true }
    }

    /// The same loader, whose members take their manifests as they are.
    pub fn without_inheritance(self) -> (r: Self)
        ensures
            !r.inherits(),
    {
        WorkspaceLoader { resolve_inheritance: false }
    }

    /// The member in `path` with the given manifest.
    ///
    /// Where members inherit, each dependency of the manifest is looked at
    /// in order, see `inheritance`: the dependencies on other members are
    /// noted, and dependencies without a source of their own are taken
    /// from the workspace. The first such dependency that the workspace
    /// lacks is an error. Where members do not inherit, the manifest stays
    /// as it is.
    pub fn load_member(
        &self,
        path: &str,
        manifest: Manifest,
        shared_deps: &NameMap<Dependency>,
        all_member_names: &Vec<String>,
    ) -> (r: Result<WorkspaceMember, WorkspaceError>)
        ensures
            ({
                let entries = manifest.dependencies.entries@;
                let names = views(all_member_names@);
                match r {
                    Err(e) => {
                        &&& self.inherits()
                        &&& e matches WorkspaceError::InvalidConfig(m)
                        &&& exists|i: int|
                            0 <= i < entries.len() && #[trigger] lacks_shared(
                                entries,
                                *shared_deps,
                                names,
                                i,
                            ) && (forall|j: int|
                                0 <= j < i ==> !#[trigger] lacks_shared(
                                    entries,
                                    *shared_deps,
                                    names,
                                    j,
                                )) && m@ == missing_shared_text(entries[i].0@)
                    },
                    Ok(member) => {
                        &&& member.path@ == path@
                        &&& member.name@ == manifest.package.name@
                        &&& member.manifest == (Manifest {
                            dependencies: member.manifest.dependencies,
                            ..manifest
                        })
                        &&& member.manifest.dependencies.entries@.len() == entries.len()
                        &&& if self.inherits() {
                            &&& forall|i: int|
                                0 <= i < entries.len() ==> !#[trigger] lacks_shared(
                                    entries,
                                    *shared_deps,
                                    names,
                                    i,
                                )
                            &&& views(member.workspace_deps@) == member_dependencies(
                                entries,
                                names,
                                entries.len() as int,
                            )
                            &&& forall|i: int|
                                0 <= i < entries.len() ==> {
                                    let e = #[trigger] member.manifest.dependencies.entries@[i];
                                    &&& e.0@ == entries[i].0@
                                    &&& e.1@ == (if inheritance(
                                        entries[i].0@,
                                        entries[i].1@,
                                        *shared_deps,
                                        names,
                                    ) is Shared {
                                        shared_deps.value_of(entries[i].0@)@
                                    } else {
                                        entries[i].1@
                                    })
                                }
                        } else {
                            &&& member.workspace_deps@.len() == 0
                            &&& member.manifest.dependencies == manifest.dependencies
                        }
                    },
                }
            }),
    {
        let name = manifest.package.name.clone();
        if !self.resolve_inheritance {
            return Ok(
                WorkspaceMember {
                    path: String::from_str(path),
                    name,
                    manifest,
                    workspace_deps: Vec::new(),
                },
            );
        }
        let ghost entries = manifest.dependencies.entries@;
        let ghost names = views(all_member_names@);
        let mut workspace_deps: Vec<String> = Vec::new();
        let mut resolved: Vec<(String, Dependency)> = Vec::new();
        let mut i: usize = 0;
        assert(views(workspace_deps@) =~= member_dependencies(entries, names, 0));
        while i < manifest.dependencies.entries.len()
            invariant
                i <= entries.len(),
                entries == manifest.dependencies.entries@,
                names == views(all_member_names@),
                self.resolve_inheritance,
                forall|j: int|
                    0 <= j < i ==> !#[trigger] lacks_shared(entries, *shared_deps, names, j),
                views(workspace_deps@) == member_dependencies(entries, names, i as int),
                resolved@.len() == i,
                forall|j: int|
                    0 <= j < i ==> {
                        let e = #[trigger] resolved@[j];
                        &&& e.0@ == entries[j].0@
                        &&& e.1@ == (if inheritance(
                            entries[j].0@,
                            entries[j].1@,
                            *shared_deps,
                            names,
                        ) is Shared {
                            shared_deps.value_of(entries[j].0@)@
                        } else {
                            entries[j].1@
                        })
                    },
            decreases entries.len() - i,
        {
            let dep_name = manifest.dependencies.entries[i].0.as_str();
            let dep = &manifest.dependencies.entries[i].1;
            if is_listed(all_member_names, dep_name) {
                let ghost before = workspace_deps@;
                workspace_deps.push(String::from_str(dep_name));
                assert(views(workspace_deps@) =~= views(before).push(dep_name@));
                resolved.push((String::from_str(dep_name), dep.clone()));
            } else if dep.is_workspace_inherited() {
                match shared_deps.get(dep_name) {
                    Some(shared) => {
                        resolved.push((String::from_str(dep_name), shared.clone()));
                    },
                    None => {
                        let mut m = String::from_str("Dependency '");
                        m.append(dep_name);
                        m.append(
                            "' marked as workspace but not found in [workspace.dependencies]",
                        );
                        assert(lacks_shared(entries, *shared_deps, names, i as int));
                        return Err(WorkspaceError::InvalidConfig(m));
                    },
                }
            } else {
                resolved.push((String::from_str(dep_name), dep.clone()));
            }
            i = i + 1;
        }
        let mut manifest = manifest;
        manifest.dependencies = NameMap { entries: resolved };
        Ok(WorkspaceMember { path: String::from_str(path), name, manifest, workspace_deps })
    }
}

/// The resolution of a workspace.
#[derive(Debug)]
pub struct WorkspaceResolution {
    /// The resolution of the dependencies of all members together.
    pub resolution: Resolution,
    /// For each member the names of its external dependencies.
    pub member_deps: NameMap<Vec<String>>,
    /// The directory of the workspace.
    pub workspace_root: String,
}

/// The positions in `packages` of the first `upto` names that are resolved.
pub open spec fn resolved_positions(
    packages: NameMap<ResolvedDep>,
    dep_names: Seq<Seq<char>>,
    upto: int,
) -> Seq<int>
    decreases upto,
{
    if upto <= 0 {
        Seq::<int>::empty()
    } else {
        let rest = resolved_positions(packages, dep_names, upto - 1);
        if packages.has(dep_names[upto - 1]) {
            rest.push(crate::namemap::index_of(packages.entries@, dep_names[upto - 1]))
        } else {
            rest
        }
    }
}

impl WorkspaceResolution {
    /// The resolved packages that the member `member_name` depends on, in
    /// the order of its dependencies. A dependency that was not resolved
    /// is left out, and a member that is not known has none.
    pub fn packages_for_member(&self, member_name: &str) -> (out: Vec<&ResolvedDep>)
        ensures
            ({
                let positions = if self.member_deps.has(member_name@) {
                    let names = views(self.member_deps.value_of(member_name@)@);
                    resolved_positions(self.resolution.packages, names, names.len() as int)
                } else {
                    Seq::<int>::empty()
                };
                &&& out@.len() == positions.len()
                &&& forall|k: int|
                    0 <= k < out@.len() ==> *(#[trigger] out@[k])
                        == self.resolution.packages.entries@[positions[k]].1
            }),
    {
        let mut out: Vec<&ResolvedDep> = Vec::new();
        match self.member_deps.get(member_name) {
            Some(dep_names) => {
                let ghost names = views(dep_names@);
                let mut i: usize = 0;
                while i < dep_names.len()
                    invariant
                        i <= dep_names@.len(),
                        names == views(dep_names@),
                        out@.len() == resolved_positions(
                            self.resolution.packages,
                            names,
                            i as int,
                        ).len(),
                        forall|k: int|
                            0 <= k < out@.len() ==> *(#[trigger] out@[k])
                                == self.resolution.packages.entries@[resolved_positions(
                                self.resolution.packages,
                                names,
                                i as int,
                            )[k]].1,
                    decreases dep_names@.len() - i,
                {
                    let ghost before = out@;
                    let ghost earlier = resolved_positions(
                        self.resolution.packages,
                        names,
                        i as int,
                    );
                    assert(names[i as int] == dep_names@[i as int]@);
                    match self.resolution.packages.position(dep_names[i].as_str()) {
                        Some(at) => {
                            out.push(&self.resolution.packages.entries[at].1);
                        },
                        None => {},
                    }
                    proof {
                        let later = resolved_positions(self.resolution.packages, names, i + 1);
                        assert forall|k: int| 0 <= k < out@.len() implies *(#[trigger] out@[k])
                            == self.resolution.packages.entries@[later[k]].1 by {
                            if k < before.len() {
                                assert(out@[k] == before[k]);
                                assert(later[k] == earlier[k]);
                            }
                        }
                    }
                    i = i + 1;
                }
            },
            None => {},
        }
        out
    }

    /// All resolved packages, in the order of the resolution.
    pub fn all_packages(&self) -> (out: Vec<&ResolvedDep>)
        ensures
            out@.len() == self.resolution.packages.entries@.len(),
            forall|k: int|
                0 <= k < out@.len() ==> *(#[trigger] out@[k])
                    == self.resolution.packages.entries@[k].1,
    {
        let mut out: Vec<&ResolvedDep> = Vec::new();
        let mut i: usize = 0;
        while i < self.resolution.packages.entries.len()
            invariant
                i <= self.resolution.packages.entries@.len(),
                out@.len() == i,
                forall|k: int|
                    0 <= k < i ==> *(#[trigger] out@[k]) == self.resolution.packages.entries@[k].1,
            decreases self.resolution.packages.entries@.len() - i,
        {
            out.push(&self.resolution.packages.entries[i].1);
            i = i + 1;
        }
        out
    }
}

/// The names and texts of a table of texts.
pub open spec fn text_entries(s: Seq<(String, String)>) -> Seq<(Seq<char>, Seq<char>)> {
    s.map_values(|e: (String, String)| (e.0@, e.1@))
}

fn copy_table(table: &NameMap<String>) -> (out: NameMap<String>)
    ensures
        text_entries(out.entries@) == text_entries(table.entries@),
{
    let mut entries: Vec<(String, String)> = Vec::new();
    let mut i: usize = 0;
    while i < table.entries.len()
        invariant
            i <= table.entries@.len(),
            entries@.len() == i,
            forall|j: int|
                0 <= j < i ==> entries@[j].0@ == table.entries@[j].0@ && entries@[j].1@
                    == table.entries@[j].1@,
        decreases table.entries@.len() - i,
    {
        entries.push((table.entries[i].0.clone(), table.entries[i].1.clone()));
        i = i + 1;
    }
    assert(text_entries(entries@) =~= text_entries(table.entries@));
    NameMap { entries }
}

/// The names among the first `upto` dependencies that are no members.
pub open spec fn external_names(
    members: Seq<WorkspaceMember>,
    entries: Seq<(String, Dependency)>,
    upto: int,
) -> Seq<Seq<char>>
    decreases upto,
{
    if upto <= 0 {
        Seq::<Seq<char>>::empty()
    } else {
        let rest = external_names(members, entries, upto - 1);
        if has_member(members, entries[upto - 1].0@) {
            rest
        } else {
            rest.push(entries[upto - 1].0@)
        }
    }
}

/// Resolves the dependencies of all members of a workspace together, so
/// that every member gets the same version of a package.
pub struct WorkspaceResolver;

impl WorkspaceResolver {
    /// The manifest that stands for the whole workspace in a resolution:
    /// it is named after the root, depends on every external dependency of
    /// every member, and carries the overrides and constraints of the
    /// root.
    pub fn unified_manifest(workspace: &Workspace) -> (m: Manifest)
        ensures
            m.package.name@ == workspace.root_manifest.package.name@ + "-workspace"@,
            m.package.version@ == workspace.root_manifest.package.version@,
            dependency_entries(m.dependencies.entries@) == externals(
                workspace.members@,
                workspace.members@.len() as int,
            ),
            text_entries(m.overrides.entries@) == text_entries(
                workspace.root_manifest.overrides.entries@,
            ),
            text_entries(m.constraints.entries@) == text_entries(
                workspace.root_manifest.constraints.entries@,
            ),
            m.targets@.len() == 0,
    {
        let mut m = Manifest::default();
        m.package.name = concat(workspace.root_manifest.package.name.as_str(), "-workspace");
        m.package.version = workspace.root_manifest.package.version.clone();
        m.dependencies = workspace.all_external_dependencies();
        m.overrides = copy_table(&workspace.root_manifest.overrides);
        m.constraints = copy_table(&workspace.root_manifest.constraints);
        m
    }

    /// For each member, in order, its name and the names of its external
    /// dependencies.
    pub fn member_dependencies(workspace: &Workspace) -> (out: Vec<(String, Vec<String>)>)
        ensures
            out@.len() == workspace.members@.len(),
            forall|i: int|
                0 <= i < out@.len() ==> (#[trigger] out@[i]).0@ == workspace.members@[i].name@
                    && views(out@[i].1@) == external_names(
                    workspace.members@,
                    workspace.members@[i].manifest.dependencies.entries@,
                    workspace.members@[i].manifest.dependencies.entries@.len() as int,
                ),
    {
        let mut out: Vec<(String, Vec<String>)> = Vec::new();
        let mut m: usize = 0;
        while m < workspace.members.len()
            invariant
                m <= workspace.members@.len(),
                out@.len() == m,
                forall|i: int|
                    0 <= i < m ==> (#[trigger] out@[i]).0@ == workspace.members@[i].name@ && views(
                        out@[i].1@,
                    ) == external_names(
                        workspace.members@,
                        workspace.members@[i].manifest.dependencies.entries@,
                        workspace.members@[i].manifest.dependencies.entries@.len() as int,
                    ),
            decreases workspace.members@.len() - m,
        {
            let entries = &workspace.members[m].manifest.dependencies.entries;
            let mut names: Vec<String> = Vec::new();
            let mut i: usize = 0;
            assert(views(names@) =~= external_names(workspace.members@, entries@, 0));
            while i < entries.len()
                invariant
                    i <= entries@.len(),
                    views(names@) == external_names(workspace.members@, entries@, i as int),
                decreases entries@.len() - i,
            {
                if workspace.member_position(entries[i].0.as_str()).is_none() {
                    let ghost before = names@;
                    names.push(entries[i].0.clone());
                    assert(views(names@) =~= views(before).push(entries@[i as int].0@));
                }
                i = i + 1;
            }
            out.push((workspace.members[m].name.clone(), names));
            m = m + 1;
        }
        out
    }

    /// The resolution of a workspace, given the resolution of its unified
    /// manifest.
    pub fn conclude(workspace: &Workspace, resolution: Resolution) -> (r: WorkspaceResolution)
        ensures
            r.resolution == resolution,
            r.workspace_root@ == workspace.root@,
            forall|name: Seq<char>|
                #[trigger] r.member_deps.has(name) == has_member(workspace.members@, name),
            forall|i: int|
                0 <= i < workspace.members@.len() && (forall|j: int|
                    i < j < workspace.members@.len() ==> workspace.members@[j].name@
                        != workspace.members@[i].name@) ==> views(
                    r.member_deps.value_of(#[trigger] workspace.members@[i].name@)@,
                ) == external_names(
                    workspace.members@,
                    workspace.members@[i].manifest.dependencies.entries@,
                    workspace.members@[i].manifest.dependencies.entries@.len() as int,
                ),
    {
        let pairs = WorkspaceResolver::member_dependencies(workspace);
        let ghost all = pairs@;
        let mut member_deps: NameMap<Vec<String>> = NameMap::new();
        let mut input: Vec<(String, Vec<String>)> = Vec::new();
        let mut rest = pairs;
        while rest.len() > 0
            invariant
                input@.len() + rest@.len() == all.len(),
                forall|j: int| 0 <= j < rest@.len() ==> rest@[j] == all[j],
                forall|j: int| 0 <= j < input@.len() ==> input@[j] == all[all.len() - 1 - j],
            decreases rest@.len(),
        {
            let x = rest.pop().unwrap();
            input.push(x);
        }
        let ghost mut done: int = 0;
        while input.len() > 0
            invariant
                0 <= done <= all.len(),
                all.len() == workspace.members@.len(),
                input@.len() == all.len() - done,
                forall|j: int| 0 <= j < input@.len() ==> input@[j] == all[all.len() - 1 - j],
                forall|i: int|
                    0 <= i < all.len() ==> (#[trigger] all[i]).0@ == workspace.members@[i].name@,
                forall|name: Seq<char>|
                    #[trigger] member_deps.has(name) == has_member(
                        workspace.members@.take(done),
                        name,
                    ),
                forall|i: int|
                    0 <= i < done && (forall|j: int|
                        i < j < done ==> workspace.members@[j].name@
                            != workspace.members@[i].name@) ==> member_deps.value_of(
                        #[trigger] workspace.members@[i].name@,
                    ) == all[i].1,
            decreases input@.len(),
        {
            let (name, names) = input.pop().unwrap();
            assert((name, names) == all[done]);
            let ghost before = member_deps;
            member_deps.insert(name, names);
            proof {
                let shorter = workspace.members@.take(done);
                let longer = workspace.members@.take(done + 1);
                assert forall|key: Seq<char>|
                    #[trigger] member_deps.has(key) == has_member(longer, key) by {
                    assert(before.has(key) == has_member(shorter, key));
                    if has_member(longer, key) {
                        let w = choose|w: int|
                            0 <= w < longer.len() && (#[trigger] longer[w]).name@ == key;
                        if w < done {
                            assert(shorter[w].name@ == key);
                        }
                    }
                    if has_member(shorter, key) {
                        let w = choose|w: int|
                            0 <= w < shorter.len() && (#[trigger] shorter[w]).name@ == key;
                        assert(longer[w].name@ == key);
                    }
                    if key == name@ {
                        assert(longer[done].name@ == key);
                    }
                }
                assert forall|i: int|
                    0 <= i < done + 1 && (forall|j: int|
                        i < j < done + 1 ==> workspace.members@[j].name@
                            != workspace.members@[i].name@) implies member_deps.value_of(
                    #[trigger] workspace.members@[i].name@,
                ) == all[i].1 by {
                    if i < done {
                        assert(workspace.members@[done].name@ != workspace.members@[i].name@);
                        assert(before.value_of(workspace.members@[i].name@) == all[i].1);
                        assert(shorter[i].name@ == workspace.members@[i].name@);
                        assert(before.has(workspace.members@[i].name@));
                    }
                }
                done = done + 1;
            }
        }
        assert(workspace.members@.take(done) =~= workspace.members@);
        WorkspaceResolution {
            resolution,
            member_deps,
            workspace_root: workspace.root.clone(),
        }
    }
}

} // verus!
