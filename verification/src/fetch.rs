//! Fetching the sources of packages: what to do for each kind of source,
//! how many fetches may run at once, and how the tags of a repository are
//! read.

use vstd::prelude::*;
use crate::namemap::reversed;
use crate::text::{
    concat, has_prefix, lines, split, split_on, strip_prefix, text_lines, text_lt, trim, trimmed,
    str_compare, views, Order,
};
use crate::types::{clone_opt, opt_text, Dependency, DependencyModel, DependencySource, source_kind_of};
use crate::version::{semver_order, semver_version, Version, VersionModel};

verus! {

/// What can go wrong in a fetch.
#[derive(Debug)]
pub enum FetchError {
    FetchFailed { package: String, message: String },
    GitError(String),
    NetworkError(String),
    IoError(String),
}

/// The message of an error.
pub open spec fn fetch_error_text(e: FetchError) -> Seq<char> {
    match e {
        FetchError::FetchFailed { package, message } => "Failed to fetch "@ + package@ + ": "@
            + message@,
        FetchError::GitError(m) => "Git error: "@ + m@,
        FetchError::NetworkError(m) => "Network error: "@ + m@,
        FetchError::IoError(m) => "IO error: "@ + m@,
    }
}

impl FetchError {
    /// The message of the error.
    pub fn to_string(&self) -> (out: String)
        ensures
            out@ == fetch_error_text(*self),
    {
        match self {
            FetchError::FetchFailed { package, message } => {
                let mut out = String::from_str("Failed to fetch ");
                out.append(package.as_str());
                out.append(": ");
                out.append(message.as_str());
                out
            },
            FetchError::GitError(m) => concat("Git error: ", m.as_str()),
            FetchError::NetworkError(m) => concat("Network error: ", m.as_str()),
            FetchError::IoError(m) => concat("IO error: ", m.as_str()),
        }
    }
}

/// A package that was fetched.
#[derive(Debug)]
pub struct FetchResult {
    pub name: String,
    /// Where the sources are.
    pub path: String,
    /// The hash of the sources.
    pub checksum: String,
    /// The commit, for a git package.
    pub revision: Option<String>,
    /// The tag, for a git package fetched at a tag.
    pub tag: Option<String>,
}

/// What a fetch reports while it runs.
#[derive(Debug)]
pub enum FetchStatus {
    Started,
    Completed,
    /// The fetch failed with the given message.
    Failed(String),
}

/// What is to be done to fetch a dependency.
#[derive(Debug)]
pub enum FetchPlan {
    /// Clone the repository at `url` to `dest`, one commit deep, at the
    /// branch or tag `reference` where one is given.
    GitClone { name: String, url: String, dest: String, reference: Option<String>, tag: Option<
        String,
    > },
    /// Put a link at `dest` that leads to the directory `source`, in place
    /// of whatever is there.
    Link { name: String, source: String, dest: String },
}

/// The branch or tag that a clone is to check out: the tag where there is
/// one, else the branch.
pub open spec fn clone_reference(d: DependencyModel) -> Option<Seq<char>> {
    if d.tag is Some {
        d.tag
    } else {
        d.branch
    }
}

/// The arguments of the `git` command that clones `url` to `dest`.
pub open spec fn clone_arguments_of(
    url: Seq<char>,
    dest: Seq<char>,
    reference: Option<Seq<char>>,
) -> Seq<Seq<char>> {
    seq!["clone"@, "--depth"@, "1"@] + (match reference {
        Some(r) => seq!["--branch"@, r],
        None => Seq::<Seq<char>>::empty(),
    }) + seq![url, dest]
}

/// The least number of fetches that a fetcher lets run at once unless it
/// is told otherwise.
pub const MIN_CONCURRENCY: usize = 8;

/// Fetches packages, a bounded number at a time.
#[derive(Debug)]
pub struct Fetcher {
    concurrency: usize,
}

impl Fetcher {
    /// The number of fetches that may run at once.
    pub closed spec fn limit(&self) -> usize {
        self.concurrency
    }

    /// A fetcher for a machine with the given number of processors, as far
    /// as it could be found out: it lets as many fetches run at once, but
    /// not fewer than eight.
    pub fn new(parallelism: Option<usize>) -> (r: Self)
        ensures
            r.limit() == (match parallelism {
                Some(n) => if n > 8 {
                    n
                } else {
                    8
                },
                None => 8,
            }),
    {
        let concurrency = match parallelism {
            Some(n) => if n > MIN_CONCURRENCY {
                n
            } else {
                MIN_CONCURRENCY
            },
            None => MIN_CONCURRENCY,
        };
        Fetcher { concurrency }
    }

    /// The same fetcher, letting `n` fetches run at once.
    pub fn with_concurrency(self, n: usize) -> (r: Self)
        ensures
            r.limit() == n,
    {
        Fetcher { concurrency: n }
    }

    /// The number of fetches that may run at once.
    pub fn concurrency(&self) -> (r: usize)
        ensures
            r == self.limit(),
    {
        self.concurrency
    }

    /// What is to be done to fetch `dep` to `dest`. A git dependency is
    /// cloned, a path dependency linked. A dependency of a kind that lacks
    /// what the kind needs fails, and so does a registry dependency, since
    /// registries cannot be fetched from yet.
    pub fn plan(dep: &Dependency, dest: &str) -> (r: Result<FetchPlan, FetchError>)
        ensures
            match source_kind_of(dep@) {
                DependencySource::Path => r matches Ok(FetchPlan::Link { name, source, dest: d })
                    && name@ == dep@.name && Some(source@) == dep@.path && d@ == dest@,
                DependencySource::Git => r matches Ok(
                    FetchPlan::GitClone { name, url, dest: d, reference, tag },
                ) && name@ == dep@.name && Some(url@) == dep@.git && d@ == dest@ && opt_text(
                    reference,
                ) == clone_reference(dep@) && opt_text(tag) == dep@.tag,
                DependencySource::Registry => r matches Err(
                    FetchError::FetchFailed { package, message },
                ) && package@ == dep@.name && message@ == "registry fetching not implemented"@,
            },
    {
        match &dep.path {
            Some(source) => {
                return Ok(
                    FetchPlan::Link {
                        name: dep.name.clone(),
                        source: source.clone(),
                        dest: String::from_str(dest),
                    },
                );
            },
            None => {},
        }
        match &dep.git {
            Some(url) => {
                let reference = match &dep.tag {
                    Some(t) => Some(t.clone()),
                    None => clone_opt(&dep.branch),
                };
                Ok(
                    FetchPlan::GitClone {
                        name: dep.name.clone(),
                        url: url.clone(),
                        dest: String::from_str(dest),
                        reference,
                        tag: clone_opt(&dep.tag),
                    },
                )
            },
            None => Err(
                FetchError::FetchFailed {
                    package: dep.name.clone(),
                    message: String::from_str("registry fetching not implemented"),
                },
            ),
        }
    }

    /// The arguments of the `git` command that clones `url` to `dest`.
    pub fn clone_arguments(url: &str, dest: &str, reference: Option<&str>) -> (out: Vec<String>)
        ensures
            views(out@) == clone_arguments_of(url@, dest@, match reference {
                Some(r) => Some(r@),
                None => None,
            }),
    {
        let mut out: Vec<String> = Vec::new();
        out.push(String::from_str("clone"));
        out.push(String::from_str("--depth"));
        out.push(String::from_str("1"));
        match reference {
            Some(r) => {
                out.push(String::from_str("--branch"));
                out.push(String::from_str(r));
            },
            None => {},
        }
        out.push(String::from_str(url));
        out.push(String::from_str(dest));
        assert(views(out@) =~= clone_arguments_of(url@, dest@, match reference {
            Some(r) => Some(r@),
            None => None,
        }));
        out
    }

    /// The result of a clone: the commit is what `git rev-parse HEAD` wrote,
    /// without the white space around it.
    pub fn cloned(name: &str, dest: &str, head: &str, checksum: String, tag: Option<String>) -> (r:
        FetchResult)
        ensures
            r.name@ == name@,
            r.path@ == dest@,
            r.checksum == checksum,
            r.revision matches Some(rev) && rev@ == trimmed(head@),
            r.tag == tag,
    {
        FetchResult {
            name: String::from_str(name),
            path: String::from_str(dest),
            checksum,
            revision: Some(trim(head)),
            tag,
        }
    }

    /// The result of linking a path dependency.
    pub fn linked(name: &str, dest: &str, checksum: String) -> (r: FetchResult)
        ensures
            r.name@ == name@,
            r.path@ == dest@,
            r.checksum == checksum,
            r.revision is None,
            r.tag is None,
    {
        FetchResult {
            name: String::from_str(name),
            path: String::from_str(dest),
            checksum,
            revision: None,
            tag: None,
        }
    }

    /// What is reported when a fetch ends.
    pub fn status_of(result: &Result<FetchResult, FetchError>) -> (s: FetchStatus)
        ensures
            match result {
                Ok(_) => s is Completed,
                Err(e) => s matches FetchStatus::Failed(m) && m@ == fetch_error_text(*e),
            },
    {
        match result {
            Ok(_) => FetchStatus::Completed,
            Err(e) => FetchStatus::Failed(e.to_string()),
        }
    }
}

/// Keeps count of the fetches of a batch: which ones were started, and how
/// many are running. A fetch is started only while fewer than the limit
/// are running, and the fetches are started in the order of the batch.
#[derive(Debug)]
pub struct FetchSchedule {
    limit: usize,
    total: usize,
    started: usize,
    running: usize,
}

impl FetchSchedule {
    /// The number of fetches that may run at once.
    pub closed spec fn limit(&self) -> nat {
        self.limit as nat
    }

    /// The number of fetches in the batch.
    pub closed spec fn total(&self) -> nat {
        self.total as nat
    }

    /// The number of fetches that were started.
    pub closed spec fn started(&self) -> nat {
        self.started as nat
    }

    /// The number of fetches that are running.
    pub closed spec fn running(&self) -> nat {
        self.running as nat
    }

    /// Never more fetches run than the limit allows, and none runs that
    /// was not started.
    pub closed spec fn wf(&self) -> bool {
        &&& self.started <= self.total
        &&& self.running <= self.started
        &&& self.running <= self.limit
    }

    /// The position of the fetch that may start now: the next one of the
    /// batch, as long as fewer than the limit are running.
    pub open spec fn next(&self) -> Option<nat> {
        if self.started() < self.total() && self.running() < self.limit() {
            Some(self.started())
        } else {
            None
        }
    }

    /// The schedule of a batch of `total` fetches of which `limit` may run
    /// at once.
    pub fn new(limit: usize, total: usize) -> (r: Self)
        ensures
            r.wf(),
            r.limit() == limit,
            r.total() == total,
            r.started() == 0,
            r.running() == 0,
    {
        FetchSchedule { limit, total, started: 0, running: 0 }
    }

    /// The position of the fetch to start now, if one may start: the next
    /// one of the batch, as long as fewer than the limit are running.
    pub fn start_next(&mut self) -> (r: Option<usize>)
        requires
            old(self).wf(),
        ensures
            final(self).wf(),
            final(self).limit() == old(self).limit(),
            final(self).total() == old(self).total(),
            match r {
                Some(i) => {
                    &&& old(self).next() == Some(i as nat)
                    &&& final(self).started() == old(self).started() + 1
                    &&& final(self).running() == old(self).running() + 1
                },
                None => {
                    &&& old(self).next() is None
                    &&& final(self).started() == old(self).started()
                    &&& final(self).running() == old(self).running()
                },
            },
    {
        if self.started < self.total && self.running < self.limit {
            let i = self.started;
            self.started = self.started + 1;
            self.running = self.running + 1;
            Some(i)
        } else {
            None
        }
    }

    /// Notes that one of the running fetches has ended.
    pub fn finish_one(&mut self)
        requires
            old(self).wf(),
            old(self).running() > 0,
        ensures
            final(self).wf(),
            final(self).limit() == old(self).limit(),
            final(self).total() == old(self).total(),
            final(self).started() == old(self).started(),
            final(self).running() == old(self).running() - 1,
    {
        self.running = self.running - 1;
    }

    /// Whether every fetch of the batch was started and has ended.
    pub fn is_done(&self) -> (r: bool)
        requires
            self.wf(),
        ensures
            r == (self.started() == self.total() && self.running() == 0),
    {
        self.started == self.total && self.running == 0
    }
}

/// Which fetch starts next does not depend on how many may run at once:
/// two schedules of the same batch that have started as many fetches and
/// may both start one start the same one. So the results of a batch stand
/// at the same positions whatever the limit.
pub proof fn lemma_order_ignores_limit(a: FetchSchedule, b: FetchSchedule)
    requires
        a.total() == b.total(),
        a.started() == b.started(),
        a.next() is Some,
        b.next() is Some,
    ensures
        a.next() == b.next(),
{
}

/// With a limit of one the fetches run one after the other: none starts
/// while one is running.
pub proof fn lemma_limit_of_one_is_serial(s: FetchSchedule)
    requires
        s.wf(),
        s.limit() == 1,
        s.running() > 0,
    ensures
        s.next() is None,
{
}

/// With a limit that covers the batch every fetch can start at once: the
/// limit never holds a fetch back.
pub proof fn lemma_wide_limit_never_waits(s: FetchSchedule)
    requires
        s.wf(),
        s.limit() >= s.total(),
        s.started() < s.total(),
    ensures
        s.next() == Some(s.started()),
{
    reveal(FetchSchedule::wf);
}

/// The result that is reported for the fetch at position `i`: that of
/// the last report for the position, if there is one.
pub open spec fn result_at(
    reports: Seq<(usize, Result<FetchResult, FetchError>)>,
    i: int,
) -> Option<Result<FetchResult, FetchError>>
    decreases reports.len(),
{
    if reports.len() == 0 {
        None
    } else if reports.last().0 == i {
        Some(reports.last().1)
    } else {
        result_at(reports.drop_last(), i)
    }
}

/// Whether `r` is what a fetch gives that never reported: the failure
/// "cancelled".
pub open spec fn is_cancelled(r: Result<FetchResult, FetchError>) -> bool {
    r matches Err(FetchError::GitError(m)) && m@ == "cancelled"@
}

/// Whether no two reports are for the same position.
pub open spec fn one_report_each(reports: Seq<(usize, Result<FetchResult, FetchError>)>) -> bool {
    forall|a: int, b: int|
        0 <= a < reports.len() && 0 <= b < reports.len() && a != b ==> (#[trigger] reports[a]).0
            != (#[trigger] reports[b]).0
}

/// Puts the results of a batch of `total` fetches in the order of the
/// batch, whatever the order in which the fetches reported. A fetch that
/// never reported counts as cancelled; a report for a position outside
/// the batch is passed over.
pub fn collect_in_order(
    total: usize,
    reports: Vec<(usize, Result<FetchResult, FetchError>)>,
) -> (out: Vec<Result<FetchResult, FetchError>>)
    ensures
        out@.len() == total,
        forall|i: int|
            0 <= i < total ==> match result_at(reports@, i) {
                Some(r) => #[trigger] out@[i] == r,
                None => is_cancelled(out@[i]),
            },
{
    let ghost all = reports@;
    let mut slots: Vec<Option<Result<FetchResult, FetchError>>> = Vec::new();
    let mut n: usize = 0;
    while n < total
        invariant
            n <= total,
            slots@.len() == n,
            forall|i: int| 0 <= i < n ==> (#[trigger] slots@[i]) is None,
        decreases total - n,
    {
        slots.push(None);
        n = n + 1;
    }
    let mut input = reversed(reports);
    let ghost mut done: int = 0;
    while input.len() > 0
        invariant
            0 <= done <= all.len(),
            input@.len() == all.len() - done,
            forall|j: int| 0 <= j < input@.len() ==> input@[j] == all[all.len() - 1 - j],
            slots@.len() == total,
            forall|i: int| 0 <= i < total ==> #[trigger] slots@[i] == result_at(all.take(done), i),
        decreases input@.len(),
    {
        let (at, result) = input.pop().unwrap();
        proof {
            assert((at, result) == all[done]);
            let t = all.take(done + 1);
            assert(t.drop_last() =~= all.take(done));
            assert(t.last() == all[done]);
        }
        if at < total {
            slots.set(at, Some(result));
        }
        proof {
            done = done + 1;
        }
    }
    assert(all.take(done) =~= all);
    let mut back = reversed(slots);
    let mut out: Vec<Result<FetchResult, FetchError>> = Vec::new();
    while back.len() > 0
        invariant
            out@.len() + back@.len() == total,
            forall|j: int|
                0 <= j < back@.len() ==> back@[j] == result_at(all, total - 1 - j),
            forall|i: int|
                0 <= i < out@.len() ==> match result_at(all, i) {
                    Some(r) => #[trigger] out@[i] == r,
                    None => is_cancelled(out@[i]),
                },
        decreases back@.len(),
    {
        let ghost at = out@.len() as int;
        let slot = back.pop().unwrap();
        assert(slot == result_at(all, at));
        let ghost before = out@;
        match slot {
            Some(r) => {
                out.push(r);
            },
            None => {
                out.push(Err(FetchError::GitError(String::from_str("cancelled"))));
            },
        }
        assert forall|i: int| 0 <= i < out@.len() implies match result_at(all, i) {
            Some(r) => #[trigger] out@[i] == r,
            None => is_cancelled(out@[i]),
        } by {
            if i < at {
                assert(out@[i] == before[i]);
            }
        }
    }
    out
}

proof fn lemma_result_is_a_report(
    reports: Seq<(usize, Result<FetchResult, FetchError>)>,
    i: int,
)
    requires
        one_report_each(reports),
    ensures
        match result_at(reports, i) {
            Some(r) => exists|k: int|
                0 <= k < reports.len() && #[trigger] reports[k] == (i as usize, r) && i
                    == reports[k].0,
            None => forall|k: int| 0 <= k < reports.len() ==> (#[trigger] reports[k]).0 != i,
        },
        forall|k: int|
            0 <= k < reports.len() && (#[trigger] reports[k]).0 == i ==> result_at(reports, i)
                == Some(reports[k].1),
    decreases reports.len(),
{
    if reports.len() > 0 {
        let rest = reports.drop_last();
        let last = reports.len() - 1;
        assert forall|a: int, b: int|
            0 <= a < rest.len() && 0 <= b < rest.len() && a != b implies (#[trigger] rest[a]).0 != (
        #[trigger] rest[b]).0 by {
            assert(rest[a] == reports[a]);
            assert(rest[b] == reports[b]);
        }
        lemma_result_is_a_report(rest, i);
        if reports.last().0 == i {
            assert(reports[last] == (i as usize, reports.last().1));
            assert forall|k: int| 0 <= k < reports.len() && (#[trigger] reports[k]).0
                == i implies result_at(reports, i) == Some(reports[k].1) by {
                if k != last {
                    assert(reports[k].0 != reports[last].0);
                }
            }
        } else {
            match result_at(rest, i) {
                Some(r) => {
                    let k = choose|k: int|
                        0 <= k < rest.len() && #[trigger] rest[k] == (i as usize, r) && i
                            == rest[k].0;
                    assert(reports[k] == rest[k]);
                },
                None => {
                    assert forall|k: int| 0 <= k < reports.len() implies (#[trigger] reports[k]).0
                        != i by {
                        if k < rest.len() {
                            assert(rest[k] == reports[k]);
                        }
                    }
                },
            }
            assert forall|k: int| 0 <= k < reports.len() && (#[trigger] reports[k]).0
                == i implies result_at(reports, i) == Some(reports[k].1) by {
                assert(rest[k] == reports[k]);
            }
        }
    }
}

/// The order in which fetches report does not count: two runs in which
/// each fetch reports once, and the same reports are made, give every
/// position the same result. So a batch has the same results whether its
/// fetches run one by one or all at once.
pub proof fn lemma_results_ignore_completion_order(
    first: Seq<(usize, Result<FetchResult, FetchError>)>,
    second: Seq<(usize, Result<FetchResult, FetchError>)>,
    i: int,
)
    requires
        one_report_each(first),
        one_report_each(second),
        forall|k: int| 0 <= k < first.len() ==> second.contains(#[trigger] first[k]),
        forall|k: int| 0 <= k < second.len() ==> first.contains(#[trigger] second[k]),
    ensures
        result_at(first, i) == result_at(second, i),
{
    lemma_result_is_a_report(first, i);
    lemma_result_is_a_report(second, i);
    match result_at(first, i) {
        Some(r) => {
            let k = choose|k: int|
                0 <= k < first.len() && #[trigger] first[k] == (i as usize, r) && i == first[k].0;
            assert(second.contains(first[k]));
            let w = choose|w: int| 0 <= w < second.len() && second[w] == first[k];
            assert(second[w].0 == i);
        },
        None => {
            if result_at(second, i) is Some {
                let r = result_at(second, i)->Some_0;
                let k = choose|k: int|
                    0 <= k < second.len() && #[trigger] second[k] == (i as usize, r) && i
                        == second[k].0;
                assert(first.contains(second[k]));
                let w = choose|w: int| 0 <= w < first.len() && first[w] == second[k];
                assert(first[w].0 == i);
            }
        },
    }
}

/// A tag of a remote repository.
#[derive(Debug)]
pub struct GitTag {
    /// The name of the tag, such as `1.5.0` or `v1.5.0`.
    pub name: String,
    /// The version that the name stands for, if it stands for one.
    pub version: Option<Version>,
    /// The commit that the tag points to.
    pub sha: String,
}

/// A tag as mathematical values.
pub struct TagModel {
    pub name: Seq<char>,
    pub version: Option<VersionModel>,
    pub sha: Seq<char>,
}

impl View for GitTag {
    type V = TagModel;

    open spec fn view(&self) -> TagModel {
        TagModel {
            name: self.name@,
            version: match self.version {
                Some(v) => Some(v@),
                None => None,
            },
            sha: self.sha@,
        }
    }
}

/// The mathematical values of a list of tags.
pub open spec fn tag_views(s: Seq<GitTag>) -> Seq<TagModel> {
    s.map_values(|t: GitTag| t@)
}

/// A text without the prefix, where it begins with it.
pub open spec fn without_prefix(s: Seq<char>, prefix: Seq<char>) -> Seq<char> {
    if has_prefix(s, prefix) {
        s.skip(prefix.len() as int)
    } else {
        s
    }
}

/// The version that a tag name stands for: the name itself, or what
/// follows its leading `v`, read as a version.
pub open spec fn tag_version(name: Seq<char>) -> Option<VersionModel> {
    match semver_version(without_prefix(name, "v"@)) {
        Ok(v) => Some(v),
        Err(_) => None,
    }
}

/// The tag that a line of `git ls-remote` stands for: the line holds a
/// commit, a tab and a reference, and the name of the tag is the reference
/// without `refs/tags/` in front. Any other line stands for nothing.
pub open spec fn tag_of_line(line: Seq<char>) -> Option<TagModel> {
    let parts = split(line, '\t');
    if parts.len() == 2 {
        let name = without_prefix(parts[1], "refs/tags/"@);
        Some(TagModel { name, version: tag_version(name), sha: parts[0] })
    } else {
        None
    }
}

/// The tag that a line of `git ls-remote` stands for.
pub fn parse_tag_line(line: &str) -> (r: Option<GitTag>)
    ensures
        match r {
            Some(t) => tag_of_line(line@) == Some(t@),
            None => tag_of_line(line@) is None,
        },
{
    let mut parts = split_on(line, '\t');
    if parts.len() != 2 {
        return None;
    }
    let ghost all = views(parts@);
    let reference = parts.pop().unwrap();
    let sha = parts.pop().unwrap();
    assert(reference@ == all[1]);
    assert(sha@ == all[0]);
    let name = match strip_prefix(reference.as_str(), "refs/tags/") {
        Some(rest) => rest,
        None => reference,
    };
    let text = match strip_prefix(name.as_str(), "v") {
        Some(rest) => rest,
        None => name.clone(),
    };
    let version = match Version::parse(text.as_str()) {
        Ok(v) => Some(v),
        Err(_) => None,
    };
    Some(GitTag { name, version, sha })
}

/// The tags that the lines stand for, in order.
pub open spec fn tags_of_lines(all: Seq<Seq<char>>) -> Seq<TagModel>
    decreases all.len(),
{
    if all.len() == 0 {
        Seq::<TagModel>::empty()
    } else {
        let rest = tags_of_lines(all.drop_last());
        match tag_of_line(all.last()) {
            Some(t) => rest.push(t),
            None => rest,
        }
    }
}

/// Whether the tag `a` is to stand before the tag `b`: a tag with a version
/// before one without, of two tags with a version the one of higher
/// precedence, and of two tags without a version the one whose name comes
/// later.
pub open spec fn tag_before(a: TagModel, b: TagModel) -> bool {
    match (a.version, b.version) {
        (Some(x), Some(y)) => semver_order(y, x) is Less,
        (Some(_), None) => true,
        (None, Some(_)) => false,
        (None, None) => text_lt(b.name, a.name),
    }
}

/// A list of tags in order with one more tag put in: the tag goes in front
/// of the tags at the end that it is to stand before.
pub open spec fn with_tag(sorted: Seq<TagModel>, tag: TagModel) -> Seq<TagModel>
    decreases sorted.len(),
{
    if sorted.len() == 0 {
        seq![tag]
    } else if tag_before(tag, sorted.last()) {
        with_tag(sorted.drop_last(), tag).push(sorted.last())
    } else {
        sorted.push(tag)
    }
}

/// The tags in order: newest version first, tags without a version last.
/// Tags that the order does not tell apart keep their order.
pub open spec fn ordered_tags(tags: Seq<TagModel>) -> Seq<TagModel>
    decreases tags.len(),
{
    if tags.len() == 0 {
        Seq::<TagModel>::empty()
    } else {
        with_tag(ordered_tags(tags.drop_last()), tags.last())
    }
}

proof fn lemma_with_tag_at(sorted: Seq<TagModel>, tag: TagModel, at: int)
    requires
        0 <= at <= sorted.len(),
        forall|j: int| at <= j < sorted.len() ==> tag_before(tag, sorted[j]),
        at > 0 ==> !tag_before(tag, sorted[at - 1]),
    ensures
        with_tag(sorted, tag) == sorted.insert(at, tag),
    decreases sorted.len(),
{
    if sorted.len() == 0 {
        assert(sorted.insert(0, tag) =~= seq![tag]);
    } else if at == sorted.len() {
        assert(sorted.insert(at, tag) =~= sorted.push(tag));
    } else {
        lemma_with_tag_at(sorted.drop_last(), tag, at);
        assert(sorted.drop_last().insert(at, tag).push(sorted.last()) =~= sorted.insert(at, tag));
    }
}

fn stands_before(a: &GitTag, b: &GitTag) -> (r: bool)
    ensures
        r == tag_before(a@, b@),
{
    match (&a.version, &b.version) {
        (Some(x), Some(y)) => match y.compare(x) {
            Order::Less => true,
            _ => false,
        },
        (Some(_), None) => true,
        (None, Some(_)) => false,
        (None, None) => match str_compare(b.name.as_str(), a.name.as_str()) {
            Order::Less => {
                proof {
                    assert(b.name@ != a.name@);
                }
                true
            },
            Order::Equal => {
                proof {
                    crate::text::lemma_text_lt_irreflexive(a.name@);
                }
                false
            },
            Order::Greater => false,
        },
    }
}

/// The tags in order: newest version first, tags without a version last.
pub fn sort_tags(tags: Vec<GitTag>) -> (out: Vec<GitTag>)
    ensures
        tag_views(out@) == ordered_tags(tag_views(tags@)),
{
    let ghost all = tag_views(tags@);
    let mut input: Vec<GitTag> = Vec::new();
    let mut rest = tags;
    while rest.len() > 0
        invariant
            input@.len() + rest@.len() == tags@.len(),
            forall|j: int| 0 <= j < rest@.len() ==> rest@[j] == tags@[j],
            forall|j: int| 0 <= j < input@.len() ==> input@[j] == tags@[tags@.len() - 1 - j],
        decreases rest@.len(),
    {
        let t = rest.pop().unwrap();
        input.push(t);
    }
    let mut out: Vec<GitTag> = Vec::new();
    let ghost mut done: int = 0;
    assert(tag_views(out@) =~= ordered_tags(all.take(0)));
    while input.len() > 0
        invariant
            all == tag_views(tags@),
            0 <= done <= tags@.len(),
            input@.len() == tags@.len() - done,
            forall|j: int| 0 <= j < input@.len() ==> input@[j] == tags@[tags@.len() - 1 - j],
            tag_views(out@) == ordered_tags(all.take(done)),
        decreases input@.len(),
    {
        let tag = input.pop().unwrap();
        assert(tag == tags@[done]);
        let mut at: usize = out.len();
        let mut stop = false;
        while at > 0 && !stop
            invariant
                at <= out@.len(),
                forall|j: int| at <= j < out@.len() ==> tag_before(tag@, out@[j]@),
                stop ==> at > 0 && !tag_before(tag@, out@[at - 1]@),
            decreases
                    (if stop {
                        0int
                    } else {
                        at + 1
                    }),
        {
            if stands_before(&tag, &out[at - 1]) {
                at = at - 1;
            } else {
                stop = true;
            }
        }
        proof {
            let t = all.take(done + 1);
            assert(t.drop_last() =~= all.take(done));
            assert(t.last() == tag@);
            let sofar = tag_views(out@);
            assert forall|j: int| at <= j < sofar.len() implies tag_before(tag@, sofar[j]) by {
                assert(sofar[j] == out@[j]@);
            }
            if at > 0 {
                assert(sofar[at - 1] == out@[at - 1]@);
            }
            lemma_with_tag_at(sofar, tag@, at as int);
            assert(tag_views(out@.insert(at as int, tag)) =~= sofar.insert(at as int, tag@));
        }
        out.insert(at, tag);
        proof {
            done = done + 1;
        }
    }
    assert(all.take(done) =~= all);
    out
}

/// The tags that the output of `git ls-remote --tags --refs` lists, newest
/// version first, tags without a version last.
pub fn parse_remote_tags(output: &str) -> (out: Vec<GitTag>)
    ensures
        tag_views(out@) == ordered_tags(tags_of_lines(lines(output@))),
{
    let all_lines = text_lines(output);
    let ghost all = views(all_lines@);
    let mut tags: Vec<GitTag> = Vec::new();
    let mut i: usize = 0;
    assert(tag_views(tags@) =~= tags_of_lines(all.take(0)));
    while i < all_lines.len()
        invariant
            i <= all_lines@.len(),
            all == views(all_lines@),
            tag_views(tags@) == tags_of_lines(all.take(i as int)),
        decreases all_lines@.len() - i,
    {
        proof {
            let t = all.take(i + 1);
            assert(t.drop_last() =~= all.take(i as int));
            assert(t.last() == all_lines@[i as int]@);
        }
        match parse_tag_line(all_lines[i].as_str()) {
            Some(tag) => {
                let ghost before = tags@;
                tags.push(tag);
                assert(tag_views(tags@) =~= tag_views(before).push(tag@));
            },
            None => {},
        }
        i = i + 1;
    }
    assert(all.take(i as int) =~= all);
    sort_tags(tags)
}

/// The arguments of the `git` command that lists the tags of `url`.
pub fn list_tags_arguments(url: &str) -> (out: Vec<String>)
    ensures
        views(out@) == seq!["ls-remote"@, "--tags"@, "--refs"@, url@],
{
    let mut out: Vec<String> = Vec::new();
    out.push(String::from_str("ls-remote"));
    out.push(String::from_str("--tags"));
    out.push(String::from_str("--refs"));
    out.push(String::from_str(url));
    assert(views(out@) =~= seq!["ls-remote"@, "--tags"@, "--refs"@, url@]);
    out
}

} // verus!
