//! Newer versions: of the locked packages, and of the program itself.

use vstd::prelude::*;
use crate::fetch::{tag_views, GitTag, TagModel};
use crate::lockfile::{LockedModel, LockedPackage};
use crate::text::{to_chars, from_chars, chars_slice, str_eq, Order};
use crate::version::{semver_order, semver_version, version_text, Version};

verus! {

/// A package of which a newer version exists.
#[derive(Debug)]
pub struct OutdatedPackage {
    pub name: String,
    /// The version that is locked.
    pub current: String,
    /// The newest version.
    pub latest: String,
    /// The tag of the newest version.
    pub latest_tag: String,
}

/// An outdated package as mathematical values.
pub struct OutdatedModel {
    pub name: Seq<char>,
    pub current: Seq<char>,
    pub latest: Seq<char>,
    pub latest_tag: Seq<char>,
}

impl View for OutdatedPackage {
    type V = OutdatedModel;

    open spec fn view(&self) -> OutdatedModel {
        OutdatedModel {
            name: self.name@,
            current: self.current@,
            latest: self.latest@,
            latest_tag: self.latest_tag@,
        }
    }
}

/// The first tag that stands for a version.
pub open spec fn first_versioned(tags: Seq<TagModel>) -> Option<TagModel>
    decreases tags.len(),
{
    if tags.len() == 0 {
        None
    } else if tags[0].version is Some {
        Some(tags[0])
    } else {
        first_versioned(tags.drop_first())
    }
}

/// What is to be reported of a locked package, given the tags of its
/// repository with the newest version first: the package is outdated if it
/// comes from a repository and the first tag with a version has a version
/// of higher precedence than the one that is locked.
pub open spec fn outdated_of(package: LockedModel, tags: Seq<TagModel>) -> Option<OutdatedModel> {
    if package.git is None {
        None
    } else {
        match first_versioned(tags) {
            Some(tag) => if semver_order(tag.version->0, package.version) is Greater {
                Some(
                    OutdatedModel {
                        name: package.name,
                        current: version_text(package.version),
                        latest: version_text(tag.version->0),
                        latest_tag: tag.name,
                    },
                )
            } else {
                None
            },
            None => None,
        }
    }
}

/// Tells whether a locked package is outdated, given the tags of its
/// repository with the newest version first.
pub fn check_for_update(package: &LockedPackage, tags: &Vec<GitTag>) -> (r: Option<
    OutdatedPackage,
>)
    ensures
        match r {
            Some(o) => outdated_of(package@, tag_views(tags@)) == Some(o@),
            None => outdated_of(package@, tag_views(tags@)) is None,
        },
{
    if package.git.is_none() {
        return None;
    }
    let ghost all = tag_views(tags@);
    let mut i: usize = 0;
    assert(all.skip(0) =~= all);
    while i < tags.len()
        invariant
            i <= tags@.len(),
            all == tag_views(tags@),
            package.git is Some,
            first_versioned(all) == first_versioned(all.skip(i as int)),
        decreases tags@.len() - i,
    {
        proof {
            let rest = all.skip(i as int);
            assert(rest[0] == tags@[i as int]@);
            assert(rest.drop_first() =~= all.skip(i + 1));
        }
        match &tags[i].version {
            Some(latest) => {
                match latest.compare(&package.version) {
                    Order::Greater => {
                        return Some(
                            OutdatedPackage {
                                name: package.name.clone(),
                                current: package.version.to_string(),
                                latest: latest.to_string(),
                                latest_tag: tags[i].name.clone(),
                            },
                        );
                    },
                    _ => {
                        return None;
                    },
                }
            },
            None => {},
        }
        i = i + 1;
    }
    assert(all.skip(i as int).len() == 0);
    None
}

/// Whether an update stays within what is compatible: the major version
/// stays, and below version one the minor version too. An update whose
/// versions cannot be read counts as compatible.
pub open spec fn is_compatible_update(current: Seq<char>, latest: Seq<char>) -> bool {
    match (semver_version(current), semver_version(latest)) {
        (Ok(c), Ok(l)) => if c.major == 0 && l.major == 0 {
            c.minor == l.minor
        } else {
            c.major == l.major
        },
        _ => true,
    }
}

/// The updates among the first `upto` that are kept.
pub open spec fn kept_updates(updates: Seq<OutdatedPackage>, allow_breaking: bool, upto: int) -> Seq<
    OutdatedPackage,
>
    decreases upto,
{
    if upto <= 0 {
        Seq::<OutdatedPackage>::empty()
    } else {
        let rest = kept_updates(updates, allow_breaking, upto - 1);
        let u = updates[upto - 1];
        if allow_breaking || is_compatible_update(u.current@, u.latest@) {
            rest.push(u)
        } else {
            rest
        }
    }
}

/// Keeps the updates that may be applied: all of them where breaking
/// updates are allowed, else the compatible ones.
pub fn filter_breaking(updates: Vec<OutdatedPackage>, allow_breaking: bool) -> (out: Vec<
    OutdatedPackage,
>)
    ensures
        out@ == kept_updates(updates@, allow_breaking, updates@.len() as int),
{
    let ghost all = updates@;
    let mut input: Vec<OutdatedPackage> = Vec::new();
    let mut rest = updates;
    while rest.len() > 0
        invariant
            input@.len() + rest@.len() == all.len(),
            forall|j: int| 0 <= j < rest@.len() ==> rest@[j] == all[j],
            forall|j: int| 0 <= j < input@.len() ==> input@[j] == all[all.len() - 1 - j],
        decreases rest@.len(),
    {
        let x = rest.pop().unwrap();
        input.push(x);
    }
    let mut out: Vec<OutdatedPackage> = Vec::new();
    let ghost mut done: int = 0;
    while input.len() > 0
        invariant
            0 <= done <= all.len(),
            input@.len() == all.len() - done,
            forall|j: int| 0 <= j < input@.len() ==> input@[j] == all[all.len() - 1 - j],
            out@ == kept_updates(all, allow_breaking, done),
        decreases input@.len(),
    {
        let u = input.pop().unwrap();
        assert(u == all[done]);
        let keep = if allow_breaking {
            true
        } else {
            match (Version::parse(u.current.as_str()), Version::parse(u.latest.as_str())) {
                (Ok(c), Ok(l)) => if c.major == 0 && l.major == 0 {
                    c.minor == l.minor
                } else {
                    c.major == l.major
                },
                _ => true,
            }
        };
        if keep {
            out.push(u);
        }
        proof {
            done = done + 1;
        }
    }
    out
}

/// The time between two looks for a new version of the program, in
/// seconds: a day.
pub const CHECK_INTERVAL: u64 = 86400;

/// Whether it is time to look for a new version of the program: never
/// where looking is switched off, else when no look is on record or the
/// last one is a day old.
pub fn should_check(disabled: bool, last_check: Option<u64>, now: u64) -> (r: bool)
    ensures
        r == (!disabled && (match last_check {
            Some(t) => now >= t && now - t >= 86400,
            None => true,
        })),
{
    if disabled {
        return false;
    }
    match last_check {
        Some(t) => now >= t && now - t >= CHECK_INTERVAL,
        None => true,
    }
}

/// Whether a list that was fetched at `updated_at` is stale at `now`: it
/// is older than a day, or claims to be from the future.
pub fn is_stale(updated_at: u64, now: u64) -> (r: bool)
    ensures
        r == (now < updated_at || now - updated_at > 86400),
{
    now < updated_at || now - updated_at > CHECK_INTERVAL
}

/// Whether `latest` is a newer version than `current`. A text that is no
/// version is never newer, and nothing is newer than it.
pub open spec fn newer_than(latest: Seq<char>, current: Seq<char>) -> bool {
    match (semver_version(current), semver_version(latest)) {
        (Ok(c), Ok(l)) => semver_order(l, c) is Greater,
        _ => false,
    }
}

/// Whether `latest` is a newer version than `current`.
pub fn is_newer(latest: &str, current: &str) -> (r: bool)
    ensures
        r == newer_than(latest@, current@),
{
    match (Version::parse(current), Version::parse(latest)) {
        (Ok(c), Ok(l)) => match l.compare(&c) {
            Order::Greater => true,
            _ => false,
        },
        _ => false,
    }
}

/// A text without the `v`s at its beginning.
pub open spec fn without_leading_v(s: Seq<char>) -> Seq<char>
    decreases s.len(),
{
    if s.len() > 0 && s[0] == 'v' {
        without_leading_v(s.drop_first())
    } else {
        s
    }
}

/// The version that the tag of a release stands for: the tag without the
/// `v`s at its beginning.
pub fn version_of_release(tag: &str) -> (out: String)
    ensures
        out@ == without_leading_v(tag@),
{
    let chars = to_chars(tag);
    let mut start: usize = 0;
    assert(tag@.skip(0) =~= tag@);
    while start < chars.len() && chars[start] == 'v'
        invariant
            start <= chars@.len(),
            chars@ == tag@,
            without_leading_v(tag@) == without_leading_v(tag@.skip(start as int)),
        decreases chars@.len() - start,
    {
        assert(tag@.skip(start as int).drop_first() =~= tag@.skip(start + 1));
        start = start + 1;
    }
    let out = from_chars(&chars_slice(&chars, start, chars.len()));
    assert(out@ =~= tag@.skip(start as int));
    out
}

/// The name of the platform in the names of the released programs.
pub open spec fn release_target_of(os: Seq<char>, arch: Seq<char>) -> Option<Seq<char>> {
    if os == "macos"@ && arch == "x86_64"@ {
        Some("x86_64-apple-darwin"@)
    } else if os == "macos"@ && arch == "aarch64"@ {
        Some("aarch64-apple-darwin"@)
    } else if os == "linux"@ && arch == "x86_64"@ {
        Some("x86_64-unknown-linux-gnu"@)
    } else if os == "linux"@ && arch == "aarch64"@ {
        Some("aarch64-unknown-linux-gnu"@)
    } else {
        None
    }
}

/// The name of the platform in the names of the released programs; none
/// for a platform for which no program is released.
pub fn detect_target(os: &str, arch: &str) -> (r: Option<&'static str>)
    ensures
        match r {
            Some(t) => release_target_of(os@, arch@) == Some(t@),
            None => release_target_of(os@, arch@) is None,
        },
{
    let mac = str_eq(os, "macos");
    let linux = str_eq(os, "linux");
    let intel = str_eq(arch, "x86_64");
    let arm = str_eq(arch, "aarch64");
    if mac && intel {
        Some("x86_64-apple-darwin")
    } else if mac && arm {
        Some("aarch64-apple-darwin")
    } else if linux && intel {
        Some("x86_64-unknown-linux-gnu")
    } else if linux && arm {
        Some("aarch64-unknown-linux-gnu")
    } else {
        None
    }
}

/// Where the program of a release is downloaded from.
pub fn download_url(repository: &str, version: &str, target: &str) -> (out: String)
    ensures
        out@ == "https://github.com/"@ + repository@ + "/releases/download/v"@ + version@
            + "/gust-"@ + target@ + ".tar.gz"@,
{
    let mut out = String::from_str("https://github.com/");
    out.append(repository);
    out.append("/releases/download/v");
    out.append(version);
    out.append("/gust-");
    out.append(target);
    out.append(".tar.gz");
    out
}

} // verus!
