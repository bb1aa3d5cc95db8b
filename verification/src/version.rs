//! Semantic versions and version requirements.
//!
//! A `Version` holds the five parts of a semantic version as plain values. A
//! `VersionReq` holds a requirement in its canonical notation. Parsing,
//! precedence and matching are those of the `semver` crate, which is called
//! through the trusted functions of this module.

use vstd::prelude::*;
use std::cmp::Ordering;
use crate::text::{Order, push_decimal, push_char};

verus! {

/// The parts of a semantic version as mathematical values.
pub struct VersionModel {
    pub major: u64,
    pub minor: u64,
    pub patch: u64,
    pub pre: Seq<char>,
    pub build: Seq<char>,
}

/// A semantic version `major.minor.patch[-pre][+build]`.
#[derive(Debug, PartialEq, Eq, Hash)]
pub struct Version {
    pub major: u64,
    pub minor: u64,
    pub patch: u64,
    /// Pre-release identifiers, without the leading `-`; empty if there are none.
    pub pre: String,
    /// Build metadata, without the leading `+`; empty if there is none.
    pub build: String,
}

impl View for Version {
    type V = VersionModel;

    open spec fn view(&self) -> VersionModel {
        VersionModel {
            major: self.major,
            minor: self.minor,
            patch: self.patch,
            pre: self.pre@,
            build: self.build@,
        }
    }
}

impl Clone for Version {
    fn clone(&self) -> (r: Self)
        ensures
            r == *self,
    {
        Version {
            major: self.major,
            minor: self.minor,
            patch: self.patch,
            pre: self.pre.clone(),
            build: self.build.clone(),
        }
    }
}

/// What `semver` makes of a version text: the parts of the version, or the
/// message of its error.
pub uninterp spec fn semver_version(text: Seq<char>) -> Result<VersionModel, Seq<char>>;

/// The precedence that `semver` gives to `a` relative to `b`. A pre-release or
/// build text that `semver` does not accept as identifiers counts as absent.
pub uninterp spec fn semver_order(a: VersionModel, b: VersionModel) -> Order;

/// What `semver` makes of a requirement text: the requirement in canonical
/// notation, or the message of its error.
pub uninterp spec fn semver_requirement(text: Seq<char>) -> Result<Seq<char>, Seq<char>>;

/// Whether the requirement written as `req` admits the version `v`. A text
/// that is no requirement admits nothing.
pub uninterp spec fn semver_matches(req: Seq<char>, v: VersionModel) -> bool;

/// Parses a version.
///
/// Trusted: `semver::Version::parse`. The result holds the parsed version's
/// fields, the pre-release and build identifiers as their text; on failure it
/// is the error's message.
#[verifier::external_body]
fn semver_parse_version(text: &str) -> (r: Result<Version, String>)
    ensures
        match r {
            Ok(v) => semver_version(text@) == Ok::<VersionModel, Seq<char>>(v@),
            Err(e) => semver_version(text@) == Err::<VersionModel, Seq<char>>(e@),
        },
{
    match semver::Version::parse(text) {
        Ok(v) => Ok(Version {
            major: v.major,
            minor: v.minor,
            patch: v.patch,
            pre: v.pre.as_str().to_string(),
            build: v.build.as_str().to_string(),
        }),
        Err(e) => Err(e.to_string()),
    }
}

/// Compares two versions by precedence.
///
/// Trusted: `Ord::cmp` of `semver::Version`, on the versions with the same
/// numbers and identifiers. Identifiers that `semver` rejects are left out.
#[verifier::external_body]
fn semver_compare(a: &Version, b: &Version) -> (r: Order)
    ensures
        r == semver_order(a@, b@),
{
    let mut x = semver::Version::new(a.major, a.minor, a.patch);
    x.pre = semver::Prerelease::new(&a.pre).unwrap_or_default();
    x.build = semver::BuildMetadata::new(&a.build).unwrap_or_default();
    let mut y = semver::Version::new(b.major, b.minor, b.patch);
    y.pre = semver::Prerelease::new(&b.pre).unwrap_or_default();
    y.build = semver::BuildMetadata::new(&b.build).unwrap_or_default();
    match x.cmp(&y) {
        Ordering::Less => Order::Less,
        Ordering::Equal => Order::Equal,
        Ordering::Greater => Order::Greater,
    }
}

/// Parses a requirement and writes it back in canonical notation.
///
/// Trusted: `semver::VersionReq::parse`, followed by the `Display` of the
/// parsed requirement; on failure the result is the error's message.
#[verifier::external_body]
fn semver_parse_requirement(text: &str) -> (r: Result<String, String>)
    ensures
        match r {
            Ok(t) => semver_requirement(text@) == Ok::<Seq<char>, Seq<char>>(t@),
            Err(e) => semver_requirement(text@) == Err::<Seq<char>, Seq<char>>(e@),
        },
{
    match semver::VersionReq::parse(text) {
        Ok(req) => Ok(req.to_string()),
        Err(e) => Err(e.to_string()),
    }
}

/// Tests a version against a requirement.
///
/// Trusted: `semver::VersionReq::matches`, on the requirement that `req`
/// parses to and the version with the same numbers and identifiers.
/// Identifiers that `semver` rejects are left out; where `req` does not
/// parse the result is `false`.
#[verifier::external_body]
fn semver_test(req: &str, v: &Version) -> (r: bool)
    ensures
        r == semver_matches(req@, v@),
{
    let mut x = semver::Version::new(v.major, v.minor, v.patch);
    x.pre = semver::Prerelease::new(&v.pre).unwrap_or_default();
    x.build = semver::BuildMetadata::new(&v.build).unwrap_or_default();
    match semver::VersionReq::parse(req) {
        Ok(r) => r.matches(&x),
        Err(_) => false,
    }
}

/// The notation of a version: the three numbers separated by dots, then `-`
/// and the pre-release identifiers if there are any, then `+` and the build
/// metadata if there is any.
pub open spec fn version_text(v: VersionModel) -> Seq<char> {
    let core = crate::text::decimal(v.major as nat) + seq!['.'] + crate::text::decimal(
        v.minor as nat,
    ) + seq!['.'] + crate::text::decimal(v.patch as nat);
    let with_pre = if v.pre.len() > 0 {
        core + seq!['-'] + v.pre
    } else {
        core
    };
    if v.build.len() > 0 {
        with_pre + seq!['+'] + v.build
    } else {
        with_pre
    }
}

impl Version {
    /// The version `major.minor.patch`, without pre-release or build parts.
    pub fn new(major: u64, minor: u64, patch: u64) -> (r: Version)
        ensures
            r@ == (VersionModel {
                major,
                minor,
                patch,
                pre: Seq::<char>::empty(),
                build: Seq::<char>::empty(),
            }),
    {
        Version { major, minor, patch, pre: String::new(), build: String::new() }
    }

    /// Parses a version such as `1.5.4` or `1.0.0-beta.1+build5`. The error is
    /// the parser's message.
    pub fn parse(text: &str) -> (r: Result<Version, String>)
        ensures
            match r {
                Ok(v) => semver_version(text@) == Ok::<VersionModel, Seq<char>>(v@),
                Err(e) => semver_version(text@) == Err::<VersionModel, Seq<char>>(e@),
            },
    {
        semver_parse_version(text)
    }

    /// How this version stands to `other` in precedence.
    pub fn compare(&self, other: &Version) -> (r: Order)
        ensures
            r == semver_order(self@, other@),
    {
        semver_compare(self, other)
    }

    /// Whether the two versions agree in all five parts.
    pub fn same(&self, other: &Version) -> (r: bool)
        ensures
            r == (self@ == other@),
    {
        let r = self.major == other.major && self.minor == other.minor && self.patch == other.patch
            && self.pre == other.pre && self.build == other.build;
        r
    }

    /// Whether this is `0.0.0` without pre-release or build parts.
    pub fn is_zero(&self) -> (r: bool)
        ensures
            r == (self@ == (VersionModel {
                major: 0,
                minor: 0,
                patch: 0,
                pre: Seq::<char>::empty(),
                build: Seq::<char>::empty(),
            })),
    {
        let r = self.major == 0 && self.minor == 0 && self.patch == 0 && self.pre.as_str().unicode_len() == 0
            && self.build.as_str().unicode_len() == 0;
        proof {
            if r {
                assert(self.pre@ =~= Seq::<char>::empty());
                assert(self.build@ =~= Seq::<char>::empty());
            }
        }
        r
    }

    /// The notation of the version.
    pub fn to_string(&self) -> (out: String)
        ensures
            out@ == version_text(self@),
    {
        let mut out = String::new();
        push_decimal(&mut out, self.major);
        push_char(&mut out, '.');
        push_decimal(&mut out, self.minor);
        push_char(&mut out, '.');
        push_decimal(&mut out, self.patch);
        if self.pre.as_str().unicode_len() > 0 {
            push_char(&mut out, '-');
            out.append(self.pre.as_str());
        }
        if self.build.as_str().unicode_len() > 0 {
            push_char(&mut out, '+');
            out.append(self.build.as_str());
        }
        assert(out@ =~= version_text(self@));
        out
    }
}

/// The mathematical values of a list of versions.
pub open spec fn version_views(s: Seq<Version>) -> Seq<VersionModel> {
    s.map_values(|v: Version| v@)
}

/// The version of highest precedence in a list that is not empty. Among
/// versions that the order does not tell apart, the last one is taken.
pub open spec fn highest(s: Seq<VersionModel>) -> VersionModel
    recommends
        s.len() > 0,
    decreases s.len(),
{
    if s.len() <= 1 {
        s[0]
    } else {
        let best = highest(s.drop_last());
        if semver_order(best, s.last()) is Greater {
            best
        } else {
            s.last()
        }
    }
}

/// The version of lowest precedence in a list that is not empty. Among
/// versions that the order does not tell apart, the first one is taken.
pub open spec fn lowest(s: Seq<VersionModel>) -> VersionModel
    recommends
        s.len() > 0,
    decreases s.len(),
{
    if s.len() <= 1 {
        s[0]
    } else {
        let best = lowest(s.drop_last());
        if semver_order(best, s.last()) is Greater {
            s.last()
        } else {
            best
        }
    }
}

/// The highest and the lowest version of a list are members of it.
pub proof fn lemma_extremes_are_members(s: Seq<VersionModel>)
    requires
        s.len() > 0,
    ensures
        s.contains(highest(s)),
        s.contains(lowest(s)),
    decreases s.len(),
{
    if s.len() <= 1 {
        assert(s[0] == highest(s));
    } else {
        lemma_extremes_are_members(s.drop_last());
        let h = highest(s.drop_last());
        let i = choose|i: int| 0 <= i < s.drop_last().len() && s.drop_last()[i] == h;
        assert(s[i] == h);
        let l = lowest(s.drop_last());
        let j = choose|j: int| 0 <= j < s.drop_last().len() && s.drop_last()[j] == l;
        assert(s[j] == l);
        assert(s[s.len() - 1] == s.last());
    }
}

/// What it means for the precedence of versions to be a total order: a
/// version is equal to itself, swapping the sides mirrors the answer, and
/// "not after" carries over from one pair to the next.
pub open spec fn order_is_total() -> bool {
    &&& forall|a: VersionModel| #[trigger] semver_order(a, a) is Equal
    &&& forall|a: VersionModel, b: VersionModel|
        (#[trigger] semver_order(a, b) is Greater) == (semver_order(b, a) is Less)
    &&& forall|a: VersionModel, b: VersionModel, c: VersionModel|
        !(#[trigger] semver_order(a, b) is Greater) && !(#[trigger] semver_order(b, c) is Greater)
            ==> !(semver_order(a, c) is Greater)
}

/// Where precedence is a total order, no version of a list comes after the
/// highest one and none comes before the lowest one.
pub proof fn lemma_extremes_bound(s: Seq<VersionModel>, i: int)
    requires
        order_is_total(),
        0 <= i < s.len(),
    ensures
        !(semver_order(s[i], highest(s)) is Greater),
        !(semver_order(lowest(s), s[i]) is Greater),
    decreases s.len(),
{
    if s.len() > 1 {
        let rest = s.drop_last();
        let h = highest(rest);
        let l = lowest(rest);
        if i < s.len() - 1 {
            lemma_extremes_bound(rest, i);
            assert(rest[i] == s[i]);
            if !(semver_order(h, s.last()) is Greater) {
                assert(!(semver_order(s[i], h) is Greater));
                assert(!(semver_order(s[i], s.last()) is Greater));
            }
            if semver_order(l, s.last()) is Greater {
                assert(semver_order(s.last(), l) is Less);
                assert(!(semver_order(s.last(), l) is Greater));
                assert(!(semver_order(l, s[i]) is Greater));
                assert(!(semver_order(s.last(), s[i]) is Greater));
            }
        } else {
            assert(s[i] == s.last());
            if semver_order(h, s.last()) is Greater {
                assert(semver_order(s.last(), h) is Less);
            }
        }
    }
}

/// The position of the version of highest precedence.
pub fn pick_highest(versions: &Vec<Version>) -> (r: Option<usize>)
    ensures
        match r {
            Some(i) => i < versions@.len() && versions@[i as int]@ == highest(
                version_views(versions@),
            ),
            None => versions@.len() == 0,
        },
{
    if versions.len() == 0 {
        return None;
    }
    let ghost all = version_views(versions@);
    let mut best: usize = 0;
    let mut i: usize = 1;
    assert(all.take(1)[0] == all[0]);
    while i < versions.len()
        invariant
            1 <= i <= versions@.len(),
            best < i,
            all == version_views(versions@),
            versions@[best as int]@ == highest(all.take(i as int)),
        decreases versions@.len() - i,
    {
        proof {
            let t = all.take(i + 1);
            assert(t.drop_last() =~= all.take(i as int));
            assert(t.last() == versions@[i as int]@);
        }
        match versions[best].compare(&versions[i]) {
            Order::Greater => {},
            _ => {
                best = i;
            },
        }
        i = i + 1;
    }
    assert(all.take(i as int) =~= all);
    Some(best)
}

/// The position of the version of lowest precedence.
pub fn pick_lowest(versions: &Vec<Version>) -> (r: Option<usize>)
    ensures
        match r {
            Some(i) => i < versions@.len() && versions@[i as int]@ == lowest(
                version_views(versions@),
            ),
            None => versions@.len() == 0,
        },
{
    if versions.len() == 0 {
        return None;
    }
    let ghost all = version_views(versions@);
    let mut best: usize = 0;
    let mut i: usize = 1;
    assert(all.take(1)[0] == all[0]);
    while i < versions.len()
        invariant
            1 <= i <= versions@.len(),
            best < i,
            all == version_views(versions@),
            versions@[best as int]@ == lowest(all.take(i as int)),
        decreases versions@.len() - i,
    {
        proof {
            let t = all.take(i + 1);
            assert(t.drop_last() =~= all.take(i as int));
            assert(t.last() == versions@[i as int]@);
        }
        match versions[best].compare(&versions[i]) {
            Order::Greater => {
                best = i;
            },
            _ => {},
        }
        i = i + 1;
    }
    assert(all.take(i as int) =~= all);
    Some(best)
}

/// A list in ascending order with `x` put in: `x` goes behind the last
/// version that does not come after it.
pub open spec fn insert_ascending(sorted: Seq<VersionModel>, x: VersionModel) -> Seq<
    VersionModel,
>
    decreases sorted.len(),
{
    if sorted.len() == 0 {
        seq![x]
    } else if semver_order(sorted.last(), x) is Greater {
        insert_ascending(sorted.drop_last(), x).push(sorted.last())
    } else {
        sorted.push(x)
    }
}

/// The versions in ascending order: each one is put into the order of
/// those before it.
pub open spec fn ascending(s: Seq<VersionModel>) -> Seq<VersionModel>
    decreases s.len(),
{
    if s.len() == 0 {
        Seq::<VersionModel>::empty()
    } else {
        insert_ascending(ascending(s.drop_last()), s.last())
    }
}

/// The versions from the highest to the lowest.
pub open spec fn descending(s: Seq<VersionModel>) -> Seq<VersionModel> {
    ascending(s).reverse()
}

proof fn lemma_insert_at(sorted: Seq<VersionModel>, x: VersionModel, at: int)
    requires
        0 <= at <= sorted.len(),
        forall|j: int| at <= j < sorted.len() ==> semver_order(sorted[j], x) is Greater,
        at > 0 ==> !(semver_order(sorted[at - 1], x) is Greater),
    ensures
        insert_ascending(sorted, x) == sorted.insert(at, x),
    decreases sorted.len(),
{
    if sorted.len() == 0 {
        assert(sorted.insert(0, x) =~= seq![x]);
    } else if at == sorted.len() {
        assert(sorted.insert(at, x) =~= sorted.push(x));
    } else {
        lemma_insert_at(sorted.drop_last(), x, at);
        assert(sorted.drop_last().insert(at, x).push(sorted.last()) =~= sorted.insert(at, x));
    }
}

/// The versions from the highest to the lowest.
pub fn sort_descending(versions: &Vec<Version>) -> (out: Vec<Version>)
    ensures
        version_views(out@) == descending(version_views(versions@)),
{
    let ghost all = version_views(versions@);
    let mut up: Vec<Version> = Vec::new();
    let mut i: usize = 0;
    assert(version_views(up@) =~= ascending(all.take(0)));
    while i < versions.len()
        invariant
            i <= versions@.len(),
            all == version_views(versions@),
            up@.len() == i,
            version_views(up@) == ascending(all.take(i as int)),
        decreases versions@.len() - i,
    {
        let x = versions[i].clone();
        let mut at: usize = up.len();
        while at > 0 && is_after(&up[at - 1], &x)
            invariant
                at <= up@.len(),
                forall|j: int| at <= j < up@.len() ==> semver_order(up@[j]@, x@) is Greater,
            decreases at,
        {
            at = at - 1;
        }
        proof {
            let t = all.take(i + 1);
            assert(t.drop_last() =~= all.take(i as int));
            assert(t.last() == x@);
            lemma_insert_at(version_views(up@), x@, at as int);
            assert(version_views(up@.insert(at as int, x)) =~= version_views(up@).insert(
                at as int,
                x@,
            ));
        }
        up.insert(at, x);
        i = i + 1;
    }
    assert(all.take(i as int) =~= all);
    let mut out: Vec<Version> = Vec::new();
    let mut k: usize = up.len();
    while k > 0
        invariant
            k <= up@.len(),
            out@.len() == up@.len() - k,
            forall|j: int| 0 <= j < out@.len() ==> out@[j]@ == up@[up@.len() - 1 - j]@,
        decreases k,
    {
        k = k - 1;
        out.push(up[k].clone());
    }
    assert(version_views(out@) =~= version_views(up@).reverse());
    out
}

fn is_after(a: &Version, b: &Version) -> (r: bool)
    ensures
        r == (semver_order(a@, b@) is Greater),
{
    match a.compare(b) {
        Order::Greater => true,
        _ => false,
    }
}

/// A version requirement such as `^1.4` or `>=1.5, <2`, kept in canonical
/// notation.
#[derive(Debug, PartialEq, Eq, Hash)]
pub struct VersionReq {
    text: String,
}

impl View for VersionReq {
    type V = Seq<char>;

    closed spec fn view(&self) -> Seq<char> {
        self.text@
    }
}

impl Clone for VersionReq {
    fn clone(&self) -> (r: Self)
        ensures
            r == *self,
    {
        VersionReq { text: self.text.clone() }
    }
}

impl VersionReq {
    /// Parses a requirement. The error is the parser's message.
    pub fn parse(text: &str) -> (r: Result<VersionReq, String>)
        ensures
            match r {
                Ok(req) => semver_requirement(text@) == Ok::<Seq<char>, Seq<char>>(req@),
                Err(e) => semver_requirement(text@) == Err::<Seq<char>, Seq<char>>(e@),
            },
    {
        match semver_parse_requirement(text) {
            Ok(t) => Ok(VersionReq { text: t }),
            Err(e) => Err(e),
        }
    }

    /// Whether the requirement admits `version`.
    pub fn matches(&self, version: &Version) -> (r: bool)
        ensures
            r == semver_matches(self@, version@),
    {
        semver_test(self.text.as_str(), version)
    }

    /// The requirement in canonical notation.
    pub fn to_string(&self) -> (out: String)
        ensures
            out@ == self@,
    {
        self.text.clone()
    }

    /// Whether the two requirements have the same canonical notation.
    pub fn same(&self, other: &VersionReq) -> (r: bool)
        ensures
            r == (self@ == other@),
    {
        self.text == other.text
    }
}

} // verus!
