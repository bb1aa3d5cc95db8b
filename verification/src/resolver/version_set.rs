//! Sets of versions, closed under complement, intersection and union.
//!
//! A set is a formula over two kinds of atoms: a version requirement, which
//! holds the versions that the requirement admits, and a single version.
//! Membership is exact. The operations simplify only what they can decide
//! from the shape of their operands.
//!
//! Whether two sets are disjoint, whether one lies within the other and
//! whether they are the same cannot be read off formulas over requirements.
//! A set therefore carries the versions that are known to exist, and these
//! three questions are answered for the known versions: two sets count as
//! disjoint when no known version is in both.

use vstd::prelude::*;
use crate::resolver::provider::GustVersion;
use crate::text::{concat, concat3};
use crate::version::{
    semver_matches, version_text, version_views, Version, VersionModel, VersionReq,
};

verus! {

/// A set of versions as a mathematical formula.
pub enum SetModel {
    Empty,
    Full,
    Req(Seq<char>),
    Exact(VersionModel),
    Not(Box<SetModel>),
    And(Box<SetModel>, Box<SetModel>),
    Or(Box<SetModel>, Box<SetModel>),
}

/// Whether the set `s` holds the version `v`.
pub open spec fn holds(s: SetModel, v: VersionModel) -> bool
    decreases s,
{
    match s {
        SetModel::Empty => false,
        SetModel::Full => true,
        SetModel::Req(req) => semver_matches(req, v),
        SetModel::Exact(x) => x == v,
        SetModel::Not(a) => !holds(*a, v),
        SetModel::And(a, b) => holds(*a, v) && holds(*b, v),
        SetModel::Or(a, b) => holds(*a, v) || holds(*b, v),
    }
}

/// The complement of `s`: the two constant sets are exchanged, a double
/// negation is dropped, anything else is negated.
pub open spec fn complement_of(s: SetModel) -> SetModel {
    match s {
        SetModel::Empty => SetModel::Full,
        SetModel::Full => SetModel::Empty,
        SetModel::Not(a) => *a,
        _ => SetModel::Not(Box::new(s)),
    }
}

/// Whether one of the two formulas is the negation of the other.
pub open spec fn opposite(a: SetModel, b: SetModel) -> bool {
    a == SetModel::Not(Box::new(b)) || b == SetModel::Not(Box::new(a))
}

/// The intersection of `a` and `b`.
pub open spec fn intersection_of(a: SetModel, b: SetModel) -> SetModel {
    if a is Empty || b is Empty {
        SetModel::Empty
    } else if a is Full {
        b
    } else if b is Full {
        a
    } else if a == b {
        a
    } else if opposite(a, b) {
        SetModel::Empty
    } else {
        SetModel::And(Box::new(a), Box::new(b))
    }
}

/// The union of `a` and `b`.
pub open spec fn union_of(a: SetModel, b: SetModel) -> SetModel {
    if a is Full || b is Full {
        SetModel::Full
    } else if a is Empty {
        b
    } else if b is Empty {
        a
    } else if a == b {
        a
    } else if opposite(a, b) {
        SetModel::Full
    } else {
        SetModel::Or(Box::new(a), Box::new(b))
    }
}

/// What `is_disjoint` answers: whether the shapes alone show that the two
/// sets share no version.
pub open spec fn shown_disjoint(a: SetModel, b: SetModel) -> bool {
    a is Empty || b is Empty || opposite(a, b)
}

/// What `subset_of` answers: whether the shapes alone show that every
/// version of `a` is in `b`.
pub open spec fn shown_subset(a: SetModel, b: SetModel) -> bool {
    a is Empty || b is Full || a == b
}

/// The notation of a set.
pub open spec fn set_text(s: SetModel) -> Seq<char>
    decreases s,
{
    match s {
        SetModel::Empty => "not *"@,
        SetModel::Full => "*"@,
        SetModel::Req(req) => req,
        SetModel::Exact(x) => "="@ + version_text(x),
        SetModel::Not(a) => "not "@ + set_text(*a),
        SetModel::And(a, b) => "("@ + set_text(*a) + " and "@ + set_text(*b) + ")"@,
        SetModel::Or(a, b) => "("@ + set_text(*a) + " or "@ + set_text(*b) + ")"@,
    }
}

/// The complement holds exactly the versions that the set lacks.
pub proof fn lemma_complement(s: SetModel, v: VersionModel)
    ensures
        holds(complement_of(s), v) == !holds(s, v),
{
}

/// The intersection holds exactly the versions that both sets hold.
pub proof fn lemma_intersection(a: SetModel, b: SetModel, v: VersionModel)
    ensures
        holds(intersection_of(a, b), v) == (holds(a, v) && holds(b, v)),
{
}

/// The union holds exactly the versions that one of the sets holds.
pub proof fn lemma_union(a: SetModel, b: SetModel, v: VersionModel)
    ensures
        holds(union_of(a, b), v) == (holds(a, v) || holds(b, v)),
{
}

/// No version is both in a set and in its complement.
pub proof fn lemma_excluded_middle(a: SetModel, v: VersionModel)
    ensures
        !holds(intersection_of(a, complement_of(a)), v),
        holds(union_of(a, complement_of(a)), v),
{
    lemma_complement(a, v);
    lemma_intersection(a, complement_of(a), v);
    lemma_union(a, complement_of(a), v);
}

/// The singleton of a version holds that version and no other; the empty
/// set holds nothing and the full set everything.
pub proof fn lemma_atoms(x: VersionModel, v: VersionModel)
    ensures
        holds(SetModel::Exact(x), x),
        holds(SetModel::Exact(x), v) == (x == v),
        !holds(SetModel::Empty, v),
        holds(SetModel::Full, v),
{
}

/// De Morgan's laws, on membership.
pub proof fn lemma_de_morgan(a: SetModel, b: SetModel, v: VersionModel)
    ensures
        holds(complement_of(intersection_of(a, b)), v) == holds(
            union_of(complement_of(a), complement_of(b)),
            v,
        ),
        holds(complement_of(union_of(a, b)), v) == holds(
            intersection_of(complement_of(a), complement_of(b)),
            v,
        ),
{
    lemma_complement(a, v);
    lemma_complement(b, v);
    lemma_intersection(a, b, v);
    lemma_union(a, b, v);
    lemma_complement(intersection_of(a, b), v);
    lemma_complement(union_of(a, b), v);
    lemma_union(complement_of(a), complement_of(b), v);
    lemma_intersection(complement_of(a), complement_of(b), v);
}

/// Sets that `is_disjoint` reports as disjoint share no version.
pub proof fn lemma_shown_disjoint(a: SetModel, b: SetModel, v: VersionModel)
    requires
        shown_disjoint(a, b),
    ensures
        !(holds(a, v) && holds(b, v)),
{
}

/// Where `subset_of` reports a subset, every version of the first set is in
/// the second.
pub proof fn lemma_shown_subset(a: SetModel, b: SetModel, v: VersionModel)
    requires
        shown_subset(a, b),
        holds(a, v),
    ensures
        holds(b, v),
{
}

/// The known versions of two sets together: those of the first, then those
/// of the second that the first lacks.
pub open spec fn merged(a: Seq<VersionModel>, b: Seq<VersionModel>) -> Seq<VersionModel>
    decreases b.len(),
{
    if b.len() == 0 {
        a
    } else {
        let rest = merged(a, b.drop_last());
        if rest.contains(b.last()) {
            rest
        } else {
            rest.push(b.last())
        }
    }
}

/// Whether none of the versions `known` is in both sets.
pub open spec fn apart_on(a: SetModel, b: SetModel, known: Seq<VersionModel>) -> bool {
    forall|i: int| 0 <= i < known.len() ==> !(holds(a, #[trigger] known[i]) && holds(b, known[i]))
}

/// Whether each of the versions `known` that is in `a` is in `b`.
pub open spec fn within_on(a: SetModel, b: SetModel, known: Seq<VersionModel>) -> bool {
    forall|i: int| 0 <= i < known.len() ==> (holds(a, #[trigger] known[i]) ==> holds(b, known[i]))
}

/// Whether the two sets hold the same of the versions `known`.
pub open spec fn alike_on(a: SetModel, b: SetModel, known: Seq<VersionModel>) -> bool {
    forall|i: int| 0 <= i < known.len() ==> holds(a, #[trigger] known[i]) == holds(b, known[i])
}

/// What `is_disjoint` answers: whether the shapes of the formulas show
/// that the sets share no version, or versions are known and none of them
/// is in both.
pub open spec fn judged_disjoint(a: SetModel, b: SetModel, known: Seq<VersionModel>) -> bool {
    shown_disjoint(a, b) || (known.len() > 0 && apart_on(a, b, known))
}

/// What `subset_of` answers: whether the shapes of the formulas show that
/// `a` lies within `b`, or versions are known and each of them that is in
/// `a` is in `b`.
pub open spec fn judged_subset(a: SetModel, b: SetModel, known: Seq<VersionModel>) -> bool {
    shown_subset(a, b) || (known.len() > 0 && within_on(a, b, known))
}

/// What `same` answers: whether the formulas are equal, or versions are
/// known and the two sets hold the same of them.
pub open spec fn judged_same(a: SetModel, b: SetModel, known: Seq<VersionModel>) -> bool {
    a == b || (known.len() > 0 && alike_on(a, b, known))
}

/// The formula behind a version set.
#[derive(Debug)]
enum SetExpr {
    Empty,
    Full,
    Req(VersionReq),
    Exact(Version),
    Not(Box<SetExpr>),
    And(Box<SetExpr>, Box<SetExpr>),
    Or(Box<SetExpr>, Box<SetExpr>),
}

impl SetExpr {
    spec fn model(self) -> SetModel
        decreases self,
    {
        match self {
            SetExpr::Empty => SetModel::Empty,
            SetExpr::Full => SetModel::Full,
            SetExpr::Req(req) => SetModel::Req(req@),
            SetExpr::Exact(x) => SetModel::Exact(x@),
            SetExpr::Not(a) => SetModel::Not(Box::new(a.model())),
            SetExpr::And(a, b) => SetModel::And(Box::new(a.model()), Box::new(b.model())),
            SetExpr::Or(a, b) => SetModel::Or(Box::new(a.model()), Box::new(b.model())),
        }
    }
}

impl View for SetExpr {
    type V = SetModel;

    closed spec fn view(&self) -> SetModel {
        self.model()
    }
}

impl Clone for SetExpr {
    fn clone(&self) -> (r: Self)
        ensures
            r == *self,
        decreases self,
    {
        match self {
            SetExpr::Empty => SetExpr::Empty,
            SetExpr::Full => SetExpr::Full,
            SetExpr::Req(req) => SetExpr::Req(req.clone()),
            SetExpr::Exact(x) => SetExpr::Exact(x.clone()),
            SetExpr::Not(a) => SetExpr::Not(Box::new((**a).clone())),
            SetExpr::And(a, b) => SetExpr::And(Box::new((**a).clone()), Box::new((**b).clone())),
            SetExpr::Or(a, b) => SetExpr::Or(Box::new((**a).clone()), Box::new((**b).clone())),
        }
    }
}

impl SetExpr {
    fn same(&self, other: &SetExpr) -> (r: bool)
        ensures
            r == (self@ == other@),
        decreases self,
    {
        match (self, other) {
            (SetExpr::Empty, SetExpr::Empty) => true,
            (SetExpr::Full, SetExpr::Full) => true,
            (SetExpr::Req(a), SetExpr::Req(b)) => a.same(b),
            (SetExpr::Exact(a), SetExpr::Exact(b)) => a.same(b),
            (SetExpr::Not(a), SetExpr::Not(b)) => a.same(b),
            (SetExpr::And(a, b), SetExpr::And(c, d)) => a.same(c) && b.same(d),
            (SetExpr::Or(a, b), SetExpr::Or(c, d)) => a.same(c) && b.same(d),
            _ => false,
        }
    }

    fn is_negation_of(&self, other: &SetExpr) -> (r: bool)
        ensures
            r == (self@ == SetModel::Not(Box::new(other@))),
    {
        match self {
            SetExpr::Not(a) => a.same(other),
            _ => false,
        }
    }

    fn opposes(&self, other: &SetExpr) -> (r: bool)
        ensures
            r == opposite(self@, other@),
    {
        self.is_negation_of(other) || other.is_negation_of(self)
    }

    fn contains(&self, v: &Version) -> (r: bool)
        ensures
            r == holds(self@, v@),
        decreases self,
    {
        match self {
            SetExpr::Empty => false,
            SetExpr::Full => true,
            SetExpr::Req(req) => req.matches(v),
            SetExpr::Exact(x) => x.same(v),
            SetExpr::Not(a) => !a.contains(v),
            SetExpr::And(a, b) => a.contains(v) && b.contains(v),
            SetExpr::Or(a, b) => a.contains(v) || b.contains(v),
        }
    }

    fn to_string(&self) -> (out: String)
        ensures
            out@ == set_text(self@),
        decreases self,
    {
        match self {
            SetExpr::Empty => String::from_str("not *"),
            SetExpr::Full => String::from_str("*"),
            SetExpr::Req(req) => req.to_string(),
            SetExpr::Exact(x) => concat("=", x.to_string().as_str()),
            SetExpr::Not(a) => concat("not ", a.to_string().as_str()),
            SetExpr::And(a, b) => {
                let left = concat3("(", a.to_string().as_str(), " and ");
                concat3(left.as_str(), b.to_string().as_str(), ")")
            },
            SetExpr::Or(a, b) => {
                let left = concat3("(", a.to_string().as_str(), " or ");
                concat3(left.as_str(), b.to_string().as_str(), ")")
            },
        }
    }
}

/// A set of versions, with the versions that are known to exist.
#[derive(Debug)]
pub struct GustVersionSet {
    expr: SetExpr,
    known: Vec<Version>,
}

impl View for GustVersionSet {
    type V = SetModel;

    closed spec fn view(&self) -> SetModel {
        self.expr@
    }
}

impl Clone for GustVersionSet {
    fn clone(&self) -> (r: Self)
        ensures
            r@ == self@,
            r.known() == self.known(),
    {
        GustVersionSet { expr: self.expr.clone(), known: copy_versions(&self.known) }
    }
}

fn copy_versions(v: &Vec<Version>) -> (r: Vec<Version>)
    ensures
        version_views(r@) == version_views(v@),
{
    let mut r: Vec<Version> = Vec::new();
    let mut i: usize = 0;
    while i < v.len()
        invariant
            i <= v@.len(),
            r@.len() == i,
            forall|j: int| 0 <= j < i ==> r@[j]@ == v@[j]@,
        decreases v@.len() - i,
    {
        r.push(v[i].clone());
        i = i + 1;
    }
    assert(version_views(r@) =~= version_views(v@));
    r
}

fn knows(known: &Vec<Version>, v: &Version) -> (r: bool)
    ensures
        r == version_views(known@).contains(v@),
{
    let mut i: usize = 0;
    while i < known.len()
        invariant
            i <= known@.len(),
            forall|j: int| 0 <= j < i ==> known@[j]@ != v@,
        decreases known@.len() - i,
    {
        if known[i].same(v) {
            assert(version_views(known@)[i as int] == v@);
            return true;
        }
        i = i + 1;
    }
    assert forall|j: int| 0 <= j < version_views(known@).len() implies version_views(known@)[j]
        != v@ by {
        assert(version_views(known@)[j] == known@[j]@);
    }
    false
}

fn merge_known(a: &Vec<Version>, b: &Vec<Version>) -> (r: Vec<Version>)
    ensures
        version_views(r@) == merged(version_views(a@), version_views(b@)),
{
    let ghost all = version_views(b@);
    let mut r = copy_versions(a);
    let mut i: usize = 0;
    assert(all.take(0) =~= Seq::<VersionModel>::empty());
    while i < b.len()
        invariant
            i <= b@.len(),
            all == version_views(b@),
            version_views(r@) == merged(version_views(a@), all.take(i as int)),
        decreases b@.len() - i,
    {
        proof {
            let t = all.take(i + 1);
            assert(t.drop_last() =~= all.take(i as int));
            assert(t.last() == b@[i as int]@);
        }
        if !knows(&r, &b[i]) {
            let ghost before = r@;
            r.push(b[i].clone());
            assert(version_views(r@) =~= version_views(before).push(b@[i as int]@));
        }
        i = i + 1;
    }
    assert(all.take(i as int) =~= all);
    r
}

impl GustVersionSet {
    /// The versions that are known to exist, as far as this set was told.
    pub closed spec fn known(&self) -> Seq<VersionModel> {
        version_views(self.known@)
    }

    /// The set of all versions.
    pub fn any() -> (r: Self)
        ensures
            r@ == SetModel::Full,
            r.known().len() == 0,
    {
        GustVersionSet { expr: SetExpr::Full, known: Vec::new() }
    }

    /// The set of all versions.
    pub fn full() -> (r: Self)
        ensures
            r@ == SetModel::Full,
            r.known().len() == 0,
    {
        GustVersionSet { expr: SetExpr::Full, known: Vec::new() }
    }

    /// The set without versions.
    pub fn empty() -> (r: Self)
        ensures
            r@ == SetModel::Empty,
            r.known().len() == 0,
    {
        GustVersionSet { expr: SetExpr::Empty, known: Vec::new() }
    }

    /// The versions that `req` admits.
    pub fn from_req(req: VersionReq) -> (r: Self)
        ensures
            r@ == SetModel::Req(req@),
            r.known().len() == 0,
    {
        GustVersionSet { expr: SetExpr::Req(req), known: Vec::new() }
    }

    /// The set that holds `version` and nothing else. The version counts
    /// as known.
    pub fn exact(version: Version) -> (r: Self)
        ensures
            r@ == SetModel::Exact(version@),
            r.known() == seq![version@],
    {
        let mut known: Vec<Version> = Vec::new();
        known.push(version.clone());
        assert(version_views(known@) =~= seq![version@]);
        GustVersionSet { expr: SetExpr::Exact(version), known }
    }

    /// The set that holds `version` and nothing else. The version counts
    /// as known.
    pub fn singleton(version: GustVersion) -> (r: Self)
        ensures
            r@ == SetModel::Exact(version.0@),
            r.known() == seq![version.0@],
    {
        GustVersionSet::exact(version.0)
    }

    /// The same set, told of the versions that exist.
    pub fn within(self, versions: &Vec<Version>) -> (r: Self)
        ensures
            r@ == self@,
            r.known() == merged(self.known(), version_views(versions@)),
    {
        let known = merge_known(&self.known, versions);
        GustVersionSet { expr: self.expr, known }
    }

    /// The versions that this set lacks.
    pub fn complement(&self) -> (r: Self)
        ensures
            r@ == complement_of(self@),
            r.known() == self.known(),
    {
        let expr = match &self.expr {
            SetExpr::Empty => SetExpr::Full,
            SetExpr::Full => SetExpr::Empty,
            SetExpr::Not(a) => (**a).clone(),
            _ => SetExpr::Not(Box::new(self.expr.clone())),
        };
        GustVersionSet { expr, known: copy_versions(&self.known) }
    }

    /// The versions that both sets hold.
    pub fn intersection(&self, other: &Self) -> (r: Self)
        ensures
            r@ == intersection_of(self@, other@),
            r.known() == merged(self.known(), other.known()),
    {
        let expr = match (&self.expr, &other.expr) {
            (SetExpr::Empty, _) => SetExpr::Empty,
            (_, SetExpr::Empty) => SetExpr::Empty,
            (SetExpr::Full, _) => other.expr.clone(),
            (_, SetExpr::Full) => self.expr.clone(),
            _ => {
                if self.expr.same(&other.expr) {
                    self.expr.clone()
                } else if self.expr.opposes(&other.expr) {
                    SetExpr::Empty
                } else {
                    SetExpr::And(Box::new(self.expr.clone()), Box::new(other.expr.clone()))
                }
            },
        };
        GustVersionSet { expr, known: merge_known(&self.known, &other.known) }
    }

    /// The versions that one of the sets holds.
    pub fn union(&self, other: &Self) -> (r: Self)
        ensures
            r@ == union_of(self@, other@),
            r.known() == merged(self.known(), other.known()),
    {
        let expr = match (&self.expr, &other.expr) {
            (SetExpr::Full, _) => SetExpr::Full,
            (_, SetExpr::Full) => SetExpr::Full,
            (SetExpr::Empty, _) => other.expr.clone(),
            (_, SetExpr::Empty) => self.expr.clone(),
            _ => {
                if self.expr.same(&other.expr) {
                    self.expr.clone()
                } else if self.expr.opposes(&other.expr) {
                    SetExpr::Full
                } else {
                    SetExpr::Or(Box::new(self.expr.clone()), Box::new(other.expr.clone()))
                }
            },
        };
        GustVersionSet { expr, known: merge_known(&self.known, &other.known) }
    }

    /// Whether the set holds `v`.
    pub fn contains(&self, v: &GustVersion) -> (r: bool)
        ensures
            r == holds(self@, v.0@),
    {
        self.expr.contains(&v.0)
    }

    /// Whether the set holds the version `v`.
    pub fn contains_version(&self, v: &Version) -> (r: bool)
        ensures
            r == holds(self@, v@),
    {
        self.expr.contains(v)
    }

    /// Whether the two sets share no version, judged by their shapes and on
    /// the versions known to either.
    pub fn is_disjoint(&self, other: &Self) -> (r: bool)
        ensures
            r == judged_disjoint(self@, other@, merged(self.known(), other.known())),
    {
        let structural = match (&self.expr, &other.expr) {
            (SetExpr::Empty, _) => true,
            (_, SetExpr::Empty) => true,
            _ => self.expr.opposes(&other.expr),
        };
        if structural {
            return true;
        }
        let known = merge_known(&self.known, &other.known);
        let ghost all = version_views(known@);
        if known.len() == 0 {
            return false;
        }
        let mut i: usize = 0;
        while i < known.len()
            invariant
                i <= known@.len(),
                all == version_views(known@),
                all == merged(self.known(), other.known()),
                !shown_disjoint(self@, other@),
                forall|j: int|
                    0 <= j < i ==> !(holds(self@, #[trigger] all[j]) && holds(other@, all[j])),
            decreases known@.len() - i,
        {
            assert(all[i as int] == known@[i as int]@);
            if self.expr.contains(&known[i]) && other.expr.contains(&known[i]) {
                return false;
            }
            i = i + 1;
        }
        true
    }

    /// Whether every version of this set is in `other`, judged by their
    /// shapes and on the versions known to either.
    pub fn subset_of(&self, other: &Self) -> (r: bool)
        ensures
            r == judged_subset(self@, other@, merged(self.known(), other.known())),
    {
        let structural = match (&self.expr, &other.expr) {
            (SetExpr::Empty, _) => true,
            (_, SetExpr::Full) => true,
            _ => self.expr.same(&other.expr),
        };
        if structural {
            return true;
        }
        let known = merge_known(&self.known, &other.known);
        let ghost all = version_views(known@);
        if known.len() == 0 {
            return false;
        }
        let mut i: usize = 0;
        while i < known.len()
            invariant
                i <= known@.len(),
                all == version_views(known@),
                all == merged(self.known(), other.known()),
                !shown_subset(self@, other@),
                forall|j: int|
                    0 <= j < i ==> (holds(self@, #[trigger] all[j]) ==> holds(other@, all[j])),
            decreases known@.len() - i,
        {
            assert(all[i as int] == known@[i as int]@);
            if self.expr.contains(&known[i]) && !other.expr.contains(&known[i]) {
                return false;
            }
            i = i + 1;
        }
        true
    }

    /// Whether the two sets are the same, judged by their formulas and on
    /// the versions known to either.
    pub fn same(&self, other: &Self) -> (r: bool)
        ensures
            r == judged_same(self@, other@, merged(self.known(), other.known())),
    {
        if self.expr.same(&other.expr) {
            return true;
        }
        let known = merge_known(&self.known, &other.known);
        let ghost all = version_views(known@);
        if known.len() == 0 {
            return false;
        }
        let mut i: usize = 0;
        while i < known.len()
            invariant
                i <= known@.len(),
                all == version_views(known@),
                all == merged(self.known(), other.known()),
                self@ != other@,
                forall|j: int|
                    0 <= j < i ==> holds(self@, #[trigger] all[j]) == holds(other@, all[j]),
            decreases known@.len() - i,
        {
            assert(all[i as int] == known@[i as int]@);
            if self.expr.contains(&known[i]) != other.expr.contains(&known[i]) {
                return false;
            }
            i = i + 1;
        }
        true
    }

    /// The notation of the set.
    pub fn to_string(&self) -> (out: String)
        ensures
            out@ == set_text(self@),
    {
        self.expr.to_string()
    }
}

/// Sets that are judged disjoint share no known version, and where the
/// shapes show it, no version at all.
pub proof fn lemma_judged_disjoint(
    a: SetModel,
    b: SetModel,
    known: Seq<VersionModel>,
    v: VersionModel,
)
    requires
        judged_disjoint(a, b, known),
        known.contains(v) || shown_disjoint(a, b),
    ensures
        !(holds(a, v) && holds(b, v)),
{
    if !shown_disjoint(a, b) {
        let i = choose|i: int| 0 <= i < known.len() && known[i] == v;
        assert(!(holds(a, known[i]) && holds(b, known[i])));
    }
}

/// Where one set is judged to lie within another, every known version of
/// the first is in the second, and where the shapes show it, every version.
pub proof fn lemma_judged_subset(
    a: SetModel,
    b: SetModel,
    known: Seq<VersionModel>,
    v: VersionModel,
)
    requires
        judged_subset(a, b, known),
        known.contains(v) || shown_subset(a, b),
        holds(a, v),
    ensures
        holds(b, v),
{
    if !shown_subset(a, b) {
        let i = choose|i: int| 0 <= i < known.len() && known[i] == v;
        assert(holds(a, known[i]) ==> holds(b, known[i]));
    }
}

} // verus!
