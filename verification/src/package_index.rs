//! The public index of Swift packages: what a repository address stands
//! for, and which packages answer a search.

use vstd::prelude::*;
use crate::text::{
    chars_occur_at, chars_slice, from_chars, has_prefix, has_substring, has_suffix, lowercased,
    positions, sort_order, sorted_order, split, split_on, str_contains, str_eq, str_starts_with,
    to_chars, to_lowercase, views,
};

verus! {

/// A package of the index.
#[derive(Debug)]
pub struct IndexedPackage {
    /// The name of the package, which is the last part of its address.
    pub name: String,
    /// The owner of the repository.
    pub owner: String,
    /// The address of the repository.
    pub url: String,
}

/// A text without the endings `.git` that it has, however many.
pub open spec fn without_git(s: Seq<char>) -> Seq<char>
    decreases s.len(),
{
    if s.len() >= 4 && has_suffix(s, ".git"@) {
        without_git(s.take(s.len() - 4))
    } else {
        s
    }
}

/// The owner and the name that a repository address stands for: the last
/// two parts of the address without its `.git` endings. An address without
/// a `/` stands for nothing.
pub open spec fn owner_and_name(url: Seq<char>) -> Option<(Seq<char>, Seq<char>)> {
    let parts = split(without_git(url), '/');
    if parts.len() >= 2 {
        Some((parts[parts.len() - 2], parts[parts.len() - 1]))
    } else {
        None
    }
}

/// The owner and the name that a repository address stands for.
pub fn parse_github_url(url: &str) -> (r: Option<(String, String)>)
    ensures
        match r {
            Some((owner, name)) => owner_and_name(url@) == Some((owner@, name@)),
            None => owner_and_name(url@) is None,
        },
{
    let chars = to_chars(url);
    let ending = to_chars(".git");
    proof {
        reveal_strlit(".git");
    }
    let mut end: usize = chars.len();
    assert(url@.take(end as int) =~= url@);
    while end >= 4 && chars_occur_at(&chars, &ending, end - 4)
        invariant
            end <= chars@.len(),
            chars@ == url@,
            ending@ == ".git"@,
            ending@.len() == 4,
            without_git(url@) == without_git(url@.take(end as int)),
        decreases end,
    {
        proof {
            let t = url@.take(end as int);
            assert(t.subrange(t.len() - 4, t.len() as int) =~= chars@.subrange(
                end - 4,
                end as int,
            ));
            assert(t.take(t.len() - 4) =~= url@.take(end - 4));
        }
        end = end - 4;
    }
    proof {
        let t = url@.take(end as int);
        if end >= 4 {
            assert(t.subrange(t.len() - 4, t.len() as int) =~= chars@.subrange(
                end - 4,
                end as int,
            ));
        }
        assert(without_git(t) == t);
    }
    let trimmed = from_chars(&chars_slice(&chars, 0, end));
    assert(trimmed@ =~= url@.take(end as int));
    let mut parts = split_on(trimmed.as_str(), '/');
    let n = parts.len();
    if n >= 2 {
        let ghost all = views(parts@);
        let name = parts.pop().unwrap();
        let owner = parts.pop().unwrap();
        assert(name@ == all[n - 1]);
        assert(owner@ == all[n - 2]);
        Some((owner, name))
    } else {
        None
    }
}

/// A package of the index as mathematical values.
pub struct IndexedModel {
    pub name: Seq<char>,
    pub owner: Seq<char>,
    pub url: Seq<char>,
}

impl View for IndexedPackage {
    type V = IndexedModel;

    open spec fn view(&self) -> IndexedModel {
        IndexedModel { name: self.name@, owner: self.owner@, url: self.url@ }
    }
}

impl Clone for IndexedPackage {
    fn clone(&self) -> (r: Self)
        ensures
            r@ == self@,
    {
        IndexedPackage {
            name: self.name.clone(),
            owner: self.owner.clone(),
            url: self.url.clone(),
        }
    }
}

/// The mathematical values of a list of packages.
pub open spec fn index_views(s: Seq<IndexedPackage>) -> Seq<IndexedModel> {
    s.map_values(|p: IndexedPackage| p@)
}

/// The package that an address stands for, if it answers the query: if
/// its name or its owner, in lower case, holds the query.
pub open spec fn answer_of(url: Seq<char>, query: Seq<char>) -> Option<IndexedModel> {
    match owner_and_name(url) {
        Some((owner, name)) => if has_substring(lowercased(name), query) || has_substring(
            lowercased(owner),
            query,
        ) {
            Some(IndexedModel { name, owner, url })
        } else {
            None
        },
        None => None,
    }
}

/// The packages among the first `upto` addresses that answer the query, in
/// order.
pub open spec fn answers(urls: Seq<Seq<char>>, query: Seq<char>, upto: int) -> Seq<IndexedModel>
    decreases upto,
{
    if upto <= 0 {
        Seq::<IndexedModel>::empty()
    } else {
        let rest = answers(urls, query, upto - 1);
        match answer_of(urls[upto - 1], query) {
            Some(p) => rest.push(p),
            None => rest,
        }
    }
}

/// The names of a list of packages, in lower case.
pub open spec fn lower_names(s: Seq<IndexedModel>) -> Seq<Seq<char>> {
    s.map_values(|p: IndexedModel| lowercased(p.name))
}

/// The packages in the order of their names in lower case. Packages of
/// the same name keep their order.
pub open spec fn by_name(s: Seq<IndexedModel>) -> Seq<IndexedModel> {
    Seq::new(s.len(), |k: int| s[sorted_order(lower_names(s), s.len() as int)[k]])
}

/// How well a name answers a query, both in lower case: 0 where the name
/// is the query, 1 where it begins with the query, 2 otherwise.
pub open spec fn rank_of(name: Seq<char>, query: Seq<char>) -> int {
    if name == query {
        0
    } else if has_prefix(name, query) {
        1
    } else {
        2
    }
}

/// The packages among the first `upto` whose name has the given rank, in
/// order.
pub open spec fn of_rank(s: Seq<IndexedModel>, query: Seq<char>, rank: int, upto: int) -> Seq<
    IndexedModel,
>
    decreases upto,
{
    if upto <= 0 {
        Seq::<IndexedModel>::empty()
    } else {
        let rest = of_rank(s, query, rank, upto - 1);
        if rank_of(lowercased(s[upto - 1].name), query) == rank {
            rest.push(s[upto - 1])
        } else {
            rest
        }
    }
}

/// The packages that answer a query, the best answers first: those whose
/// name is the query, then those whose name begins with it, then the
/// others, each group in the order of the names. Letter case does not
/// count.
pub open spec fn ranked(urls: Seq<Seq<char>>, query: Seq<char>) -> Seq<IndexedModel> {
    let q = lowercased(query);
    let s = by_name(answers(urls, q, urls.len() as int));
    of_rank(s, q, 0, s.len() as int) + of_rank(s, q, 1, s.len() as int) + of_rank(
        s,
        q,
        2,
        s.len() as int,
    )
}

fn rank(name: &str, query: &str) -> (r: u8)
    ensures
        r == rank_of(name@, query@),
{
    if str_eq(name, query) {
        0
    } else if str_starts_with(name, query) {
        1
    } else {
        2
    }
}

/// The first `limit` packages of the index that answer a query, the best
/// answers first: see `ranked`.
pub fn search_in(urls: &Vec<String>, query: &str, limit: usize) -> (out: Vec<IndexedPackage>)
    ensures
        index_views(out@) == ranked(views(urls@), query@).take(
            if limit <= ranked(views(urls@), query@).len() {
                limit as int
            } else {
                ranked(views(urls@), query@).len() as int
            },
        ),
{
    let q = to_lowercase(query);
    let ghost all = views(urls@);
    let mut found: Vec<IndexedPackage> = Vec::new();
    let mut names: Vec<String> = Vec::new();
    let mut i: usize = 0;
    assert(index_views(found@) =~= answers(all, q@, 0));
    while i < urls.len()
        invariant
            i <= urls@.len(),
            all == views(urls@),
            q@ == lowercased(query@),
            index_views(found@) == answers(all, q@, i as int),
            views(names@) == lower_names(index_views(found@)),
        decreases urls@.len() - i,
    {
        let ghost before = index_views(found@);
        let ghost keys = views(names@);
        assert(all[i as int] == urls@[i as int]@);
        match parse_github_url(urls[i].as_str()) {
            Some((owner, name)) => {
                let lower = to_lowercase(name.as_str());
                let lower_owner = to_lowercase(owner.as_str());
                if str_contains(lower.as_str(), q.as_str()) || str_contains(
                    lower_owner.as_str(),
                    q.as_str(),
                ) {
                    found.push(IndexedPackage { name, owner, url: urls[i].clone() });
                    names.push(lower);
                    assert(index_views(found@) =~= before.push(found@[found@.len() - 1]@));
                    assert(views(names@) =~= keys.push(lower@));
                    assert(lower_names(index_views(found@)) =~= lower_names(before).push(lower@));
                }
            },
            None => {},
        }
        i = i + 1;
    }
    let ghost hits = index_views(found@);
    let order = sort_order(&names);
    let mut sorted: Vec<IndexedPackage> = Vec::new();
    let mut keys: Vec<String> = Vec::new();
    let mut k: usize = 0;
    while k < order.len()
        invariant
            k <= order@.len(),
            order@.len() == found@.len(),
            names@.len() == found@.len(),
            hits == index_views(found@),
            views(names@) == lower_names(hits),
            positions(order@) == sorted_order(lower_names(hits), hits.len() as int),
            forall|j: int| 0 <= j < order@.len() ==> order@[j] < found@.len(),
            sorted@.len() == k,
            keys@.len() == k,
            forall|j: int| 0 <= j < k ==> (#[trigger] sorted@[j])@ == by_name(hits)[j],
            forall|j: int| 0 <= j < k ==> (#[trigger] keys@[j])@ == lowercased(by_name(hits)[j].name),
        decreases order@.len() - k,
    {
        proof {
            assert(positions(order@)[k as int] == order@[k as int] as int);
            assert(hits[order@[k as int] as int] == found@[order@[k as int] as int]@);
            assert(views(names@)[order@[k as int] as int] == names@[order@[k as int] as int]@);
        }
        sorted.push(found[order[k]].clone());
        keys.push(names[order[k]].clone());
        k = k + 1;
    }
    assert(index_views(sorted@) =~= by_name(hits));
    let ghost s = by_name(hits);
    let n = sorted.len();
    let mut all_ranked: Vec<IndexedPackage> = Vec::new();
    let mut wanted: u8 = 0;
    while wanted < 3
        invariant
            wanted <= 3,
            n == sorted@.len(),
            keys@.len() == n,
            s == index_views(sorted@),
            s.len() == n,
            q@ == lowercased(query@),
            forall|j: int| 0 <= j < n ==> (#[trigger] keys@[j])@ == lowercased(s[j].name),
            index_views(all_ranked@) == (if wanted == 0 {
                Seq::<IndexedModel>::empty()
            } else if wanted == 1 {
                of_rank(s, q@, 0, n as int)
            } else if wanted == 2 {
                of_rank(s, q@, 0, n as int) + of_rank(s, q@, 1, n as int)
            } else {
                of_rank(s, q@, 0, n as int) + of_rank(s, q@, 1, n as int) + of_rank(
                    s,
                    q@,
                    2,
                    n as int,
                )
            }),
        decreases 3 - wanted,
    {
        let ghost start = index_views(all_ranked@);
        let mut j: usize = 0;
        assert(index_views(all_ranked@) =~= start + of_rank(s, q@, wanted as int, 0));
        while j < n
            invariant
                j <= n,
                n == sorted@.len(),
                keys@.len() == n,
                s == index_views(sorted@),
                forall|h: int| 0 <= h < n ==> (#[trigger] keys@[h])@ == lowercased(s[h].name),
                index_views(all_ranked@) == start + of_rank(s, q@, wanted as int, j as int),
            decreases n - j,
        {
            let ghost sofar = index_views(all_ranked@);
            assert(s[j as int] == sorted@[j as int]@);
            if rank(keys[j].as_str(), q.as_str()) == wanted {
                all_ranked.push(sorted[j].clone());
                assert(index_views(all_ranked@) =~= sofar.push(s[j as int]));
                assert(index_views(all_ranked@) =~= start + of_rank(
                    s,
                    q@,
                    wanted as int,
                    j + 1,
                ));
            }
            j = j + 1;
        }
        wanted = wanted + 1;
    }
    assert(index_views(all_ranked@) == ranked(all, query@));
    let ghost total = index_views(all_ranked@);
    let mut out: Vec<IndexedPackage> = Vec::new();
    let mut t: usize = 0;
    while t < all_ranked.len() && t < limit
        invariant
            t <= all_ranked@.len(),
            t <= limit,
            total == index_views(all_ranked@),
            index_views(out@) == total.take(t as int),
        decreases all_ranked@.len() - t,
    {
        let ghost sofar = index_views(out@);
        out.push(all_ranked[t].clone());
        assert(index_views(out@) =~= sofar.push(total[t as int]));
        assert(total.take(t + 1) =~= total.take(t as int).push(total[t as int]));
        t = t + 1;
    }
    out
}

} // verus!
