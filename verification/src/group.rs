//! Partition of pull requests by author.

use crate::model::{groups_view, prs_view, AuthorGroup, AuthorGroupView, PullRequest, PullRequestView};
use vstd::prelude::*;

verus! {

/// The pull requests of `prs` written by `author`, in the order of `prs`.
pub open spec fn by_author(prs: Seq<PullRequestView>, author: Seq<char>) -> Seq<PullRequestView>
    decreases prs.len(),
{
    if prs.len() == 0 {
        Seq::empty()
    } else if prs.last().author == Some(author) {
        by_author(prs.drop_last(), author).push(prs.last())
    } else {
        by_author(prs.drop_last(), author)
    }
}

/// `groups` partitions the attributed pull requests of `prs` by author: each
/// group holds exactly the pull requests of its author, in the order of
/// `prs`, and at least one; no two groups share an author; every author of
/// `prs` has a group.
pub open spec fn is_grouping_of(groups: Seq<AuthorGroupView>, prs: Seq<PullRequestView>) -> bool {
    &&& forall|g: int|
        0 <= g < groups.len() ==> (#[trigger] groups[g]).prs == by_author(prs, groups[g].author)
            && groups[g].prs.len() > 0
    &&& forall|g: int, h: int|
        0 <= g < h < groups.len() ==> (#[trigger] groups[g]).author != (#[trigger] groups[h]).author
    &&& forall|k: int|
        0 <= k < prs.len() && (#[trigger] prs[k]).author is Some ==> has_group(
            groups,
            prs[k].author.unwrap(),
        )
}

/// One of `groups` is that of `author`.
pub open spec fn has_group(groups: Seq<AuthorGroupView>, author: Seq<char>) -> bool {
    exists|g: int| 0 <= g < groups.len() && (#[trigger] groups[g]).author == author
}

/// `author` wrote one of the first `n` of `prs`.
pub open spec fn wrote_one(prs: Seq<PullRequestView>, author: Seq<char>, n: int) -> bool {
    exists|k: int| 0 <= k < n && k < prs.len() && (#[trigger] prs[k]).author == Some(author)
}

/// The first pull request of `a` in `prs` stands before every pull request
/// of `b`.
pub open spec fn appears_before(prs: Seq<PullRequestView>, a: Seq<char>, b: Seq<char>) -> bool {
    exists|k: int|
        0 <= k < prs.len() && (#[trigger] prs[k]).author == Some(a) && forall|j: int|
            0 <= j <= k ==> (#[trigger] prs[j]).author != Some(b)
}

/// The groups stand in the order in which their authors first appear in
/// `prs`.
pub open spec fn in_order_of_appearance(
    groups: Seq<AuthorGroupView>,
    prs: Seq<PullRequestView>,
) -> bool {
    forall|g: int, h: int|
        0 <= g < h < groups.len() ==> appears_before(
            prs,
            (#[trigger] groups[g]).author,
            (#[trigger] groups[h]).author,
        )
}

/// One of `names` is `name`.
pub open spec fn is_listed(names: Seq<String>, name: Seq<char>) -> bool {
    exists|g: int| 0 <= g < names.len() && (#[trigger] names[g])@ == name
}

/// Who wrote one of the first `n` wrote one of the first `m`, for `m` from
/// `n` on.
pub proof fn lemma_wrote_one_later(prs: Seq<PullRequestView>, author: Seq<char>, n: int, m: int)
    requires
        wrote_one(prs, author, n),
        n <= m,
    ensures
        wrote_one(prs, author, m),
{
    let k = choose|k: int| 0 <= k < n && k < prs.len() && (#[trigger] prs[k]).author == Some(author);
    assert(prs[k].author == Some(author));
}

/// An author who wrote one of `prs` has a pull request under `by_author`.
pub proof fn lemma_by_author_nonempty(prs: Seq<PullRequestView>, author: Seq<char>, k: int)
    requires
        0 <= k < prs.len(),
        prs[k].author == Some(author),
    ensures
        by_author(prs, author).len() > 0,
    decreases prs.len(),
{
    if k < prs.len() - 1 {
        assert(prs.drop_last()[k] == prs[k]);
        lemma_by_author_nonempty(prs.drop_last(), author, k);
    }
}

/// Every pull request under `by_author` is one of `prs` and was written by
/// `author`.
pub proof fn lemma_by_author_sound(prs: Seq<PullRequestView>, author: Seq<char>)
    ensures
        forall|i: int|
            0 <= i < by_author(prs, author).len() ==> (#[trigger] by_author(prs, author)[i]).author
                == Some(author) && prs.contains(by_author(prs, author)[i]),
    decreases prs.len(),
{
    if prs.len() > 0 {
        lemma_by_author_sound(prs.drop_last(), author);
        let rest = by_author(prs.drop_last(), author);
        let all = by_author(prs, author);
        assert forall|i: int| 0 <= i < all.len() implies (#[trigger] all[i]).author == Some(author)
            && prs.contains(all[i]) by {
            if i < rest.len() {
                assert(all[i] == rest[i]);
                let j = choose|j: int| 0 <= j < prs.drop_last().len() && prs.drop_last()[j] == rest[i];
                assert(prs[j] == rest[i]);
            } else {
                assert(prs[prs.len() - 1] == prs.last());
            }
        }
    }
}

/// Every pull request that `author` wrote is under `by_author`.
pub proof fn lemma_by_author_complete(prs: Seq<PullRequestView>, author: Seq<char>, k: int)
    requires
        0 <= k < prs.len(),
        prs[k].author == Some(author),
    ensures
        by_author(prs, author).contains(prs[k]),
    decreases prs.len(),
{
    let all = by_author(prs, author);
    if k < prs.len() - 1 {
        assert(prs.drop_last()[k] == prs[k]);
        lemma_by_author_complete(prs.drop_last(), author, k);
        let rest = by_author(prs.drop_last(), author);
        let i = choose|i: int| 0 <= i < rest.len() && rest[i] == prs[k];
        assert(all[i] == prs[k]);
    } else {
        assert(all[all.len() - 1] == prs[k]);
    }
}

/// A pull request occurs under `by_author` as often as in `prs` if `author`
/// wrote it, and else not at all.
pub proof fn lemma_by_author_count(
    prs: Seq<PullRequestView>,
    author: Seq<char>,
    pr: PullRequestView,
)
    ensures
        by_author(prs, author).to_multiset().count(pr) == if pr.author == Some(author) {
            prs.to_multiset().count(pr)
        } else {
            0
        },
    decreases prs.len(),
{
    broadcast use vstd::multiset::group_multiset_axioms;

    if prs.len() == 0 {
        prs.to_multiset_ensures();
        by_author(prs, author).to_multiset_ensures();
    } else {
        let rest = prs.drop_last();
        lemma_by_author_count(rest, author, pr);
        assert(prs =~= rest.push(prs.last()));
        rest.to_multiset_ensures();
        by_author(rest, author).to_multiset_ensures();
    }
}

/// Where `login` first stands in `names`, if it does.
pub fn position_of(names: &Vec<String>, login: &String) -> (r: Option<usize>)
    ensures
        match r {
            Some(g) => g < names.len() && names@[g as int]@ == login@ && forall|j: int|
                0 <= j < g ==> (#[trigger] names@[j])@ != login@,
            None => !is_listed(names@, login@),
        },
{
    let mut g: usize = 0;
    while g < names.len()
        invariant
            g <= names.len(),
            forall|j: int| 0 <= j < g ==> (#[trigger] names@[j])@ != login@,
        decreases names.len() - g,
    {
        if names[g] == *login {
            return Some(g);
        }
        g += 1;
    }
    None
}

/// The authors of `prs`, each once, in the order in which they first
/// appear.
pub fn distinct_authors(prs: &Vec<PullRequest>) -> (r: Vec<String>)
    ensures
        forall|g: int, h: int|
            0 <= g < h < r.len() ==> (#[trigger] r@[g])@ != (#[trigger] r@[h])@ && appears_before(
                prs_view(prs@),
                r@[g]@,
                r@[h]@,
            ),
        forall|g: int|
            0 <= g < r.len() ==> wrote_one(prs_view(prs@), (#[trigger] r@[g])@, prs.len() as int),
        forall|k: int|
            0 <= k < prs.len() && (#[trigger] prs_view(prs@)[k]).author is Some ==> is_listed(
                r@,
                prs_view(prs@)[k].author.unwrap(),
            ),
{
    let ghost all = prs_view(prs@);
    let mut names: Vec<String> = Vec::new();
    let mut k: usize = 0;
    while k < prs.len()
        invariant
            k <= prs.len(),
            all == prs_view(prs@),
            forall|g: int, h: int|
                0 <= g < h < names.len() ==> (#[trigger] names@[g])@ != (#[trigger] names@[h])@
                    && appears_before(all, names@[g]@, names@[h]@),
            forall|g: int| 0 <= g < names.len() ==> wrote_one(all, (#[trigger] names@[g])@, k as int),
            forall|j: int|
                0 <= j < k && (#[trigger] all[j]).author is Some ==> is_listed(
                    names@,
                    all[j].author.unwrap(),
                ),
        decreases prs.len() - k,
    {
        proof {
            assert forall|g: int| 0 <= g < names.len() implies wrote_one(
                all,
                (#[trigger] names@[g])@,
                k + 1,
            ) by {
                lemma_wrote_one_later(all, names@[g]@, k as int, k + 1);
            }
        }
        match &prs[k].author {
            Some(login) => {
                assert(all[k as int].author == Some(login@));
                if position_of(&names, login).is_none() {
                    let ghost before = names@;
                    names.push(login.clone());
                    proof {
                        let n = before.len() as int;
                        assert(names@[n]@ == login@);
                        assert forall|j: int|
                            0 <= j < k + 1 && (#[trigger] all[j]).author is Some implies is_listed(
                            names@,
                            all[j].author.unwrap(),
                        ) by {
                            if j < k {
                                let g = choose|g: int|
                                    0 <= g < before.len() && (#[trigger] before[g])@
                                        == all[j].author.unwrap();
                                assert(names@[g] == before[g]);
                            }
                        }
                        assert forall|g: int| 0 <= g < names.len() implies wrote_one(
                            all,
                            (#[trigger] names@[g])@,
                            k + 1,
                        ) by {
                            if g < n {
                                assert(names@[g] == before[g]);
                            }
                        }
                        assert forall|g: int, h: int| 0 <= g < h < names.len() implies (
                        #[trigger] names@[g])@ != (#[trigger] names@[h])@ && appears_before(
                            all,
                            names@[g]@,
                            names@[h]@,
                        ) by {
                            assert(names@[g] == before[g]);
                            if h < n {
                                assert(names@[h] == before[h]);
                            } else {
                                assert(wrote_one(all, before[g]@, k as int));
                                let w = choose|w: int|
                                    0 <= w < k && w < all.len() && (#[trigger] all[w]).author
                                        == Some(before[g]@);
                                assert forall|j: int| 0 <= j <= w implies (#[trigger] all[j]).author
                                    != Some(login@) by {
                                    if all[j].author == Some(login@) {
                                        assert(is_listed(before, login@));
                                    }
                                }
                            }
                        }
                    }
                }
            },
            None => {},
        }
        k += 1;
    }
    names
}

/// The pull requests of `prs` whose author is `login`, in order.
pub fn collect_by_author(prs: &Vec<PullRequest>, login: &String) -> (r: Vec<PullRequest>)
    ensures
        prs_view(r@) == by_author(prs_view(prs@), login@),
{
    let ghost all = prs_view(prs@);
    let mut out: Vec<PullRequest> = Vec::new();
    let mut i: usize = 0;
    while i < prs.len()
        invariant
            i <= prs.len(),
            all == prs_view(prs@),
            prs_view(out@) == by_author(all.take(i as int), login@),
        decreases prs.len() - i,
    {
        let pr = &prs[i];
        proof {
            assert(all.take(i + 1).drop_last() =~= all.take(i as int));
            assert(all.take(i + 1).last() == pr@);
        }
        let same = match &pr.author {
            Some(a) => *a == *login,
            None => false,
        };
        if same {
            out.push(pr.duplicate());
            assert(prs_view(out@) =~= by_author(all.take(i as int), login@).push(pr@));
        }
        i += 1;
    }
    assert(all.take(i as int) =~= all);
    out
}

/// Partitions `prs` by author. A pull request without an author belongs to
/// no group. Inside a group the pull requests keep the order of `prs`, and
/// the groups stand in the order in which their authors first appear.
pub fn group_by_author(prs: &Vec<PullRequest>) -> (r: Vec<AuthorGroup>)
    ensures
        is_grouping_of(groups_view(r@), prs_view(prs@)),
        in_order_of_appearance(groups_view(r@), prs_view(prs@)),
{
    let ghost all = prs_view(prs@);
    let names = distinct_authors(prs);
    let mut groups: Vec<AuthorGroup> = Vec::new();
    let mut g: usize = 0;
    while g < names.len()
        invariant
            g <= names.len(),
            all == prs_view(prs@),
            groups.len() == g,
            forall|g: int|
                0 <= g < names.len() ==> wrote_one(all, (#[trigger] names@[g])@, prs.len() as int),
            forall|j: int|
                0 <= j < g ==> (#[trigger] groups@[j])@.author == names@[j]@ && groups@[j]@.prs
                    == by_author(all, names@[j]@) && groups@[j]@.prs.len() > 0,
        decreases names.len() - g,
    {
        let members = collect_by_author(prs, &names[g]);
        proof {
            let name = names@[g as int]@;
            assert(wrote_one(all, name, prs.len() as int));
            let k = choose|k: int|
                0 <= k < prs.len() && k < all.len() && (#[trigger] all[k]).author == Some(name);
            lemma_by_author_nonempty(all, name, k);
        }
        groups.push(AuthorGroup { author: names[g].clone(), prs: members });
        g += 1;
    }
    proof {
        let gv = groups_view(groups@);
        assert forall|k: int| 0 <= k < all.len() && (#[trigger] all[k]).author is Some implies has_group(
            gv,
            all[k].author.unwrap(),
        ) by {
            let a = all[k].author.unwrap();
            assert(is_listed(names@, a));
            let g = choose|g: int| 0 <= g < names.len() && (#[trigger] names@[g])@ == a;
            assert(gv[g].author == a);
        }
        assert forall|g: int, h: int| 0 <= g < h < gv.len() implies (#[trigger] gv[g]).author != (
        #[trigger] gv[h]).author && appears_before(all, gv[g].author, gv[h].author) by {
            assert(groups@[g]@.author == names@[g]@);
            assert(groups@[h]@.author == names@[h]@);
        }
        assert forall|g: int| 0 <= g < gv.len() implies (#[trigger] gv[g]).prs == by_author(
            all,
            gv[g].author,
        ) && gv[g].prs.len() > 0 by {
            assert(groups@[g]@.author == names@[g]@);
        }
    }
    groups
}

} // verus!
