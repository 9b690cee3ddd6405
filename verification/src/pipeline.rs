//! From the fetched lists of pull requests to the report: concatenate,
//! filter, group by author, order the groups.

use crate::filter::{
    first_lacking_author, bot_login, is_excluded, is_internal, kept, lacks_author, lemma_kept_complete,
    lemma_kept_sound, merged_after, qualifies, select, MalformedDataError, MalformedPolicy,
};
use crate::group::{
    by_author, group_by_author, has_group, is_grouping_of, lemma_by_author_complete,
    lemma_by_author_count, lemma_by_author_sound,
};
use crate::model::{
    clone_prs, groups_view, lists_view, prs_view, texts_view, AuthorGroupView, PullRequest,
    PullRequestView, Report,
};
use crate::order::{
    arranged_by, group_before, in_order, is_ordered, is_rearrangement, lists_position,
    order_groups,
};
use crate::text::{lemma_lex_less_total, lex_less};
use vstd::prelude::*;

verus! {

/// The lists one after another.
pub open spec fn flattened(lists: Seq<Seq<PullRequestView>>) -> Seq<PullRequestView>
    decreases lists.len(),
{
    if lists.len() == 0 {
        Seq::empty()
    } else {
        flattened(lists.drop_last()) + lists.last()
    }
}

/// `report` is the changelog of `prs` since `since` without the authors of
/// `excluded`: its groups partition the qualifying pull requests by author
/// and stand in changelog order.
pub open spec fn is_report_of(
    report: Seq<AuthorGroupView>,
    prs: Seq<PullRequestView>,
    since: i64,
    excluded: Seq<Seq<char>>,
) -> bool {
    &&& is_grouping_of(report, kept(prs, since, excluded))
    &&& is_ordered(report)
}

/// Joins the lists into one, the first list first.
pub fn concatenate(lists: &Vec<Vec<PullRequest>>) -> (r: Vec<PullRequest>)
    ensures
        prs_view(r@) == flattened(lists_view(lists@)),
{
    let ghost all = lists_view(lists@);
    let mut out: Vec<PullRequest> = Vec::new();
    let mut i: usize = 0;
    assert(prs_view(out@) =~= flattened(all.take(0)));
    while i < lists.len()
        invariant
            i <= lists.len(),
            all == lists_view(lists@),
            prs_view(out@) == flattened(all.take(i as int)),
        decreases lists.len() - i,
    {
        let ghost before = out@;
        let mut copy = clone_prs(&lists[i]);
        let ghost added = copy@;
        out.append(&mut copy);
        proof {
            assert(all.take(i + 1).drop_last() =~= all.take(i as int));
            assert(all.take(i + 1).last() == prs_view(lists@[i as int]@));
            assert(prs_view(before + added) =~= prs_view(before) + prs_view(added));
        }
        i += 1;
    }
    assert(all.take(i as int) =~= all);
    out
}

/// A partition by author stays one when its groups are put in another order.
pub proof fn lemma_rearranged_grouping(
    shown: Seq<AuthorGroupView>,
    groups: Seq<AuthorGroupView>,
    prs: Seq<PullRequestView>,
)
    requires
        is_grouping_of(groups, prs),
        is_rearrangement(shown, groups),
    ensures
        is_grouping_of(shown, prs),
{
    let order = choose|order: Seq<usize>| arranged_by(shown, groups, order);
    assert forall|g: int| 0 <= g < shown.len() implies (#[trigger] shown[g]).prs == by_author(
        prs,
        shown[g].author,
    ) && shown[g].prs.len() > 0 by {
        assert(shown[g] == groups[order[g] as int]);
    }
    assert forall|g: int, h: int| 0 <= g < h < shown.len() implies (#[trigger] shown[g]).author != (
    #[trigger] shown[h]).author by {
        assert(shown[g] == groups[order[g] as int]);
        assert(shown[h] == groups[order[h] as int]);
        assert(order[g] != order[h]);
    }
    assert forall|k: int| 0 <= k < prs.len() && (#[trigger] prs[k]).author is Some implies has_group(
        shown,
        prs[k].author.unwrap(),
    ) by {
        let a = prs[k].author.unwrap();
        let g = choose|g: int| 0 <= g < groups.len() && (#[trigger] groups[g]).author == a;
        assert(lists_position(order, g));
        let i = choose|i: int| 0 <= i < order.len() && (#[trigger] order[i]) == g;
        assert(shown[i] == groups[order[i] as int]);
    }
}

/// Every pull request of a report was merged after the boundary, carries no
/// internal label, was not written by an excluded author, is one of the
/// pull requests that the report was made from, and stands in the group of
/// its author.
pub proof fn lemma_report_members_qualify(
    report: Seq<AuthorGroupView>,
    prs: Seq<PullRequestView>,
    since: i64,
    excluded: Seq<Seq<char>>,
)
    requires
        is_report_of(report, prs, since, excluded),
    ensures
        forall|g: int, i: int|
            0 <= g < report.len() && 0 <= i < report[g].prs.len() ==> {
                let pr = #[trigger] report[g].prs[i];
                &&& merged_after(pr, since)
                &&& !is_internal(pr)
                &&& !is_excluded(pr, excluded)
                &&& pr.author == Some(report[g].author)
                &&& prs.contains(pr)
            },
{
    let chosen = kept(prs, since, excluded);
    lemma_kept_sound(prs, since, excluded);
    assert forall|g: int, i: int| 0 <= g < report.len() && 0 <= i < report[g].prs.len() implies {
        let pr = #[trigger] report[g].prs[i];
        &&& merged_after(pr, since)
        &&& !is_internal(pr)
        &&& !is_excluded(pr, excluded)
        &&& pr.author == Some(report[g].author)
        &&& prs.contains(pr)
    } by {
        let pr = report[g].prs[i];
        lemma_by_author_sound(chosen, report[g].author);
        assert(report[g].prs == by_author(chosen, report[g].author));
        assert(chosen.contains(pr));
        let k = choose|k: int| 0 <= k < chosen.len() && chosen[k] == pr;
        assert(qualifies(chosen[k], since, excluded));
    }
}

/// Where the dependency bot is among the excluded authors, no pull request
/// of a report was written by it.
pub proof fn lemma_report_without_bot(
    report: Seq<AuthorGroupView>,
    prs: Seq<PullRequestView>,
    since: i64,
    excluded: Seq<Seq<char>>,
)
    requires
        is_report_of(report, prs, since, excluded),
        excluded.contains(bot_login()),
    ensures
        forall|g: int, i: int|
            0 <= g < report.len() && 0 <= i < report[g].prs.len() ==> (
            #[trigger] report[g].prs[i]).author != Some(bot_login()),
        forall|g: int| 0 <= g < report.len() ==> (#[trigger] report[g]).author != bot_login(),
{
    lemma_report_members_qualify(report, prs, since, excluded);
    assert forall|g: int| 0 <= g < report.len() implies (#[trigger] report[g]).author
        != bot_login() by {
        assert(report[g].prs[0].author == Some(report[g].author));
    }
}

/// The groups of a report partition the qualifying pull requests: each
/// qualifying pull request stands in the group of its author, and in no
/// other group.
pub proof fn lemma_report_partitions(
    report: Seq<AuthorGroupView>,
    prs: Seq<PullRequestView>,
    since: i64,
    excluded: Seq<Seq<char>>,
)
    requires
        is_report_of(report, prs, since, excluded),
    ensures
        forall|k: int|
            0 <= k < prs.len() && qualifies(#[trigger] prs[k], since, excluded) ==> exists|g: int|
                0 <= g < report.len() && (#[trigger] report[g]).prs.contains(prs[k]),
        forall|g: int, h: int, i: int, j: int|
            0 <= g < report.len() && 0 <= h < report.len() && 0 <= i < report[g].prs.len() && 0
                <= j < report[h].prs.len() && #[trigger] report[g].prs[i]
                == #[trigger] report[h].prs[j] ==> g == h,
{
    let chosen = kept(prs, since, excluded);
    lemma_kept_sound(prs, since, excluded);
    lemma_kept_complete(prs, since, excluded);
    assert forall|k: int| 0 <= k < prs.len() && qualifies(#[trigger] prs[k], since, excluded) implies exists|
        g: int,
    | 0 <= g < report.len() && (#[trigger] report[g]).prs.contains(prs[k]) by {
        assert(chosen.contains(prs[k]));
        let c = choose|c: int| 0 <= c < chosen.len() && chosen[c] == prs[k];
        assert(chosen[c].author is Some);
        let a = chosen[c].author.unwrap();
        assert(has_group(report, a));
        let g = choose|g: int| 0 <= g < report.len() && (#[trigger] report[g]).author == a;
        lemma_by_author_complete(chosen, a, c);
        assert(report[g].prs.contains(prs[k]));
    }
    assert forall|g: int, h: int, i: int, j: int|
        0 <= g < report.len() && 0 <= h < report.len() && 0 <= i < report[g].prs.len() && 0 <= j
            < report[h].prs.len() && #[trigger] report[g].prs[i]
            == #[trigger] report[h].prs[j] implies g == h by {
        lemma_by_author_sound(chosen, report[g].author);
        lemma_by_author_sound(chosen, report[h].author);
        assert(report[g].prs[i].author == Some(report[g].author));
        assert(report[h].prs[j].author == Some(report[h].author));
        if g < h {
            assert(report[g].author != report[h].author);
        } else if h < g {
            assert(report[h].author != report[g].author);
        }
    }
}

/// A pull request occurs in a group of a report as often as among the
/// qualifying pull requests if the group is that of its author, and else
/// not at all: the groups repeat nothing and leave nothing out.
pub proof fn lemma_report_counts(
    report: Seq<AuthorGroupView>,
    prs: Seq<PullRequestView>,
    since: i64,
    excluded: Seq<Seq<char>>,
    g: int,
    pr: PullRequestView,
)
    requires
        is_report_of(report, prs, since, excluded),
        0 <= g < report.len(),
    ensures
        report[g].prs.to_multiset().count(pr) == if pr.author == Some(report[g].author) {
            kept(prs, since, excluded).to_multiset().count(pr)
        } else {
            0
        },
{
    lemma_by_author_count(kept(prs, since, excluded), report[g].author, pr);
}

/// Of two groups of a partition that is in changelog order, the earlier is
/// shown strictly before the later.
proof fn lemma_strictly_ordered(
    groups: Seq<AuthorGroupView>,
    chosen: Seq<PullRequestView>,
    g: int,
    h: int,
)
    requires
        is_grouping_of(groups, chosen),
        is_ordered(groups),
        0 <= g < h < groups.len(),
    ensures
        group_before(groups[g], groups[h]),
{
    assert(!group_before(groups[h], groups[g]));
    assert(groups[g].author != groups[h].author);
    lemma_lex_less_total(groups[g].author, groups[h].author);
}

/// Each group of one partition of `chosen` is a group of every other.
proof fn lemma_counterpart(
    a: Seq<AuthorGroupView>,
    b: Seq<AuthorGroupView>,
    chosen: Seq<PullRequestView>,
    g: int,
) -> (h: int)
    requires
        is_grouping_of(a, chosen),
        is_grouping_of(b, chosen),
        0 <= g < a.len(),
    ensures
        0 <= h < b.len(),
        b[h] == a[g],
{
    let author = a[g].author;
    lemma_by_author_sound(chosen, author);
    let first = by_author(chosen, author)[0];
    assert(a[g].prs == by_author(chosen, author));
    assert(chosen.contains(first));
    let k = choose|k: int| 0 <= k < chosen.len() && chosen[k] == first;
    assert(chosen[k].author == Some(author));
    assert(has_group(b, author));
    let h = choose|h: int| 0 <= h < b.len() && (#[trigger] b[h]).author == author;
    assert(b[h].prs == by_author(chosen, b[h].author));
    h
}

/// A group does not stand earlier in one ordered partition of `chosen` than
/// in another.
proof fn lemma_counterpart_not_earlier(
    a: Seq<AuthorGroupView>,
    b: Seq<AuthorGroupView>,
    chosen: Seq<PullRequestView>,
    g: int,
    h: int,
)
    requires
        is_grouping_of(a, chosen),
        is_grouping_of(b, chosen),
        is_ordered(a),
        is_ordered(b),
        0 <= g < a.len(),
        0 <= h < b.len(),
        b[h] == a[g],
    ensures
        g <= h,
    decreases g,
{
    if g > 0 {
        let before = lemma_counterpart(a, b, chosen, g - 1);
        lemma_counterpart_not_earlier(a, b, chosen, g - 1, before);
        lemma_strictly_ordered(a, chosen, g - 1, g);
        assert(group_before(b[before], b[h]));
        if h < before {
            assert(!group_before(b[before], b[h]));
        }
        if h == before {
            assert(a[g - 1].author != a[g].author);
        }
    }
}

/// Two ordered partitions of `chosen` agree wherever the first has a group.
proof fn lemma_same_group(
    a: Seq<AuthorGroupView>,
    b: Seq<AuthorGroupView>,
    chosen: Seq<PullRequestView>,
    g: int,
)
    requires
        is_grouping_of(a, chosen),
        is_grouping_of(b, chosen),
        is_ordered(a),
        is_ordered(b),
        0 <= g < a.len(),
    ensures
        g < b.len(),
        b[g] == a[g],
{
    let h = lemma_counterpart(a, b, chosen, g);
    lemma_counterpart_not_earlier(a, b, chosen, g, h);
    let back = lemma_counterpart(b, a, chosen, h);
    lemma_counterpart_not_earlier(b, a, chosen, h, back);
    if back < g {
        assert(a[back].author != a[g].author);
    } else if g < back {
        assert(a[g].author != a[back].author);
    }
}

/// The pull requests and the boundary decide the report: there is only one
/// report of them.
pub proof fn lemma_report_unique(
    a: Seq<AuthorGroupView>,
    b: Seq<AuthorGroupView>,
    prs: Seq<PullRequestView>,
    since: i64,
    excluded: Seq<Seq<char>>,
)
    requires
        is_report_of(a, prs, since, excluded),
        is_report_of(b, prs, since, excluded),
    ensures
        a == b,
{
    let chosen = kept(prs, since, excluded);
    if a.len() > 0 {
        lemma_same_group(a, b, chosen, a.len() - 1);
    }
    if b.len() > 0 {
        lemma_same_group(b, a, chosen, b.len() - 1);
    }
    assert forall|g: int| 0 <= g < a.len() implies a[g] == b[g] by {
        lemma_same_group(a, b, chosen, g);
    }
    assert(a =~= b);
}

/// In a report a group never has fewer pull requests than one before it,
/// and of two groups with equally many the one with the lexicographically
/// greater login comes first.
pub proof fn lemma_report_order(
    report: Seq<AuthorGroupView>,
    prs: Seq<PullRequestView>,
    since: i64,
    excluded: Seq<Seq<char>>,
    i: int,
    j: int,
)
    requires
        is_report_of(report, prs, since, excluded),
        0 <= i < j < report.len(),
    ensures
        report[i].prs.len() <= report[j].prs.len(),
        report[i].prs.len() == report[j].prs.len() ==> lex_less(report[j].author, report[i].author),
{
    assert(!group_before(report[j], report[i]));
    assert(report[i].author != report[j].author);
    if report[i].prs.len() == report[j].prs.len() {
        lemma_lex_less_total(report[i].author, report[j].author);
    }
}

/// When no pull request qualifies, the report has no group.
pub proof fn lemma_nothing_kept_no_group(
    report: Seq<AuthorGroupView>,
    prs: Seq<PullRequestView>,
    since: i64,
    excluded: Seq<Seq<char>>,
)
    requires
        is_report_of(report, prs, since, excluded),
        kept(prs, since, excluded).len() == 0,
    ensures
        report.len() == 0,
{
    if report.len() > 0 {
        assert(report[0].prs == by_author(kept(prs, since, excluded), report[0].author));
        assert(kept(prs, since, excluded) =~= Seq::empty());
    }
}

/// Builds the changelog of the pull requests of `lists` merged after
/// `since`, leaving out the authors whose logins `excluded` holds. Under the
/// strict policy a pull request that passes the recency and label filters
/// but has no author makes the call fail, with the position of the first
/// such pull request in the concatenated lists; under the lenient policy
/// such pull requests are left out.
pub fn aggregate(
    lists: &Vec<Vec<PullRequest>>,
    since: i64,
    policy: MalformedPolicy,
    excluded: &Vec<String>,
) -> (r: Result<Report, MalformedDataError>)
    ensures
        match r {
            Ok(report) => {
                &&& is_report_of(
                    report@,
                    flattened(lists_view(lists@)),
                    since,
                    texts_view(excluded@),
                )
                &&& policy is Strict ==> forall|i: int|
                    0 <= i < flattened(lists_view(lists@)).len() ==> !lacks_author(
                        #[trigger] flattened(lists_view(lists@))[i],
                        since,
                    )
            },
            Err(e) => policy is Strict && first_lacking_author(
                flattened(lists_view(lists@)),
                since,
                e.index as int,
            ),
        },
{
    let all = concatenate(lists);
    match select(&all, since, policy, excluded) {
        Ok(chosen) => {
            let groups = group_by_author(&chosen);
            let shown = order_groups(&groups);
            proof {
                let order = choose|order: Seq<usize>|
                    arranged_by(groups_view(shown@), groups_view(groups@), order) && in_order(
                        groups_view(groups@),
                        order,
                    );
                assert(arranged_by(groups_view(shown@), groups_view(groups@), order));
                lemma_rearranged_grouping(
                    groups_view(shown@),
                    groups_view(groups@),
                    prs_view(chosen@),
                );
            }
            Ok(Report { groups: shown })
        },
        Err(e) => Err(e),
    }
}

} // verus!
