//! Which pull requests enter the changelog: those merged after the boundary,
//! not labelled as internal, and not written by an excluded author such as
//! the dependency bot.

use crate::model::{prs_view, texts_view, PullRequest, PullRequestView};
use vstd::prelude::*;
use vstd::string::*;

verus! {

/// The label that marks a pull request as internal.
pub open spec fn internal_label() -> Seq<char> {
    "internal"@
}

/// The login of the bot that updates dependencies.
pub open spec fn bot_login() -> Seq<char> {
    "renovate[bot]"@
}

/// The pull request was merged, and strictly later than `since`.
pub open spec fn merged_after(pr: PullRequestView, since: i64) -> bool {
    pr.merged_at is Some && pr.merged_at.unwrap() > since
}

/// The pull request carries the internal label, whatever else it carries.
pub open spec fn is_internal(pr: PullRequestView) -> bool {
    pr.labels.contains(internal_label())
}

/// The pull request was written by one of the excluded authors.
pub open spec fn is_excluded(pr: PullRequestView, excluded: Seq<Seq<char>>) -> bool {
    pr.author is Some && excluded.contains(pr.author.unwrap())
}

/// The authors that are excluded unless the caller says otherwise: the
/// dependency bot.
pub open spec fn standard_excluded() -> Seq<Seq<char>> {
    seq![bot_login()]
}

/// The pull request passes the recency and the label filter, which are
/// applied before the author is looked at.
pub open spec fn passes(pr: PullRequestView, since: i64) -> bool {
    merged_after(pr, since) && !is_internal(pr)
}

/// The pull request belongs in the changelog.
pub open spec fn qualifies(pr: PullRequestView, since: i64, excluded: Seq<Seq<char>>) -> bool {
    passes(pr, since) && pr.author is Some && !is_excluded(pr, excluded)
}

/// The pull request passes the recency and label filters but has no author,
/// so that it cannot be attributed.
pub open spec fn lacks_author(pr: PullRequestView, since: i64) -> bool {
    passes(pr, since) && pr.author is None
}

/// The qualifying pull requests of `prs`, in the order of `prs`.
pub open spec fn kept(prs: Seq<PullRequestView>, since: i64, excluded: Seq<Seq<char>>) -> Seq<
    PullRequestView,
>
    decreases prs.len(),
{
    if prs.len() == 0 {
        Seq::empty()
    } else if qualifies(prs.last(), since, excluded) {
        kept(prs.drop_last(), since, excluded).push(prs.last())
    } else {
        kept(prs.drop_last(), since, excluded)
    }
}

/// `i` is the first position of `prs` whose pull request lacks its author.
pub open spec fn first_lacking_author(prs: Seq<PullRequestView>, since: i64, i: int) -> bool {
    &&& 0 <= i < prs.len()
    &&& lacks_author(prs[i], since)
    &&& forall|j: int| 0 <= j < i ==> !lacks_author(prs[j], since)
}

/// What to do with a pull request that cannot be attributed to an author.
#[derive(Debug, Clone, Copy)]
pub enum MalformedPolicy {
    /// Fail on the first such pull request.
    Strict,
    /// Leave such pull requests out.
    Lenient,
}

/// A pull request lacks a field that is needed to place it.
#[derive(Debug, Clone, Copy)]
pub struct MalformedDataError {
    /// Position of the pull request in the list that was filtered.
    pub index: usize,
}

/// Every pull request kept qualifies and comes from `prs`.
pub proof fn lemma_kept_sound(prs: Seq<PullRequestView>, since: i64, excluded: Seq<Seq<char>>)
    ensures
        forall|k: int|
            0 <= k < kept(prs, since, excluded).len() ==> qualifies(
                #[trigger] kept(prs, since, excluded)[k],
                since,
                excluded,
            ) && prs.contains(kept(prs, since, excluded)[k]),
    decreases prs.len(),
{
    if prs.len() > 0 {
        lemma_kept_sound(prs.drop_last(), since, excluded);
        let rest = kept(prs.drop_last(), since, excluded);
        assert forall|k: int| 0 <= k < kept(prs, since, excluded).len() implies qualifies(
            #[trigger] kept(prs, since, excluded)[k],
            since,
            excluded,
        ) && prs.contains(kept(prs, since, excluded)[k]) by {
            if k < rest.len() {
                assert(kept(prs, since, excluded)[k] == rest[k]);
                let j = choose|j: int|
                    0 <= j < prs.drop_last().len() && prs.drop_last()[j] == rest[k];
                assert(prs[j] == rest[k]);
            } else {
                assert(prs[prs.len() - 1] == prs.last());
            }
        }
    }
}

/// Every qualifying pull request of `prs` is kept.
pub proof fn lemma_kept_complete(prs: Seq<PullRequestView>, since: i64, excluded: Seq<Seq<char>>)
    ensures
        forall|i: int|
            0 <= i < prs.len() && qualifies(#[trigger] prs[i], since, excluded) ==> kept(
                prs,
                since,
                excluded,
            ).contains(prs[i]),
    decreases prs.len(),
{
    if prs.len() > 0 {
        lemma_kept_complete(prs.drop_last(), since, excluded);
        let rest = kept(prs.drop_last(), since, excluded);
        let all = kept(prs, since, excluded);
        assert forall|i: int|
            0 <= i < prs.len() && qualifies(
                #[trigger] prs[i],
                since,
                excluded,
            ) implies all.contains(prs[i]) by {
            if i < prs.len() - 1 {
                assert(prs.drop_last()[i] == prs[i]);
                let k = choose|k: int| 0 <= k < rest.len() && rest[k] == prs[i];
                assert(all[k] == prs[i]);
            } else {
                assert(all[all.len() - 1] == prs[i]);
            }
        }
    }
}

/// Was the pull request merged strictly after `since`? One that was never
/// merged was not.
pub fn merged_since(pr: &PullRequest, since: i64) -> (r: bool)
    ensures
        r == merged_after(pr@, since),
{
    match pr.merged_at {
        Some(t) => t > since,
        None => false,
    }
}

/// Is `name` one of `texts`, character for character?
pub fn contains_text(texts: &Vec<String>, name: &String) -> (r: bool)
    ensures
        r == texts_view(texts@).contains(name@),
{
    let mut i: usize = 0;
    while i < texts.len()
        invariant
            i <= texts.len(),
            forall|j: int| 0 <= j < i ==> texts_view(texts@)[j] != name@,
        decreases texts.len() - i,
    {
        if texts[i] == *name {
            assert(texts_view(texts@)[i as int] == name@);
            return true;
        }
        i += 1;
    }
    false
}

/// Does the pull request carry a label with exactly this name?
pub fn has_label(pr: &PullRequest, name: &String) -> (r: bool)
    ensures
        r == pr@.labels.contains(name@),
{
    contains_text(&pr.labels, name)
}

/// The authors that are excluded unless the caller says otherwise.
pub fn standard_exclusions() -> (r: Vec<String>)
    ensures
        texts_view(r@) == standard_excluded(),
{
    let mut out: Vec<String> = Vec::new();
    out.push(String::from_str("renovate[bot]"));
    assert(texts_view(out@) =~= standard_excluded());
    out
}

/// Was the pull request written by the author with exactly this login?
pub fn written_by(pr: &PullRequest, login: &String) -> (r: bool)
    ensures
        r == (pr@.author == Some(login@)),
{
    match &pr.author {
        Some(a) => *a == *login,
        None => false,
    }
}

/// Applies the recency, label and author filters to `prs`, keeping the
/// order; `excluded` holds the logins of the authors to leave out. A pull
/// request that passes the first two filters but has no author is left out
/// under the lenient policy; under the strict policy the first such pull
/// request is reported and nothing is returned.
pub fn select(
    prs: &Vec<PullRequest>,
    since: i64,
    policy: MalformedPolicy,
    excluded: &Vec<String>,
) -> (r: Result<Vec<PullRequest>, MalformedDataError>)
    ensures
        match r {
            Ok(v) => {
                &&& prs_view(v@) == kept(prs_view(prs@), since, texts_view(excluded@))
                &&& policy is Strict ==> forall|i: int|
                    0 <= i < prs@.len() ==> !lacks_author(#[trigger] prs_view(prs@)[i], since)
            },
            Err(e) => policy is Strict && first_lacking_author(
                prs_view(prs@),
                since,
                e.index as int,
            ),
        },
{
    let internal = String::from_str("internal");
    let ghost all = prs_view(prs@);
    let mut out: Vec<PullRequest> = Vec::new();
    let mut i: usize = 0;
    while i < prs.len()
        invariant
            i <= prs.len(),
            all == prs_view(prs@),
            internal@ == internal_label(),
            prs_view(out@) == kept(all.take(i as int), since, texts_view(excluded@)),
            policy is Strict ==> forall|j: int|
                0 <= j < i ==> !lacks_author(#[trigger] all[j], since),
        decreases prs.len() - i,
    {
        let pr = &prs[i];
        proof {
            assert(all.take(i + 1).drop_last() =~= all.take(i as int));
            assert(all.take(i + 1).last() == pr@);
        }
        if merged_since(pr, since) && !has_label(pr, &internal) {
            match &pr.author {
                Some(login) => {
                    if !contains_text(excluded, login) {
                        out.push(pr.duplicate());
                        assert(prs_view(out@) =~= kept(
                            all.take(i as int),
                            since,
                            texts_view(excluded@),
                        ).push(pr@));
                    }
                },
                None => {
                    match policy {
                        MalformedPolicy::Strict => {
                            return Err(MalformedDataError { index: i });
                        },
                        MalformedPolicy::Lenient => {},
                    }
                },
            }
        }
        i += 1;
    }
    assert(all.take(i as int) =~= all);
    Ok(out)
}

} // verus!
