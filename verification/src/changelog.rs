//! One run, from what was fetched to the text that is printed.

use crate::announce::{
    announces_update, first_update_at, last_dev_update, posts_view, NotFoundError,
};
use crate::filter::{
    first_lacking_author, kept, lacks_author, MalformedDataError, MalformedPolicy,
};
use crate::model::{
    lists_view, texts_view, AnnouncementPost, AnnouncementPostView, AuthorGroupView,
    PullRequest, PullRequestView,
};
use crate::pipeline::{aggregate, flattened, is_report_of, lemma_nothing_kept_no_group};
use crate::render::{
    first_incomplete, lemma_empty_report_is_preamble, missing_field, preamble, render, rendered,
    report_complete, RenderError,
};
use vstd::prelude::*;

verus! {

/// Why a run printed no changelog.
#[derive(Debug, Clone, Copy)]
pub enum ChangelogError {
    /// No post of the feed announces a development update.
    NotFound(NotFoundError),
    /// A pull request cannot be attributed to an author.
    MalformedData(MalformedDataError),
    /// A pull request of the report cannot be shown.
    Render(RenderError),
}

/// `report` is the changelog of `prs` since post `i` of the feed, which is
/// the first that announces a development update.
pub open spec fn reports_since_update(
    report: Seq<AuthorGroupView>,
    posts: Seq<AnnouncementPostView>,
    i: int,
    prs: Seq<PullRequestView>,
    excluded: Seq<Seq<char>>,
) -> bool {
    first_update_at(posts, i) && is_report_of(report, prs, posts[i].published, excluded)
}

/// When no pull request qualifies, the report has no group, and it renders
/// as the preamble and nothing else.
pub proof fn lemma_nothing_kept_only_preamble(
    report: Seq<AuthorGroupView>,
    prs: Seq<PullRequestView>,
    since: i64,
    excluded: Seq<Seq<char>>,
    last_update: i64,
)
    requires
        is_report_of(report, prs, since, excluded),
        kept(prs, since, excluded).len() == 0,
    ensures
        report.len() == 0,
        report_complete(report),
        rendered(report, last_update) == preamble(last_update),
{
    lemma_nothing_kept_no_group(report, prs, since, excluded);
    lemma_empty_report_is_preamble(last_update);
    assert(report =~= Seq::<AuthorGroupView>::empty());
}

/// Writes the changelog of the pull requests of `lists` merged since the
/// first post of `posts` that announces a development update, leaving out
/// the authors whose logins `excluded` holds. Nothing is
/// written if there is no such post, if under the strict policy a pull
/// request cannot be attributed, or if a pull request of the report has no
/// title or no URL.
pub fn changelog(
    posts: &Vec<AnnouncementPost>,
    lists: &Vec<Vec<PullRequest>>,
    policy: MalformedPolicy,
    excluded: &Vec<String>,
) -> (r: Result<String, ChangelogError>)
    ensures
        match r {
            Ok(text) => exists|i: int, report: Seq<AuthorGroupView>|
                {
                    &&& #[trigger] reports_since_update(
                        report,
                        posts_view(posts@),
                        i,
                        flattened(lists_view(lists@)),
                        texts_view(excluded@),
                    )
                    &&& report_complete(report)
                    &&& text@ == rendered(report, posts_view(posts@)[i].published)
                },
            Err(ChangelogError::NotFound(e)) => e.searched == posts.len() && forall|i: int|
                0 <= i < posts.len() ==> !announces_update(#[trigger] posts_view(posts@)[i]),
            Err(ChangelogError::MalformedData(e)) => policy is Strict && exists|i: int|
                #[trigger] first_update_at(posts_view(posts@), i) && first_lacking_author(
                    flattened(lists_view(lists@)),
                    posts_view(posts@)[i].published,
                    e.index as int,
                ),
            Err(ChangelogError::Render(e)) => exists|i: int, report: Seq<AuthorGroupView>|
                {
                    &&& #[trigger] reports_since_update(
                        report,
                        posts_view(posts@),
                        i,
                        flattened(lists_view(lists@)),
                        texts_view(excluded@),
                    )
                    &&& first_incomplete(report, e.group as int, e.index as int)
                    &&& e.field == missing_field(report[e.group as int].prs[e.index as int])
                },
        },
        policy is Strict && r is Ok ==> forall|i: int, k: int|
            #[trigger] first_update_at(posts_view(posts@), i) && 0 <= k < flattened(
                lists_view(lists@),
            ).len() ==> !lacks_author(
                #[trigger] flattened(lists_view(lists@))[k],
                posts_view(posts@)[i].published,
            ),
{
    let ghost feed = posts_view(posts@);
    let ghost all = flattened(lists_view(lists@));
    let update = match last_dev_update(posts) {
        Ok(post) => post,
        Err(e) => {
            return Err(ChangelogError::NotFound(e));
        },
    };
    let ghost at = choose|i: int| first_update_at(feed, i) && update@ == #[trigger] feed[i];
    proof {
        assert forall|i: int| first_update_at(feed, i) implies i == at by {
            if i < at {
                assert(!announces_update(feed[i]));
            } else if at < i {
                assert(!announces_update(feed[at]));
            }
        }
    }
    let report = match aggregate(lists, update.published, policy, excluded) {
        Ok(report) => report,
        Err(e) => {
            return Err(ChangelogError::MalformedData(e));
        },
    };
    assert(reports_since_update(report@, feed, at, all, texts_view(excluded@)));
    match render(&report, update.published) {
        Ok(text) => Ok(text),
        Err(e) => Err(ChangelogError::Render(e)),
    }
}

} // verus!
