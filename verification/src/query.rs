//! What is asked of the code host and of the forum.

use vstd::prelude::*;
use vstd::string::*;

verus! {

/// Which branch of a pull request the branch name of a query is held
/// against.
#[derive(Debug, Clone, Copy, PartialEq, Eq)]
pub enum BranchFilter {
    /// The branch that the pull request is merged into.
    Base,
    /// The branch that the pull request comes from.
    Head,
}

/// Which posts of the community a feed query covers.
#[derive(Debug, Clone, Copy, PartialEq, Eq)]
pub enum FeedScope {
    /// Posts local to the forum instance.
    Local,
    /// Posts from every instance.
    All,
}

/// How many pull requests one page of the code host holds. Only the first
/// page is read, so older pull requests are not seen.
pub const PAGE_SIZE: u8 = 100;

/// A query for the closed pull requests of a repository, most recently
/// updated first.
#[derive(Debug)]
pub struct PullRequestQuery {
    pub owner: String,
    pub repo: String,
    pub branch: String,
    pub filter: BranchFilter,
    pub per_page: u8,
}

/// The query for the closed pull requests of `owner/repo` on `branch`.
pub fn closed_prs_query(owner: &str, repo: &str, branch: &str, filter: BranchFilter) -> (q:
    PullRequestQuery)
    ensures
        q.owner@ == owner@,
        q.repo@ == repo@,
        q.branch@ == branch@,
        q.filter == filter,
        q.per_page == PAGE_SIZE,
{
    PullRequestQuery {
        owner: String::from_str(owner),
        repo: String::from_str(repo),
        branch: String::from_str(branch),
        filter,
        per_page: PAGE_SIZE,
    }
}

/// The address of the twenty newest posts of the announcements community.
pub open spec fn feed_address(scope: FeedScope) -> Seq<char> {
    match scope {
        FeedScope::Local =>
            "https://lemmy.ml/api/v3/post/list?limit=20&sort=New&type=Local&community_name=announcements"@,
        FeedScope::All =>
            "https://lemmy.ml/api/v3/post/list?limit=20&sort=New&type=All&community_name=announcements"@,
    }
}

/// The address to fetch the feed of announcements from.
pub fn feed_url(scope: FeedScope) -> (r: &'static str)
    ensures
        r@ == feed_address(scope),
{
    match scope {
        FeedScope::Local =>
            "https://lemmy.ml/api/v3/post/list?limit=20&sort=New&type=Local&community_name=announcements",
        FeedScope::All =>
            "https://lemmy.ml/api/v3/post/list?limit=20&sort=New&type=All&community_name=announcements",
    }
}

} // verus!
