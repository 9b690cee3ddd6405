//! The data the changelog is computed from, and the mathematical view of
//! each type.

use vstd::prelude::*;

verus! {

/// A pull request as the code host reports it. Any of the optional fields
/// may be absent in fetched data.
#[derive(Debug)]
pub struct PullRequest {
    pub title: Option<String>,
    pub url: Option<String>,
    /// Login of the author.
    pub author: Option<String>,
    /// Merge time in microseconds since the Unix epoch; `None` if the pull
    /// request was closed without being merged.
    pub merged_at: Option<i64>,
    /// Names of the labels attached to the pull request.
    pub labels: Vec<String>,
    pub target_branch: String,
}

/// What a [`PullRequest`] is, as plain mathematical values.
pub struct PullRequestView {
    pub title: Option<Seq<char>>,
    pub url: Option<Seq<char>>,
    pub author: Option<Seq<char>>,
    pub merged_at: Option<i64>,
    pub labels: Seq<Seq<char>>,
    pub target_branch: Seq<char>,
}

/// The characters of an optional text.
pub open spec fn text_view(t: Option<String>) -> Option<Seq<char>> {
    match t {
        Some(s) => Some(s@),
        None => None,
    }
}

/// The characters of each text of a list.
pub open spec fn texts_view(ts: Seq<String>) -> Seq<Seq<char>> {
    ts.map_values(|s: String| s@)
}

impl View for PullRequest {
    type V = PullRequestView;

    open spec fn view(&self) -> PullRequestView {
        PullRequestView {
            title: text_view(self.title),
            url: text_view(self.url),
            author: text_view(self.author),
            merged_at: self.merged_at,
            labels: texts_view(self.labels@),
            target_branch: self.target_branch@,
        }
    }
}

/// The views of a list of pull requests, in order.
pub open spec fn prs_view(prs: Seq<PullRequest>) -> Seq<PullRequestView> {
    prs.map_values(|p: PullRequest| p@)
}

/// The views of several lists of pull requests.
pub open spec fn lists_view(lists: Seq<Vec<PullRequest>>) -> Seq<Seq<PullRequestView>> {
    lists.map_values(|l: Vec<PullRequest>| prs_view(l@))
}

/// Copies an optional text.
pub fn clone_text(t: &Option<String>) -> (r: Option<String>)
    ensures
        text_view(r) == text_view(*t),
{
    match t {
        Some(s) => Some(s.clone()),
        None => None,
    }
}

/// Copies a list of texts.
pub fn clone_texts(ts: &Vec<String>) -> (r: Vec<String>)
    ensures
        texts_view(r@) == texts_view(ts@),
{
    let mut out: Vec<String> = Vec::new();
    let mut i: usize = 0;
    while i < ts.len()
        invariant
            i <= ts.len(),
            out@.len() == i,
            forall|j: int| 0 <= j < i ==> out@[j]@ == ts@[j]@,
        decreases ts.len() - i,
    {
        out.push(ts[i].clone());
        i += 1;
    }
    assert(texts_view(out@) =~= texts_view(ts@));
    out
}

impl PullRequest {
    /// A copy with the same view.
    pub fn duplicate(&self) -> (r: PullRequest)
        ensures
            r@ == self@,
    {
        PullRequest {
            title: clone_text(&self.title),
            url: clone_text(&self.url),
            author: clone_text(&self.author),
            merged_at: self.merged_at,
            labels: clone_texts(&self.labels),
            target_branch: self.target_branch.clone(),
        }
    }
}

/// Copies a list of pull requests.
pub fn clone_prs(prs: &Vec<PullRequest>) -> (r: Vec<PullRequest>)
    ensures
        prs_view(r@) == prs_view(prs@),
{
    let mut out: Vec<PullRequest> = Vec::new();
    let mut i: usize = 0;
    while i < prs.len()
        invariant
            i <= prs.len(),
            out@.len() == i,
            forall|j: int| 0 <= j < i ==> out@[j]@ == prs@[j]@,
        decreases prs.len() - i,
    {
        out.push(prs[i].duplicate());
        i += 1;
    }
    assert(prs_view(out@) =~= prs_view(prs@));
    out
}

/// The pull requests of one author; their number decides where the group
/// stands in the report.
#[derive(Debug)]
pub struct AuthorGroup {
    pub author: String,
    pub prs: Vec<PullRequest>,
}

/// What an [`AuthorGroup`] is, as plain mathematical values.
pub struct AuthorGroupView {
    pub author: Seq<char>,
    pub prs: Seq<PullRequestView>,
}

impl View for AuthorGroup {
    type V = AuthorGroupView;

    open spec fn view(&self) -> AuthorGroupView {
        AuthorGroupView { author: self.author@, prs: prs_view(self.prs@) }
    }
}

impl AuthorGroup {
    /// The number of pull requests in the group.
    pub fn count(&self) -> (n: usize)
        ensures
            n == self@.prs.len(),
    {
        self.prs.len()
    }

    /// A copy with the same view.
    pub fn duplicate(&self) -> (r: AuthorGroup)
        ensures
            r@ == self@,
    {
        AuthorGroup { author: self.author.clone(), prs: clone_prs(&self.prs) }
    }
}

/// The views of a list of groups, in order.
pub open spec fn groups_view(groups: Seq<AuthorGroup>) -> Seq<AuthorGroupView> {
    groups.map_values(|g: AuthorGroup| g@)
}

/// The groups of a changelog in the order in which they are shown.
#[derive(Debug)]
pub struct Report {
    pub groups: Vec<AuthorGroup>,
}

impl View for Report {
    type V = Seq<AuthorGroupView>;

    open spec fn view(&self) -> Seq<AuthorGroupView> {
        groups_view(self.groups@)
    }
}

/// A forum post that may mark the boundary of a reporting period.
#[derive(Debug)]
pub struct AnnouncementPost {
    pub title: String,
    /// Publication time in microseconds since the Unix epoch.
    pub published: i64,
}

/// What an [`AnnouncementPost`] is, as plain mathematical values.
pub struct AnnouncementPostView {
    pub title: Seq<char>,
    pub published: i64,
}

impl View for AnnouncementPost {
    type V = AnnouncementPostView;

    open spec fn view(&self) -> AnnouncementPostView {
        AnnouncementPostView { title: self.title@, published: self.published }
    }
}

impl AnnouncementPost {
    /// A copy with the same view.
    pub fn duplicate(&self) -> (r: AnnouncementPost)
        ensures
            r@ == self@,
    {
        AnnouncementPost { title: self.title.clone(), published: self.published }
    }
}

} // verus!
