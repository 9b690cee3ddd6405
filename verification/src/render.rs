//! The changelog as markdown.

use crate::model::{AuthorGroup, AuthorGroupView, PullRequest, PullRequestView, Report};
use crate::text::{decimal, push_decimal, trim_text, trimmed};
use vstd::prelude::*;
use vstd::string::*;

verus! {

/// `n` times the character `c`.
pub open spec fn repeated(c: char, n: nat) -> Seq<char> {
    Seq::new(n, |i: int| c)
}

/// What stands before the first section: the time of the last update, in
/// microseconds since the Unix epoch, and a rule of a hundred `=`.
pub open spec fn preamble(last_update: i64) -> Seq<char> {
    "Last dev update was at "@ + decimal(last_update as int) + "\n\n"@ + repeated('=', 100)
        + "\n"@
}

/// The heading of an author's section.
pub open spec fn heading(author: Seq<char>) -> Seq<char> {
    "\n## "@ + author + "\n\n"@
}

/// A list item that links to `url` under the text `link_text`.
pub open spec fn bullet_text(link_text: Seq<char>, url: Seq<char>) -> Seq<char> {
    "- ["@ + link_text + "]("@ + url + ")\n"@
}

/// The pull request has what a list item shows.
pub open spec fn is_complete(pr: PullRequestView) -> bool {
    pr.title is Some && pr.url is Some
}

/// The list item of a pull request: its trimmed title, linked to its URL.
pub open spec fn bullet(pr: PullRequestView) -> Seq<char> {
    bullet_text(trimmed(pr.title.unwrap()), pr.url.unwrap())
}

/// The list items of `prs`, in order.
pub open spec fn bullets(prs: Seq<PullRequestView>) -> Seq<char>
    decreases prs.len(),
{
    if prs.len() == 0 {
        Seq::empty()
    } else {
        bullets(prs.drop_last()) + bullet(prs.last())
    }
}

/// The section of one author.
pub open spec fn section(group: AuthorGroupView) -> Seq<char> {
    heading(group.author) + bullets(group.prs)
}

/// The sections of `groups`, in order.
pub open spec fn sections(groups: Seq<AuthorGroupView>) -> Seq<char>
    decreases groups.len(),
{
    if groups.len() == 0 {
        Seq::empty()
    } else {
        sections(groups.drop_last()) + section(groups.last())
    }
}

/// The whole changelog.
pub open spec fn rendered(report: Seq<AuthorGroupView>, last_update: i64) -> Seq<char> {
    preamble(last_update) + sections(report)
}

/// Every pull request of the group has what a list item shows.
pub open spec fn group_complete(group: AuthorGroupView) -> bool {
    forall|i: int| 0 <= i < group.prs.len() ==> is_complete(#[trigger] group.prs[i])
}

/// Every pull request of the report has what a list item shows.
pub open spec fn report_complete(report: Seq<AuthorGroupView>) -> bool {
    forall|g: int| 0 <= g < report.len() ==> group_complete(#[trigger] report[g])
}

/// What a pull request lacks for its list item.
#[derive(Debug, Clone, Copy, PartialEq, Eq)]
pub enum MissingField {
    Title,
    Url,
}

/// The field that rendering misses first in an incomplete pull request.
pub open spec fn missing_field(pr: PullRequestView) -> MissingField {
    if pr.title is None {
        MissingField::Title
    } else {
        MissingField::Url
    }
}

/// Pull request `i` of the group is the first that is incomplete.
pub open spec fn first_incomplete_in(group: AuthorGroupView, i: int) -> bool {
    &&& 0 <= i < group.prs.len()
    &&& !is_complete(group.prs[i])
    &&& forall|j: int| 0 <= j < i ==> is_complete(#[trigger] group.prs[j])
}

/// Pull request `i` of group `g` is the first of the report, in the order
/// of rendering, that is incomplete.
pub open spec fn first_incomplete(report: Seq<AuthorGroupView>, g: int, i: int) -> bool {
    &&& 0 <= g < report.len()
    &&& first_incomplete_in(report[g], i)
    &&& forall|h: int| 0 <= h < g ==> group_complete(#[trigger] report[h])
}

/// A pull request of the report cannot be shown.
#[derive(Debug, Clone, Copy)]
pub struct RenderError {
    /// Position of the group in the report.
    pub group: usize,
    /// Position of the pull request in its group.
    pub index: usize,
    /// What the pull request lacks.
    pub field: MissingField,
}

/// What `render` owes for a report: the whole text if every pull request
/// is complete, else the place of the first that is not and what it lacks.
pub open spec fn is_render_of(
    r: Result<String, RenderError>,
    report: Seq<AuthorGroupView>,
    last_update: i64,
) -> bool {
    match r {
        Ok(text) => report_complete(report) && text@ == rendered(report, last_update),
        Err(e) => first_incomplete(report, e.group as int, e.index as int) && e.field
            == missing_field(report[e.group as int].prs[e.index as int]),
    }
}

/// Rendering is a function of the report and the time: whatever `render`
/// may return for them, it returns the same on every call, the same text
/// or the same failure.
pub proof fn lemma_render_deterministic(
    first: Result<String, RenderError>,
    second: Result<String, RenderError>,
    report: Seq<AuthorGroupView>,
    last_update: i64,
)
    requires
        is_render_of(first, report, last_update),
        is_render_of(second, report, last_update),
    ensures
        first is Ok <==> second is Ok,
        first is Ok ==> first.unwrap()@ == second.unwrap()@,
        first is Err ==> first.unwrap_err() == second.unwrap_err(),
{
    if first is Err {
        let a = first.unwrap_err();
        if second is Ok {
            assert(group_complete(report[a.group as int]));
            assert(is_complete(report[a.group as int].prs[a.index as int]));
        } else {
            let b = second.unwrap_err();
            if a.group < b.group {
                assert(group_complete(report[a.group as int]));
                assert(is_complete(report[a.group as int].prs[a.index as int]));
            } else if b.group < a.group {
                assert(group_complete(report[b.group as int]));
                assert(is_complete(report[b.group as int].prs[b.index as int]));
            } else if a.index < b.index {
                assert(is_complete(report[a.group as int].prs[a.index as int]));
            } else if b.index < a.index {
                assert(is_complete(report[a.group as int].prs[b.index as int]));
            }
        }
    } else if second is Err {
        let b = second.unwrap_err();
        assert(group_complete(report[b.group as int]));
        assert(is_complete(report[b.group as int].prs[b.index as int]));
    }
}

/// A report without groups renders as the preamble and nothing else.
pub proof fn lemma_empty_report_is_preamble(last_update: i64)
    ensures
        report_complete(Seq::<AuthorGroupView>::empty()),
        rendered(Seq::<AuthorGroupView>::empty(), last_update) == preamble(last_update),
{
    assert(rendered(Seq::<AuthorGroupView>::empty(), last_update) =~= preamble(last_update));
}

/// Appends `n` times the one-character text `unit` to `out`.
fn push_repeated(out: &mut String, unit: &str, n: usize)
    requires
        unit@.len() == 1,
    ensures
        final(out)@ == old(out)@ + repeated(unit@[0], n as nat),
{
    let mut i: usize = 0;
    assert(out@ =~= old(out)@ + repeated(unit@[0], 0));
    while i < n
        invariant
            i <= n,
            unit@.len() == 1,
            out@ == old(out)@ + repeated(unit@[0], i as nat),
        decreases n - i,
    {
        out.append(unit);
        i += 1;
        assert(out@ =~= old(out)@ + repeated(unit@[0], i as nat));
    }
}

/// The preamble of a changelog.
pub fn preamble_text(last_update: i64) -> (r: String)
    ensures
        r@ == preamble(last_update),
{
    let mut out = String::from_str("Last dev update was at ");
    push_decimal(&mut out, last_update);
    out.append("\n\n");
    proof {
        reveal_strlit("=");
    }
    push_repeated(&mut out, "=", 100);
    out.append("\n");
    out
}

/// The heading of an author's section.
pub fn heading_text(author: &str) -> (r: String)
    ensures
        r@ == heading(author@),
{
    let mut out = String::from_str("\n## ");
    out.append(author);
    out.append("\n\n");
    out
}

/// A list item that links to `url` under the text `link_text`.
pub fn bullet_line(link_text: &str, url: &str) -> (r: String)
    ensures
        r@ == bullet_text(link_text@, url@),
{
    let mut out = String::from_str("- [");
    out.append(link_text);
    out.append("](");
    out.append(url);
    out.append(")\n");
    out
}

/// The list item of a pull request, or what the pull request lacks for it.
pub fn render_bullet(pr: &PullRequest) -> (r: Result<String, MissingField>)
    ensures
        match r {
            Ok(line) => is_complete(pr@) && line@ == bullet(pr@),
            Err(field) => !is_complete(pr@) && field == missing_field(pr@),
        },
{
    match &pr.title {
        Some(title) => match &pr.url {
            Some(url) => Ok(bullet_line(trim_text(title.as_str()), url.as_str())),
            None => Err(MissingField::Url),
        },
        None => Err(MissingField::Title),
    }
}

/// The section of one author, or the first pull request of the group that
/// cannot be shown and what it lacks.
pub fn render_section(group: &AuthorGroup) -> (r: Result<String, (usize, MissingField)>)
    ensures
        match r {
            Ok(text) => group_complete(group@) && text@ == section(group@),
            Err((i, field)) => first_incomplete_in(group@, i as int) && field == missing_field(
                group@.prs[i as int],
            ),
        },
{
    let ghost prs = group@.prs;
    let mut out = heading_text(group.author.as_str());
    let mut i: usize = 0;
    assert(out@ =~= heading(group@.author) + bullets(prs.take(0)));
    while i < group.prs.len()
        invariant
            i <= group.prs.len(),
            prs == group@.prs,
            out@ == heading(group@.author) + bullets(prs.take(i as int)),
            forall|j: int| 0 <= j < i ==> is_complete(#[trigger] prs[j]),
        decreases group.prs.len() - i,
    {
        proof {
            assert(prs.take(i + 1).drop_last() =~= prs.take(i as int));
            assert(prs.take(i + 1).last() == group.prs@[i as int]@);
        }
        match render_bullet(&group.prs[i]) {
            Ok(line) => {
                out.append(line.as_str());
                assert(out@ =~= heading(group@.author) + bullets(prs.take(i + 1)));
            },
            Err(field) => {
                return Err((i, field));
            },
        }
        i += 1;
    }
    assert(prs.take(i as int) =~= prs);
    Ok(out)
}

/// Renders the report as markdown: the preamble, then for each group a
/// heading with the author's login and one list item per pull request.
/// Fails on the first pull request, in the order of rendering, that has no
/// title or no URL.
pub fn render(report: &Report, last_update: i64) -> (r: Result<String, RenderError>)
    ensures
        is_render_of(r, report@, last_update),
{
    let ghost groups = report@;
    let mut out = preamble_text(last_update);
    let mut g: usize = 0;
    assert(out@ =~= preamble(last_update) + sections(groups.take(0)));
    while g < report.groups.len()
        invariant
            g <= report.groups.len(),
            groups == report@,
            out@ == preamble(last_update) + sections(groups.take(g as int)),
            forall|h: int| 0 <= h < g ==> group_complete(#[trigger] groups[h]),
        decreases report.groups.len() - g,
    {
        proof {
            assert(groups.take(g + 1).drop_last() =~= groups.take(g as int));
            assert(groups.take(g + 1).last() == report.groups@[g as int]@);
        }
        match render_section(&report.groups[g]) {
            Ok(text) => {
                out.append(text.as_str());
                assert(out@ =~= preamble(last_update) + sections(groups.take(g + 1)));
            },
            Err((i, field)) => {
                return Err(RenderError { group: g, index: i, field });
            },
        }
        g += 1;
    }
    assert(groups.take(g as int) =~= groups);
    Ok(out)
}

} // verus!
