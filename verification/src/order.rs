//! The order in which the groups of a changelog are shown: authors with
//! fewer pull requests first, and among authors with equally many the
//! lexicographically greater login first.

use crate::model::{groups_view, AuthorGroup, AuthorGroupView};
use crate::text::{lemma_lex_less_asymmetric, lex_less, text_less};
use std::cmp::Ordering;
use vstd::prelude::*;

verus! {

/// `a` is shown strictly before `b`.
pub open spec fn group_before(a: AuthorGroupView, b: AuthorGroupView) -> bool {
    a.prs.len() < b.prs.len() || (a.prs.len() == b.prs.len() && lex_less(b.author, a.author))
}

/// No group stands after one that it is shown strictly before.
pub open spec fn is_ordered(groups: Seq<AuthorGroupView>) -> bool {
    forall|i: int, j: int|
        0 <= i < j < groups.len() ==> !group_before(#[trigger] groups[j], #[trigger] groups[i])
}

/// Position `k` stands somewhere in `order`.
pub open spec fn lists_position(order: Seq<usize>, k: int) -> bool {
    exists|i: int| 0 <= i < order.len() && (#[trigger] order[i]) == k
}

/// `order` lists the positions `0..n`, each exactly once.
pub open spec fn is_arrangement(order: Seq<usize>, n: nat) -> bool {
    &&& order.len() == n
    &&& forall|i: int| 0 <= i < order.len() ==> (#[trigger] order[i]) < n
    &&& forall|i: int, j: int|
        0 <= i < j < order.len() ==> (#[trigger] order[i]) != (#[trigger] order[j])
    &&& forall|k: int| 0 <= k < n ==> #[trigger] lists_position(order, k)
}

/// Read in the order of `order`, the groups are ordered, and of two groups
/// of which neither is shown strictly before the other, the one that stands
/// first in `groups` comes first.
pub open spec fn in_order(groups: Seq<AuthorGroupView>, order: Seq<usize>) -> bool {
    forall|i: int, j: int|
        0 <= i < j < order.len() && (#[trigger] order[i]) < groups.len() && (#[trigger] order[j])
            < groups.len() ==> {
            &&& !group_before(groups[order[j] as int], groups[order[i] as int])
            &&& !group_before(groups[order[i] as int], groups[order[j] as int]) ==> order[i]
                < order[j]
        }
}

/// `shown` holds the groups of `groups`, each exactly once, in the order of
/// `order`.
pub open spec fn arranged_by(
    shown: Seq<AuthorGroupView>,
    groups: Seq<AuthorGroupView>,
    order: Seq<usize>,
) -> bool {
    &&& is_arrangement(order, groups.len())
    &&& shown.len() == groups.len()
    &&& forall|i: int| 0 <= i < shown.len() ==> #[trigger] shown[i] == groups[order[i] as int]
}

/// `shown` holds the groups of `groups`, each exactly once, in some order.
pub open spec fn is_rearrangement(shown: Seq<AuthorGroupView>, groups: Seq<AuthorGroupView>) -> bool {
    exists|order: Seq<usize>| arranged_by(shown, groups, order)
}

/// `shown` holds the groups of `groups`, each exactly once, in changelog
/// order; groups that the order does not tell apart stand as in `groups`.
pub open spec fn is_ordering_of(shown: Seq<AuthorGroupView>, groups: Seq<AuthorGroupView>) -> bool {
    exists|order: Seq<usize>| arranged_by(shown, groups, order) && in_order(groups, order)
}

/// Is `a` shown strictly before `b`?
pub fn precedes(a: &AuthorGroup, b: &AuthorGroup) -> (r: bool)
    ensures
        r == group_before(a@, b@),
{
    let na = a.prs.len();
    let nb = b.prs.len();
    if na < nb {
        true
    } else if na > nb {
        false
    } else {
        text_less(b.author.as_str(), a.author.as_str())
    }
}

/// Compares two groups by their place in the changelog.
pub fn group_order(a: &AuthorGroup, b: &AuthorGroup) -> (o: Ordering)
    ensures
        (o == Ordering::Less) == group_before(a@, b@),
        (o == Ordering::Greater) == group_before(b@, a@),
{
    proof {
        lemma_lex_less_asymmetric(a@.author, b@.author);
    }
    if precedes(a, b) {
        Ordering::Less
    } else if precedes(b, a) {
        Ordering::Greater
    } else {
        Ordering::Equal
    }
}

/// Calls `Itertools::sorted_by` on the positions of `groups`, comparing two
/// positions by `group_order` on the groups that stand there. Trusted: the
/// result holds every position once; no position stands after one whose
/// group is shown strictly before its own; and positions whose groups
/// compare as equal stay in rising order, the sort being stable.
#[verifier::external_body]
pub(crate) fn sorted_positions(groups: &Vec<AuthorGroup>) -> (order: Vec<usize>)
    ensures
        is_arrangement(order@, groups@.len()),
        in_order(groups_view(groups@), order@),
{
    itertools::Itertools::sorted_by(
        0..groups.len(),
        |a: &usize, b: &usize| group_order(&groups[*a], &groups[*b]),
    ).collect()
}

/// Copies the groups in the order that `order` gives.
pub fn arrange(groups: &Vec<AuthorGroup>, order: &Vec<usize>) -> (r: Vec<AuthorGroup>)
    requires
        is_arrangement(order@, groups@.len()),
    ensures
        arranged_by(groups_view(r@), groups_view(groups@), order@),
{
    let mut out: Vec<AuthorGroup> = Vec::new();
    let mut i: usize = 0;
    while i < order.len()
        invariant
            i <= order.len(),
            is_arrangement(order@, groups@.len()),
            out@.len() == i,
            forall|j: int| 0 <= j < i ==> (#[trigger] out@[j])@ == groups@[order@[j] as int]@,
        decreases order.len() - i,
    {
        let at: usize = order[i];
        out.push(groups[at].duplicate());
        i += 1;
    }
    out
}

/// Orders the groups for the changelog: fewer pull requests first, and
/// among groups with equally many the greater login first.
pub fn order_groups(groups: &Vec<AuthorGroup>) -> (r: Vec<AuthorGroup>)
    ensures
        is_ordering_of(groups_view(r@), groups_view(groups@)),
        is_ordered(groups_view(r@)),
{
    let order = sorted_positions(groups);
    let shown = arrange(groups, &order);
    proof {
        let sv = groups_view(shown@);
        let gv = groups_view(groups@);
        assert forall|i: int, j: int| 0 <= i < j < sv.len() implies !group_before(
            #[trigger] sv[j],
            #[trigger] sv[i],
        ) by {
            assert(order@[i] < gv.len());
            assert(order@[j] < gv.len());
        }
        assert(arranged_by(sv, gv, order@) && in_order(gv, order@));
    }
    shown
}

} // verus!
