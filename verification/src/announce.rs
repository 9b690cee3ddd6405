//! The announcement that closes the previous reporting period.

use crate::model::{AnnouncementPost, AnnouncementPostView};
use crate::text::{occurs_in, text_contains};
use vstd::prelude::*;

verus! {

/// The words by which a development update is known.
pub open spec fn update_title() -> Seq<char> {
    "Lemmy Development Update"@
}

/// The title of the post holds the words of a development update.
pub open spec fn announces_update(post: AnnouncementPostView) -> bool {
    occurs_in(update_title(), post.title)
}

/// The views of a feed of posts, in feed order.
pub open spec fn posts_view(posts: Seq<AnnouncementPost>) -> Seq<AnnouncementPostView> {
    posts.map_values(|p: AnnouncementPost| p@)
}

/// Post `i` is the first of the feed that announces a development update.
pub open spec fn first_update_at(posts: Seq<AnnouncementPostView>, i: int) -> bool {
    &&& 0 <= i < posts.len()
    &&& announces_update(posts[i])
    &&& forall|j: int| 0 <= j < i ==> !announces_update(#[trigger] posts[j])
}

/// No post of the feed announces a development update.
#[derive(Debug, Clone, Copy)]
pub struct NotFoundError {
    /// How many posts were looked at.
    pub searched: usize,
}

/// Does the post announce a development update?
pub fn is_dev_update(post: &AnnouncementPost) -> (r: bool)
    ensures
        r == announces_update(post@),
{
    text_contains(post.title.as_str(), "Lemmy Development Update")
}

/// Finds the first post of the feed that announces a development update.
pub fn last_dev_update(posts: &Vec<AnnouncementPost>) -> (r: Result<AnnouncementPost, NotFoundError>)
    ensures
        match r {
            Ok(post) => exists|i: int|
                first_update_at(posts_view(posts@), i) && post@ == #[trigger] posts_view(posts@)[i],
            Err(e) => e.searched == posts.len() && forall|i: int|
                0 <= i < posts.len() ==> !announces_update(#[trigger] posts_view(posts@)[i]),
        },
{
    let mut i: usize = 0;
    while i < posts.len()
        invariant
            i <= posts.len(),
            forall|j: int| 0 <= j < i ==> !announces_update(#[trigger] posts_view(posts@)[j]),
        decreases posts.len() - i,
    {
        if is_dev_update(&posts[i]) {
            let found = posts[i].duplicate();
            assert(first_update_at(posts_view(posts@), i as int));
            return Ok(found);
        }
        i += 1;
    }
    Err(NotFoundError { searched: posts.len() })
}

} // verus!
