//! Tags with their message counts.
use vstd::prelude::*;
use crate::text;

verus! {

/// The body of `GET /api/tags`.
#[derive(Debug, Clone, PartialEq)]
pub struct TagList {
    pub tags: Vec<TagItem>,
}

/// A tag and the number of messages that carry it.
#[derive(Debug, Clone, PartialEq)]
pub struct TagItem {
    pub name: String,
    pub count: usize,
}

/// The notmuch query for the messages with tag `tag`: `tag:<tag>`.
pub fn tag_query(tag: &str) -> (r: String)
    ensures
        r@ == "tag:"@ + tag@,
{
    let mut r = text::copy_str("tag:");
    text::push_str(&mut r, tag);
    r
}

/// The tag list of `(tag, count)` pairs, in their order.
pub fn tag_list(pairs: Vec<(String, usize)>) -> (r: TagList)
    ensures
        r.tags@.len() == pairs@.len(),
        forall|i: int|
            0 <= i < pairs@.len() ==> #[trigger] r.tags@[i].name@ == pairs@[i].0@ && r.tags@[i].count
                == pairs@[i].1,
{
    let mut tags: Vec<TagItem> = Vec::new();
    let mut i: usize = 0;
    while i < pairs.len()
        invariant
            i <= pairs@.len(),
            tags@.len() == i,
            forall|j: int|
                0 <= j < i ==> #[trigger] tags@[j].name@ == pairs@[j].0@ && tags@[j].count
                    == pairs@[j].1,
        decreases pairs.len() - i,
    {
        tags.push(TagItem { name: text::copy_str(pairs[i].0.as_str()), count: pairs[i].1 });
        i = i + 1;
    }
    TagList { tags }
}

} // verus!
