//! Search results: one summary per thread.
use vstd::prelude::*;
use crate::api::thread::MessageDetail;
use crate::mail::body;
use crate::mcp::util;
use crate::text;

verus! {

/// Query parameters of `GET /api/search`.
#[derive(Debug, Clone)]
pub struct SearchParams {
    pub q: String,
    pub offset: Option<usize>,
    pub limit: Option<usize>,
    pub sort: Option<String>,
}

/// A page of search results.
#[derive(Debug, Clone, PartialEq)]
pub struct ThreadList {
    pub query: String,
    pub total_count: usize,
    pub threads: Vec<ThreadSummary>,
}

/// One thread in a page of search results.
#[derive(Debug, Clone, PartialEq)]
pub struct ThreadSummary {
    pub thread_id: String,
    pub subject: String,
    pub authors: String,
    pub matched_messages: i32,
    pub total_messages: i32,
    pub newest_date: i64,
    pub oldest_date: i64,
    pub tags: Vec<String>,
    pub preview: Option<String>,
    pub has_attachments: bool,
}

/// The page a search returns: at most 100 threads, 20 unless asked, from
/// the offset asked (0 unless asked).
pub fn page_bounds(offset: Option<usize>, limit: Option<usize>) -> (r: (usize, usize))
    ensures
        r.0 == (match offset {
            Some(o) => o,
            None => 0,
        }),
        r.1 == (match limit {
            Some(l) => if l < 100 {
                l
            } else {
                100
            },
            None => 20,
        }),
{
    let o = match offset {
        Some(o) => o,
        None => 0,
    };
    let l = match limit {
        Some(l) => if l < 100 {
            l
        } else {
            100
        },
        None => 20,
    };
    (o, l)
}

/// Whether a search sorts oldest first (else newest first).
pub fn sort_oldest_first(sort: &Option<String>) -> (r: bool)
    ensures
        r == (match sort {
            Some(s) => s@ == "oldest"@,
            None => false,
        }),
{
    match sort {
        Some(s) => text::str_eq(s.as_str(), "oldest"),
        None => false,
    }
}

/// A thread has attachments when one of its tags mentions `attachment`.
pub fn has_attachment_tag(tags: &Vec<String>) -> (r: bool)
    ensures
        r == exists|k: int| 0 <= k < tags@.len() && text::contains(#[trigger] tags@[k]@, "attachment"@),
{
    let pat = text::chars_of("attachment");
    let mut k: usize = 0;
    while k < tags.len()
        invariant
            k <= tags@.len(),
            pat@ == "attachment"@,
            forall|j: int| 0 <= j < k ==> !text::contains(#[trigger] tags@[j]@, "attachment"@),
        decreases tags.len() - k,
    {
        if text::contains_exec(&text::chars_of(tags[k].as_str()), &pat) {
            return true;
        }
        k = k + 1;
    }
    false
}

/// The text a thread's preview is cut from: the first message's plain text,
/// else its content where that is plain text.
pub open spec fn preview_source(m: MessageDetail) -> Option<Seq<char>> {
    match m.body_text {
        Some(t) => Some(t@),
        None => if m.content_type@ == "text/plain"@ {
            Some(m.content@)
        } else {
            None
        },
    }
}

/// The preview of a thread: the first 200 bytes (at a word break) of the
/// text of its first message.
pub fn thread_preview(first: &Option<MessageDetail>) -> (r: Option<String>)
    ensures
        match first {
            Some(m) => match preview_source(*m) {
                Some(t) => r matches Some(p) && p@ == body::truncate_spec(t, 200, " [truncated...]"@),
                None => r is None,
            },
            None => r is None,
        },
{
    match first {
        Some(m) => match &m.body_text {
            Some(t) => Some(body::truncate_text(t.as_str(), 200)),
            None => if text::str_eq(m.content_type.as_str(), "text/plain") {
                Some(body::truncate_text(m.content.as_str(), 200))
            } else {
                None
            },
        },
        None => None,
    }
}

/// The summary of a thread from what the index says of it and its first
/// message (`None` where that could not be read): authors joined by `, `,
/// attachments from the tags, and the preview.
pub fn thread_summary(
    thread_id: String,
    subject: String,
    authors: &Vec<String>,
    matched_messages: i32,
    total_messages: i32,
    newest_date: i64,
    oldest_date: i64,
    tags: Vec<String>,
    first: &Option<MessageDetail>,
) -> (r: ThreadSummary)
    ensures
        r.thread_id == thread_id,
        r.subject == subject,
        r.authors@ == text::join_with(util::strings_view(authors@), ", "@),
        r.matched_messages == matched_messages,
        r.total_messages == total_messages,
        r.newest_date == newest_date,
        r.oldest_date == oldest_date,
        r.tags == tags,
        r.has_attachments == exists|k: int|
            0 <= k < tags@.len() && text::contains(#[trigger] tags@[k]@, "attachment"@),
        match first {
            Some(m) => match preview_source(*m) {
                Some(t) => r.preview matches Some(p) && p@ == body::truncate_spec(
                    t,
                    200,
                    " [truncated...]"@,
                ),
                None => r.preview is None,
            },
            None => r.preview is None,
        },
{
    let mut a: Vec<char> = Vec::new();
    text::push_joined(&mut a, authors, ", ");
    proof {
        assert(Seq::<char>::empty() + text::join_with(util::strings_view(authors@), ", "@)
            =~= text::join_with(util::strings_view(authors@), ", "@));
    }
    let has_attachments = has_attachment_tag(&tags);
    let preview = thread_preview(first);
    ThreadSummary {
        thread_id,
        subject,
        authors: text::string_of(&a),
        matched_messages,
        total_messages,
        newest_date,
        oldest_date,
        tags,
        preview,
        has_attachments,
    }
}

} // verus!
