//! Parameters of the MCP tools, and the decisions they make.
use vstd::prelude::*;
use crate::api::search::ThreadSummary;
use crate::api::thread::{MessageDetail, ThreadDetail};
use crate::mcp::util;
use crate::mcp::BodyFormat;
use crate::text;

verus! {

/// Parameters of `search`.
#[derive(Debug, Clone)]
pub struct SearchParams {
    /// Notmuch query (e.g., "from:alice tag:inbox").
    pub query: String,
    /// Max threads to return (default: 20, max: 100).
    pub limit: Option<usize>,
    /// Pagination offset (default: 0).
    pub offset: Option<usize>,
    /// Sort order: "newest" or "oldest" (default: "newest").
    pub sort: Option<String>,
}

/// Parameters of `get_thread`.
#[derive(Debug, Clone)]
pub struct GetThreadParams {
    /// Thread ID from search results.
    pub thread_id: String,
    /// Body output format (default: text).
    pub body_format: BodyFormat,
}

/// Parameters of `get_message`.
#[derive(Debug, Clone)]
pub struct GetMessageParams {
    /// Message ID (notmuch message ID).
    pub message_id: String,
    /// Body output format (default: text).
    pub body_format: BodyFormat,
}

/// Parameters of `get_attachment`.
#[derive(Debug, Clone)]
pub struct GetAttachmentParams {
    /// Message ID containing the attachment.
    pub message_id: String,
    /// MIME part number (from attachment listings).
    pub part: usize,
}

/// Parameters of `get_attachment_text`.
#[derive(Debug, Clone)]
pub struct GetAttachmentTextParams {
    /// Message ID containing the attachment.
    pub message_id: String,
    /// MIME part number (from attachment listings).
    pub part: usize,
    /// Output format: "text" or "markdown" (default: "markdown").
    pub format: Option<String>,
}

/// Parameters of `list_tags`.
#[derive(Debug, Clone)]
pub struct ListTagsParams {
    /// Max tags to return (default: 50).
    pub limit: Option<usize>,
}

/// Parameters of `list_senders`.
#[derive(Debug, Clone)]
pub struct ListSendersParams {
    /// Max senders to return (default: 20).
    pub limit: Option<usize>,
    /// Optional query to scope senders.
    pub query: Option<String>,
}

/// Parameters of `search_within_thread`.
#[derive(Debug, Clone)]
pub struct SearchWithinThreadParams {
    /// Thread ID to search inside.
    pub thread_id: String,
    /// Case-insensitive search term.
    pub term: String,
    /// Body output format (default: text).
    pub body_format: BodyFormat,
}

/// Parameters of `find_related_threads`.
#[derive(Debug, Clone)]
pub struct FindRelatedThreadsParams {
    /// Source thread ID.
    pub thread_id: String,
    /// Strategy: "participants", "subject", "tags", or "auto" (default: "auto").
    pub strategy: Option<String>,
    /// Max related threads (default: 10).
    pub limit: Option<usize>,
}

/// Parameters of `get_conversation_tree`.
#[derive(Debug, Clone)]
pub struct GetConversationTreeParams {
    /// Thread ID.
    pub thread_id: String,
    /// Body output format (default: text).
    pub body_format: BodyFormat,
}

/// Parameters of `count_results`.
#[derive(Debug, Clone)]
pub struct CountResultsParams {
    /// Notmuch query.
    pub query: String,
}

// ── Related threads ─────────────────────────────────────────────────

pub open spec fn strip_reply_prefixes_spec(s: Seq<char>) -> Seq<char> {
    text::trim(text::replace_all(text::replace_all(s, "Re:"@, Seq::empty()), "Fwd:"@, Seq::empty()))
}

/// Strip `Re:` and `Fwd:` prefixes from a subject line and trim whitespace.
pub fn strip_reply_prefixes(subject: &str) -> (r: String)
    ensures
        r@ == strip_reply_prefixes_spec(subject@),
{
    let s = text::chars_of(subject);
    let t = text::replace_str(&s, "Re:", "");
    let t = text::replace_str(&t, "Fwd:", "");
    proof {
        assert(""@ =~= Seq::<char>::empty()) by {
            reveal_strlit("");
        }
    }
    text::string_of(&text::trim_exec(&t))
}

/// `acc` with the trimmed, non-empty pieces of `pieces` that it lacks
/// appended, in order.
pub open spec fn add_addrs(acc: Seq<Seq<char>>, pieces: Seq<Seq<char>>) -> Seq<Seq<char>>
    decreases pieces.len(),
{
    if pieces.len() == 0 {
        acc
    } else {
        let a = add_addrs(acc, pieces.drop_last());
        let t = text::trim(pieces.last());
        if t.len() > 0 && !a.contains(t) {
            a.push(t)
        } else {
            a
        }
    }
}

/// The addresses of the `From` and `To` headers of the first `k`
/// messages, each once, in order of appearance.
pub open spec fn participants_upto(msgs: Seq<MessageDetail>, k: int) -> Seq<Seq<char>>
    decreases k,
{
    if k <= 0 {
        Seq::empty()
    } else {
        let acc = participants_upto(msgs, k - 1);
        add_addrs(
            add_addrs(acc, text::split_char(msgs[k - 1].headers.from@, ',')),
            text::split_char(msgs[k - 1].headers.to@, ','),
        )
    }
}

pub open spec fn participants(msgs: Seq<MessageDetail>) -> Seq<Seq<char>> {
    participants_upto(msgs, msgs.len() as int)
}

/// Each item prefixed with `p`.
pub open spec fn prefixed(items: Seq<Seq<char>>, p: Seq<char>) -> Seq<Seq<char>> {
    items.map_values(|e: Seq<char>| p + e)
}

/// The query for threads on the subject of the first message, with `Re:`
/// and `Fwd:` stripped; none for an empty subject or `(no subject)`.
pub open spec fn subject_query_spec(msgs: Seq<MessageDetail>) -> Option<Seq<char>> {
    if msgs.len() > 0 {
        let s = strip_reply_prefixes_spec(msgs[0].subject@);
        if s.len() > 0 && s != "(no subject)"@ {
            Some("subject:\""@ + s + "\""@)
        } else {
            None
        }
    } else {
        None
    }
}

/// The queries of a strategy: for `participants` and `auto`, threads from
/// any participant of the source thread (where it has any); for `subject`,
/// threads on its subject; for `tags`, threads with any of its tags.
pub open spec fn related_queries_spec(strategy: Seq<char>, source: ThreadDetail) -> Seq<Seq<char>> {
    let emails = participants(source.messages@);
    if (strategy == "participants"@ || strategy == "auto"@) && emails.len() > 0 {
        seq![text::join_with(prefixed(emails, "from:"@), " OR "@)]
    } else if strategy == "subject"@ {
        match subject_query_spec(source.messages@) {
            Some(q) => seq![q],
            None => Seq::empty(),
        }
    } else if strategy == "tags"@ && source.tags@.len() > 0 {
        seq![text::join_with(prefixed(util::strings_view(source.tags@), "tag:"@), " OR "@)]
    } else {
        Seq::empty()
    }
}

/// Add the trimmed, non-empty pieces of `h`, split at commas, to `acc`.
fn add_addrs_exec(acc: &mut Vec<Vec<char>>, h: &String)
    ensures
        util::chars_view(final(acc)@) == add_addrs(util::chars_view(old(acc)@), text::split_char(h@, ',')),
{
    let pieces = text::split_char_exec(&text::chars_of(h.as_str()), ',');
    let ghost ps = text::split_char(h@, ',');
    let mut i: usize = 0;
    proof {
        assert(ps.take(0) =~= Seq::<Seq<char>>::empty());
    }
    while i < pieces.len()
        invariant
            i <= pieces@.len() == ps.len(),
            ps == text::split_char(h@, ','),
            forall|k: int| 0 <= k < pieces@.len() ==> #[trigger] pieces@[k]@ == ps[k],
            util::chars_view(acc@) == add_addrs(util::chars_view(old(acc)@), ps.take(i as int)),
        decreases pieces.len() - i,
    {
        let t = text::trim_exec(&pieces[i]);
        proof {
            assert(ps.take(i + 1).drop_last() =~= ps.take(i as int));
            assert(ps.take(i + 1).last() == ps[i as int]);
        }
        if t.len() > 0 {
            let mut found = false;
            let mut j: usize = 0;
            while j < acc.len()
                invariant
                    j <= acc@.len(),
                    found == exists|k: int| 0 <= k < j && #[trigger] acc@[k]@ == t@,
                decreases acc.len() - j,
            {
                if text::seq_eq(&acc[j], &t) {
                    found = true;
                }
                j = j + 1;
            }
            proof {
                let cv = util::chars_view(acc@);
                if found {
                    let k = choose|k: int| 0 <= k < acc@.len() && #[trigger] acc@[k]@ == t@;
                    assert(cv[k] == t@);
                } else {
                    assert forall|k: int| 0 <= k < cv.len() implies cv[k] != t@ by {
                        assert(acc@[k]@ == cv[k]);
                    }
                }
            }
            if !found {
                let ghost before = acc@;
                acc.push(t);
                proof {
                    assert(util::chars_view(acc@) =~= util::chars_view(before).push(t@));
                }
            }
        }
        i = i + 1;
    }
    proof {
        assert(ps.take(pieces@.len() as int) =~= ps);
    }
}

/// The participants of the messages, each once, in order of appearance.
pub fn participants_exec(msgs: &Vec<MessageDetail>) -> (r: Vec<Vec<char>>)
    ensures
        util::chars_view(r@) == participants(msgs@),
{
    let mut acc: Vec<Vec<char>> = Vec::new();
    let mut k: usize = 0;
    proof {
        assert(util::chars_view(acc@) =~= Seq::<Seq<char>>::empty());
    }
    while k < msgs.len()
        invariant
            k <= msgs@.len(),
            util::chars_view(acc@) == participants_upto(msgs@, k as int),
        decreases msgs.len() - k,
    {
        add_addrs_exec(&mut acc, &msgs[k].headers.from);
        add_addrs_exec(&mut acc, &msgs[k].headers.to);
        k = k + 1;
    }
    acc
}

/// `prefix` then each item, the items separated by `sep`.
fn join_prefixed(items: &Vec<Vec<char>>, prefix: &str, sep: &str) -> (r: String)
    ensures
        r@ == text::join_with(prefixed(util::chars_view(items@), prefix@), sep@),
{
    let mut parts: Vec<String> = Vec::new();
    let mut i: usize = 0;
    while i < items.len()
        invariant
            i <= items@.len(),
            util::strings_view(parts@) == prefixed(util::chars_view(items@), prefix@).take(i as int),
        decreases items.len() - i,
    {
        let mut p: Vec<char> = Vec::new();
        text::extend_str(&mut p, prefix);
        text::extend_chars(&mut p, &items[i]);
        let ghost before = parts@;
        parts.push(text::string_of(&p));
        proof {
            assert(util::strings_view(parts@) =~= util::strings_view(before).push(p@));
            assert(prefixed(util::chars_view(items@), prefix@).take(i + 1) =~= prefixed(
                util::chars_view(items@),
                prefix@,
            ).take(i as int).push(prefix@ + items@[i as int]@));
        }
        i = i + 1;
    }
    proof {
        assert(prefixed(util::chars_view(items@), prefix@).take(items@.len() as int) =~= prefixed(
            util::chars_view(items@),
            prefix@,
        ));
    }
    let mut out: Vec<char> = Vec::new();
    text::push_joined(&mut out, &parts, sep);
    proof {
        assert(Seq::<char>::empty() + text::join_with(util::strings_view(parts@), sep@)
            =~= text::join_with(util::strings_view(parts@), sep@));
    }
    text::string_of(&out)
}

/// The subject query of a thread (see `subject_query_spec`).
pub fn subject_query(source: &ThreadDetail) -> (r: Option<String>)
    ensures
        match r {
            Some(q) => subject_query_spec(source.messages@) == Some(q@),
            None => subject_query_spec(source.messages@) is None,
        },
{
    if source.messages.len() == 0 {
        return None;
    }
    let subj = strip_reply_prefixes(source.messages[0].subject.as_str());
    if subj.as_str().is_empty() || text::str_eq(subj.as_str(), "(no subject)") {
        return None;
    }
    let mut q = text::copy_str("subject:\"");
    text::push_str(&mut q, subj.as_str());
    text::push_str(&mut q, "\"");
    Some(q)
}

/// The search queries for threads related to `source` under `strategy`
/// (`participants`, `subject`, `tags` or `auto`): at most one.
pub fn related_queries(strategy: &str, source: &ThreadDetail) -> (r: Vec<String>)
    ensures
        util::strings_view(r@) == related_queries_spec(strategy@, *source),
{
    let emails = participants_exec(&source.messages);
    let mut r: Vec<String> = Vec::new();
    if (text::str_eq(strategy, "participants") || text::str_eq(strategy, "auto")) && emails.len() > 0 {
        r.push(join_prefixed(&emails, "from:", " OR "));
    } else if text::str_eq(strategy, "subject") {
        match subject_query(source) {
            Some(q) => r.push(q),
            None => {},
        }
    } else if text::str_eq(strategy, "tags") && source.tags.len() > 0 {
        let mut tv: Vec<Vec<char>> = Vec::new();
        let mut i: usize = 0;
        while i < source.tags.len()
            invariant
                i <= source.tags@.len(),
                util::chars_view(tv@) == util::strings_view(source.tags@).take(i as int),
            decreases source.tags.len() - i,
        {
            let ghost before = tv@;
            tv.push(text::chars_of(source.tags[i].as_str()));
            proof {
                assert(util::chars_view(tv@) =~= util::chars_view(before).push(source.tags@[i as int]@));
                assert(util::strings_view(source.tags@).take(i + 1) =~= util::strings_view(
                    source.tags@,
                ).take(i as int).push(source.tags@[i as int]@));
            }
            i = i + 1;
        }
        proof {
            assert(util::strings_view(source.tags@).take(source.tags@.len() as int)
                =~= util::strings_view(source.tags@));
        }
        r.push(join_prefixed(&tv, "tag:", " OR "));
    }
    proof {
        assert(util::strings_view(r@) =~= related_queries_spec(strategy@, *source));
    }
    r
}

/// The thread `th` is listed in `related`.
pub open spec fn has_thread(related: Seq<ThreadSummary>, id: Seq<char>) -> bool {
    exists|j: int| 0 <= j < related.len() && #[trigger] related[j].thread_id@ == id
}

/// `related` with the threads of `found[i..]` added in order, skipping the
/// source thread and threads already listed, while it holds fewer than
/// `limit`.
pub open spec fn merge_from(
    related: Seq<ThreadSummary>,
    found: Seq<ThreadSummary>,
    source: Seq<char>,
    limit: nat,
    i: int,
) -> Seq<ThreadSummary>
    decreases found.len() - i,
{
    if i < 0 || i >= found.len() || related.len() >= limit {
        related
    } else {
        let th = found[i];
        if th.thread_id@ != source && !has_thread(related, th.thread_id@) {
            merge_from(related.push(th), found, source, limit, i + 1)
        } else {
            merge_from(related, found, source, limit, i + 1)
        }
    }
}

/// No thread is listed twice in `s`.
pub open spec fn distinct_threads(s: Seq<ThreadSummary>) -> bool {
    forall|i: int, j: int|
        0 <= i < j < s.len() ==> #[trigger] s[i].thread_id@ != #[trigger] s[j].thread_id@
}

/// Merging keeps what was listed, adds only threads other than the source
/// and not yet listed, and never lists more than `limit` threads: a list
/// that already holds `limit` or more is left as it is.
pub proof fn lemma_merge_from(
    related: Seq<ThreadSummary>,
    found: Seq<ThreadSummary>,
    source: Seq<char>,
    limit: nat,
    i: int,
)
    requires
        0 <= i,
    ensures
        merge_from(related, found, source, limit, i).len() >= related.len(),
        merge_from(related, found, source, limit, i).take(related.len() as int) == related,
        forall|j: int|
            related.len() <= j < merge_from(related, found, source, limit, i).len()
                ==> #[trigger] merge_from(related, found, source, limit, i)[j].thread_id@ != source,
        distinct_threads(related) ==> distinct_threads(merge_from(related, found, source, limit, i)),
        related.len() <= limit ==> merge_from(related, found, source, limit, i).len() <= limit,
        related.len() >= limit ==> merge_from(related, found, source, limit, i) == related,
    decreases found.len() - i,
{
    if 0 <= i < found.len() && related.len() < limit {
        let th = found[i];
        if th.thread_id@ != source && !has_thread(related, th.thread_id@) {
            let r2 = related.push(th);
            assert(r2.take(related.len() as int) =~= related);
            assert(distinct_threads(related) ==> distinct_threads(r2)) by {
                if distinct_threads(related) {
                    assert forall|a: int, b: int| 0 <= a < b < r2.len() implies #[trigger] r2[a].thread_id@
                        != #[trigger] r2[b].thread_id@ by {
                        if b == related.len() {
                            assert(r2[a] == related[a]);
                            if related[a].thread_id@ == th.thread_id@ {
                                assert(has_thread(related, th.thread_id@));
                            }
                        } else {
                            assert(r2[a] == related[a] && r2[b] == related[b]);
                        }
                    }
                }
            }
            lemma_merge_from(r2, found, source, limit, i + 1);
            let r = merge_from(r2, found, source, limit, i + 1);
            assert(r.take(r2.len() as int).take(related.len() as int) =~= r.take(related.len() as int));
            assert forall|j: int| related.len() <= j < r.len() implies #[trigger] r[j].thread_id@
                != source by {
                if j == related.len() {
                    assert(r[j] == r.take(r2.len() as int)[j]);
                    assert(r[j] == r2[j]);
                }
            }
        } else {
            lemma_merge_from(related, found, source, limit, i + 1);
        }
    } else {
        assert(related.take(related.len() as int) =~= related);
    }
}

/// Add the threads of one search to the related threads: in order, skipping
/// the source thread and threads already listed, and adding none once
/// `limit` threads are listed.
pub fn merge_related(
    related: &mut Vec<ThreadSummary>,
    found: Vec<ThreadSummary>,
    source_id: &str,
    limit: usize,
)
    ensures
        final(related)@ == merge_from(old(related)@, found@, source_id@, limit as nat, 0),
        old(related)@.len() <= limit ==> final(related)@.len() <= limit,
{
    let ghost orig = found@;
    let mut rest = found;
    let n = rest.len();
    let mut i: usize = 0;
    proof {
        assert(rest@ =~= orig.skip(0));
        lemma_merge_from(old(related)@, orig, source_id@, limit as nat, 0);
    }
    while i < n && related.len() < limit
        invariant
            i <= n == orig.len(),
            rest@ == orig.skip(i as int),
            merge_from(old(related)@, orig, source_id@, limit as nat, 0) == merge_from(
                related@,
                orig,
                source_id@,
                limit as nat,
                i as int,
            ),
        decreases n - i,
    {
        let th = rest.remove(0);
        proof {
            assert(th == orig[i as int]);
            assert(rest@ =~= orig.skip(i + 1));
        }
        let mut dup = false;
        let mut j: usize = 0;
        while j < related.len()
            invariant
                j <= related@.len(),
                dup == exists|k: int| 0 <= k < j && #[trigger] related@[k].thread_id@ == th.thread_id@,
            decreases related.len() - j,
        {
            if related[j].thread_id == th.thread_id {
                dup = true;
            }
            j = j + 1;
        }
        let skip = dup || text::str_eq(th.thread_id.as_str(), source_id);
        if !skip {
            related.push(th);
        }
        i = i + 1;
    }
}

/// `auto` falls back to the subject strategy when fewer than three related
/// threads were found.
pub fn wants_subject_fallback(strategy: &str, found: usize) -> (r: bool)
    ensures
        r == (strategy@ == "auto"@ && found < 3),
{
    text::str_eq(strategy, "auto") && found < 3
}

} // verus!
