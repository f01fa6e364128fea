//! What the MCP tools answer: the one-line summaries shown to the user, the
//! shaping of threads and messages for a reply, and the matches of a term
//! within a thread.
use vstd::prelude::*;
use crate::api::stats::ArchiveStats;
use crate::api::thread::{ConversationNode, MessageDetail, ThreadDetail};
use crate::db::AttachmentData;
use crate::error::AppError;
use crate::mail::body;
use crate::mcp;
use crate::mcp::util;
use crate::mcp::BodyFormat;
use crate::text;

verus! {

pub open spec fn dec(n: usize) -> Seq<char> {
    text::decimal(n as nat)
}

/// The most threads a search tool call returns.
pub const SEARCH_LIMIT_MAX: usize = 100;

/// The number of tags and of senders an archive overview lists.
pub const OVERVIEW_TAGS: usize = 100;

pub const OVERVIEW_SENDERS: usize = 50;

/// How many tags `list_tags` shows unless asked.
pub const DEFAULT_TAGS_LIMIT: usize = 50;

/// The number of tags to list: the one asked for, else 50.
pub fn tags_limit(limit: Option<usize>) -> (r: usize)
    ensures
        r == match limit {
            Some(l) => l,
            None => DEFAULT_TAGS_LIMIT,
        },
{
    match limit {
        Some(l) => l,
        None => DEFAULT_TAGS_LIMIT,
    }
}

/// The strategy and the limit of a search for related threads: those asked
/// for, else `auto` and 10.
pub fn related_options(strategy: &Option<String>, limit: Option<usize>) -> (r: (String, usize))
    ensures
        r.0@ == match strategy {
            Some(s) => s@,
            None => "auto"@,
        },
        r.1 == match limit {
            Some(l) => l,
            None => 10,
        },
{
    let s = match strategy {
        Some(s) => text::copy_str(s.as_str()),
        None => text::copy_str("auto"),
    };
    let l = match limit {
        Some(l) => l,
        None => 10,
    };
    (s, l)
}

/// The first `n` items of `v`.
pub fn first_items<T>(v: Vec<T>, n: usize) -> (r: Vec<T>)
    ensures
        r@ == if v@.len() <= n {
            v@
        } else {
            v@.take(n as int)
        },
{
    let ghost orig = v@;
    let mut v = v;
    v.truncate(n);
    proof {
        if orig.len() > n {
            assert(orig.subrange(0, n as int) =~= orig.take(n as int));
        }
    }
    v
}

/// A query with nothing but whitespace in it.
pub fn is_blank(q: &str) -> (r: bool)
    ensures
        r == (text::trim(q@).len() == 0),
{
    text::trim_exec(&text::chars_of(q)).len() == 0
}

/// The limit a search runs with: the one asked for, at most 100.
pub fn search_limit(limit: Option<usize>) -> (r: Option<usize>)
    ensures
        match limit {
            Some(l) => r == Some(if l < SEARCH_LIMIT_MAX {
                l
            } else {
                SEARCH_LIMIT_MAX
            }),
            None => r is None,
        },
{
    match limit {
        Some(l) => Some(
            if l < SEARCH_LIMIT_MAX {
                l
            } else {
                SEARCH_LIMIT_MAX
            },
        ),
        None => None,
    }
}

/// The error text of a failed call: what failed, then the error.
pub fn failure_message(what: &str, e: &AppError) -> (r: String)
    ensures
        r@ == what@ + ": "@ + crate::error::message_spec(*e),
{
    let mut r = text::copy_str(what);
    text::push_str(&mut r, ": ");
    let m = e.message();
    text::push_str(&mut r, m.as_str());
    r
}

/// `Found <total> thread(s) for query '<query>'. Showing <from>–<to>.`,
/// with the page starting after `offset` and holding `returned` threads.
pub fn search_line(total: usize, query: &str, offset: usize, returned: usize) -> (r: String)
    requires
        offset + returned < usize::MAX,
    ensures
        r@ == "Found "@ + dec(total) + " thread(s) for query '"@ + query@ + "'. Showing "@
            + text::decimal((offset + 1) as nat) + "–"@ + text::decimal((offset + returned) as nat) + "."@,
{
    let mut v = text::decimal_exec(total);
    text::extend_str(&mut v, " thread(s) for query '");
    text::extend_str(&mut v, query);
    text::extend_str(&mut v, "'. Showing ");
    text::push_decimal(&mut v, offset + 1);
    text::extend_str(&mut v, "–");
    text::push_decimal(&mut v, offset + returned);
    text::extend_str(&mut v, ".");
    let mut r = text::copy_str("Found ");
    text::push_chars(&mut r, &v);
    r
}

/// The subject a thread is named by: its first message's, or
/// `(no subject)`.
pub open spec fn thread_subject(t: ThreadDetail) -> Seq<char> {
    if t.messages@.len() > 0 {
        t.messages@[0].subject@
    } else {
        "(no subject)"@
    }
}

fn thread_subject_exec(t: &ThreadDetail) -> (r: String)
    ensures
        r@ == thread_subject(*t),
{
    if t.messages.len() > 0 {
        text::copy_str(t.messages[0].subject.as_str())
    } else {
        text::copy_str("(no subject)")
    }
}

/// `Thread '<subject>' contains <n> message(s).`
pub fn thread_line(t: &ThreadDetail) -> (r: String)
    ensures
        r@ == "Thread '"@ + thread_subject(*t) + "' contains "@ + dec(t.messages@.len() as usize)
            + " message(s)."@,
{
    let mut r = text::copy_str("Thread '");
    let s = thread_subject_exec(t);
    text::push_str(&mut r, s.as_str());
    text::push_str(&mut r, "' contains ");
    text::push_chars(&mut r, &text::decimal_exec(t.messages.len()));
    text::push_str(&mut r, " message(s).");
    r
}

/// `Message from <from> — <subject> — <date>.`
pub fn message_line(m: &MessageDetail) -> (r: String)
    ensures
        r@ == "Message from "@ + m.headers.from@ + " — "@ + m.subject@ + " — "@ + m.date_relative@
            + "."@,
{
    let mut r = text::copy_str("Message from ");
    text::push_str(&mut r, m.headers.from.as_str());
    text::push_str(&mut r, " — ");
    text::push_str(&mut r, m.subject.as_str());
    text::push_str(&mut r, " — ");
    text::push_str(&mut r, m.date_relative.as_str());
    text::push_str(&mut r, ".");
    r
}

/// The name of an attachment part in a not-found answer: `<id>/part <n>`.
pub fn part_label(message_id: &str, part: usize) -> (r: String)
    ensures
        r@ == message_id@ + "/part "@ + dec(part),
{
    let mut r = text::copy_str(message_id);
    text::push_str(&mut r, "/part ");
    text::push_chars(&mut r, &text::decimal_exec(part));
    r
}

/// `Attachment '<name>' (<type>, <n> bytes) encoded as base64.`, the name
/// `unnamed` where the part has none.
pub fn attachment_line(filename: &Option<String>, content_type: &str, size: usize) -> (r: String)
    ensures
        r@ == "Attachment '"@ + (match filename {
            Some(f) => f@,
            None => "unnamed"@,
        }) + "' ("@ + content_type@ + ", "@ + dec(size) + " bytes) encoded as base64."@,
{
    let mut r = text::copy_str("Attachment '");
    match filename {
        Some(f) => text::push_str(&mut r, f.as_str()),
        None => text::push_str(&mut r, "unnamed"),
    }
    text::push_str(&mut r, "' (");
    text::push_str(&mut r, content_type);
    text::push_str(&mut r, ", ");
    text::push_chars(&mut r, &text::decimal_exec(size));
    text::push_str(&mut r, " bytes) encoded as base64.");
    r
}

/// The standard base64 encoding (with padding) of `bytes`.
pub uninterp spec fn base64_standard(bytes: Seq<u8>) -> Seq<char>;

/// `base64::engine::general_purpose::STANDARD.encode`: the contract names
/// the result `base64_standard(bytes)` and states its length, four
/// characters for each started group of three bytes.
#[verifier::external_body]
fn encode_base64(bytes: &[u8]) -> (r: String)
    ensures
        r@ == base64_standard(bytes@),
        r@.len() == 4 * ((bytes@.len() + 2) / 3),
{
    base64::Engine::encode(&base64::engine::general_purpose::STANDARD, bytes)
}

/// What `get_attachment` answers of a part: its summary line, its bytes in
/// base64 and its size.
#[derive(Debug, Clone)]
pub struct AttachmentPayload {
    pub human: String,
    pub base64: String,
    pub size_bytes: usize,
}

/// The answer of `get_attachment` for a part.
pub fn attachment_payload(data: &AttachmentData) -> (r: AttachmentPayload)
    ensures
        r.human@ == "Attachment '"@ + (match data.filename {
            Some(f) => f@,
            None => "unnamed"@,
        }) + "' ("@ + data.content_type@ + ", "@ + dec(data.body@.len() as usize)
            + " bytes) encoded as base64."@,
        r.base64@ == base64_standard(data.body@),
        r.base64@.len() == 4 * ((data.body@.len() + 2) / 3),
        r.size_bytes == data.body@.len(),
{
    let size_bytes = data.body.len();
    AttachmentPayload {
        human: attachment_line(&data.filename, data.content_type.as_str(), size_bytes),
        base64: encode_base64(data.body.as_slice()),
        size_bytes,
    }
}

/// The format attachment text is extracted in: the one asked for, else
/// `markdown`.
pub fn attachment_text_format(format: &Option<String>) -> (r: String)
    ensures
        r@ == match format {
            Some(f) => f@,
            None => "markdown"@,
        },
{
    match format {
        Some(f) => text::copy_str(f.as_str()),
        None => text::copy_str("markdown"),
    }
}

/// `Extracted <format> text from attachment part <n> of message <id>.`
pub fn attachment_text_line(format: &str, part: usize, message_id: &str) -> (r: String)
    ensures
        r@ == "Extracted "@ + format@ + " text from attachment part "@ + dec(part)
            + " of message "@ + message_id@ + "."@,
{
    let mut r = text::copy_str("Extracted ");
    text::push_str(&mut r, format);
    text::push_str(&mut r, " text from attachment part ");
    text::push_chars(&mut r, &text::decimal_exec(part));
    text::push_str(&mut r, " of message ");
    text::push_str(&mut r, message_id);
    text::push_str(&mut r, ".");
    r
}

/// `<total> tag(s) in archive. Showing top <shown>.`
pub fn tags_line(total: usize, shown: usize) -> (r: String)
    ensures
        r@ == dec(total) + " tag(s) in archive. Showing top "@ + dec(shown) + "."@,
{
    let mut v = text::decimal_exec(total);
    text::extend_str(&mut v, " tag(s) in archive. Showing top ");
    text::push_decimal(&mut v, shown);
    text::extend_str(&mut v, ".");
    text::string_of(&v)
}

/// `Top <n> sender(s) by message count.`
pub fn senders_line(n: usize) -> (r: String)
    ensures
        r@ == "Top "@ + dec(n) + " sender(s) by message count."@,
{
    let mut r = text::copy_str("Top ");
    text::push_chars(&mut r, &text::decimal_exec(n));
    text::push_str(&mut r, " sender(s) by message count.");
    r
}

/// `Archive contains <m> messages across <t> threads, with <g> tag(s).`
pub fn stats_line(s: &ArchiveStats) -> (r: String)
    ensures
        r@ == "Archive contains "@ + dec(s.total_messages) + " messages across "@ + dec(
            s.total_threads,
        ) + " threads, with "@ + dec(s.tag_count) + " tag(s)."@,
{
    let mut r = text::copy_str("Archive contains ");
    text::push_chars(&mut r, &text::decimal_exec(s.total_messages));
    text::push_str(&mut r, " messages across ");
    text::push_chars(&mut r, &text::decimal_exec(s.total_threads));
    text::push_str(&mut r, " threads, with ");
    text::push_chars(&mut r, &text::decimal_exec(s.tag_count));
    text::push_str(&mut r, " tag(s).");
    r
}

/// `Query '<q>' matches <t> thread(s) containing <m> message(s).`
pub fn count_line(query: &str, threads: usize, messages: usize) -> (r: String)
    ensures
        r@ == "Query '"@ + query@ + "' matches "@ + dec(threads) + " thread(s) containing "@ + dec(
            messages,
        ) + " message(s)."@,
{
    let mut r = text::copy_str("Query '");
    text::push_str(&mut r, query);
    text::push_str(&mut r, "' matches ");
    text::push_chars(&mut r, &text::decimal_exec(threads));
    text::push_str(&mut r, " thread(s) containing ");
    text::push_chars(&mut r, &text::decimal_exec(messages));
    text::push_str(&mut r, " message(s).");
    r
}

/// `Found <n> related thread(s) for thread <id> using strategy '<s>'.`
pub fn related_line(n: usize, thread_id: &str, strategy: &str) -> (r: String)
    ensures
        r@ == "Found "@ + dec(n) + " related thread(s) for thread "@ + thread_id@
            + " using strategy '"@ + strategy@ + "'."@,
{
    let mut r = text::copy_str("Found ");
    text::push_chars(&mut r, &text::decimal_exec(n));
    text::push_str(&mut r, " related thread(s) for thread ");
    text::push_str(&mut r, thread_id);
    text::push_str(&mut r, " using strategy '");
    text::push_str(&mut r, strategy);
    text::push_str(&mut r, "'.");
    r
}

/// `Archive overview: <m> messages, <t> threads, <g> tag(s), <s>
/// sender(s). Sample subjects: <subjects joined by "; ">.`
pub fn overview_line(s: &ArchiveStats, tags: usize, senders: usize, subjects: &Vec<String>) -> (r:
    String)
    ensures
        r@ == "Archive overview: "@ + dec(s.total_messages) + " messages, "@ + dec(s.total_threads)
            + " threads, "@ + dec(tags) + " tag(s), "@ + dec(senders)
            + " sender(s). Sample subjects: "@ + text::join_with(
            util::strings_view(subjects@),
            "; "@,
        ) + "."@,
{
    let mut v: Vec<char> = Vec::new();
    text::extend_str(&mut v, "Archive overview: ");
    text::push_decimal(&mut v, s.total_messages);
    text::extend_str(&mut v, " messages, ");
    text::push_decimal(&mut v, s.total_threads);
    text::extend_str(&mut v, " threads, ");
    text::push_decimal(&mut v, tags);
    text::extend_str(&mut v, " tag(s), ");
    text::push_decimal(&mut v, senders);
    text::extend_str(&mut v, " sender(s). Sample subjects: ");
    text::push_joined(&mut v, subjects, "; ");
    text::extend_str(&mut v, ".");
    text::string_of(&v)
}

// ── Shaping threads and messages ────────────────────────────────────

/// Whether `format_body` can produce the body of `msg` in format `f`: it
/// can unless the message lacks a Markdown body and its HTML does not
/// convert.
pub fn format_defined(msg: &MessageDetail, f: &BodyFormat) -> (r: bool)
    ensures
        r == mcp::format_body_defined(*msg, *f),
{
    match f {
        BodyFormat::Markdown => match &msg.body_markdown {
            Some(_) => true,
            None => body::try_html_to_markdown(msg.content.as_str()).is_some(),
        },
        _ => true,
    }
}

/// Every message of `msgs` has its body in format `f`.
pub open spec fn all_defined(msgs: Seq<MessageDetail>, f: BodyFormat) -> bool {
    forall|i: int| 0 <= i < msgs.len() ==> mcp::format_body_defined(#[trigger] msgs[i], f)
}

pub open spec fn truncated(s: Seq<char>) -> Seq<char> {
    util::truncate_chars_spec(s, util::MCP_MAX_BODY_CHARS as nat, util::body_suffix())
}

pub open spec fn opt_truncated(o: Option<String>) -> Option<Seq<char>> {
    match o {
        Some(s) => Some(truncated(s@)),
        None => None,
    }
}

pub open spec fn opt_view(o: Option<String>) -> Option<Seq<char>> {
    match o {
        Some(s) => Some(s@),
        None => None,
    }
}

/// `m` as a tool shows it: its body in format `f` and its text and Markdown
/// bodies, each cut to the standard length; everything else kept.
pub open spec fn shaped(m: MessageDetail, old_m: MessageDetail, f: BodyFormat) -> bool {
    &&& m.content@ == truncated(mcp::format_body_spec(old_m, f))
    &&& opt_view(m.body_text) == opt_truncated(old_m.body_text)
    &&& opt_view(m.body_markdown) == opt_truncated(old_m.body_markdown)
    &&& m.message_id == old_m.message_id
    &&& m.headers == old_m.headers
    &&& m.date == old_m.date
    &&& m.date_relative == old_m.date_relative
    &&& m.subject == old_m.subject
    &&& m.content_type == old_m.content_type
    &&& m.attachments == old_m.attachments
    &&& m.tags == old_m.tags
    &&& m.in_reply_to == old_m.in_reply_to
    &&& m.references == old_m.references
}

fn truncate_opt(o: &mut Option<String>)
    ensures
        opt_view(*final(o)) == opt_truncated(*old(o)),
{
    match o {
        Some(t) => {
            let c = util::truncate_thread_body(t.as_str());
            *t = c;
        },
        None => {},
    }
}

/// Shape one message for a tool answer (see `shaped`); the body in format
/// `f` goes into its content, and is also returned.
pub fn shape_message(m: &mut MessageDetail, f: &BodyFormat) -> (r: String)
    requires
        mcp::format_body_defined(*old(m), *f),
    ensures
        shaped(*final(m), *old(m), *f),
        r@ == final(m).content@,
{
    let b = util::format_and_truncate_body(m, f);
    m.content = text::copy_str(b.as_str());
    truncate_opt(&mut m.body_text);
    truncate_opt(&mut m.body_markdown);
    b
}

/// Shape every message of a thread for a tool answer (see `shaped`).
pub fn shape_thread(t: &mut ThreadDetail, f: &BodyFormat)
    requires
        all_defined(old(t).messages@, *f),
    ensures
        final(t).thread_id == old(t).thread_id,
        final(t).tags == old(t).tags,
        final(t).messages@.len() == old(t).messages@.len(),
        forall|i: int|
            0 <= i < old(t).messages@.len() ==> shaped(
                #[trigger] final(t).messages@[i],
                old(t).messages@[i],
                *f,
            ),
{
    let ghost orig = t.messages@;
    let mut rest: Vec<MessageDetail> = Vec::new();
    std::mem::swap(&mut rest, &mut t.messages);
    let n = rest.len();
    let mut out: Vec<MessageDetail> = Vec::new();
    let mut i: usize = 0;
    while i < n
        invariant
            n == orig.len(),
            i <= n,
            all_defined(orig, *f),
            rest@ == orig.skip(i as int),
            out@.len() == i,
            forall|j: int| 0 <= j < i ==> shaped(#[trigger] out@[j], orig[j], *f),
        decreases n - i,
    {
        proof {
            assert(rest@.len() == n - i);
        }
        let mut m = rest.remove(0);
        proof {
            assert(m == orig[i as int]);
            assert(rest@ =~= orig.skip(i + 1));
            assert(mcp::format_body_defined(orig[i as int], *f));
        }
        let _ = shape_message(&mut m, f);
        out.push(m);
        i = i + 1;
    }
    t.messages = out;
}

// ── Matches within a thread ─────────────────────────────────────────

/// A message of a thread that mentions a term.
#[derive(Debug, Clone, PartialEq)]
pub struct ThreadMatch {
    pub message_id: String,
    pub from: String,
    pub date: String,
    pub subject: String,
    /// The text around the first mention in the body.
    pub snippet: String,
    /// The body in the requested format, cut to the standard length.
    pub body: String,
}

/// The plain text a term is looked for in: the message's text body, or its
/// HTML content converted.
pub open spec fn plain_body(m: MessageDetail) -> Seq<char> {
    match m.body_text {
        Some(t) => t@,
        None => body::html_to_text_spec(m.content@),
    }
}

/// `m` mentions `term`, ignoring case, in its body, subject or sender.
pub open spec fn mentions(m: MessageDetail, term: Seq<char>) -> bool {
    let lt = text::lowercase(term);
    text::contains(text::lowercase(plain_body(m)), lt) || text::contains(
        text::lowercase(m.subject@),
        lt,
    ) || text::contains(text::lowercase(m.headers.from@), lt)
}

pub type MatchView = (Seq<char>, Seq<char>, Seq<char>, Seq<char>, Seq<char>, Seq<char>);

/// What a match shows of `m`.
pub open spec fn match_of(m: MessageDetail, term: Seq<char>, f: BodyFormat) -> MatchView {
    let b = plain_body(m);
    (
        m.message_id@,
        m.headers.from@,
        m.date_relative@,
        m.subject@,
        mcp::snippet_of(b, text::lowercase(b), text::lowercase(term)),
        truncated(mcp::format_body_spec(m, f)),
    )
}

/// The matches of `term` among `msgs`, in thread order.
pub open spec fn matches_spec(msgs: Seq<MessageDetail>, term: Seq<char>, f: BodyFormat) -> Seq<
    MatchView,
>
    decreases msgs.len(),
{
    if msgs.len() == 0 {
        Seq::empty()
    } else {
        let r = matches_spec(msgs.drop_last(), term, f);
        if mentions(msgs.last(), term) {
            r.push(match_of(msgs.last(), term, f))
        } else {
            r
        }
    }
}

pub open spec fn match_view(m: ThreadMatch) -> MatchView {
    (m.message_id@, m.from@, m.date@, m.subject@, m.snippet@, m.body@)
}

pub open spec fn matches_view(v: Seq<ThreadMatch>) -> Seq<MatchView> {
    v.map_values(|m: ThreadMatch| match_view(m))
}

fn contains_lowered(hay: &str, lower_term: &Vec<char>) -> (r: bool)
    ensures
        r == text::contains(text::lowercase(hay@), lower_term@),
{
    let l = text::to_lowercase(hay);
    text::contains_exec(&text::chars_of(l.as_str()), lower_term)
}

/// The messages of `t` that mention `term` (see `mentions`), each with a
/// snippet of its body around the term and its body in format `f`.
pub fn thread_matches(t: &ThreadDetail, term: &str, f: &BodyFormat) -> (r: Vec<ThreadMatch>)
    requires
        all_defined(t.messages@, *f),
    ensures
        matches_view(r@) == matches_spec(t.messages@, term@, *f),
{
    let lt = text::chars_of(text::to_lowercase(term).as_str());
    let msgs = &t.messages;
    let mut out: Vec<ThreadMatch> = Vec::new();
    let mut i: usize = 0;
    proof {
        assert(msgs@.take(0) =~= Seq::<MessageDetail>::empty());
        assert(matches_view(out@) =~= Seq::<MatchView>::empty());
    }
    while i < msgs.len()
        invariant
            i <= msgs@.len(),
            msgs@ == t.messages@,
            all_defined(msgs@, *f),
            lt@ == text::lowercase(term@),
            matches_view(out@) == matches_spec(msgs@.take(i as int), term@, *f),
        decreases msgs.len() - i,
    {
        let m = &msgs[i];
        let b = match &m.body_text {
            Some(x) => text::copy_str(x.as_str()),
            None => body::html_to_text(m.content.as_str()),
        };
        proof {
            assert(msgs@.take(i + 1).drop_last() =~= msgs@.take(i as int));
            assert(msgs@.take(i + 1).last() == *m);
        }
        if contains_lowered(b.as_str(), &lt) || contains_lowered(m.subject.as_str(), &lt)
            || contains_lowered(m.headers.from.as_str(), &lt) {
            proof {
                assert(mcp::format_body_defined(msgs@[i as int], *f));
            }
            let snippet = mcp::extract_snippet(b.as_str(), term);
            let bd = util::format_and_truncate_body(m, f);
            let ghost before = out@;
            out.push(
                ThreadMatch {
                    message_id: text::copy_str(m.message_id.as_str()),
                    from: text::copy_str(m.headers.from.as_str()),
                    date: text::copy_str(m.date_relative.as_str()),
                    subject: text::copy_str(m.subject.as_str()),
                    snippet,
                    body: bd,
                },
            );
            proof {
                assert(matches_view(out@) =~= matches_view(before).push(match_of(*m, term@, *f)));
            }
        }
        i = i + 1;
    }
    proof {
        assert(msgs@.take(msgs@.len() as int) =~= msgs@);
    }
    out
}

/// `Found <n> match(es) for '<term>' in thread '<subject>'.`
pub fn matches_line(n: usize, term: &str, t: &ThreadDetail) -> (r: String)
    ensures
        r@ == "Found "@ + dec(n) + " match(es) for '"@ + term@ + "' in thread '"@ + thread_subject(
            *t,
        ) + "'."@,
{
    let mut r = text::copy_str("Found ");
    text::push_chars(&mut r, &text::decimal_exec(n));
    text::push_str(&mut r, " match(es) for '");
    text::push_str(&mut r, term);
    text::push_str(&mut r, "' in thread '");
    let s = thread_subject_exec(t);
    text::push_str(&mut r, s.as_str());
    text::push_str(&mut r, "'.");
    r
}

// ── Conversation trees ──────────────────────────────────────────────

/// The number of messages in a reply forest.
pub open spec fn forest_size(ns: Seq<ConversationNode>) -> nat
    decreases ns,
{
    if ns.len() == 0 {
        0
    } else {
        let last = ns[ns.len() - 1];
        proof {
            assert(decreases_to!(ns => last));
            assert(decreases_to!(last => last.children));
            assert(decreases_to!(last.children => last.children@));
        }
        forest_size(ns.subrange(0, ns.len() - 1)) + 1 + forest_size(last.children@)
    }
}

/// The number of messages in a reply forest, at most `usize::MAX`.
pub fn tree_size(ns: &Vec<ConversationNode>) -> (r: usize)
    ensures
        r == if forest_size(ns@) <= usize::MAX {
            forest_size(ns@)
        } else {
            usize::MAX as nat
        },
    decreases ns@,
{
    let mut total: usize = 0;
    let mut i: usize = 0;
    proof {
        assert(ns@.subrange(0, 0) =~= Seq::<ConversationNode>::empty());
    }
    while i < ns.len()
        invariant
            i <= ns@.len(),
            total == if forest_size(ns@.subrange(0, i as int)) <= usize::MAX {
                forest_size(ns@.subrange(0, i as int))
            } else {
                usize::MAX as nat
            },
        decreases ns.len() - i,
    {
        proof {
            assert(decreases_to!(ns@ => ns@[i as int]));
            assert(decreases_to!(ns@[i as int] => ns@[i as int].children));
        }
        let c = tree_size(&ns[i].children);
        proof {
            let p = ns@.subrange(0, i + 1);
            assert(p.subrange(0, p.len() - 1) =~= ns@.subrange(0, i as int));
            assert(p[p.len() - 1] == ns@[i as int]);
        }
        total = total.saturating_add(1).saturating_add(c);
        i = i + 1;
    }
    proof {
        assert(ns@.subrange(0, ns@.len() as int) =~= ns@);
    }
    total
}

/// `Conversation tree for thread '<subject>' — <n> message(s).`, the
/// subject `(no subject)` where the tree has none.
pub fn tree_line(subject: &Option<String>, total: usize) -> (r: String)
    ensures
        r@ == "Conversation tree for thread '"@ + (match subject {
            Some(s) => s@,
            None => "(no subject)"@,
        }) + "' — "@ + dec(total) + " message(s)."@,
{
    let mut r = text::copy_str("Conversation tree for thread '");
    match subject {
        Some(s) => text::push_str(&mut r, s.as_str()),
        None => text::push_str(&mut r, "(no subject)"),
    }
    text::push_str(&mut r, "' — ");
    text::push_chars(&mut r, &text::decimal_exec(total));
    text::push_str(&mut r, " message(s).");
    r
}

} // verus!
