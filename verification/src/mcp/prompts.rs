//! The MCP prompts: their arguments and their texts.
use vstd::prelude::*;
use crate::api::thread::MessageDetail;
use crate::error::AppError;
use crate::mail::body;
use crate::text;

verus! {

/// Arguments of `summarize_thread`.
#[derive(Debug, Clone)]
pub struct SummarizeThreadArgs {
    /// Thread ID to summarize.
    pub thread_id: String,
}

/// Arguments of `find_emails_about`.
#[derive(Debug, Clone)]
pub struct FindEmailsAboutArgs {
    /// Natural language description of what to find.
    pub description: String,
}

/// Arguments of `analyze_correspondence`.
#[derive(Debug, Clone)]
pub struct AnalyzeCorrespondenceArgs {
    /// Email address to analyze correspondence with.
    pub email: String,
}

/// The system prompt of `search_guide`: the notmuch query syntax and a
/// search strategy.
pub fn search_guide_text() -> (r: &'static str)
    ensures
        r@ == "You are assisting a user in searching an email archive via notmuch query syntax.\n\nQuery syntax:\n- from:alice@example.com         — messages from a sender\n- to:bob@example.com             — messages to a recipient\n- subject:\"quarterly report\"     — subject line search\n- tag:inbox                       — messages with a tag\n- has:attachment                  — messages with attachments\n- date:2013-06-01..2013-06-30  — date range (YYYY-MM-DD)\n- \"exact phrase\"                — full-text phrase search\n- from:alice AND tag:important    — boolean AND\n- from:alice OR from:bob         — boolean OR\n- NOT tag:spam                    — negation\n\nStrategy:\n1. Start broad (20 results), scan subjects/previews.\n2. Narrow with from:, to:, subject:, date: ranges.\n3. Use has:attachment to find messages with files.\n4. For document content, use get_attachment_text."@,
{
    "You are assisting a user in searching an email archive via notmuch query syntax.\n\nQuery syntax:\n- from:alice@example.com         — messages from a sender\n- to:bob@example.com             — messages to a recipient\n- subject:\"quarterly report\"     — subject line search\n- tag:inbox                       — messages with a tag\n- has:attachment                  — messages with attachments\n- date:2013-06-01..2013-06-30  — date range (YYYY-MM-DD)\n- \"exact phrase\"                — full-text phrase search\n- from:alice AND tag:important    — boolean AND\n- from:alice OR from:bob         — boolean OR\n- NOT tag:spam                    — negation\n\nStrategy:\n1. Start broad (20 results), scan subjects/previews.\n2. Narrow with from:, to:, subject:, date: ranges.\n3. Use has:attachment to find messages with files.\n4. For document content, use get_attachment_text."
}

/// The instructions of `summarize_thread`.
pub fn summarize_instructions() -> (r: &'static str)
    ensures
        r@ == "Summarize this email thread. Include:\n- Main topic and key decisions\n- Participants and their positions\n- Action items or next steps\n- Attachments mentioned (note if they contain relevant data)\nKeep the summary concise (3-5 bullet points)."@,
{
    "Summarize this email thread. Include:\n- Main topic and key decisions\n- Participants and their positions\n- Action items or next steps\n- Attachments mentioned (note if they contain relevant data)\nKeep the summary concise (3-5 bullet points)."
}

/// The body of a message as a prompt quotes it: its text body, or its HTML
/// content converted to text.
pub open spec fn quoted_body(m: MessageDetail) -> Seq<char> {
    match m.body_text {
        Some(t) => t@,
        None => body::html_to_text_spec(m.content@),
    }
}

/// One message of a transcript.
pub open spec fn transcript_entry(m: MessageDetail) -> Seq<char> {
    "From: "@ + m.headers.from@ + "\nDate: "@ + m.date_relative@ + "\nSubject: "@ + m.subject@
        + "\n\n"@ + quoted_body(m) + "\n\n---\n\n"@
}

/// The transcript of a thread: each message's entry, in order.
pub open spec fn transcript_spec(msgs: Seq<MessageDetail>) -> Seq<char>
    decreases msgs.len(),
{
    if msgs.len() == 0 {
        Seq::empty()
    } else {
        transcript_spec(msgs.drop_last()) + transcript_entry(msgs.last())
    }
}

/// The transcript of a thread a summary is asked of (see `transcript_spec`).
pub fn thread_transcript(msgs: &Vec<MessageDetail>) -> (r: String)
    ensures
        r@ == transcript_spec(msgs@),
{
    let mut out = String::new();
    let mut i: usize = 0;
    proof {
        assert(msgs@.take(0) =~= Seq::<MessageDetail>::empty());
    }
    while i < msgs.len()
        invariant
            i <= msgs@.len(),
            out@ == transcript_spec(msgs@.take(i as int)),
        decreases msgs.len() - i,
    {
        let m = &msgs[i];
        text::push_str(&mut out, "From: ");
        text::push_str(&mut out, m.headers.from.as_str());
        text::push_str(&mut out, "\nDate: ");
        text::push_str(&mut out, m.date_relative.as_str());
        text::push_str(&mut out, "\nSubject: ");
        text::push_str(&mut out, m.subject.as_str());
        text::push_str(&mut out, "\n\n");
        let b = match &m.body_text {
            Some(t) => text::copy_str(t.as_str()),
            None => body::html_to_text(m.content.as_str()),
        };
        text::push_str(&mut out, b.as_str());
        text::push_str(&mut out, "\n\n---\n\n");
        proof {
            assert(msgs@.take(i + 1).drop_last() =~= msgs@.take(i as int));
            assert(msgs@.take(i + 1).last() == *m);
        }
        i = i + 1;
    }
    proof {
        assert(msgs@.take(msgs@.len() as int) =~= msgs@);
    }
    out
}

/// The error text of a thread a summary cannot be made of.
pub fn thread_fetch_failed(thread_id: &str, e: &AppError) -> (r: String)
    ensures
        r@ == "Failed to fetch thread "@ + thread_id@ + ": "@ + crate::error::message_spec(*e),
{
    let mut r = text::copy_str("Failed to fetch thread ");
    text::push_str(&mut r, thread_id);
    text::push_str(&mut r, ": ");
    let m = e.message();
    text::push_str(&mut r, m.as_str());
    r
}

/// The prompt of `find_emails_about` for a description of what to find.
pub fn find_emails_about_text(description: &str) -> (r: String)
    ensures
        r@ == "The user wants to find emails matching this description: '"@ + description@ + "'\n\nTranslate this into a notmuch search query using these operators:\n- from:, to: for people\n- subject: for topics\n- date:YYYY-MM-DD..YYYY-MM-DD for date ranges\n- tag: for categories\n- AND, OR, NOT for boolean logic\n- Quoted strings for exact phrases\n\nConstruct the query, run the search tool, and present the results."@,
{
    let mut r = text::copy_str("The user wants to find emails matching this description: '");
    text::push_str(&mut r, description);
    text::push_str(&mut r, "'\n\nTranslate this into a notmuch search query using these operators:\n- from:, to: for people\n- subject: for topics\n- date:YYYY-MM-DD..YYYY-MM-DD for date ranges\n- tag: for categories\n- AND, OR, NOT for boolean logic\n- Quoted strings for exact phrases\n\nConstruct the query, run the search tool, and present the results.");
    r
}

/// The prompt of `analyze_correspondence` for a correspondent's address.
pub fn analyze_correspondence_text(email: &str) -> (r: String)
    ensures
        r@ == "Analyze the correspondence with "@ + email@ + " in this archive.\n\nUse these tools in sequence:\n1. search for from:"@ + email@ + " — messages they sent\n2. search for to:"@ + email@
            + " — messages sent to them\n3. list_tags scoped to their messages (if possible)\n4. Summarize: frequency, main topics, key threads, relationship context\n\nPresent a structured analysis of the communication pattern."@,
{
    let mut r = text::copy_str("Analyze the correspondence with ");
    text::push_str(&mut r, email);
    text::push_str(&mut r, " in this archive.\n\nUse these tools in sequence:\n1. search for from:");
    text::push_str(&mut r, email);
    text::push_str(&mut r, " — messages they sent\n2. search for to:");
    text::push_str(&mut r, email);
    text::push_str(&mut r, " — messages sent to them\n3. list_tags scoped to their messages (if possible)\n4. Summarize: frequency, main topics, key threads, relationship context\n\nPresent a structured analysis of the communication pattern.");
    r
}

} // verus!
