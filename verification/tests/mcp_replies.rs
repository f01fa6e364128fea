use rummage::api::stats::ArchiveStats;
use rummage::api::thread::{ConversationNode, MessageDetail, MessageHeaders, ThreadDetail};
use rummage::db::AttachmentData;
use rummage::error::AppError;
use rummage::mcp::prompts::{
    analyze_correspondence_text, find_emails_about_text, search_guide_text, summarize_instructions,
    thread_fetch_failed, thread_transcript,
};
use rummage::mcp::replies::{
    attachment_line, attachment_text_format, attachment_text_line, count_line, attachment_payload,
    failure_message, format_defined, is_blank, matches_line, message_line, overview_line, part_label,
    related_line, search_limit, search_line, senders_line, shape_message, shape_thread, stats_line,
    tags_line, thread_line, thread_matches, tree_line, tree_size,
};
use rummage::mcp::resources::{resource_target, unknown_resource_message, ResourceTarget};
use rummage::mcp::BodyFormat;

fn msg(id: &str, from: &str, subject: &str, body: Option<&str>, content: &str) -> MessageDetail {
    MessageDetail {
        message_id: id.into(),
        headers: MessageHeaders { from: from.into(), to: "x@y".into(), cc: None, bcc: None },
        date: 0,
        date_relative: "2024-01-02 03:04".into(),
        subject: subject.into(),
        content: content.into(),
        content_type: "text/html".into(),
        attachments: vec![],
        body_text: body.map(|b| b.to_string()),
        body_markdown: None,
        tags: vec![],
        in_reply_to: None,
        references: vec![],
    }
}

fn stats() -> ArchiveStats {
    ArchiveStats { total_messages: 1200, total_threads: 300, tag_count: 7, date_range: None }
}

#[test]
fn summary_lines() {
    assert_eq!(search_line(42, "tag:inbox", 0, 20), "Found 42 thread(s) for query 'tag:inbox'. Showing 1–20.");
    assert_eq!(search_line(42, "q", 20, 2), "Found 42 thread(s) for query 'q'. Showing 21–22.");
    assert_eq!(search_limit(Some(500)), Some(100));
    assert_eq!(search_limit(Some(5)), Some(5));
    assert_eq!(search_limit(None), None);
    assert!(is_blank("  \t"));
    assert!(!is_blank(" a "));
    assert_eq!(
        failure_message("Search failed", &AppError::Notmuch("x".into())),
        "Search failed: notmuch database error: x"
    );
    let t = ThreadDetail { thread_id: "t".into(), tags: vec![], messages: vec![msg("m", "a@b", "Plan", None, "")] };
    assert_eq!(thread_line(&t), "Thread 'Plan' contains 1 message(s).");
    let empty = ThreadDetail { thread_id: "t".into(), tags: vec![], messages: vec![] };
    assert_eq!(thread_line(&empty), "Thread '(no subject)' contains 0 message(s).");
    assert_eq!(message_line(&t.messages[0]), "Message from a@b — Plan — 2024-01-02 03:04.");
    assert_eq!(part_label("m1", 3), "m1/part 3");
    assert_eq!(attachment_line(&None, "image/png", 10), "Attachment 'unnamed' (image/png, 10 bytes) encoded as base64.");
    assert_eq!(attachment_line(&Some("a.pdf".into()), "application/pdf", 0), "Attachment 'a.pdf' (application/pdf, 0 bytes) encoded as base64.");
    assert_eq!(attachment_text_format(&None), "markdown");
    assert_eq!(attachment_text_format(&Some("text".into())), "text");
    assert_eq!(attachment_text_line("markdown", 2, "m1"), "Extracted markdown text from attachment part 2 of message m1.");
    assert_eq!(tags_line(80, 50), "80 tag(s) in archive. Showing top 50.");
    assert_eq!(senders_line(3), "Top 3 sender(s) by message count.");
    assert_eq!(stats_line(&stats()), "Archive contains 1200 messages across 300 threads, with 7 tag(s).");
    assert_eq!(count_line("from:a", 2, 5), "Query 'from:a' matches 2 thread(s) containing 5 message(s).");
    assert_eq!(related_line(4, "t1", "auto"), "Found 4 related thread(s) for thread t1 using strategy 'auto'.");
    assert_eq!(
        overview_line(&stats(), 7, 2, &vec!["One".into(), "Two".into()]),
        "Archive overview: 1200 messages, 300 threads, 7 tag(s), 2 sender(s). Sample subjects: One; Two."
    );
    assert_eq!(overview_line(&stats(), 0, 0, &vec![]), "Archive overview: 1200 messages, 300 threads, 0 tag(s), 0 sender(s). Sample subjects: .");
}

#[test]
fn base64_of_attachments() {
    let data = |body: &[u8], name: Option<&str>| AttachmentData {
        content_type: "application/octet-stream".into(),
        body: body.to_vec(),
        filename: name.map(|n| n.to_string()),
    };
    let p = attachment_payload(&data(b"hello", Some("h.txt")));
    assert_eq!(p.base64, "aGVsbG8=");
    assert_eq!(p.size_bytes, 5);
    assert_eq!(p.human, "Attachment 'h.txt' (application/octet-stream, 5 bytes) encoded as base64.");
    assert_eq!(attachment_payload(&data(b"", None)).base64, "");
    assert_eq!(attachment_payload(&data(&[0xff, 0x00, 0x10], None)).base64, "/wAQ");
}

#[test]
fn shaping_threads_for_tools() {
    let long = "word ".repeat(1000);
    let mut t = ThreadDetail {
        thread_id: "t".into(),
        tags: vec!["inbox".into()],
        messages: vec![msg("m1", "a@b", "S", Some(&long), "<p>x</p>"), msg("m2", "c@d", "S", None, "<p>Hello</p>")],
    };
    assert!(t.messages.iter().all(|m| format_defined(m, &BodyFormat::Text)));
    shape_thread(&mut t, &BodyFormat::Text);
    assert!(t.messages[0].content.ends_with(" [truncated, use get_message for full content]"));
    assert!(t.messages[0].body_text.as_ref().unwrap().ends_with(" [truncated, use get_message for full content]"));
    assert_eq!(t.messages[1].content, "Hello\n\n");
    assert_eq!(t.messages[1].body_text, None);
    assert_eq!(t.tags, vec!["inbox"]);
    let mut m = msg("m3", "a@b", "S", None, "<b>Bold</b>");
    let b = shape_message(&mut m, &BodyFormat::Markdown);
    assert_eq!(b, "**Bold**");
    assert_eq!(m.content, "**Bold**");
    assert!(!format_defined(&msg("m4", "a", "s", None, r#"<a href="'">t</a>"#), &BodyFormat::Markdown));
    assert!(format_defined(&msg("m4", "a", "s", None, r#"<a href="'">t</a>"#), &BodyFormat::Text));
}

#[test]
fn matches_within_a_thread() {
    let t = ThreadDetail {
        thread_id: "t".into(),
        tags: vec![],
        messages: vec![
            msg("m1", "Ann <ann@x>", "Budget", Some("The invoice is attached."), ""),
            msg("m2", "Bob <bob@x>", "Lunch", Some("Tacos?"), ""),
            msg("m3", "Invoice Bot <bot@x>", "Hello", None, "<p>Nothing here</p>"),
        ],
    };
    let found = thread_matches(&t, "INVOICE", &BodyFormat::Text);
    assert_eq!(found.len(), 2);
    assert_eq!(found[0].message_id, "m1");
    assert_eq!(found[0].snippet, "The invoice is attached.");
    assert_eq!(found[0].body, "The invoice is attached.");
    assert_eq!(found[1].message_id, "m3");
    assert_eq!(found[1].from, "Invoice Bot <bot@x>");
    assert_eq!(found[1].date, "2024-01-02 03:04");
    assert!(thread_matches(&t, "zzz", &BodyFormat::Text).is_empty());
    assert_eq!(matches_line(2, "invoice", &t), "Found 2 match(es) for 'invoice' in thread 'Budget'.");
}

fn node(id: &str, children: Vec<ConversationNode>) -> ConversationNode {
    ConversationNode { message_id: id.into(), from: String::new(), date: String::new(), subject: String::new(), depth: 0, children }
}

#[test]
fn conversation_tree_sizes() {
    let forest = vec![node("a", vec![node("b", vec![node("c", vec![])]), node("d", vec![])]), node("e", vec![])];
    assert_eq!(tree_size(&forest), 5);
    assert_eq!(tree_size(&vec![]), 0);
    assert_eq!(tree_line(&Some("Plan".into()), 5), "Conversation tree for thread 'Plan' — 5 message(s).");
    assert_eq!(tree_line(&None, 1), "Conversation tree for thread '(no subject)' — 1 message(s).");
}

#[test]
fn prompts() {
    assert!(search_guide_text().starts_with("You are assisting a user in searching an email archive via notmuch query syntax.\n\nQuery syntax:\n- from:alice@example.com"));
    assert!(search_guide_text().ends_with("4. For document content, use get_attachment_text."));
    assert!(summarize_instructions().ends_with("Keep the summary concise (3-5 bullet points)."));
    let msgs = vec![msg("m1", "Ann", "Hi", Some("Body one"), ""), msg("m2", "Bob", "Re: Hi", None, "<p>Two</p>")];
    assert_eq!(
        thread_transcript(&msgs),
        "From: Ann\nDate: 2024-01-02 03:04\nSubject: Hi\n\nBody one\n\n---\n\nFrom: Bob\nDate: 2024-01-02 03:04\nSubject: Re: Hi\n\nTwo\n\n\n\n---\n\n"
    );
    assert_eq!(thread_transcript(&vec![]), "");
    assert_eq!(
        thread_fetch_failed("t1", &AppError::NotFound("thread not found: t1".into())),
        "Failed to fetch thread t1: not found: thread not found: t1"
    );
    let f = find_emails_about_text("tax forms");
    assert!(f.starts_with("The user wants to find emails matching this description: 'tax forms'\n\nTranslate"));
    let a = analyze_correspondence_text("a@b.c");
    assert!(a.starts_with("Analyze the correspondence with a@b.c in this archive."));
    assert!(a.contains("1. search for from:a@b.c — messages they sent\n2. search for to:a@b.c — messages sent to them"));
}

#[test]
fn resource_uris() {
    assert_eq!(resource_target("rummage://tags"), ResourceTarget::Tags);
    assert_eq!(resource_target("rummage://stats"), ResourceTarget::Stats);
    assert_eq!(resource_target("rummage://message/abc@x"), ResourceTarget::Message("abc@x".into()));
    assert_eq!(
        resource_target("rummage://message/rummage://message/abc"),
        ResourceTarget::Message("abc".into())
    );
    assert_eq!(resource_target("rummage://other"), ResourceTarget::Unknown);
    assert_eq!(unknown_resource_message("x://y"), "Unknown resource URI: x://y");
}
