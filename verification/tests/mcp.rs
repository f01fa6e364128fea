use rummage::api::search::ThreadSummary;
use rummage::api::stats::ArchiveStats;
use rummage::api::thread::{MessageDetail, MessageHeaders, ThreadDetail};
use rummage::mail::body::{html_to_markdown, html_to_text};
use rummage::mcp::error::{
    empty_query_message, no_results_message, no_results_text, not_found_message,
    not_implemented_message, unsupported_format_message,
};
use rummage::mcp::tools::{
    merge_related, related_queries, strip_reply_prefixes, subject_query, wants_subject_fallback,
};
use rummage::mcp::{build_instructions, extract_snippet, extract_snippet_lowered, format_body, BodyFormat};

#[test]
fn test_html_to_text_basic() {
    let html = "<p>Hello <b>world</b></p>";
    let text = html_to_text(html);
    assert!(text.contains("Hello"));
    assert!(text.contains("world"));
    assert!(!text.contains("<p>"));
    assert!(!text.contains("<b>"));
}

#[test]
fn tests_test_html_to_text_entities() {
    let html = "&lt;tag&gt; &amp; &quot;quote&quot;";
    let text = html_to_text(html);
    assert!(text.contains("<tag>"));
    assert!(text.contains("&"));
    assert!(text.contains("\"quote\""));
}

#[test]
fn test_html_to_markdown_basic() {
    let html = "<h1>Title</h1><p>Body</p>";
    let md = html_to_markdown(html);
    assert!(md.contains("# Title"));
    assert!(md.contains("Body"));
}

#[test]
fn test_html_to_markdown_formatting() {
    let html = "<b>bold</b> <i>italic</i> <strong>strong</strong> <em>em</em>";
    let md = html_to_markdown(html);
    assert!(md.contains("**bold**"));
    assert!(md.contains("*italic*"));
    assert!(md.contains("**strong**"));
    assert!(md.contains("*em*"));
}

fn message(content: &str) -> MessageDetail {
    MessageDetail {
        message_id: "test".into(),
        headers: MessageHeaders {
            from: "a@b".into(),
            to: "c@d".into(),
            cc: None,
            bcc: None,
        },
        date: 0,
        date_relative: "now".into(),
        subject: "Test".into(),
        content: content.into(),
        content_type: "text/html".into(),
        attachments: vec![],
        body_text: None,
        body_markdown: None,
        tags: vec![],
        in_reply_to: None,
        references: vec![],
    }
}

#[test]
fn test_format_body_html() {
    let msg = message("<p>Hello</p>");
    assert_eq!(format_body(&msg, &BodyFormat::Html), "<p>Hello</p>");
    assert!(format_body(&msg, &BodyFormat::Text).contains("Hello"));
    assert!(format_body(&msg, &BodyFormat::Markdown).contains("Hello"));
}

#[test]
fn format_body_prefers_precomputed_fields() {
    let mut msg = message("<p>Hello</p>");
    msg.body_text = Some("plain".into());
    msg.body_markdown = Some("**md**".into());
    assert_eq!(format_body(&msg, &BodyFormat::Text), "plain");
    assert_eq!(format_body(&msg, &BodyFormat::Markdown), "**md**");
    assert_eq!(format_body(&msg, &BodyFormat::Html), "<p>Hello</p>");
    let msg = message("<p>Hello</p>");
    assert_eq!(format_body(&msg, &BodyFormat::Text), "Hello\n\n");
    assert_eq!(format_body(&msg, &BodyFormat::Markdown), "Hello\n\n");
}

#[test]
fn body_format_names() {
    assert_eq!(BodyFormat::Text.as_str(), "text");
    assert_eq!(BodyFormat::Markdown.as_str(), "markdown");
    assert_eq!(BodyFormat::Html.as_str(), "html");
    assert_eq!(BodyFormat::default_format(), BodyFormat::Text);
}

#[test]
fn test_extract_snippet_found() {
    let text = "The quick brown fox jumps over the lazy dog";
    let snippet = extract_snippet(text, "fox");
    assert!(snippet.contains("fox"));
    assert!(snippet.contains("quick"));
    assert!(snippet.contains("jumps"));
}

#[test]
fn test_extract_snippet_not_found() {
    let text = "The quick brown fox";
    let snippet = extract_snippet(text, "cat");
    assert_eq!(snippet, "The quick brown fox");
}

#[test]
fn test_extract_snippet_multibyte() {
    let text = "Hello 世界 this is a test string for multibyte characters";
    let snippet = extract_snippet(text, "世界");
    assert!(snippet.contains("世界"));
    assert!(snippet.contains("Hello"));
}

#[test]
fn extract_snippet_windows_and_ellipses() {
    let long = format!("{}needle{}", "a".repeat(150), "b".repeat(150));
    let s = extract_snippet(&long, "NEEDLE");
    assert_eq!(s, format!("...{}needle{}...", "a".repeat(100), "b".repeat(100)));
    let none = "x".repeat(250);
    assert_eq!(extract_snippet(&none, "y"), "x".repeat(200));
    // The match is mapped back by character position.
    assert_eq!(extract_snippet_lowered("ABC", "abc", "b"), "ABC");
}

#[test]
fn instructions_with_and_without_stats() {
    let stats = ArchiveStats { total_messages: 12, total_threads: 3, tag_count: 2, date_range: None };
    let tags = vec![("inbox".to_string(), 10), ("sent".to_string(), 2)];
    let senders = vec![("a@x.org".to_string(), 7)];
    let text = build_instructions(Some(stats), &tags, &senders);
    assert!(text.starts_with(
        "This is a read-only email archive containing 12 messages across 3 threads.\nTop tags: inbox (10), sent (2)\nTop senders: a@x.org (7)\n\nSearch uses notmuch query syntax:\nfrom:alice@example.com"
    ));
    assert!(text.contains("email archive"));
    assert!(text.contains("Search uses notmuch query syntax"));
    assert!(text.ends_with("use get_attachment_text to read PDFs, DOCX, XLSX"));
    let fallback = build_instructions(None, &tags, &senders);
    assert_eq!(fallback, "Rummage email archive MCP server.\nSearch uses notmuch query syntax.\n");
    let many: Vec<(String, usize)> = (0..12).map(|i| (format!("t{i}"), i)).collect();
    let stats = ArchiveStats { total_messages: 0, total_threads: 0, tag_count: 0, date_range: None };
    let text = build_instructions(Some(stats), &many, &Vec::new());
    assert!(text.contains("Top tags: t0 (0), t1 (1), t2 (2), t3 (3), t4 (4), t5 (5), t6 (6), t7 (7), t8 (8), t9 (9)\nTop senders: \n"));
}

#[test]
fn error_messages() {
    assert_eq!(
        empty_query_message(),
        "Query is empty. Try: from:someone, tag:inbox, or a keyword. Example: from:alice@example.com, tag:inbox AND date:2013-06.."
    );
    assert_eq!(
        not_found_message("Thread", "t1"),
        "Thread not found: t1. Use search to find valid IDs first."
    );
    assert_eq!(
        unsupported_format_message("image/png"),
        "Cannot extract text from image/png. Supported formats: docx, xlsx, pdf, pptx, doc, xls, txt, csv, json, html, md. Use get_attachment for the raw binary."
    );
    assert_eq!(
        not_implemented_message("Search"),
        "Search is not yet available. This feature requires backend extensions (Phase 1 of the MCP build plan)."
    );
}

#[test]
fn no_results_with_suggestions() {
    let tags = vec!["inbox".to_string(), "sent".to_string()];
    let senders = vec!["alice@example.com".to_string(), "bob@example.com".to_string()];
    let msg = no_results_message("tag:inbx from:alice", &tags, &senders);
    assert!(msg.starts_with("No results for 'tag:inbx from:alice'.\nDid you mean:\n- Similar tags: inbox, sent\n- Similar senders: alice@example.com, bob@example.com\n- Broaden"));
    assert!(msg.contains("No results"));
    assert!(msg.contains("Suggestions") || msg.contains("Did you mean"));
    let plain = no_results_message("budget", &tags, &senders);
    assert_eq!(
        plain,
        "No results for 'budget'.\nDid you mean:\n- Broaden the date range (e.g., omit date: filters)\n- Check spelling of names or terms\n- Use tag:* to see available tags, then filter with tag:<name>\n- Try a wildcard search with * (e.g., subject:*budget*)"
    );
    // An empty tag name asks for no tag suggestions.
    let empty = no_results_text("x tag:", &vec!["inbox".to_string()], &Vec::new());
    assert!(!empty.contains("Similar tags"));
}

#[test]
fn reply_prefixes_are_stripped() {
    assert_eq!(strip_reply_prefixes("Re: Fwd: Budget "), "Budget");
    assert_eq!(strip_reply_prefixes("Re:Re: x"), "x");
    assert_eq!(strip_reply_prefixes("RE: y"), "RE: y");
}

fn msg_from(from: &str, to: &str, subject: &str) -> MessageDetail {
    let mut m = message("");
    m.headers.from = from.into();
    m.headers.to = to.into();
    m.subject = subject.into();
    m
}

#[test]
fn related_queries_by_strategy() {
    let thread = ThreadDetail {
        thread_id: "t".into(),
        tags: vec!["inbox".into(), "work".into()],
        messages: vec![
            msg_from("a@x, b@x", " c@x ,", "Re: Plans"),
            msg_from("b@x", "a@x", "Re: Plans"),
        ],
    };
    assert_eq!(
        related_queries("participants", &thread),
        vec!["from:a@x OR from:b@x OR from:c@x"]
    );
    assert_eq!(related_queries("auto", &thread), vec!["from:a@x OR from:b@x OR from:c@x"]);
    assert_eq!(related_queries("subject", &thread), vec!["subject:\"Plans\""]);
    assert_eq!(related_queries("tags", &thread), vec!["tag:inbox OR tag:work"]);
    assert!(related_queries("other", &thread).is_empty());
    assert_eq!(subject_query(&thread), Some("subject:\"Plans\"".to_string()));
    let silent = ThreadDetail {
        thread_id: "s".into(),
        tags: vec![],
        messages: vec![msg_from("", " ", "Re: (no subject)")],
    };
    assert!(related_queries("auto", &silent).is_empty());
    assert!(related_queries("tags", &silent).is_empty());
    assert_eq!(subject_query(&silent), None);
}

fn summary(id: &str) -> ThreadSummary {
    ThreadSummary {
        thread_id: id.into(),
        subject: String::new(),
        authors: String::new(),
        matched_messages: 0,
        total_messages: 0,
        newest_date: 0,
        oldest_date: 0,
        tags: Vec::new(),
        preview: None,
        has_attachments: false,
    }
}

#[test]
fn merging_related_threads() {
    let mut related = vec![summary("a")];
    merge_related(&mut related, vec![summary("src"), summary("a"), summary("b"), summary("c")], "src", 10);
    let ids: Vec<&str> = related.iter().map(|t| t.thread_id.as_str()).collect();
    assert_eq!(ids, vec!["a", "b", "c"]);
    let mut related = Vec::new();
    merge_related(&mut related, vec![summary("x"), summary("y"), summary("z")], "src", 2);
    assert_eq!(related.len(), 2);
    let mut related = Vec::new();
    merge_related(&mut related, vec![summary("x"), summary("y")], "src", 0);
    assert_eq!(related.len(), 0);
    assert!(wants_subject_fallback("auto", 2));
    assert!(!wants_subject_fallback("auto", 3));
    assert!(!wants_subject_fallback("participants", 0));
}

#[test]
fn merging_into_a_full_list_adds_nothing() {
    let mut related = vec![summary("a"), summary("b")];
    merge_related(&mut related, vec![summary("c"), summary("d")], "src", 2);
    let ids: Vec<&str> = related.iter().map(|t| t.thread_id.as_str()).collect();
    assert_eq!(ids, vec!["a", "b"]);
    let mut related = vec![summary("a")];
    merge_related(&mut related, vec![summary("c"), summary("d"), summary("e")], "src", 2);
    assert_eq!(related.len(), 2);
}
