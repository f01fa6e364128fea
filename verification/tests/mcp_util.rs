use rummage::api::search::ThreadSummary;
use rummage::mcp::snippet_window_lowered;
use rummage::mcp::util::{
    cap_search_results, format_search_error, fuzzy_match, fuzzy_rank, limit_attachment_text,
    snippet_around_match, truncate_attachment_text, truncate_body,
    truncate_thread_body, MCP_MAX_ATTACHMENT_BYTES, MCP_MAX_BODY_CHARS,
};

#[test]
fn test_truncate_body_short() {
    let text = "Short message";
    assert_eq!(truncate_body(text, 100), "Short message");
}

#[test]
fn test_truncate_body_long() {
    let text = "This is a very long message body that needs to be truncated for MCP output";
    let result = truncate_body(text, 20);
    assert!(result.contains("[truncated, use get_message for full content]"));
    assert!(result.starts_with("This is a very"));
}

#[test]
fn test_truncate_attachment_text_short() {
    let text = "Short doc";
    assert_eq!(truncate_attachment_text(text, 100), "Short doc");
}

#[test]
fn test_truncate_attachment_text_long() {
    let text = "This is a very long attachment text that needs truncation";
    let result = truncate_attachment_text(text, 20);
    assert!(result.contains("[truncated, document continues...]"));
}

#[test]
fn test_snippet_around_match_found() {
    let text = "The quick brown fox jumps over the lazy dog";
    let result = snippet_around_match(text, "fox", 6).unwrap();
    assert!(result.contains("fox"));
    assert!(result.contains("brown"));
    assert!(result.contains("jumps"));
}

#[test]
fn test_snippet_around_match_not_found() {
    let text = "The quick brown fox";
    assert!(snippet_around_match(text, "cat", 5).is_none());
}

#[test]
fn test_snippet_around_match_multiple() {
    // Should return first match.
    let text = "cat dog cat bird";
    let result = snippet_around_match(text, "cat", 4).unwrap();
    assert!(result.contains("cat"));
    assert!(result.contains("dog"));
}

#[test]
fn test_snippet_around_match_context_edges() {
    let text = "abcdefgh";
    let result = snippet_around_match(text, "cde", 2).unwrap();
    assert_eq!(result, "abcdefg...");
}

#[test]
fn test_snippet_around_match_case_insensitive() {
    let text = "The Quick Brown Fox";
    let result = snippet_around_match(text, "fox", 3).unwrap();
    assert!(result.contains("Fox"));
}

#[test]
fn test_format_search_error() {
    let msg = format_search_error("subject: budget 2024");
    assert!(msg.contains("No results for 'subject: budget 2024'"));
    assert!(msg.contains("tag:*"));
    assert!(msg.contains("Broaden"));
}

fn summary(id: usize) -> ThreadSummary {
    ThreadSummary {
        thread_id: id.to_string(),
        subject: String::new(),
        authors: String::new(),
        matched_messages: 0,
        total_messages: 0,
        newest_date: 0,
        oldest_date: 0,
        tags: Vec::new(),
        preview: None,
        has_attachments: false,
    }
}

#[test]
fn test_cap_search_results() {
    let results: Vec<ThreadSummary> = (0..150).map(summary).collect();
    let capped = cap_search_results(results);
    assert_eq!(capped.len(), 100);
}

#[test]
fn test_fuzzy_match_exact() {
    let candidates = vec!["inbox".to_string(), "sent".to_string(), "spam".to_string()];
    let result = fuzzy_match("inbox", &candidates, 1);
    assert_eq!(result, vec!["inbox"]);
}

#[test]
fn test_fuzzy_match_close() {
    let candidates = vec![
        "inbox".to_string(),
        "sent".to_string(),
        "drafts".to_string(),
    ];
    let result = fuzzy_match("inbix", &candidates, 3);
    assert_eq!(result[0], "inbox");
}

#[test]
fn test_fuzzy_match_substring() {
    let candidates = vec!["important".to_string(), "work".to_string()];
    let result = fuzzy_match("port", &candidates, 3);
    assert_eq!(result[0], "important");
}

// ── Further cases ───────────────────────────────────────────────────

#[test]
fn cap_keeps_short_lists_and_order() {
    let results: Vec<ThreadSummary> = (0..3).map(summary).collect();
    let capped = cap_search_results(results);
    let ids: Vec<String> = capped.iter().map(|t| t.thread_id.clone()).collect();
    assert_eq!(ids, vec!["0", "1", "2"]);
    let capped = cap_search_results((0..101).map(summary).collect());
    assert_eq!(capped.len(), 100);
    assert_eq!(capped[99].thread_id, "99");
}

#[test]
fn fuzzy_ranks_by_distance_then_order() {
    // Distances to "inbix": drafts 6, sent 5, inbox 1, spam 5; ties keep
    // their order.
    let candidates = vec![
        "drafts".to_string(),
        "sent".to_string(),
        "inbox".to_string(),
        "spam".to_string(),
    ];
    let result = fuzzy_match("Inbix", &candidates, 4);
    assert_eq!(result, vec!["inbox", "sent", "spam", "drafts"]);
}

#[test]
fn fuzzy_takes_at_most_max_and_zero_gives_none() {
    let candidates = vec!["a".to_string(), "b".to_string(), "c".to_string()];
    assert_eq!(fuzzy_match("x", &candidates, 2).len(), 2);
    assert!(fuzzy_match("x", &candidates, 0).is_empty());
    assert!(fuzzy_match("x", &[], 5).is_empty());
}

#[test]
fn fuzzy_rank_uses_the_lowered_texts_given() {
    let lowered = vec!["kitten".to_string(), "sitting".to_string()];
    let candidates = vec!["Kitten".to_string(), "Sitting".to_string()];
    // Distance kitten→sitting is 3; "sitting" contains itself: score 0.
    let r = fuzzy_rank("sitting", &lowered, &candidates, 2);
    assert_eq!(r, vec!["Sitting", "Kitten"]);
}

#[test]
fn snippet_window_exact() {
    // Match of 3 characters at position 2, two bytes of context on each side.
    assert_eq!(snippet_window_lowered("abcdefgh", "abcdefgh", "cde", 2).unwrap(), "abcdefg...");
    assert_eq!(snippet_window_lowered("abcdefgh", "abcdefgh", "e", 1).unwrap(), "...def...");
    assert_eq!(snippet_window_lowered("abcdefgh", "abcdefgh", "abcdefgh", 0).unwrap(), "abcdefgh");
    assert!(snippet_window_lowered("abcdefgh", "abcdefgh", "xyz", 3).is_none());
}

#[test]
fn snippet_when_lower_casing_lengthens_text() {
    // "İ" lower-cases to two characters; the match is still found and cut.
    assert_eq!(snippet_around_match("İİx", "x", 2).unwrap(), "...x");
    assert!(snippet_around_match("İİx", "x", 0).is_some());
}

#[test]
fn snippet_around_multibyte_snaps_to_boundaries() {
    // "é" takes two bytes; a window edge inside it moves to a boundary.
    let text = "aé fox é b";
    let r = snippet_around_match(text, "fox", 2).unwrap();
    assert_eq!(r, "... fox ...");
}

#[test]
fn thread_and_attachment_limits() {
    let long = "word ".repeat(1000);
    let t = truncate_thread_body(&long);
    assert!(t.len() <= MCP_MAX_BODY_CHARS + 60);
    assert!(t.ends_with(" [truncated, use get_message for full content]"));
    assert_eq!(truncate_thread_body("short"), "short");
    let doc = "x".repeat(MCP_MAX_ATTACHMENT_BYTES + 1);
    let l = limit_attachment_text(&doc);
    assert_eq!(
        l,
        format!("{} [truncated, document continues...]", "x".repeat(MCP_MAX_ATTACHMENT_BYTES))
    );
}

#[test]
fn thread_body_limit_counts_characters() {
    // 2001 two-byte characters: 4002 bytes, but within the 4000-character limit.
    let e = "é".repeat(2001);
    assert_eq!(truncate_thread_body(&e), e);
    let exact = "é".repeat(MCP_MAX_BODY_CHARS);
    assert_eq!(truncate_thread_body(&exact), exact);
    let over = "é".repeat(MCP_MAX_BODY_CHARS + 1);
    let cut = truncate_thread_body(&over);
    assert_eq!(
        cut,
        format!("{} [truncated, use get_message for full content]", "é".repeat(MCP_MAX_BODY_CHARS))
    );
}
