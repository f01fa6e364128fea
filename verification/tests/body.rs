use rummage::mail::body::{html_to_markdown, html_to_text, truncate_text, try_html_to_markdown};

// ── html_to_text ─────────────────────────────────────────────────────

#[test]
fn test_html_to_text_simple() {
    let html = "<p>Hello <b>world</b></p>";
    assert_eq!(html_to_text(html), "Hello world\n\n");
}

#[test]
fn body_test_html_to_text_entities() {
    let html = "&lt;div&gt;Hello &amp; goodbye&lt;/div&gt;";
    assert_eq!(html_to_text(html), "<div>Hello & goodbye</div>");
}

#[test]
fn test_html_to_text_paragraphs() {
    let html = "<p>First paragraph</p><p>Second paragraph</p>";
    assert_eq!(
        html_to_text(html),
        "First paragraph\n\nSecond paragraph\n\n"
    );
}

#[test]
fn test_html_to_text_line_breaks() {
    let html = "Line one<br>Line two<br/>Line three<br />Line four";
    assert_eq!(
        html_to_text(html),
        "Line one\nLine two\nLine three\nLine four"
    );
}

#[test]
fn test_html_to_text_nested_tags() {
    let html = "<div><p>Text in <span>nested</span> tags</p></div>";
    assert_eq!(html_to_text(html), "Text in nested tags\n\n");
}

#[test]
fn test_html_to_text_links() {
    let html = r#"<a href="https://example.com">Click here</a>"#;
    assert_eq!(html_to_text(html), "Click here");
}

#[test]
fn html_to_text_keeps_unterminated_and_empty_tags() {
    // `<>` is no tag, and a `<` without a later `>` stays as it is.
    assert_eq!(html_to_text("a <> b < c"), "a <> b < c");
    assert_eq!(html_to_text("x<y>z"), "xz");
}

// ── html_to_markdown ───────────────────────────────────────────────

#[test]
fn test_html_to_markdown_headings() {
    let html = "<h1>Title</h1><h2>Subtitle</h2><h3>Section</h3>";
    assert_eq!(
        html_to_markdown(html),
        "# Title\n## Subtitle\n### Section\n"
    );
}

#[test]
fn test_html_to_markdown_bold_strong() {
    let html = "<b>Bold</b> and <strong>Strong</strong>";
    assert_eq!(html_to_markdown(html), "**Bold** and **Strong**");
}

#[test]
fn test_html_to_markdown_italic_em() {
    let html = "<i>Italic</i> and <em>Emphasis</em>";
    assert_eq!(html_to_markdown(html), "*Italic* and *Emphasis*");
}

#[test]
fn test_html_to_markdown_links() {
    let html = r#"<a href="https://example.com">Link text</a>"#;
    assert_eq!(html_to_markdown(html), "[Link text](https://example.com)");
}

#[test]
fn test_html_to_markdown_unordered_list() {
    let html = "<ul><li>Item 1</li><li>Item 2</li></ul>";
    assert_eq!(html_to_markdown(html), "- Item 1\n- Item 2\n\n");
}

#[test]
fn test_html_to_markdown_ordered_list() {
    let html = "<ol><li>First</li><li>Second</li></ol>";
    assert_eq!(html_to_markdown(html), "1. First\n2. Second\n\n");
}

#[test]
fn test_html_to_markdown_tables() {
    let html = "<table><tr><th>Header</th></tr><tr><td>Cell</td></tr></table>";
    let md = html_to_markdown(html);
    assert!(md.contains("Header"));
    assert!(md.contains("Cell"));
    assert!(!md.contains("<table>"));
    assert!(!md.contains("<tr>"));
}

#[test]
fn test_html_to_markdown_code_blocks() {
    let html = "<pre><code>let x = 1;</code></pre>";
    let md = html_to_markdown(html);
    assert!(md.contains("let x = 1;"));
    assert!(!md.contains("<pre>"));
    assert!(!md.contains("<code>"));
}

#[test]
fn html_to_markdown_nested_lists_indent() {
    let html = "<ul><li>a<ol><li>b</li><li>c</li></ol></li></ul>";
    assert_eq!(html_to_markdown(html), "- a  1. b\n  2. c\n\n\n\n");
}

#[test]
fn html_to_markdown_single_quoted_href_and_lone_quote() {
    assert_eq!(
        html_to_markdown(r#"<a href="'x'">t</a>"#),
        "[t](x)"
    );
    assert_eq!(try_html_to_markdown(r#"<a href="'">t</a>"#), None);
}

// ── truncate_text ──────────────────────────────────────────────────

#[test]
fn test_truncate_text_word_boundary() {
    let text = "This is a long sentence that needs truncation";
    let truncated = truncate_text(text, 20);
    assert!(truncated.ends_with("[truncated...]"));
    assert!(truncated.starts_with("This is a long"));
    assert!(!truncated.contains("sentence"));
}

#[test]
fn test_truncate_text_shorter_than_limit() {
    let text = "Short";
    assert_eq!(truncate_text(text, 100), "Short");
}

#[test]
fn test_truncate_text_exact_length() {
    let text = "Exactly twenty chars";
    assert_eq!(truncate_text(text, 20), "Exactly twenty chars");
}

#[test]
fn test_truncate_text_multibyte() {
    let text = "Hello 世界 this is a long text";
    let truncated = truncate_text(text, 10);
    assert!(truncated.ends_with("[truncated...]"));
    // Must not panic or split in the middle of a multibyte character.
    assert!(truncated.is_char_boundary(truncated.len() - "[truncated...]".len()));
}

#[test]
fn truncate_text_exact_values() {
    assert_eq!(truncate_text("Hello 世界 this is a long text", 10), "Hello [truncated...]");
    // No word break fits: cut after the longest prefix that fits.
    assert_eq!(truncate_text("abcdefghij", 4), "abcd [truncated...]");
    // A leading run of spaces is no word to keep.
    assert_eq!(truncate_text("   abcdefgh", 5), "   ab [truncated...]");
}

#[test]
fn entities_are_decoded_once() {
    assert_eq!(html_to_text("&amp;quot;"), "&quot;");
    assert_eq!(html_to_text("&amp;lt;b&amp;gt;"), "&lt;b&gt;");
    assert_eq!(html_to_text("&amp;amp;"), "&amp;");
    assert_eq!(html_to_text("&#x3C;&#39;&nbsp;&#x26;"), "<' &");
}

#[test]
fn plain_text_passes_through() {
    let s = "Just words, no markup; 100% plain > fine.";
    assert_eq!(html_to_text(s), s);
}
