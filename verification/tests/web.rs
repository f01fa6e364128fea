use rummage::api::thread::{MessageDetail, MessageHeaders, ThreadDetail};
use rummage::ui::{
    attachment_icon, attachment_name, attachment_url, date_pattern, fmt_number, home_title, pad2, page_document,
    page_query, parse_from_header, plural, preview_kind, reader_meta, relative_age, search_status,
    search_title, sender_rows, tag_rows, theme_class, theme_from_cookies, thread_title, wants_json,
    DateFormat, IconName, PreviewKind, SidebarRow,
};

fn render_page(title: &str, body: &str, theme: &str) -> String {
    page_document(title, theme, body, "/*tokens*/", "/*instrument*/", "/*app*/")
}

#[test]
fn test_fmt_number() {
    assert_eq!(fmt_number(0), "0");
    assert_eq!(fmt_number(999), "999");
    assert_eq!(fmt_number(1000), "1,000");
    assert_eq!(fmt_number(1_000_000), "1,000,000");
}

#[test]
fn fmt_number_groups_every_three_digits() {
    assert_eq!(fmt_number(12_345), "12,345");
    assert_eq!(fmt_number(123_456_789), "123,456,789");
    assert_eq!(fmt_number(1_000_000_000_000), "1,000,000,000,000");
    assert_eq!(pad2(3), "03");
    assert_eq!(pad2(12), "12");
    assert_eq!(pad2(0), "00");
}

#[test]
fn test_render_page_wraps_doctype() {
    let html = render_page("Test", "<div>hi</div>", "dark");
    assert!(html.starts_with("<!DOCTYPE html>"));
    assert!(html.contains("<title>Test</title>"));
    assert!(html.contains("hi"));
}

#[test]
fn test_render_page_light_theme() {
    let html = render_page("Test", "<div>hi</div>", "light");
    assert!(html.contains("theme-instrument light"));
}

#[test]
fn test_render_page_escapes_xss_in_title() {
    let html = render_page("</title><script>alert(1)</script>", "<div></div>", "dark");
    assert!(!html.contains("<script>alert(1)</script>"));
    assert!(html.contains("&lt;script&gt;"));
}

#[test]
fn page_document_layout() {
    let html = render_page("A & B", "<p>x</p>", "da\"rk");
    assert!(html.contains("<html lang=\"en\" data-theme=\"da&quot;rk\">"));
    assert!(html.contains("<title>A &amp; B</title>"));
    assert!(html.contains("<style>\n/*tokens*/\n</style>\n<style>\n/*instrument*/\n</style>\n<style>\n/*app*/\n</style>"));
    assert!(html.contains("<body class=\"theme-instrument dark\">\n<p>x</p>\n<script src=\"/app.js\" defer></script>"));
    assert!(html.ends_with("</body>\n</html>"));
    assert_eq!(theme_class("light"), "theme-instrument light");
    assert_eq!(theme_class("solarized"), "theme-instrument dark");
}

#[test]
fn themes_from_cookies() {
    assert_eq!(theme_from_cookies(None), "dark");
    assert_eq!(theme_from_cookies(Some("a=1; theme=light")), "light");
    assert_eq!(theme_from_cookies(Some("theme=light")), "light");
    assert_eq!(theme_from_cookies(Some("theme=dark; x=theme=light")), "dark");
    assert_eq!(theme_from_cookies(Some("theme = light")), "dark");
    assert_eq!(theme_from_cookies(Some("")), "dark");
}

#[test]
fn from_headers_split_into_name_and_address() {
    assert_eq!(parse_from_header("Alice Smith <alice@x.org>"), ("Alice Smith".to_string(), "alice@x.org".to_string()));
    assert_eq!(parse_from_header("bob@x.org"), ("bob@x.org".to_string(), String::new()));
    assert_eq!(parse_from_header("Carol <carol@x.org"), ("Carol".to_string(), String::new()));
    assert_eq!(parse_from_header("<d@x.org>"), (String::new(), "d@x.org".to_string()));
}

fn rows(names: &[(&str, usize)]) -> Vec<SidebarRow> {
    names.iter().map(|(n, c)| SidebarRow { name: n.to_string(), count: *c }).collect()
}

#[test]
fn sidebar_rows() {
    let tags = rows(&[("a", 1), ("b", 2), ("c", 3), ("d", 4), ("e", 5), ("f", 6), ("g", 7), ("h", 8), ("i", 9), ("j", 10), ("k", 11)]);
    let (list, active) = tag_rows(&tags, "tag:c");
    assert_eq!(list.len(), 10);
    assert_eq!(active, Some(2));
    assert_eq!(tag_rows(&tags, "tag:k").1, None);
    assert_eq!(tag_rows(&tags, "from:c").1, None);
    let senders = rows(&[("ann@x.org", 3), ("bob", 2), ("c@d", 1), ("d@e", 1), ("e@f", 1), ("f@g", 1), ("g@h", 1)]);
    let s = sender_rows(&senders);
    assert_eq!(s.len(), 6);
    assert_eq!(s[0].name, "ann");
    assert_eq!(s[0].count, 3);
    assert_eq!(s[1].name, "bob");
}

fn msg(from: &str, date: i64, subject: &str) -> MessageDetail {
    MessageDetail {
        message_id: format!("{from}-{date}"),
        headers: MessageHeaders { from: from.into(), to: "x@y".into(), cc: None, bcc: None },
        date,
        date_relative: "now".into(),
        subject: subject.into(),
        content: String::new(),
        content_type: "text/plain".into(),
        attachments: vec![],
        body_text: None,
        body_markdown: None,
        tags: vec![],
        in_reply_to: None,
        references: vec![],
    }
}

#[test]
fn reader_pane_metadata() {
    let d = ThreadDetail {
        thread_id: "t".into(),
        tags: vec![],
        messages: vec![msg("a@x", 50, "Plan"), msg("b@x", 10, "Re: Plan"), msg("a@x", 90, "Re: Plan")],
    };
    let m = reader_meta(&d);
    assert_eq!(m.subject, "Plan");
    assert_eq!(m.message_count, 3);
    assert_eq!(m.participant_count, 2);
    assert_eq!(m.date_span, Some((10, 90)));
    let empty = ThreadDetail { thread_id: "t".into(), tags: vec![], messages: vec![] };
    let e = reader_meta(&empty);
    assert_eq!(e.subject, "");
    assert_eq!(e.participant_count, 0);
    assert_eq!(e.date_span, None);
    assert_eq!(plural(1, "message", "messages"), "message");
    assert_eq!(plural(0, "message", "messages"), "messages");
    assert_eq!(thread_title(&d), "Plan — Rummage");
    assert_eq!(thread_title(&empty), "Thread — Rummage");
}

#[test]
fn attachment_previews() {
    assert_eq!(preview_kind("application/pdf", "x"), PreviewKind::Pdf);
    assert_eq!(preview_kind("application/octet-stream", "x.pdf"), PreviewKind::Pdf);
    assert_eq!(preview_kind("image/png", "x.png"), PreviewKind::Image);
    assert_eq!(preview_kind("video/mp4", "x.mp4"), PreviewKind::Video);
    assert_eq!(preview_kind("text/plain", "x"), PreviewKind::Text);
    assert_eq!(preview_kind("application/octet-stream", "build.log"), PreviewKind::Text);
    assert_eq!(preview_kind("application/zip", "x.zip"), PreviewKind::DownloadOnly);
    assert_eq!(attachment_icon("image/jpeg"), IconName::Image);
    assert_eq!(attachment_icon("text/plain"), IconName::File);
    assert_eq!(attachment_name(&None), "unnamed");
    assert_eq!(attachment_name(&Some("a.txt".into())), "a.txt");
    assert_eq!(attachment_url("a b@c.d", 2), "/api/attachment?msg=a%20b%40c.d&part=2");
    assert_eq!(attachment_url("é~_.-", 0), "/api/attachment?msg=%C3%A9~_.-&part=0");
    assert_eq!(IconName::ChevronDown.path_data(), "M4 6l4 4 4-4");
    assert_eq!(IconName::Check.path_data(), "M3 8l3 3 7-7");
}

#[test]
fn relative_ages() {
    assert_eq!(relative_age(-5), Some("just now".to_string()));
    assert_eq!(relative_age(0), Some("0m".to_string()));
    assert_eq!(relative_age(300), Some("5m".to_string()));
    assert_eq!(relative_age(3 * 3600 + 5), Some("3h".to_string()));
    assert_eq!(relative_age(2 * 86400), Some("2d".to_string()));
    assert_eq!(relative_age(7 * 86400), None);
}

#[test]
fn search_pages() {
    assert_eq!(page_query(None), "tag:inbox");
    assert_eq!(page_query(Some("from:a".into())), "from:a");
    assert!(wants_json(Some("text/html, application/json")));
    assert!(!wants_json(Some("text/html")));
    assert!(!wants_json(None));
    assert_eq!(search_title("tag:x"), "Search: tag:x — Rummage");
    assert_eq!(search_status(12, 7), "12 threads · 7 ms");
    assert_eq!(home_title(), "Rummage — Email Archive Search");
}

#[test]
fn date_patterns_by_mode_and_year() {
    assert_eq!(date_pattern(DateFormat::Relative, 2026, 2026), "%b %d");
    assert_eq!(date_pattern(DateFormat::Relative, 2025, 2026), "%b %d '%y");
    assert_eq!(date_pattern(DateFormat::Iso, 2025, 2026), "%Y-%m-%d %H:%M");
    assert_eq!(date_pattern(DateFormat::Short, 2026, 2026), "%b %d '%y");
}
