use rummage::error::AppError;
use rummage::mail::html::{count_quote_depth, sanitize_html, text_to_html};
use rummage::mail::parser::{
    attachment_filename, extract_attachment, extract_attachment_full, parse_message,
    try_parse_message,
};

#[test]
fn test_plain_text_to_html_quotes() {
    let input = "Hello world\n> quote\n>> nested\nback\n";
    let html = text_to_html(input);
    assert!(html.contains("Hello world"));
    assert!(html.contains("<blockquote>"));
    assert!(html.contains("</blockquote>"));
}

#[test]
fn test_url_autolink() {
    let input = "Check out https://example.com";
    let html = text_to_html(input);
    assert!(html.contains(r#"<a href="https://example.com""#));
}

#[test]
fn test_email_autolink() {
    let input = "Contact me@example.com";
    let html = text_to_html(input);
    assert!(html.contains(r#"<a href="mailto:me@example.com""#));
}

#[test]
fn test_html_escaping() {
    let input = "<script>alert('xss')</script>";
    let html = text_to_html(input);
    assert!(!html.contains("<script>"));
    assert!(html.contains("&lt;script&gt;"));
}

#[test]
fn text_to_html_exact_output() {
    assert_eq!(
        text_to_html("Hello world\n> quote\n>> nested\nback\n"),
        "Hello world<br>\n<blockquote>quote<br>\n<blockquote>nested<br>\n</blockquote></blockquote>back<br>\n"
    );
    assert_eq!(
        text_to_html("see https://a.example/x?y=1&z=2 now"),
        "see <a href=\"https://a.example/x?y=1&amp;amp;z=2\" rel=\"noopener noreferrer\" target=\"_blank\">https://a.example/x?y=1&amp;z=2</a> now<br>\n"
    );
    assert_eq!(text_to_html(""), "");
    assert_eq!(text_to_html("a\r\nb"), "a<br>\nb<br>\n");
    assert_eq!(text_to_html("> x"), "<blockquote>x<br>\n</blockquote>");
}

#[test]
fn quote_depth_counts_markers() {
    let line: Vec<char> = ">> > x".chars().collect();
    let (d, rest) = count_quote_depth(&line);
    assert_eq!(d, 3);
    assert_eq!(rest.iter().collect::<String>(), "x");
    let line: Vec<char> = "a > b".chars().collect();
    assert_eq!(count_quote_depth(&line).0, 0);
}

#[test]
fn sanitize_keeps_safe_markup_only() {
    let out = sanitize_html("<p onclick=\"x()\">Hi <script>bad()</script><a href=\"http://e.org\" rel=\"x\">l</a></p>");
    assert!(!out.contains("script"));
    assert!(!out.contains("onclick"));
    assert!(out.contains("<p>Hi "));
    assert!(out.contains("href=\"http://e.org\""));
}

const MAIL: &str = "From: Alice <alice@example.com>\r\n\
To: bob@example.com, Carol <carol@example.com>\r\n\
Subject: Hello\r\n\
Message-ID: <m1@example.com>\r\n\
In-Reply-To: <m0@example.com>\r\n\
References: <a@x> <m0@example.com>\r\n\
MIME-Version: 1.0\r\n\
Content-Type: multipart/mixed; boundary=\"BOUND\"\r\n\
\r\n\
--BOUND\r\n\
Content-Type: text/plain; charset=utf-8\r\n\
\r\n\
Hi Bob,\r\n\
> quoted\r\n\
--BOUND\r\n\
Content-Type: application/octet-stream; name=\"report.pdf\"\r\n\
Content-Disposition: attachment; filename=\"report.pdf\"\r\n\
Content-Transfer-Encoding: base64\r\n\
\r\n\
SGVsbG8=\r\n\
--BOUND--\r\n";

#[test]
fn parses_a_plain_message_with_attachment() {
    let d = parse_message(MAIL.as_bytes(), "m1", 42, "2024".into(), vec!["inbox".into()]).unwrap();
    assert_eq!(d.message_id, "m1");
    assert_eq!(d.headers.from, "Alice <alice@example.com>");
    assert_eq!(d.headers.to, "bob@example.com, Carol <carol@example.com>");
    assert_eq!(d.headers.cc, None);
    assert_eq!(d.subject, "Hello");
    // An inline text part stands for both the HTML and the text body; the
    // HTML body is taken, sanitised.
    assert_eq!(d.content_type, "text/html");
    assert!(d.content.contains("Hi Bob,"));
    assert!(d.body_text.as_deref().unwrap().contains("Hi Bob,"));
    assert!(d.body_text.as_deref().unwrap().contains("> quoted"));
    assert!(d.body_markdown.as_deref().unwrap().contains("Hi Bob,"));
    assert_eq!(d.attachments.len(), 1);
    let a = &d.attachments[0];
    assert_eq!(a.filename.as_deref(), Some("report.pdf"));
    assert_eq!(a.content_type, "application/pdf");
    assert_eq!(a.size_bytes, Some(5));
    assert!(d.in_reply_to.as_deref().unwrap().contains("m0@example.com"));
    assert_eq!(d.references.len(), 2);
    assert_eq!(d.tags, vec!["inbox".to_string()]);
    assert_eq!(d.date, 42);
    let again = try_parse_message(MAIL.as_bytes(), "m1", 42, "2024".into(), vec!["inbox".into()]);
    assert_eq!(again.unwrap().unwrap(), d);
}

#[test]
fn extracts_attachment_parts() {
    let part = d_part();
    let (ct, body, name) = extract_attachment_full(MAIL.as_bytes(), part).unwrap();
    assert_eq!(ct, "application/pdf");
    assert_eq!(body, b"Hello".to_vec());
    assert_eq!(name.as_deref(), Some("report.pdf"));
    let (ct2, body2) = extract_attachment(MAIL.as_bytes(), part).unwrap();
    assert_eq!((ct2.as_str(), body2.as_slice()), ("application/pdf", &b"Hello"[..]));
    assert_eq!(attachment_filename(MAIL.as_bytes(), part).as_deref(), Some("report.pdf"));
    match extract_attachment_full(MAIL.as_bytes(), 99) {
        Err(AppError::NotFound(m)) => assert_eq!(m, "part 99 not found"),
        other => panic!("unexpected: {other:?}"),
    }
    match extract_attachment_full(MAIL.as_bytes(), 0) {
        Err(AppError::NotFound(m)) => assert_eq!(m, "part is not a binary attachment"),
        other => panic!("unexpected: {other:?}"),
    }
    assert_eq!(attachment_filename(MAIL.as_bytes(), 99), None);
}

fn d_part() -> usize {
    parse_message(MAIL.as_bytes(), "m1", 0, String::new(), Vec::new()).unwrap().attachments[0].part
}

#[test]
fn html_only_message_has_no_readable_body() {
    let raw = "From: a@b.c\r\nSubject: H\r\nContent-Type: text/html\r\n\r\n<p>Hi <b>there</b></p>\r\n";
    let d = parse_message(raw.as_bytes(), "h", 0, String::new(), Vec::new()).unwrap();
    assert_eq!(d.content_type, "text/plain");
    assert_eq!(d.content, "(no readable body)");
    assert_eq!(d.body_text.as_deref(), Some("(no readable body)"));
    assert_eq!(d.headers.to, "");
    assert!(d.attachments.is_empty());
}

const ALT: &str = "From: a@b.c\r\n\
Subject: Alt\r\n\
MIME-Version: 1.0\r\n\
Content-Type: multipart/alternative; boundary=\"ALT\"\r\n\
\r\n\
--ALT\r\n\
Content-Type: text/plain\r\n\
\r\n\
Hello\r\n\
> quote\r\n\
--ALT\r\n\
Content-Type: text/html\r\n\
\r\n\
<p>Hello</p>\r\n\
--ALT--\r\n";

#[test]
fn alternative_message_shows_its_text_part() {
    let d = parse_message(ALT.as_bytes(), "alt", 0, String::new(), Vec::new()).unwrap();
    assert_eq!(d.content_type, "text/plain");
    assert!(d.content.starts_with("Hello<br>\n<blockquote>quote<br>\n"));
    assert!(d.body_text.as_deref().unwrap().starts_with("Hello\r\n> quote") || d.body_text.as_deref().unwrap().starts_with("Hello\n> quote"));
    assert_eq!(d.body_text, d.body_markdown);
}

#[test]
fn message_without_subject() {
    let raw = "From: a@b.c\r\n\r\nbody\r\n";
    let d = parse_message(raw.as_bytes(), "x", 0, String::new(), Vec::new()).unwrap();
    assert_eq!(d.subject, "(no subject)");
}
