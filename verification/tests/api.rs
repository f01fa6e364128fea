use rummage::api::attachment::{
    content_disposition, direct_text, extraction_failed, fallback_text, is_text_attachment,
    wants_markdown,
};
use rummage::api::message::{first_message, single_message_thread};
use rummage::api::search::{has_attachment_tag, page_bounds, sort_oldest_first, thread_preview, thread_summary};
use rummage::api::stats::date_range;
use rummage::api::tags::{tag_list, tag_query};
use rummage::api::thread::{apply_threading_headers, MessageDetail, MessageHeaders, ThreadDetail};
use rummage::error::AppError;
use rummage::order::sort_strings;

fn message(id: &str, subject: &str) -> MessageDetail {
    MessageDetail {
        message_id: id.into(),
        headers: MessageHeaders { from: "a@b".into(), to: "c@d".into(), cc: None, bcc: None },
        date: 0,
        date_relative: "now".into(),
        subject: subject.into(),
        content: "hello".into(),
        content_type: "text/plain".into(),
        attachments: vec![],
        body_text: Some("hello there".into()),
        body_markdown: None,
        tags: vec![],
        in_reply_to: None,
        references: vec![],
    }
}

#[test]
fn search_page_bounds_and_sort() {
    assert_eq!(page_bounds(None, None), (0, 20));
    assert_eq!(page_bounds(Some(40), Some(500)), (40, 100));
    assert_eq!(page_bounds(Some(3), Some(7)), (3, 7));
    assert!(sort_oldest_first(&Some("oldest".into())));
    assert!(!sort_oldest_first(&Some("newest".into())));
    assert!(!sort_oldest_first(&None));
}

#[test]
fn thread_summaries() {
    assert!(has_attachment_tag(&vec!["inbox".into(), "attachment".into()]));
    assert!(!has_attachment_tag(&vec!["inbox".into()]));
    let m = message("m1", "Hi");
    assert_eq!(thread_preview(&Some(m.clone())), Some("hello there".to_string()));
    assert_eq!(thread_preview(&None), None);
    let s = thread_summary(
        "t1".into(),
        "Hi".into(),
        &vec!["Ann".into(), "Bob".into()],
        1,
        2,
        20,
        10,
        vec!["attachment".into()],
        &Some(m),
    );
    assert_eq!(s.authors, "Ann, Bob");
    assert!(s.has_attachments);
    assert_eq!(s.preview, Some("hello there".to_string()));
}

#[test]
fn tags_are_sorted_and_queried() {
    let sorted = sort_strings(vec!["work".into(), "inbox".into(), "Zeta".into(), "attachment".into(), "inbox".into()]);
    assert_eq!(sorted, vec!["Zeta", "attachment", "inbox", "inbox", "work"]);
    let accents = sort_strings(vec!["é".into(), "e".into(), "f".into()]);
    assert_eq!(accents, vec!["e", "f", "é"]);
    assert!(sort_strings(Vec::new()).is_empty());
    assert_eq!(tag_query("inbox"), "tag:inbox");
    let list = tag_list(vec![("inbox".into(), 3), ("work".into(), 1)]);
    assert_eq!(list.tags.len(), 2);
    assert_eq!(list.tags[1].name, "work");
    assert_eq!(list.tags[1].count, 1);
}

#[test]
fn stats_date_range() {
    let r = date_range(Some(0), Some(86_400 * 365)).unwrap();
    assert_eq!(r.oldest, "1970-01-01");
    assert_eq!(r.newest, "1971-01-01");
    assert!(date_range(None, Some(0)).is_none());
    assert!(date_range(Some(i64::MAX), Some(0)).is_none());
}

#[test]
fn attachment_disposition() {
    assert_eq!(
        content_disposition("application/pdf", &Some("report.pdf".into())),
        "inline; filename=\"report.pdf\""
    );
    assert_eq!(
        content_disposition("application/zip", &Some("a\"b\\c\u{7}\u{85}.zip".into())),
        "attachment; filename=\"abc.zip\""
    );
    assert_eq!(content_disposition("image/png", &None), "inline; filename=\"attachment\"");
    assert_eq!(
        content_disposition("text/plain", &Some("\"\u{1}".into())),
        "inline; filename=\"attachment\""
    );
    assert_eq!(content_disposition("video/mp4", &Some("v.mp4".into())), "inline; filename=\"v.mp4\"");
}

#[test]
fn attachment_text_paths() {
    assert!(is_text_attachment("text/csv", &None));
    assert!(is_text_attachment("application/octet-stream", &Some("NOTES.MD".into())));
    assert!(is_text_attachment("application/octet-stream", &Some("x.yml".into())));
    assert!(!is_text_attachment("application/pdf", &Some("x.pdf".into())));
    assert!(!is_text_attachment("application/pdf", &None));
    assert_eq!(direct_text("text/plain", &None, b"hi \xff"), Some("hi \u{fffd}".to_string()));
    assert_eq!(direct_text("application/pdf", &Some("a.pdf".into()), b"%PDF"), None);
    assert_eq!(fallback_text(b"plain"), "plain");
    assert!(wants_markdown("markdown"));
    assert!(!wants_markdown("text"));
    match extraction_failed(true, "application/pdf", "Parse") {
        AppError::Internal(m) => assert_eq!(m, "batdoc markdown extraction failed for application/pdf: Parse"),
        other => panic!("unexpected {other:?}"),
    }
    match extraction_failed(false, "x/y", "E") {
        AppError::Internal(m) => assert_eq!(m, "batdoc plain extraction failed for x/y: E"),
        other => panic!("unexpected {other:?}"),
    }
}

#[test]
fn single_messages() {
    let t = single_message_thread("t9".into(), message("m1", "S"));
    assert_eq!(t.thread_id, "t9");
    assert!(t.tags.is_empty());
    assert_eq!(t.messages.len(), 1);
    let m = first_message(t).unwrap();
    assert_eq!(m.message_id, "m1");
    let empty = ThreadDetail { thread_id: "t".into(), tags: vec![], messages: vec![] };
    match first_message(empty) {
        Err(AppError::NotFound(m)) => assert_eq!(m, "message not found"),
        other => panic!("unexpected {other:?}"),
    }
}

#[test]
fn threading_headers_from_the_index() {
    let mut m = message("m1", "S");
    m.in_reply_to = Some("old".into());
    m.references = vec!["r0".into()];
    apply_threading_headers(&mut m, Some("  <a@b>  ".into()), Some(" <x@y>\n\t<z@w> ".into()));
    assert_eq!(m.in_reply_to, Some("<a@b>".to_string()));
    assert_eq!(m.references, vec!["<x@y>", "<z@w>"]);
    let mut n = message("m2", "S");
    n.in_reply_to = Some("keep".into());
    apply_threading_headers(&mut n, None, None);
    assert_eq!(n.in_reply_to, Some("keep".to_string()));
    assert!(n.references.is_empty());
}
