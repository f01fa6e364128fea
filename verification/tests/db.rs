use rummage::config::{notmuch_config_path, router_config, Config};
use rummage::db::{
    cache_fresh, check_ready, id_query, init_plan, is_maildir_message, is_ready, message_not_found,
    readiness, state_after_init, thread_not_found, thread_query, wait_step, DbRequest, DbState,
    IndexProgress, InitPlan,
};
use rummage::error::AppError;

#[test]
fn request_kinds() {
    assert_eq!(DbRequest::Tags.kind(), "tags");
    assert_eq!(
        DbRequest::Search { query: "q".into(), offset: None, limit: None, sort: None }.kind(),
        "search"
    );
    assert_eq!(DbRequest::SendersWithQuery { query: None, limit: 3 }.kind(), "senders_with_query");
    assert_eq!(
        DbRequest::AttachmentText { msg_id: "m".into(), part: 1, format: "text".into() }.kind(),
        "attachment_text"
    );
    assert_eq!(DbRequest::ThreadTree { thread_id: "t".into() }.kind(), "thread_tree");
}

#[test]
fn requests_run_only_when_ready() {
    assert!(check_ready(&DbState::Ready).is_ok());
    match check_ready(&DbState::Initializing) {
        Err(AppError::ServiceUnavailable(m)) => assert_eq!(m, "Database is still initializing"),
        other => panic!("unexpected {other:?}"),
    }
    match check_ready(&DbState::Failed("boom".into())) {
        Err(AppError::ServiceUnavailable(m)) => assert_eq!(m, "boom"),
        other => panic!("unexpected {other:?}"),
    }
    assert!(is_ready(&DbState::Ready));
    assert!(!is_ready(&DbState::Initializing));
    assert_eq!(readiness(&DbState::Ready), (200, "ready"));
    assert_eq!(readiness(&DbState::Initializing), (503, "not ready"));
    assert_eq!(readiness(&DbState::Failed("x".into())), (503, "not ready"));
}

#[test]
fn waiting_for_the_database() {
    assert!(wait_step(&DbState::Initializing).is_none());
    assert!(matches!(wait_step(&DbState::Ready), Some(Ok(()))));
    match wait_step(&DbState::Failed("no config".into())) {
        Some(Err(AppError::ServiceUnavailable(m))) => assert_eq!(m, "no config"),
        other => panic!("unexpected {other:?}"),
    }
}

#[test]
fn initialization_plan_and_outcome() {
    assert_eq!(init_plan(true, true, "/m/.notmuch").unwrap(), InitPlan::Open);
    assert_eq!(init_plan(false, false, "/m/.notmuch").unwrap(), InitPlan::CreateAndIndex);
    match init_plan(false, true, "/m/.notmuch") {
        Err(AppError::NotFound(m)) => assert_eq!(
            m,
            "No notmuch database found at /m/.notmuch and --no-auto-index is set"
        ),
        other => panic!("unexpected {other:?}"),
    }
    assert!(matches!(state_after_init(&Some(Ok(()))), DbState::Ready));
    match state_after_init(&Some(Err(AppError::Notmuch("locked".into())))) {
        DbState::Failed(m) => assert_eq!(m, "notmuch database error: locked"),
        other => panic!("unexpected {other:?}"),
    }
    match state_after_init(&None) {
        DbState::Failed(m) => assert_eq!(m, "Initialization panicked"),
        other => panic!("unexpected {other:?}"),
    }
}

#[test]
fn cache_and_lookups() {
    assert!(cache_fresh(0));
    assert!(cache_fresh(29_999_999_999));
    assert!(!cache_fresh(30_000_000_000));
    assert_eq!(id_query("abc@x"), "id:abc@x");
    assert_eq!(thread_query("0001"), "thread:0001");
    match message_not_found("m1") {
        AppError::NotFound(m) => assert_eq!(m, "message not found: m1"),
        other => panic!("unexpected {other:?}"),
    }
    match thread_not_found("t1") {
        AppError::NotFound(m) => assert_eq!(m, "thread not found: t1"),
        other => panic!("unexpected {other:?}"),
    }
}

#[test]
fn indexing_files_and_progress() {
    assert!(is_maildir_message("/mail/INBOX/cur/123:2,S"));
    assert!(is_maildir_message("/mail/new/1"));
    assert!(!is_maildir_message("/mail/tmp/1"));
    assert!(!is_maildir_message("/mail/.notmuch/xapian"));
    let mut p = IndexProgress::new();
    let mut reports = Vec::new();
    for i in 1..=2500usize {
        if p.record() {
            reports.push(i);
        }
    }
    assert_eq!(reports, vec![1000, 2000]);
    assert_eq!(p.indexed(), 2500);
}

fn config(no_webui: bool, no_mcp: bool) -> Config {
    Config {
        maildir: "/mail".into(),
        notmuch_config: None,
        index: false,
        no_auto_index: false,
        host: "127.0.0.1".into(),
        port: 8000,
        no_webui,
        no_mcp,
        mcp_path: "/mcp".into(),
        mcp_allowed_hosts: vec!["localhost".into()],
    }
}

#[test]
fn route_groups_from_configuration() {
    let r = router_config(&config(false, false), &None);
    assert!(r.webui_enabled && r.mcp_enabled);
    assert_eq!(r.mcp_path, "/mcp");
    assert!(!router_config(&config(false, false), &Some("false".into())).mcp_enabled);
    assert!(router_config(&config(false, false), &Some("true".into())).mcp_enabled);
    assert!(!router_config(&config(false, true), &None).mcp_enabled);
    assert!(!router_config(&config(true, false), &None).webui_enabled);
    assert_eq!(notmuch_config_path(Some("a".into()), Some("b".into())), Some("a".to_string()));
    assert_eq!(notmuch_config_path(None, Some("b".into())), Some("b".to_string()));
    assert_eq!(notmuch_config_path(None, None), None);
}
