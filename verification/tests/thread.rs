use rummage::api::thread::{build_thread_tree, strip_angle_brackets, tree_msg, ConversationNode, TreeMsg};
use rummage::dates::minute_string;

fn msg(id: &str, ts: i64, irt: Option<&str>, refs: Option<&str>) -> TreeMsg {
    tree_msg(
        id.to_string(),
        ts,
        Some(format!("{id}@example.com")),
        Some(format!("Subject {id}")),
        irt.map(|s| s.to_string()),
        refs.map(|s| s.to_string()),
    )
}

fn ids(nodes: &[ConversationNode]) -> Vec<String> {
    nodes.iter().map(|n| n.message_id.clone()).collect()
}

#[test]
fn builds_reply_tree_in_date_order() {
    let msgs = vec![
        msg("a", 100, None, None),
        msg("b", 300, Some("<a>"), None),
        msg("c", 200, None, Some("<x> <a>")),
        msg("d", 400, Some(" <b> <a>"), None),
        msg("e", 250, Some("<zzz>"), Some("")),
    ];
    let tree = build_thread_tree("t1", vec!["inbox".into()], msgs);
    assert_eq!(tree.thread_id, "t1");
    assert_eq!(tree.tags, vec!["inbox".to_string()]);
    assert_eq!(tree.subject.as_deref(), Some("Subject a"));
    assert_eq!(ids(&tree.tree), vec!["a", "e"]);
    let a = &tree.tree[0];
    assert_eq!(a.depth, 0);
    assert_eq!(a.from, "a@example.com");
    assert_eq!(a.date, "1970-01-01 00:01");
    assert_eq!(ids(&a.children), vec!["c", "b"]);
    let b = &a.children[1];
    assert_eq!(b.depth, 1);
    assert_eq!(ids(&b.children), vec!["d"]);
    assert_eq!(b.children[0].depth, 2);
    assert!(tree.tree[1].children.is_empty());
}

#[test]
fn reply_cycles_are_left_out_and_earliest_is_root() {
    let msgs = vec![
        msg("x", 500, Some("<y>"), None),
        msg("y", 600, Some("<x>"), None),
        msg("z", 100, Some("<x>"), None),
    ];
    let tree = build_thread_tree("t", Vec::new(), msgs);
    // z has a parent but is the earliest: it starts a branch.  x and y only
    // reply to each other and are not reached from a branch.
    assert_eq!(ids(&tree.tree), vec!["z"]);
    assert!(tree.tree[0].children.is_empty());
}

#[test]
fn self_reply_and_empty_thread() {
    let tree = build_thread_tree("t", Vec::new(), vec![msg("s", 10, Some("<s>"), None), msg("r", 20, Some("<s>"), None)]);
    assert_eq!(ids(&tree.tree), vec!["s"]);
    assert_eq!(ids(&tree.tree[0].children), vec!["r"]);
    let empty = build_thread_tree("t", Vec::new(), Vec::new());
    assert!(empty.tree.is_empty());
    assert_eq!(empty.subject, None);
}

#[test]
fn tree_messages_from_headers() {
    let m = tree_msg("id".into(), 0, None, None, Some("  <p@x>  <q@x>".into()), Some("<1> 2> <<3>>".into()));
    assert_eq!(m.from, "");
    assert_eq!(m.subject, "(no subject)");
    assert_eq!(m.date, "1970-01-01 00:00");
    assert_eq!(m.in_reply_to.as_deref(), Some("p@x"));
    assert_eq!(m.references, vec!["1", "2", "3"]);
    let none = tree_msg("id".into(), i64::MAX, None, None, Some("   ".into()), None);
    assert_eq!(none.in_reply_to, None);
    assert_eq!(none.date, "unknown");
    let s: Vec<char> = "  <<a@b>> ".chars().collect();
    assert_eq!(strip_angle_brackets(&s).iter().collect::<String>(), "a@b");
}

#[test]
fn minute_strings() {
    assert_eq!(minute_string(1431648000), "2015-05-15 00:00");
    assert_eq!(minute_string(i64::MIN), "unknown");
}
