use rummage::api::senders::{sender_key, top_senders};

fn froms(v: &[Option<&str>]) -> Vec<Option<String>> {
    v.iter().map(|f| f.map(|s| s.to_string())).collect()
}

#[test]
fn sender_key_takes_the_address_in_lower_case() {
    assert_eq!(sender_key("Alice <A.B@Ex.COM>"), "a.b@ex.com");
    assert_eq!(sender_key("x <joe@mail.example.org>"), "joe@mail.example.org");
    assert_eq!(sender_key("first@a.io, second@b.io"), "first@a.io");
}

#[test]
fn sender_key_needs_a_two_letter_top_level_domain() {
    assert_eq!(sender_key("Bob <bob@example.c>"), "bob <bob@example.c>");
}

#[test]
fn sender_key_falls_back_to_the_trimmed_header() {
    assert_eq!(sender_key("  Some Name Without Address  "), "some name without address");
    let long = "X".repeat(70);
    assert_eq!(sender_key(&long), "x".repeat(60));
    let wide = "É".repeat(70);
    assert_eq!(sender_key(&wide), "é".repeat(60));
}

#[test]
fn top_senders_orders_by_count_and_limits() {
    let f = froms(&[
        Some("a@x.com"),
        Some("B@x.com"),
        None,
        Some("Bee <b@x.com>"),
        Some("c@x.com"),
        Some("c@x.com"),
        Some("C@X.COM"),
    ]);
    let top = top_senders(&f, 2);
    assert_eq!(top, vec![("c@x.com".to_string(), 3), ("b@x.com".to_string(), 2)]);
}

#[test]
fn top_senders_keeps_ties_in_first_seen_order() {
    let f = froms(&[Some("b@x.com"), Some("a@x.com"), None]);
    let top = top_senders(&f, 20);
    assert_eq!(top, vec![("b@x.com".to_string(), 1), ("a@x.com".to_string(), 1)]);
    assert!(top_senders(&f, 0).is_empty());
    assert!(top_senders(&Vec::new(), 5).is_empty());
}
