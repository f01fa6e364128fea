//! Threads: their messages, and their reply structure.
use vstd::prelude::*;
use crate::dates;
use crate::order;
use crate::text;

verus! {

/// Query parameters of `GET /api/thread/:id` (match IDs, comma separated).
#[derive(Debug, Clone)]
pub struct ThreadParams {
    pub m: Option<String>,
}

/// A thread with all its messages.
#[derive(Debug, Clone, PartialEq)]
pub struct ThreadDetail {
    pub thread_id: String,
    pub tags: Vec<String>,
    pub messages: Vec<MessageDetail>,
}

/// One parsed message.
#[derive(Debug, Clone, PartialEq)]
pub struct MessageDetail {
    pub message_id: String,
    pub headers: MessageHeaders,
    pub date: i64,
    pub date_relative: String,
    pub subject: String,
    pub content: String,
    pub content_type: String,
    pub attachments: Vec<AttachmentSummary>,
    pub body_text: Option<String>,
    pub body_markdown: Option<String>,
    pub tags: Vec<String>,
    pub in_reply_to: Option<String>,
    pub references: Vec<String>,
}

/// The address headers of a message, formatted.
#[derive(Debug, Clone, PartialEq)]
pub struct MessageHeaders {
    pub from: String,
    pub to: String,
    pub cc: Option<String>,
    pub bcc: Option<String>,
}

/// An attachment of a message.
#[derive(Debug, Clone, PartialEq)]
pub struct AttachmentSummary {
    pub filename: Option<String>,
    pub content_type: String,
    pub part: usize,
    pub size_bytes: Option<usize>,
}

/// A message in the reply tree of a thread.
pub struct ConversationNode {
    pub message_id: String,
    pub from: String,
    pub date: String,
    pub subject: String,
    pub depth: usize,
    pub children: Vec<ConversationNode>,
}

/// The reply tree of a thread.
pub struct ConversationTree {
    pub thread_id: String,
    pub subject: Option<String>,
    pub tags: Vec<String>,
    pub tree: Vec<ConversationNode>,
}


// ── Threading headers ───────────────────────────────────────────────

/// `detail` with its threading headers as the database reports them: the
/// `In-Reply-To` header trimmed, and the `References` header split into
/// its whitespace-separated ids, each where the database has that header.
pub fn apply_threading_headers(
    detail: &mut MessageDetail,
    in_reply_to: Option<String>,
    references: Option<String>,
)
    ensures
        final(detail).message_id == old(detail).message_id,
        final(detail).headers == old(detail).headers,
        final(detail).date == old(detail).date,
        final(detail).date_relative == old(detail).date_relative,
        final(detail).subject == old(detail).subject,
        final(detail).content == old(detail).content,
        final(detail).content_type == old(detail).content_type,
        final(detail).attachments == old(detail).attachments,
        final(detail).body_text == old(detail).body_text,
        final(detail).body_markdown == old(detail).body_markdown,
        final(detail).tags == old(detail).tags,
        match in_reply_to {
            Some(h) => final(detail).in_reply_to matches Some(t) && t@ == text::trim(h@),
            None => final(detail).in_reply_to == old(detail).in_reply_to,
        },
        match references {
            Some(h) => crate::mcp::util::strings_view(final(detail).references@) == text::words(h@),
            None => final(detail).references == old(detail).references,
        },
{
    if let Some(h) = in_reply_to {
        let t = text::trim_exec(&text::chars_of(h.as_str()));
        detail.in_reply_to = Some(text::string_of(&t));
    }
    if let Some(h) = references {
        let mut refs: Vec<String> = Vec::new();
        crate::mail::parser::word_strings(&h, &mut refs);
        proof {
            assert(crate::mcp::util::strings_view(refs@) =~= text::words(h@));
        }
        detail.references = refs;
    }
}

// ── Reply tree ──────────────────────────────────────────────────────

/// A message of a thread as the reply tree reads it.
#[derive(Debug)]
pub struct TreeMsg {
    pub message_id: String,
    pub from: String,
    pub date: String,
    pub subject: String,
    pub in_reply_to: Option<String>,
    pub references: Vec<String>,
    pub date_timestamp: i64,
}

/// `s` without leading `c`s.
pub open spec fn drop_leading(s: Seq<char>, c: char) -> Seq<char>
    decreases s.len(),
{
    if s.len() > 0 && s[0] == c {
        drop_leading(s.drop_first(), c)
    } else {
        s
    }
}

/// `s` without trailing `c`s.
pub open spec fn drop_trailing(s: Seq<char>, c: char) -> Seq<char>
    decreases s.len(),
{
    if s.len() > 0 && s.last() == c {
        drop_trailing(s.drop_last(), c)
    } else {
        s
    }
}

/// A message ID without surrounding whitespace and angle brackets.
pub open spec fn strip_angle_brackets_spec(s: Seq<char>) -> Seq<char> {
    drop_trailing(drop_leading(text::trim(s), '<'), '>')
}

/// Strip surrounding whitespace, then every leading `<` and every
/// trailing `>`, from a message ID.
pub fn strip_angle_brackets(s: &Vec<char>) -> (r: Vec<char>)
    ensures
        r@ == strip_angle_brackets_spec(s@),
{
    let t = text::trim_exec(s);
    let mut a: usize = 0;
    proof {
        assert(t@.skip(0) =~= t@);
    }
    while a < t.len() && t[a] == '<'
        invariant
            a <= t.len(),
            drop_leading(t@, '<') == drop_leading(t@.skip(a as int), '<'),
        decreases t.len() - a,
    {
        proof {
            assert(t@.skip(a as int).drop_first() =~= t@.skip(a + 1));
        }
        a = a + 1;
    }
    let mut b: usize = t.len();
    proof {
        assert(t@.skip(a as int) =~= t@.subrange(a as int, b as int));
    }
    while b > a && t[b - 1] == '>'
        invariant
            a <= b <= t.len(),
            strip_angle_brackets_spec(s@) == drop_trailing(t@.subrange(a as int, b as int), '>'),
        decreases b,
    {
        proof {
            assert(t@.subrange(a as int, b as int).drop_last() =~= t@.subrange(a as int, b - 1));
        }
        b = b - 1;
    }
    text::subvec(&t, a, b)
}

/// The message of the reply tree, from the values a thread's message gives:
/// its ID, date, and its `From`, `Subject`, `In-Reply-To` and `References`
/// headers where present.
pub fn tree_msg(
    message_id: String,
    date_timestamp: i64,
    from: Option<String>,
    subject: Option<String>,
    in_reply_to: Option<String>,
    references: Option<String>,
) -> (m: TreeMsg)
    ensures
        m.message_id == message_id,
        m.date_timestamp == date_timestamp,
        m.date@ == dates::minute_text(date_timestamp),
        m.from@ == (match from {
            Some(f) => f@,
            None => Seq::empty(),
        }),
        m.subject@ == (match subject {
            Some(t) => t@,
            None => "(no subject)"@,
        }),
        match in_reply_to {
            Some(h) => if text::words(h@).len() > 0 {
                m.in_reply_to matches Some(r) && r@ == strip_angle_brackets_spec(text::words(h@)[0])
            } else {
                m.in_reply_to is None
            },
            None => m.in_reply_to is None,
        },
        m.references@.len() == (match references {
            Some(h) => text::words(h@).len(),
            None => 0,
        }),
        forall|k: int|
            0 <= k < m.references@.len() ==> #[trigger] m.references@[k]@ == strip_angle_brackets_spec(
                text::words(references->0@)[k],
            ),
{
    let date = dates::minute_string(date_timestamp);
    let from_s = match from {
        Some(f) => f,
        None => String::new(),
    };
    let subject_s = match subject {
        Some(t) => t,
        None => text::copy_str("(no subject)"),
    };
    let irt = match in_reply_to {
        Some(h) => {
            let ws = text::words_exec(&text::chars_of(h.as_str()));
            if ws.len() > 0 {
                Some(text::string_of(&strip_angle_brackets(&ws[0])))
            } else {
                None
            }
        },
        None => None,
    };
    let mut refs: Vec<String> = Vec::new();
    match references {
        Some(h) => {
            let ws = text::words_exec(&text::chars_of(h.as_str()));
            let mut k: usize = 0;
            while k < ws.len()
                invariant
                    k <= ws@.len() == text::words(h@).len(),
                    forall|j: int| 0 <= j < ws@.len() ==> #[trigger] ws@[j]@ == text::words(h@)[j],
                    refs@.len() == k,
                    forall|j: int|
                        0 <= j < k ==> #[trigger] refs@[j]@ == strip_angle_brackets_spec(
                            text::words(h@)[j],
                        ),
                decreases ws.len() - k,
            {
                refs.push(text::string_of(&strip_angle_brackets(&ws[k])));
                k = k + 1;
            }
        },
        None => {},
    }
    TreeMsg {
        message_id,
        from: from_s,
        date,
        subject: subject_s,
        in_reply_to: irt,
        references: refs,
        date_timestamp,
    }
}

/// The last position below `k` of a message with ID `id`.
pub open spec fn id_index_below(nodes: Seq<TreeMsg>, id: Seq<char>, k: int) -> Option<int>
    decreases k,
{
    if k <= 0 {
        None
    } else if nodes[k - 1].message_id@ == id {
        Some(k - 1)
    } else {
        id_index_below(nodes, id, k - 1)
    }
}

/// The position of the message with ID `id` (the last, where several share
/// it).
pub open spec fn index_of(nodes: Seq<TreeMsg>, id: Seq<char>) -> Option<int> {
    id_index_below(nodes, id, nodes.len() as int)
}

/// The position of the message named by the last of `refs[..k]` that names
/// a message of the thread.
pub open spec fn ref_parent(nodes: Seq<TreeMsg>, refs: Seq<String>, k: int) -> Option<int>
    decreases k,
{
    if k <= 0 {
        None
    } else {
        match index_of(nodes, refs[k - 1]@) {
            Some(p) => Some(p),
            None => ref_parent(nodes, refs, k - 1),
        }
    }
}

/// The parent of message `i`: the message its `In-Reply-To` names, else the
/// last message of its `References` that is in the thread.
pub open spec fn parent_of(nodes: Seq<TreeMsg>, i: int) -> Option<int> {
    let direct = match nodes[i].in_reply_to {
        Some(irt) => index_of(nodes, irt@),
        None => None,
    };
    match direct {
        Some(p) => Some(p),
        None => ref_parent(nodes, nodes[i].references@, nodes[i].references@.len() as int),
    }
}

proof fn lemma_id_index_below(nodes: Seq<TreeMsg>, id: Seq<char>, k: int)
    requires
        k <= nodes.len(),
    ensures
        match id_index_below(nodes, id, k) {
            Some(p) => 0 <= p < k && nodes[p].message_id@ == id && forall|q: int|
                p < q < k ==> #[trigger] nodes[q].message_id@ != id,
            None => forall|q: int| 0 <= q < k ==> #[trigger] nodes[q].message_id@ != id,
        },
    decreases k,
{
    if k > 0 && nodes[k - 1].message_id@ != id {
        lemma_id_index_below(nodes, id, k - 1);
    }
}

proof fn lemma_ref_parent(nodes: Seq<TreeMsg>, refs: Seq<String>, k: int)
    requires
        0 <= k <= refs.len(),
    ensures
        match ref_parent(nodes, refs, k) {
            Some(p) => 0 <= p < nodes.len() && exists|j: int|
                0 <= j < k && nodes[p].message_id@ == (#[trigger] refs[j])@ && (forall|q: int|
                    p < q < nodes.len() ==> nodes[q].message_id@ != refs[j]@) && forall|j2: int, q: int|
                    j < j2 < k && 0 <= q < nodes.len() ==> #[trigger] nodes[q].message_id@
                        != #[trigger] refs[j2]@,
            None => forall|j: int, q: int|
                0 <= j < k && 0 <= q < nodes.len() ==> #[trigger] nodes[q].message_id@
                    != #[trigger] refs[j]@,
        },
    decreases k,
{
    if k > 0 {
        lemma_id_index_below(nodes, refs[k - 1]@, nodes.len() as int);
        lemma_ref_parent(nodes, refs, k - 1);
        match index_of(nodes, refs[k - 1]@) {
            Some(p) => {
                assert(nodes[p].message_id@ == refs[k - 1]@);
            },
            None => {
                match ref_parent(nodes, refs, k - 1) {
                    Some(p) => {
                        let j = choose|j: int|
                            0 <= j < k - 1 && nodes[p].message_id@ == (#[trigger] refs[j])@ && (forall|
                                q: int,
                            | p < q < nodes.len() ==> nodes[q].message_id@ != refs[j]@) && forall|
                                j2: int,
                                q: int,
                            |
                                j < j2 < k - 1 && 0 <= q < nodes.len() ==> #[trigger] nodes[q].message_id@
                                    != #[trigger] refs[j2]@;
                        assert forall|j2: int, q: int|
                            j < j2 < k && 0 <= q < nodes.len() implies #[trigger] nodes[q].message_id@
                            != #[trigger] refs[j2]@ by {
                            if j2 == k - 1 {
                            }
                        }
                    },
                    None => {
                        assert forall|j: int, q: int|
                            0 <= j < k && 0 <= q < nodes.len() implies #[trigger] nodes[q].message_id@
                            != #[trigger] refs[j]@ by {
                            if j == k - 1 {
                            }
                        }
                    },
                }
            },
        }
    }
}

/// A message whose `In-Reply-To` names a message of the thread replies to
/// that message (the last of that ID, where several share it).
pub proof fn lemma_parent_in_reply_to(nodes: Seq<TreeMsg>, i: int, p: int)
    requires
        0 <= i < nodes.len(),
        0 <= p < nodes.len(),
        nodes[i].in_reply_to matches Some(irt) && nodes[p].message_id@ == irt@,
        forall|q: int| p < q < nodes.len() ==> #[trigger] nodes[q].message_id@ != nodes[p].message_id@,
    ensures
        parent_of(nodes, i) == Some(p),
{
    let irt = nodes[i].in_reply_to.unwrap();
    lemma_id_index_below(nodes, irt@, nodes.len() as int);
}

/// A message whose `In-Reply-To` names no message of the thread replies to
/// the message named by the last of its `References` that is in the thread
/// (a later reference naming no message of the thread is passed over, an
/// earlier one is not used); it has no parent where none of them is in the
/// thread.
pub proof fn lemma_parent_from_references(nodes: Seq<TreeMsg>, i: int)
    requires
        0 <= i < nodes.len(),
        nodes[i].in_reply_to matches Some(irt) ==> forall|q: int|
            0 <= q < nodes.len() ==> #[trigger] nodes[q].message_id@ != irt@,
    ensures
        match parent_of(nodes, i) {
            Some(p) => 0 <= p < nodes.len() && exists|j: int|
                0 <= j < nodes[i].references@.len() && nodes[p].message_id@
                    == (#[trigger] nodes[i].references@[j])@ && (forall|q: int|
                    p < q < nodes.len() ==> nodes[q].message_id@ != nodes[i].references@[j]@)
                    && forall|j2: int, q: int|
                    j < j2 < nodes[i].references@.len() && 0 <= q < nodes.len()
                        ==> #[trigger] nodes[q].message_id@ != #[trigger] nodes[i].references@[j2]@,
            None => forall|j: int, q: int|
                0 <= j < nodes[i].references@.len() && 0 <= q < nodes.len()
                    ==> #[trigger] nodes[q].message_id@ != #[trigger] nodes[i].references@[j]@,
        },
{
    match nodes[i].in_reply_to {
        Some(irt) => {
            lemma_id_index_below(nodes, irt@, nodes.len() as int);
        },
        None => {},
    }
    lemma_ref_parent(nodes, nodes[i].references@, nodes[i].references@.len() as int);
}

/// The earliest date among the first `k` messages (`k >= 1`).
pub open spec fn min_ts_to(nodes: Seq<TreeMsg>, k: int) -> int
    decreases k,
{
    if k <= 1 {
        nodes[0].date_timestamp as int
    } else {
        let m = min_ts_to(nodes, k - 1);
        let t = nodes[k - 1].date_timestamp as int;
        if t < m {
            t
        } else {
            m
        }
    }
}

/// The earliest date of the thread (0 for no message).
pub open spec fn min_ts(nodes: Seq<TreeMsg>) -> int {
    if nodes.len() == 0 {
        0
    } else {
        min_ts_to(nodes, nodes.len() as int)
    }
}

/// Message `i` starts a branch of the tree: it has no parent in the thread,
/// is its own parent, or is (one of) the earliest.
pub open spec fn is_root(nodes: Seq<TreeMsg>, i: int) -> bool {
    match parent_of(nodes, i) {
        None => true,
        Some(p) => p == i || nodes[i].date_timestamp == min_ts(nodes),
    }
}

/// The replies to `p` among the first `k` messages, in thread order.
pub open spec fn kids_below(nodes: Seq<TreeMsg>, p: int, k: int) -> Seq<int>
    decreases k,
{
    if k <= 0 {
        Seq::empty()
    } else {
        let s = kids_below(nodes, p, k - 1);
        if !is_root(nodes, k - 1) && parent_of(nodes, k - 1) == Some(p) {
            s.push(k - 1)
        } else {
            s
        }
    }
}

/// The roots among the first `k` messages, in thread order.
pub open spec fn roots_below(nodes: Seq<TreeMsg>, k: int) -> Seq<int>
    decreases k,
{
    if k <= 0 {
        Seq::empty()
    } else {
        let s = roots_below(nodes, k - 1);
        if is_root(nodes, k - 1) {
            s.push(k - 1)
        } else {
            s
        }
    }
}

/// The date of message `i`, as the key of chronological order.
pub open spec fn ts_key(nodes: Seq<TreeMsg>) -> spec_fn(int) -> int {
    |i: int| nodes[i].date_timestamp as int
}

/// The replies to message `p`, oldest first.
pub open spec fn children_of(nodes: Seq<TreeMsg>, p: int) -> Seq<int> {
    order::stable_sort(kids_below(nodes, p, nodes.len() as int), ts_key(nodes))
}

/// The roots of the thread, oldest first.
pub open spec fn roots_of(nodes: Seq<TreeMsg>) -> Seq<int> {
    order::stable_sort(roots_below(nodes, nodes.len() as int), ts_key(nodes))
}

/// `c` is the tree of the replies to message `i`, placed at `depth`: its
/// fields are those of the message, and its children, oldest first, are
/// the trees of the replies to it at `depth + 1`.  A reply chain holds each
/// message at most once, so no tree is `nodes.len()` deep.
#[verifier::opaque]
pub open spec fn node_is(c: ConversationNode, nodes: Seq<TreeMsg>, i: int, depth: int) -> bool
    decreases nodes.len() - depth,
{
    if depth < 0 || depth >= nodes.len() {
        false
    } else {
        let kids = children_of(nodes, i);
        &&& c.message_id@ == nodes[i].message_id@
        &&& c.from@ == nodes[i].from@
        &&& c.date@ == nodes[i].date@
        &&& c.subject@ == nodes[i].subject@
        &&& c.depth == depth
        &&& c.children@.len() == kids.len()
        &&& forall|k: int|
            0 <= k < kids.len() ==> node_is(#[trigger] c.children@[k], nodes, kids[k], depth + 1)
    }
}

/// `chain` is a path of replies from a root: each message after the first
/// is a reply to the one before it.
#[verifier::opaque]
pub open spec fn is_chain(nodes: Seq<TreeMsg>, chain: Seq<int>) -> bool {
    &&& chain.len() > 0
    &&& chain.no_duplicates()
    &&& forall|j: int| 0 <= j < chain.len() ==> 0 <= #[trigger] chain[j] < nodes.len()
    &&& is_root(nodes, chain[0])
    &&& forall|j: int|
        1 <= j < chain.len() ==> !is_root(nodes, #[trigger] chain[j]) && parent_of(nodes, chain[j])
            == Some(chain[j - 1])
}

pub proof fn lemma_chain_len(nodes: Seq<TreeMsg>, chain: Seq<int>)
    requires
        is_chain(nodes, chain),
    ensures
        chain.len() <= nodes.len(),
        0 <= chain.last() < nodes.len(),
{
    reveal(is_chain);
    chain.unique_seq_to_set();
    vstd::set_lib::lemma_int_range(0, nodes.len() as int);
    assert(chain.to_set().subset_of(vstd::set_lib::set_int_range(0, nodes.len() as int)));
    vstd::set_lib::lemma_len_subset(
        chain.to_set(),
        vstd::set_lib::set_int_range(0, nodes.len() as int),
    );
}

pub proof fn lemma_kids_below(nodes: Seq<TreeMsg>, p: int, k: int)
    requires
        0 <= k <= nodes.len(),
    ensures
        forall|x: int|
            #[trigger] kids_below(nodes, p, k).contains(x) ==> 0 <= x < k && !is_root(nodes, x)
                && parent_of(nodes, x) == Some(p),
    decreases k,
{
    if k > 0 {
        lemma_kids_below(nodes, p, k - 1);
        let s = kids_below(nodes, p, k - 1);
        if !is_root(nodes, k - 1) && parent_of(nodes, k - 1) == Some(p) {
            let t = s.push(k - 1);
            assert(kids_below(nodes, p, k) == t);
            assert forall|x: int| t.contains(x) implies 0 <= x < k && !is_root(nodes, x) && parent_of(
                nodes,
                x,
            ) == Some(p) by {
                let j = choose|j: int| 0 <= j < t.len() && t[j] == x;
                if j < s.len() {
                    assert(s[j] == x);
                    assert(s.contains(x));
                } else {
                    assert(x == k - 1);
                }
            }
        } else {
            assert(kids_below(nodes, p, k) == s);
        }
    }
}

pub proof fn lemma_roots_below(nodes: Seq<TreeMsg>, k: int)
    requires
        0 <= k <= nodes.len(),
    ensures
        forall|x: int| #[trigger] roots_below(nodes, k).contains(x) ==> 0 <= x < k && is_root(nodes, x),
    decreases k,
{
    if k > 0 {
        lemma_roots_below(nodes, k - 1);
        let s = roots_below(nodes, k - 1);
        if is_root(nodes, k - 1) {
            let t = s.push(k - 1);
            assert(roots_below(nodes, k) == t);
            assert forall|x: int| t.contains(x) implies 0 <= x < k && is_root(nodes, x) by {
                let j = choose|j: int| 0 <= j < t.len() && t[j] == x;
                if j < s.len() {
                    assert(s[j] == x);
                    assert(s.contains(x));
                } else {
                    assert(x == k - 1);
                }
            }
        } else {
            assert(roots_below(nodes, k) == s);
        }
    }
}

/// A reply to the last message of a chain extends it.
pub proof fn lemma_chain_extend(nodes: Seq<TreeMsg>, chain: Seq<int>, c: int)
    requires
        is_chain(nodes, chain),
        children_of(nodes, chain.last()).contains(c),
    ensures
        is_chain(nodes, chain.push(c)),
        chain.len() + 1 <= nodes.len(),
{
    reveal(is_chain);
    let kids = kids_below(nodes, chain.last(), nodes.len() as int);
    order::lemma_stable_sort(kids, ts_key(nodes));
    assert(kids.contains(c));
    lemma_kids_below(nodes, chain.last(), nodes.len() as int);
    assert(0 <= c < nodes.len() && !is_root(nodes, c) && parent_of(nodes, c) == Some(chain.last()));
    let ext = chain.push(c);
    assert forall|i: int, j: int| 0 <= i < ext.len() && 0 <= j < ext.len() && i != j implies ext[i]
        != ext[j] by {
        if j == chain.len() as int && ext[i] == c {
            if i == 0 {
            } else {
                assert(parent_of(nodes, chain[i]) == Some(chain[i - 1]));
                assert(chain[i - 1] == chain.last());
            }
        }
        if i == chain.len() as int && ext[j] == c {
            if j == 0 {
            } else {
                assert(parent_of(nodes, chain[j]) == Some(chain[j - 1]));
                assert(chain[j - 1] == chain.last());
            }
        }
    }
    assert forall|j: int| 1 <= j < ext.len() implies !is_root(nodes, #[trigger] ext[j]) && parent_of(
        nodes,
        ext[j],
    ) == Some(ext[j - 1]) by {
        if j < chain.len() {
            assert(ext[j] == chain[j] && ext[j - 1] == chain[j - 1]);
        }
    }
    assert(is_chain(nodes, ext));
    lemma_chain_len(nodes, ext);
}

/// A message that starts a branch is a chain of its own.
pub proof fn lemma_chain_start(nodes: Seq<TreeMsg>, r: int)
    requires
        0 <= r < nodes.len(),
        is_root(nodes, r),
    ensures
        is_chain(nodes, seq![r]),
{
    reveal(is_chain);
}

/// `index_of`, searching from the end.
fn index_of_exec(nodes: &Vec<TreeMsg>, id: &String) -> (r: Option<usize>)
    ensures
        match r {
            Some(k) => index_of(nodes@, id@) == Some(k as int) && k < nodes@.len(),
            None => index_of(nodes@, id@) is None,
        },
{
    let mut k: usize = nodes.len();
    while k > 0
        invariant
            k <= nodes@.len(),
            index_of(nodes@, id@) == id_index_below(nodes@, id@, k as int),
        decreases k,
    {
        if nodes[k - 1].message_id == *id {
            return Some(k - 1);
        }
        k = k - 1;
    }
    None
}

proof fn lemma_index_of_range(nodes: Seq<TreeMsg>, id: Seq<char>, k: int)
    requires
        0 <= k <= nodes.len(),
    ensures
        id_index_below(nodes, id, k) matches Some(p) ==> 0 <= p < k,
    decreases k,
{
    if k > 0 && nodes[k - 1].message_id@ != id {
        lemma_index_of_range(nodes, id, k - 1);
    }
}

/// `parent_of(nodes, i)`.
fn parent_exec(nodes: &Vec<TreeMsg>, i: usize) -> (r: Option<usize>)
    requires
        i < nodes@.len(),
    ensures
        match r {
            Some(p) => parent_of(nodes@, i as int) == Some(p as int) && p < nodes@.len(),
            None => parent_of(nodes@, i as int) is None,
        },
{
    let m = &nodes[i];
    let direct = match &m.in_reply_to {
        Some(irt) => index_of_exec(nodes, irt),
        None => None,
    };
    match direct {
        Some(p) => Some(p),
        None => {
            let refs = &m.references;
            assert(parent_of(nodes@, i as int) == ref_parent(nodes@, refs@, refs@.len() as int));
            let mut k: usize = refs.len();
            while k > 0
                invariant
                    k <= refs@.len(),
                    parent_of(nodes@, i as int) == ref_parent(nodes@, refs@, refs@.len() as int),
                    ref_parent(nodes@, refs@, refs@.len() as int) == ref_parent(
                        nodes@,
                        refs@,
                        k as int,
                    ),
                decreases k,
            {
                match index_of_exec(nodes, &refs[k - 1]) {
                    Some(p) => {
                        return Some(p);
                    },
                    None => {},
                }
                k = k - 1;
            }
            None
        },
    }
}

/// `min_ts(nodes)`.
fn min_timestamp(nodes: &Vec<TreeMsg>) -> (r: i64)
    ensures
        r == min_ts(nodes@),
{
    if nodes.len() == 0 {
        return 0;
    }
    let mut m = nodes[0].date_timestamp;
    let mut k: usize = 1;
    while k < nodes.len()
        invariant
            1 <= k <= nodes@.len(),
            m == min_ts_to(nodes@, k as int),
        decreases nodes.len() - k,
    {
        if nodes[k].date_timestamp < m {
            m = nodes[k].date_timestamp;
        }
        k = k + 1;
    }
    m
}

pub open spec fn ints(v: Seq<usize>) -> Seq<int> {
    v.map_values(|x: usize| x as int)
}

/// `order::stable_sort` of message positions by date.
fn sort_by_date(nodes: &Vec<TreeMsg>, v: &Vec<usize>) -> (r: Vec<usize>)
    requires
        forall|k: int| 0 <= k < v@.len() ==> #[trigger] v@[k] < nodes@.len(),
    ensures
        ints(r@) == order::stable_sort(ints(v@), ts_key(nodes@)),
        forall|k: int| 0 <= k < r@.len() ==> #[trigger] r@[k] < nodes@.len(),
{
    let ghost key = ts_key(nodes@);
    let ghost iv = ints(v@);
    let mut out: Vec<usize> = Vec::new();
    let mut i: usize = 0;
    proof {
        assert(iv.take(0) =~= Seq::<int>::empty());
        assert(ints(out@) =~= Seq::<int>::empty());
    }
    while i < v.len()
        invariant
            i <= v@.len(),
            key == ts_key(nodes@),
            iv == ints(v@),
            forall|k: int| 0 <= k < v@.len() ==> #[trigger] v@[k] < nodes@.len(),
            ints(out@) == order::stable_sort(iv.take(i as int), key),
            forall|k: int| 0 <= k < out@.len() ==> #[trigger] out@[k] < nodes@.len(),
        decreases v.len() - i,
    {
        let x = v[i];
        let xt = nodes[x].date_timestamp;
        let ghost so = ints(out@);
        proof {
            order::lemma_stable_sort(iv.take(i as int), key);
        }
        let mut p: usize = 0;
        while p < out.len() && nodes[out[p]].date_timestamp <= xt
            invariant
                p <= out@.len(),
                so == ints(out@),
                key == ts_key(nodes@),
                forall|k: int| 0 <= k < out@.len() ==> #[trigger] out@[k] < nodes@.len(),
                order::insert_pos(so, key, xt as int, 0) == order::insert_pos(so, key, xt as int, p as int),
            decreases out.len() - p,
        {
            p = p + 1;
        }
        out.insert(p, x);
        proof {
            let t = iv.take(i + 1);
            assert(t.drop_last() =~= iv.take(i as int));
            assert(t.last() == x as int);
            assert(ints(out@) =~= so.insert(p as int, x as int));
        }
        i = i + 1;
    }
    proof {
        assert(iv.take(v@.len() as int) =~= iv);
    }
    out
}

/// The tree of the replies to message `idx`, at `depth`.
fn build_node(
    nodes: &Vec<TreeMsg>,
    children: &Vec<Vec<usize>>,
    idx: usize,
    depth: usize,
    Ghost(chain): Ghost<Seq<int>>,
) -> (r: ConversationNode)
    requires
        children@.len() == nodes@.len(),
        forall|p: int| 0 <= p < nodes@.len() ==> #[trigger] ints(children@[p]@) == children_of(nodes@, p),
        is_chain(nodes@, chain),
        chain.last() == idx,
        chain.len() == depth + 1,
    ensures
        node_is(r, nodes@, idx as int, depth as int),
    decreases nodes@.len() - depth,
{
    let n = nodes.len();
    proof {
        lemma_chain_len(nodes@, chain);
    }
    let list = &children[idx];
    let ghost kids = children_of(nodes@, idx as int);
    assert(ints(list@) == kids);
    let mut out: Vec<ConversationNode> = Vec::new();
    let mut k: usize = 0;
    while k < list.len()
        invariant
            k <= list@.len(),
            ints(list@) == kids,
            kids == children_of(nodes@, idx as int),
            children@.len() == nodes@.len(),
            forall|p: int| 0 <= p < nodes@.len() ==> #[trigger] ints(children@[p]@) == children_of(nodes@, p),
            is_chain(nodes@, chain),
            chain.last() == idx,
            chain.len() == depth + 1,
            n == nodes@.len(),
            depth < n,
            out@.len() == k,
            forall|j: int| 0 <= j < k ==> node_is(#[trigger] out@[j], nodes@, kids[j], depth + 1),
        decreases list.len() - k,
    {
        let c = list[k];
        proof {
            assert(kids[k as int] == c as int);
            assert(kids.contains(c as int));
            lemma_chain_extend(nodes@, chain, c as int);
        }
        let node = build_node(nodes, children, c, depth + 1, Ghost(chain.push(c as int)));
        out.push(node);
        k = k + 1;
    }
    let m = &nodes[idx];
    let r = ConversationNode {
        message_id: text::copy_str(m.message_id.as_str()),
        from: text::copy_str(m.from.as_str()),
        date: text::copy_str(m.date.as_str()),
        subject: text::copy_str(m.subject.as_str()),
        depth,
        children: out,
    };
    proof {
        reveal(node_is);
    }
    r
}

/// The reply tree of thread `thread_id` with tags `tags`, from its messages.
///
/// A message's parent is the message its `In-Reply-To` names, else the last
/// message of its `References` in the thread.  Messages without a parent,
/// their own parent, or of the earliest date start a branch; replies are
/// listed under their parent.  Branches and replies are ordered by date,
/// ties in thread order.  The subject is that of the first branch.
pub fn build_thread_tree(thread_id: &str, tags: Vec<String>, nodes: Vec<TreeMsg>) -> (r:
    ConversationTree)
    ensures
        r.thread_id@ == thread_id@,
        r.tags == tags,
        r.tree@.len() == roots_of(nodes@).len(),
        forall|k: int|
            0 <= k < r.tree@.len() ==> node_is(#[trigger] r.tree@[k], nodes@, roots_of(nodes@)[k], 0),
        match r.subject {
            Some(s) => roots_of(nodes@).len() > 0 && s@ == nodes@[roots_of(nodes@)[0]].subject@,
            None => roots_of(nodes@).len() == 0,
        },
{
    let n = nodes.len();
    let min = min_timestamp(&nodes);
    // Parent and root flag of every message.
    let mut parents: Vec<Option<usize>> = Vec::new();
    let mut root: Vec<bool> = Vec::new();
    let mut i: usize = 0;
    while i < n
        invariant
            n == nodes@.len(),
            min == min_ts(nodes@),
            i <= n,
            parents@.len() == i,
            root@.len() == i,
            forall|j: int|
                0 <= j < i ==> match #[trigger] parents@[j] {
                    Some(p) => parent_of(nodes@, j) == Some(p as int) && p < n,
                    None => parent_of(nodes@, j) is None,
                },
            forall|j: int| 0 <= j < i ==> #[trigger] root@[j] == is_root(nodes@, j),
        decreases n - i,
    {
        let p = parent_exec(&nodes, i);
        let r = match p {
            None => true,
            Some(q) => q == i || nodes[i].date_timestamp == min,
        };
        parents.push(p);
        root.push(r);
        i = i + 1;
    }
    // The replies to every message, and the roots, oldest first.
    let mut children: Vec<Vec<usize>> = Vec::new();
    let mut q: usize = 0;
    while q < n
        invariant
            n == nodes@.len(),
            q <= n,
            parents@.len() == n,
            root@.len() == n,
            forall|j: int|
                0 <= j < n ==> match #[trigger] parents@[j] {
                    Some(p) => parent_of(nodes@, j) == Some(p as int) && p < n,
                    None => parent_of(nodes@, j) is None,
                },
            forall|j: int| 0 <= j < n ==> #[trigger] root@[j] == is_root(nodes@, j),
            children@.len() == q,
            forall|p: int| 0 <= p < q ==> #[trigger] ints(children@[p]@) == children_of(nodes@, p),
        decreases n - q,
    {
        let mut list: Vec<usize> = Vec::new();
        let mut j: usize = 0;
        proof {
            assert(ints(list@) =~= kids_below(nodes@, q as int, 0));
        }
        while j < n
            invariant
                n == nodes@.len(),
                j <= n,
                q < n,
                parents@.len() == n,
                root@.len() == n,
                forall|x: int|
                    0 <= x < n ==> match #[trigger] parents@[x] {
                        Some(p) => parent_of(nodes@, x) == Some(p as int) && p < n,
                        None => parent_of(nodes@, x) is None,
                    },
                forall|x: int| 0 <= x < n ==> #[trigger] root@[x] == is_root(nodes@, x),
                ints(list@) == kids_below(nodes@, q as int, j as int),
                forall|k: int| 0 <= k < list@.len() ==> #[trigger] list@[k] < n,
            decreases n - j,
        {
            let is_kid = match parents[j] {
                Some(p) => !root[j] && p == q,
                None => false,
            };
            if is_kid {
                list.push(j);
            }
            proof {
                assert(ints(list@) =~= kids_below(nodes@, q as int, j + 1));
            }
            j = j + 1;
        }
        let sorted = sort_by_date(&nodes, &list);
        children.push(sorted);
        q = q + 1;
    }
    let mut rl: Vec<usize> = Vec::new();
    let mut j: usize = 0;
    proof {
        assert(ints(rl@) =~= roots_below(nodes@, 0));
    }
    while j < n
        invariant
            n == nodes@.len(),
            j <= n,
            root@.len() == n,
            forall|x: int| 0 <= x < n ==> #[trigger] root@[x] == is_root(nodes@, x),
            ints(rl@) == roots_below(nodes@, j as int),
            forall|k: int| 0 <= k < rl@.len() ==> #[trigger] rl@[k] < n,
        decreases n - j,
    {
        if root[j] {
            rl.push(j);
        }
        proof {
            assert(ints(rl@) =~= roots_below(nodes@, j + 1));
        }
        j = j + 1;
    }
    let roots = sort_by_date(&nodes, &rl);
    let ghost rs = roots_of(nodes@);
    proof {
        order::lemma_stable_sort(roots_below(nodes@, n as int), ts_key(nodes@));
        lemma_roots_below(nodes@, n as int);
        assert forall|x: int| rs.contains(x) implies 0 <= x < n && is_root(nodes@, x) by {
            assert(roots_below(nodes@, n as int).contains(x));
        }
    }
    let mut tree: Vec<ConversationNode> = Vec::new();
    let mut k: usize = 0;
    while k < roots.len()
        invariant
            n == nodes@.len(),
            ints(roots@) == rs,
            rs == roots_of(nodes@),
            forall|x: int| rs.contains(x) ==> 0 <= x < n && is_root(nodes@, x),
            children@.len() == n,
            forall|p: int| 0 <= p < n ==> #[trigger] ints(children@[p]@) == children_of(nodes@, p),
            k <= roots@.len(),
            tree@.len() == k,
            forall|j: int| 0 <= j < k ==> node_is(#[trigger] tree@[j], nodes@, rs[j], 0),
        decreases roots.len() - k,
    {
        let r = roots[k];
        proof {
            assert(rs[k as int] == r as int);
            assert(rs.contains(r as int));
            lemma_chain_start(nodes@, r as int);
        }
        let ghost start = seq![r as int];
        let node = build_node(&nodes, &children, r, 0, Ghost(start));
        tree.push(node);
        k = k + 1;
    }
    let subject = if tree.len() > 0 {
        Some(text::copy_str(tree[0].subject.as_str()))
    } else {
        None
    };
    proof {
        if tree@.len() > 0 {
            assert(node_is(tree@[0], nodes@, rs[0], 0));
            reveal(node_is);
        }
    }
    ConversationTree { thread_id: text::copy_str(thread_id), subject, tags, tree }
}

// ── Laws of the reply tree ──────────────────────────────────────────

/// The branches of the tree, and the replies to every message, are in
/// chronological order.
pub proof fn lemma_tree_chronological(nodes: Seq<TreeMsg>, p: int)
    ensures
        order::sorted_by(roots_of(nodes), ts_key(nodes)),
        order::sorted_by(children_of(nodes, p), ts_key(nodes)),
{
    order::lemma_stable_sort(roots_below(nodes, nodes.len() as int), ts_key(nodes));
    order::lemma_stable_sort(kids_below(nodes, p, nodes.len() as int), ts_key(nodes));
}

proof fn lemma_min_ts_attained(nodes: Seq<TreeMsg>, k: int)
    requires
        1 <= k <= nodes.len(),
    ensures
        exists|i: int| 0 <= i < k && nodes[i].date_timestamp as int == min_ts_to(nodes, k),
    decreases k,
{
    if k == 1 {
        assert(nodes[0].date_timestamp as int == min_ts_to(nodes, 1));
    } else {
        lemma_min_ts_attained(nodes, k - 1);
        if (nodes[k - 1].date_timestamp as int) < min_ts_to(nodes, k - 1) {
            assert(nodes[k - 1].date_timestamp as int == min_ts_to(nodes, k));
        }
    }
}

proof fn lemma_roots_below_contains(nodes: Seq<TreeMsg>, k: int, i: int)
    requires
        0 <= i < k <= nodes.len(),
        is_root(nodes, i),
    ensures
        roots_below(nodes, k).contains(i),
    decreases k,
{
    if i < k - 1 {
        lemma_roots_below_contains(nodes, k - 1, i);
        let s = roots_below(nodes, k - 1);
        let j = choose|j: int| 0 <= j < s.len() && s[j] == i;
        if is_root(nodes, k - 1) {
            assert(s.push(k - 1)[j] == i);
        }
    } else {
        let s = roots_below(nodes, k - 1);
        assert(s.push(k - 1)[s.len() as int] == i);
    }
}

/// A thread with messages has a tree with at least one branch: an earliest
/// message always starts one.
pub proof fn lemma_tree_nonempty(nodes: Seq<TreeMsg>)
    requires
        nodes.len() > 0,
    ensures
        roots_of(nodes).len() > 0,
{
    lemma_min_ts_attained(nodes, nodes.len() as int);
    let i = choose|i: int|
        0 <= i < nodes.len() && nodes[i].date_timestamp as int == min_ts_to(
            nodes,
            nodes.len() as int,
        );
    assert(is_root(nodes, i));
    lemma_roots_below_contains(nodes, nodes.len() as int, i);
    order::lemma_stable_sort(roots_below(nodes, nodes.len() as int), ts_key(nodes));
}

/// No message is placed twice: a message that starts a branch is nobody's
/// reply, and a reply is listed under one parent only.
pub proof fn lemma_tree_places_once(nodes: Seq<TreeMsg>, x: int, p: int, q: int)
    ensures
        roots_of(nodes).contains(x) ==> !children_of(nodes, p).contains(x),
        children_of(nodes, p).contains(x) && children_of(nodes, q).contains(x) ==> p == q,
{
    let n = nodes.len() as int;
    order::lemma_stable_sort(roots_below(nodes, n), ts_key(nodes));
    order::lemma_stable_sort(kids_below(nodes, p, n), ts_key(nodes));
    order::lemma_stable_sort(kids_below(nodes, q, n), ts_key(nodes));
    lemma_roots_below(nodes, n);
    lemma_kids_below(nodes, p, n);
    lemma_kids_below(nodes, q, n);
    if roots_of(nodes).contains(x) && children_of(nodes, p).contains(x) {
        assert(roots_below(nodes, n).contains(x));
        assert(kids_below(nodes, p, n).contains(x));
    }
    if children_of(nodes, p).contains(x) && children_of(nodes, q).contains(x) {
        assert(kids_below(nodes, p, n).contains(x));
        assert(kids_below(nodes, q, n).contains(x));
    }
}

} // verus!
