//! Top senders by message count.
use vstd::prelude::*;
use crate::order;
use crate::text;

verus! {

/// Query parameters of `GET /api/senders`.
#[derive(Debug, Clone)]
pub struct SendersParams {
    pub limit: Option<usize>,
    pub query: Option<String>,
}

/// A sender and the number of its messages.
#[derive(Debug, Clone, PartialEq)]
pub struct SenderItem {
    pub email: String,
    pub count: usize,
}

/// The body of `GET /api/senders`.
#[derive(Debug, Clone, PartialEq)]
pub struct SenderList {
    pub senders: Vec<SenderItem>,
}

/// How many senders a listing shows unless asked.
pub const DEFAULT_SENDERS_LIMIT: usize = 20;

/// The number of senders to list: the one asked for, else 20.
pub fn senders_limit(limit: Option<usize>) -> (r: usize)
    ensures
        r == match limit {
            Some(l) => l,
            None => DEFAULT_SENDERS_LIMIT,
        },
{
    match limit {
        Some(l) => l,
        None => DEFAULT_SENDERS_LIMIT,
    }
}

/// The sender list of `(address, count)` pairs, in their order.
pub fn sender_list(pairs: Vec<(String, usize)>) -> (r: SenderList)
    ensures
        r.senders@.len() == pairs@.len(),
        forall|i: int|
            0 <= i < pairs@.len() ==> #[trigger] r.senders@[i].email@ == pairs@[i].0@
                && r.senders@[i].count == pairs@[i].1,
{
    let mut senders: Vec<SenderItem> = Vec::new();
    let mut i: usize = 0;
    while i < pairs.len()
        invariant
            i <= pairs@.len(),
            senders@.len() == i,
            forall|j: int|
                0 <= j < i ==> #[trigger] senders@[j].email@ == pairs@[j].0@ && senders@[j].count
                    == pairs@[j].1,
        decreases pairs.len() - i,
    {
        senders.push(SenderItem { email: text::copy_str(pairs[i].0.as_str()), count: pairs[i].1 });
        i = i + 1;
    }
    SenderList { senders }
}

// ── E-mail addresses in a `From` header ─────────────────────────────

pub open spec fn is_alnum(c: char) -> bool {
    ('a' <= c && c <= 'z') || ('A' <= c && c <= 'Z') || ('0' <= c && c <= '9')
}

pub open spec fn is_alpha(c: char) -> bool {
    ('a' <= c && c <= 'z') || ('A' <= c && c <= 'Z')
}

/// A character of the local part: `[a-zA-Z0-9._%+-]`.
pub open spec fn is_local_char(c: char) -> bool {
    is_alnum(c) || c == '.' || c == '_' || c == '%' || c == '+' || c == '-'
}

/// A character of the domain: `[a-zA-Z0-9.-]`.
pub open spec fn is_domain_char(c: char) -> bool {
    is_alnum(c) || c == '.' || c == '-'
}

/// The end of the run of local-part characters from `i`.
pub open spec fn local_end(s: Seq<char>, i: int) -> int
    decreases s.len() - i,
{
    if 0 <= i < s.len() && is_local_char(s[i]) {
        local_end(s, i + 1)
    } else {
        i
    }
}

/// The end of the run of domain characters from `i`.
pub open spec fn domain_end(s: Seq<char>, i: int) -> int
    decreases s.len() - i,
{
    if 0 <= i < s.len() && is_domain_char(s[i]) {
        domain_end(s, i + 1)
    } else {
        i
    }
}

/// The end of the run of ASCII letters from `i`.
pub open spec fn alpha_end(s: Seq<char>, i: int) -> int
    decreases s.len() - i,
{
    if 0 <= i < s.len() && is_alpha(s[i]) {
        alpha_end(s, i + 1)
    } else {
        i
    }
}

/// The last position `p` in `lo..=hi` holding a `.` followed by two
/// letters.
pub open spec fn dot_before(s: Seq<char>, lo: int, hi: int) -> Option<int>
    decreases hi - lo + 1,
{
    if hi < lo {
        None
    } else if 0 <= hi && hi + 2 < s.len() && s[hi] == '.' && is_alpha(s[hi + 1]) && is_alpha(
        s[hi + 2],
    ) {
        Some(hi)
    } else {
        dot_before(s, lo, hi - 1)
    }
}

/// The end of the address `[a-zA-Z0-9._%+-]+@[a-zA-Z0-9.-]+\.[a-zA-Z]{2,}`
/// matched at `st`, as a greedy matcher takes it: the whole run of
/// local-part characters, `@`, then the domain up to its last `.` followed
/// by two letters, and all the letters after that `.`.
pub open spec fn email_at(s: Seq<char>, st: int) -> Option<int> {
    let e1 = local_end(s, st);
    if 0 <= st && e1 > st && e1 < s.len() && s[e1] == '@' {
        let e = domain_end(s, e1 + 1);
        match dot_before(s, e1 + 2, e - 1) {
            Some(p) => Some(alpha_end(s, p + 1)),
            None => None,
        }
    } else {
        None
    }
}

/// The leftmost address in `s[i..]`: its start and end.
pub open spec fn email_from(s: Seq<char>, i: int) -> Option<(int, int)>
    decreases s.len() - i,
{
    if i < 0 || i >= s.len() {
        None
    } else {
        match email_at(s, i) {
            Some(e) => Some((i, e)),
            None => email_from(s, i + 1),
        }
    }
}

/// The sender a `From` header counts for: its first e-mail address in
/// lower case, else the whole header, trimmed and lower-cased, cut to 60
/// characters.
pub open spec fn sender_key_spec(from: Seq<char>) -> Seq<char> {
    match email_from(from, 0) {
        Some((a, b)) => text::lowercase(from.subrange(a, b)),
        None => {
            let l = text::lowercase(text::trim(from));
            l.take(
                if l.len() < 60 {
                    l.len() as int
                } else {
                    60
                },
            )
        },
    }
}

/// A character `[a-zA-Z0-9._%+-]` may stand in the local part of an
/// address.
pub open spec fn address_local_char(c: char) -> bool {
    ('a' <= c && c <= 'z') || ('A' <= c && c <= 'Z') || ('0' <= c && c <= '9') || c == '.' || c
        == '_' || c == '%' || c == '+' || c == '-'
}

/// A character `[a-zA-Z0-9.-]` may stand in the domain of an address.
pub open spec fn address_domain_char(c: char) -> bool {
    ('a' <= c && c <= 'z') || ('A' <= c && c <= 'Z') || ('0' <= c && c <= '9') || c == '.' || c
        == '-'
}

/// An ASCII letter.
pub open spec fn address_letter(c: char) -> bool {
    ('a' <= c && c <= 'z') || ('A' <= c && c <= 'Z')
}

proof fn lemma_local_end_is(s: Seq<char>, i: int, j: int)
    requires
        0 <= i <= j <= s.len(),
        forall|q: int| i <= q < j ==> address_local_char(#[trigger] s[q]),
        j == s.len() || !address_local_char(s[j]),
    ensures
        local_end(s, i) == j,
    decreases j - i,
{
    if i < j {
        assert(address_local_char(s[i]));
        lemma_local_end_is(s, i + 1, j);
    }
}

proof fn lemma_domain_end_is(s: Seq<char>, i: int, j: int)
    requires
        0 <= i <= j <= s.len(),
        forall|q: int| i <= q < j ==> address_domain_char(#[trigger] s[q]),
        j == s.len() || !address_domain_char(s[j]),
    ensures
        domain_end(s, i) == j,
    decreases j - i,
{
    if i < j {
        assert(address_domain_char(s[i]));
        lemma_domain_end_is(s, i + 1, j);
    }
}

proof fn lemma_alpha_end_is(s: Seq<char>, i: int, j: int)
    requires
        0 <= i <= j <= s.len(),
        forall|q: int| i <= q < j ==> address_letter(#[trigger] s[q]),
        j == s.len() || !address_letter(s[j]),
    ensures
        alpha_end(s, i) == j,
    decreases j - i,
{
    if i < j {
        assert(address_letter(s[i]));
        lemma_alpha_end_is(s, i + 1, j);
    }
}

proof fn lemma_dot_before_is(s: Seq<char>, lo: int, hi: int, p: int)
    requires
        0 <= lo <= p <= hi,
        p + 2 < s.len(),
        hi < s.len(),
        s[p] == '.' && is_alpha(s[p + 1]) && is_alpha(s[p + 2]),
        forall|q: int| p < q <= hi ==> #[trigger] s[q] != '.',
    ensures
        dot_before(s, lo, hi) == Some(p),
    decreases hi - p,
{
    if hi > p {
        lemma_dot_before_is(s, lo, hi - 1, p);
    }
}

proof fn lemma_no_email_before(s: Seq<char>, i: int, a: int)
    requires
        0 <= i <= a <= s.len(),
        forall|q: int| 0 <= q < a ==> #[trigger] s[q] != '@',
        a == 0 || !address_local_char(s[a - 1]),
    ensures
        email_from(s, i) == email_from(s, a),
    decreases a - i,
{
    if i < a {
        lemma_run_ends(s, i);
        let e1 = local_end(s, i);
        if e1 > i && e1 < s.len() && s[e1] == '@' {
            // The run of local-part characters from `i` cannot reach past
            // `a`, and stops on a character that is not `@`.
            if e1 >= a {
                assert(a > 0);
                lemma_local_run(s, i, e1, a - 1);
            }
            assert(false);
        }
        lemma_no_email_before(s, i + 1, a);
    }
}

proof fn lemma_local_run(s: Seq<char>, i: int, e: int, q: int)
    requires
        0 <= i <= q < e <= s.len(),
        local_end(s, i) == e,
    ensures
        address_local_char(s[q]),
    decreases q - i,
{
    if !is_local_char(s[i]) || i >= s.len() {
        assert(local_end(s, i) == i);
    } else if q > i {
        lemma_local_run(s, i + 1, e, q);
    }
}

/// The sender key of a `From` header holding an address
/// `[a-zA-Z0-9._%+-]+@[a-zA-Z0-9.-]+\.[a-zA-Z]{2,}` (`local`, `@`, `domain`,
/// `.`, `tld`), with no `@` before it and no local-part character just
/// before it (so no other address starts earlier), and after it nothing or
/// a character that cannot extend the domain (such as `>` or a space): the
/// key is that whole address, lower-cased, every character of its local
/// part kept.
pub proof fn lemma_sender_key_address(
    pre: Seq<char>,
    local: Seq<char>,
    domain: Seq<char>,
    tld: Seq<char>,
    post: Seq<char>,
)
    requires
        local.len() > 0,
        forall|q: int| 0 <= q < local.len() ==> address_local_char(#[trigger] local[q]),
        domain.len() > 0,
        forall|q: int| 0 <= q < domain.len() ==> address_domain_char(#[trigger] domain[q]),
        tld.len() >= 2,
        forall|q: int| 0 <= q < tld.len() ==> address_letter(#[trigger] tld[q]),
        forall|q: int| 0 <= q < pre.len() ==> #[trigger] pre[q] != '@',
        pre.len() > 0 ==> !address_local_char(pre.last()),
        post.len() > 0 ==> !address_domain_char(post[0]),
    ensures
        sender_key_spec(pre + local + seq!['@'] + domain + seq!['.'] + tld + post) == text::lowercase(
            local + seq!['@'] + domain + seq!['.'] + tld,
        ),
{
    let addr = local + seq!['@'] + domain + seq!['.'] + tld;
    let s = pre + addr + post;
    assert(s =~= pre + local + seq!['@'] + domain + seq!['.'] + tld + post);
    let a = pre.len() as int;
    let at = a + local.len();
    let dot = at + 1 + domain.len();
    let end = dot + 1 + tld.len();
    assert(end == a + addr.len());
    assert forall|q: int| 0 <= q < a implies #[trigger] s[q] == pre[q] by {}
    assert forall|q: int| a <= q < at implies #[trigger] s[q] == local[q - a] by {}
    assert(s[at] == '@');
    assert forall|q: int| at + 1 <= q < dot implies #[trigger] s[q] == domain[q - at - 1] by {}
    assert(s[dot] == '.');
    assert forall|q: int| dot + 1 <= q < end implies #[trigger] s[q] == tld[q - dot - 1] by {}
    assert forall|q: int| end <= q < s.len() implies #[trigger] s[q] == post[q - end] by {}
    // No address starts before `a`.
    assert forall|q: int| 0 <= q < a implies #[trigger] s[q] != '@' by {}
    if a > 0 {
        assert(s[a - 1] == pre.last());
    }
    lemma_no_email_before(s, 0, a);
    // The address at `a` runs to `end`.
    assert forall|q: int| a <= q < at implies address_local_char(#[trigger] s[q]) by {}
    lemma_local_end_is(s, a, at);
    assert forall|q: int| at + 1 <= q < end implies address_domain_char(#[trigger] s[q]) by {
        if q == dot {
        } else if q < dot {
            assert(address_domain_char(domain[q - at - 1]));
        } else {
            assert(address_letter(tld[q - dot - 1]));
        }
    }
    if end < s.len() {
        assert(s[end] == post[0]);
    }
    lemma_domain_end_is(s, at + 1, end);
    assert forall|q: int| dot < q <= end - 1 implies #[trigger] s[q] != '.' by {
        assert(address_letter(tld[q - dot - 1]));
    }
    assert(is_alpha(s[dot + 1]) && is_alpha(s[dot + 2])) by {
        assert(address_letter(tld[0]) && address_letter(tld[1]));
    }
    lemma_dot_before_is(s, at + 2, end - 1, dot);
    assert forall|q: int| dot + 1 <= q < end implies address_letter(#[trigger] s[q]) by {
        assert(address_letter(tld[q - dot - 1]));
    }
    lemma_alpha_end_is(s, dot + 1, end);
    assert(email_at(s, a) == Some(end));
    assert(email_from(s, a) == Some((a, end)));
    assert(s.subrange(a, end) =~= addr);
}

fn is_alpha_exec(c: char) -> (r: bool)
    ensures
        r == is_alpha(c),
{
    ('a' <= c && c <= 'z') || ('A' <= c && c <= 'Z')
}

fn is_alnum_exec(c: char) -> (r: bool)
    ensures
        r == is_alnum(c),
{
    ('a' <= c && c <= 'z') || ('A' <= c && c <= 'Z') || ('0' <= c && c <= '9')
}

proof fn lemma_run_ends(s: Seq<char>, i: int)
    requires
        0 <= i <= s.len(),
    ensures
        i <= local_end(s, i) <= s.len(),
        i <= domain_end(s, i) <= s.len(),
        i <= alpha_end(s, i) <= s.len(),
    decreases s.len() - i,
{
    if i < s.len() {
        lemma_run_ends(s, i + 1);
    }
}

proof fn lemma_dot_before(s: Seq<char>, lo: int, hi: int)
    ensures
        dot_before(s, lo, hi) matches Some(p) ==> lo <= p <= hi && 0 <= p && p + 2 < s.len(),
    decreases hi - lo + 1,
{
    if hi >= lo {
        lemma_dot_before(s, lo, hi - 1);
    }
}

/// The last `.` followed by two letters at a position in `lo..hi`.
fn dot_before_exec(s: &Vec<char>, lo: usize, hi: usize) -> (r: Option<usize>)
    requires
        hi <= s@.len(),
    ensures
        match r {
            Some(p) => dot_before(s@, lo as int, hi - 1) == Some(p as int),
            None => dot_before(s@, lo as int, hi - 1) is None,
        },
{
    let n = s.len();
    let mut h = hi;
    while h > lo
        invariant
            h <= hi <= n == s@.len(),
            dot_before(s@, lo as int, hi - 1) == dot_before(s@, lo as int, h - 1),
        decreases h,
    {
        let p = h - 1;
        if n - p > 2 && s[p] == '.' && is_alpha_exec(s[p + 1]) && is_alpha_exec(s[p + 2]) {
            return Some(p);
        }
        h = h - 1;
    }
    None
}

fn email_at_exec(s: &Vec<char>, st: usize) -> (r: Option<usize>)
    requires
        st < s@.len(),
    ensures
        match r {
            Some(e) => email_at(s@, st as int) == Some(e as int) && st < e <= s@.len(),
            None => email_at(s@, st as int) is None,
        },
{
    let n = s.len();
    let mut e1 = st;
    while e1 < n && (is_alnum_exec(s[e1]) || s[e1] == '.' || s[e1] == '_' || s[e1] == '%' || s[e1]
        == '+' || s[e1] == '-')
        invariant
            st <= e1 <= n == s@.len(),
            local_end(s@, st as int) == local_end(s@, e1 as int),
        decreases n - e1,
    {
        e1 = e1 + 1;
    }
    if !(e1 > st && e1 < n && s[e1] == '@') {
        return None;
    }
    let mut e = e1 + 1;
    while e < n && (is_alnum_exec(s[e]) || s[e] == '.' || s[e] == '-')
        invariant
            e1 + 1 <= e <= n == s@.len(),
            domain_end(s@, e1 + 1) == domain_end(s@, e as int),
        decreases n - e,
    {
        e = e + 1;
    }
    if e <= e1 + 1 {
        proof {
            assert(dot_before(s@, e1 + 2, e - 1) is None);
        }
        return None;
    }
    match dot_before_exec(s, e1 + 2, e) {
        None => None,
        Some(p) => {
            proof {
                lemma_dot_before(s@, e1 + 2, e - 1);
            }
            let mut a = p + 1;
            while a < n && is_alpha_exec(s[a])
                invariant
                    p + 1 <= a <= n == s@.len(),
                    alpha_end(s@, p + 1) == alpha_end(s@, a as int),
                decreases n - a,
            {
                a = a + 1;
            }
            Some(a)
        },
    }
}

/// The sender a `From` header counts for (see `sender_key_spec`).
pub fn sender_key(from: &str) -> (r: String)
    ensures
        r@ == sender_key_spec(from@),
{
    let s = text::chars_of(from);
    let mut i: usize = 0;
    while i < s.len()
        invariant
            i <= s@.len(),
            s@ == from@,
            email_from(s@, 0) == email_from(s@, i as int),
        decreases s.len() - i,
    {
        match email_at_exec(&s, i) {
            Some(e) => {
                let m = text::string_of_range(&s, i, e);
                return text::to_lowercase(m.as_str());
            },
            None => {},
        }
        i = i + 1;
    }
    let t = text::string_of(&text::trim_exec(&s));
    let l = text::chars_of(text::to_lowercase(t.as_str()).as_str());
    let k = if l.len() < 60 {
        l.len()
    } else {
        60
    };
    let r = text::string_of_range(&l, 0, k);
    proof {
        assert(l@.subrange(0, k as int) =~= l@.take(k as int));
    }
    r
}

// ── Counting ────────────────────────────────────────────────────────

/// The position of `k` among the senders counted so far.
pub open spec fn key_pos(c: Seq<(Seq<char>, nat)>, k: Seq<char>, i: int) -> Option<int>
    decreases c.len() - i,
{
    if i < 0 || i >= c.len() {
        None
    } else if c[i].0 == k {
        Some(i)
    } else {
        key_pos(c, k, i + 1)
    }
}

/// The senders of `keys` with the number of times each occurs, in order of
/// first occurrence.
pub open spec fn count_keys(keys: Seq<Seq<char>>) -> Seq<(Seq<char>, nat)>
    decreases keys.len(),
{
    if keys.len() == 0 {
        Seq::empty()
    } else {
        let c = count_keys(keys.drop_last());
        let k = keys.last();
        match key_pos(c, k, 0) {
            Some(i) => c.update(i, (k, c[i].1 + 1)),
            None => c.push((k, 1)),
        }
    }
}

/// A sender's count, as the key of descending order.
pub open spec fn by_count_desc() -> spec_fn((Seq<char>, nat)) -> int {
    |p: (Seq<char>, nat)| -(p.1 as int)
}

/// The sender keys of the messages whose `From` header is given, in order,
/// skipping the messages without one.
pub open spec fn sender_keys(froms: Seq<Option<String>>) -> Seq<Seq<char>>
    decreases froms.len(),
{
    if froms.len() == 0 {
        Seq::empty()
    } else {
        let ks = sender_keys(froms.drop_last());
        match froms.last() {
            Some(f) => ks.push(sender_key_spec(f@)),
            None => ks,
        }
    }
}

/// The senders of the messages whose `From` header is given, most frequent
/// first (ties in order of first occurrence), at most `limit`.
pub open spec fn top_senders_spec(froms: Seq<Option<String>>, limit: nat) -> Seq<(Seq<char>, nat)> {
    let sorted = order::stable_sort(count_keys(sender_keys(froms)), by_count_desc());
    sorted.take(
        if limit < sorted.len() {
            limit as int
        } else {
            sorted.len() as int
        },
    )
}

pub open spec fn counts_view(v: Seq<(String, usize)>) -> Seq<(Seq<char>, nat)> {
    v.map_values(|p: (String, usize)| (p.0@, p.1 as nat))
}

proof fn lemma_key_pos(c: Seq<(Seq<char>, nat)>, k: Seq<char>, i: int)
    requires
        0 <= i,
    ensures
        key_pos(c, k, i) matches Some(j) ==> i <= j < c.len() && c[j].0 == k,
        key_pos(c, k, i) is None ==> forall|j: int| i <= j < c.len() ==> c[j].0 != k,
    decreases c.len() - i,
{
    if i < c.len() && c[i].0 != k {
        lemma_key_pos(c, k, i + 1);
    }
}

proof fn lemma_count_bound(keys: Seq<Seq<char>>)
    ensures
        forall|j: int| 0 <= j < count_keys(keys).len() ==> #[trigger] count_keys(keys)[j].1 <= keys.len(),
        count_keys(keys).len() <= keys.len(),
    decreases keys.len(),
{
    if keys.len() > 0 {
        lemma_count_bound(keys.drop_last());
        lemma_key_pos(count_keys(keys.drop_last()), keys.last(), 0);
    }
}

/// The number of times `k` occurs in `keys`.
pub open spec fn count_of(keys: Seq<Seq<char>>, k: Seq<char>) -> nat
    decreases keys.len(),
{
    if keys.len() == 0 {
        0
    } else {
        count_of(keys.drop_last(), k) + if keys.last() == k {
            1nat
        } else {
            0nat
        }
    }
}

/// The counting is exact: each sender is listed once, with the number of
/// its messages, and every sender of a message is listed.
pub proof fn lemma_count_keys(keys: Seq<Seq<char>>)
    ensures
        forall|j: int|
            0 <= j < count_keys(keys).len() ==> #[trigger] count_keys(keys)[j].1 == count_of(
                keys,
                count_keys(keys)[j].0,
            ) && count_keys(keys)[j].1 >= 1,
        forall|i: int, j: int|
            0 <= i < j < count_keys(keys).len() ==> #[trigger] count_keys(keys)[i].0
                != #[trigger] count_keys(keys)[j].0,
        forall|x: int| 0 <= x < keys.len() ==> listed(count_keys(keys), #[trigger] keys[x]),
    decreases keys.len(),
{
    if keys.len() > 0 {
        let d = keys.drop_last();
        let c = count_keys(d);
        let k = keys.last();
        lemma_count_keys(d);
        lemma_key_pos(c, k, 0);
        let c2 = count_keys(keys);
        match key_pos(c, k, 0) {
            Some(i) => {
                assert(c2 == c.update(i, (k, c[i].1 + 1)));
                assert forall|j: int| 0 <= j < c2.len() implies #[trigger] c2[j].1 == count_of(
                    keys,
                    c2[j].0,
                ) && c2[j].1 >= 1 by {
                    if j != i {
                        assert(c[j].0 != c[i].0 || j == i);
                        if j < i {
                            assert(c[j].0 != c[i].0);
                        } else {
                            assert(c[i].0 != c[j].0);
                        }
                    }
                }
                assert forall|x: int| 0 <= x < keys.len() implies listed(c2, #[trigger] keys[x]) by {
                    if x < d.len() {
                        assert(keys[x] == d[x]);
                        assert(listed(c, d[x]));
                        let j = choose|j: int| 0 <= j < c.len() && #[trigger] c[j].0 == d[x];
                        assert(c2[j].0 == keys[x]);
                    } else {
                        assert(c2[i].0 == keys[x]);
                    }
                }
            },
            None => {
                assert(c2 == c.push((k, 1nat)));
                assert(count_of(d, k) == 0) by {
                    lemma_count_absent(d, k, c);
                }
                assert forall|j: int| 0 <= j < c2.len() implies #[trigger] c2[j].1 == count_of(
                    keys,
                    c2[j].0,
                ) && c2[j].1 >= 1 by {
                    if j < c.len() {
                        assert(c[j].0 != k);
                    }
                }
                assert forall|x: int| 0 <= x < keys.len() implies listed(c2, #[trigger] keys[x]) by {
                    if x < d.len() {
                        assert(keys[x] == d[x]);
                        assert(listed(c, d[x]));
                        let j = choose|j: int| 0 <= j < c.len() && #[trigger] c[j].0 == d[x];
                        assert(c2[j].0 == keys[x]);
                    } else {
                        assert(c2[c.len() as int].0 == keys[x]);
                    }
                }
            },
        }
    }
}

/// `k` is listed in `c`.
pub open spec fn listed(c: Seq<(Seq<char>, nat)>, k: Seq<char>) -> bool {
    exists|j: int| 0 <= j < c.len() && #[trigger] c[j].0 == k
}

proof fn lemma_count_absent(keys: Seq<Seq<char>>, k: Seq<char>, c: Seq<(Seq<char>, nat)>)
    requires
        forall|x: int| 0 <= x < keys.len() ==> listed(c, #[trigger] keys[x]),
        forall|j: int| 0 <= j < c.len() ==> c[j].0 != k,
    ensures
        count_of(keys, k) == 0,
    decreases keys.len(),
{
    if keys.len() > 0 {
        let d = keys.drop_last();
        assert forall|x: int| 0 <= x < d.len() implies listed(c, #[trigger] d[x]) by {
            assert(d[x] == keys[x]);
            assert(listed(c, keys[x]));
        }
        lemma_count_absent(d, k, c);
        let x = keys.len() - 1;
        assert(listed(c, keys[x]));
        let j = choose|j: int| 0 <= j < c.len() && #[trigger] c[j].0 == keys[x];
        assert(keys.last() != k);
    }
}

/// The top senders are ranked: each listed with the number of its
/// messages, at most `limit` of them, most frequent first, and no sender
/// left out has more messages than one listed.
pub proof fn lemma_top_senders(froms: Seq<Option<String>>, limit: nat)
    ensures
        top_senders_spec(froms, limit).len() <= limit,
        forall|j: int|
            0 <= j < top_senders_spec(froms, limit).len() ==> #[trigger] top_senders_spec(
                froms,
                limit,
            )[j].1 == count_of(sender_keys(froms), top_senders_spec(froms, limit)[j].0)
                && top_senders_spec(froms, limit)[j].1 >= 1,
        forall|i: int, j: int|
            0 <= i <= j < top_senders_spec(froms, limit).len() ==> #[trigger] top_senders_spec(
                froms,
                limit,
            )[i].1 >= #[trigger] top_senders_spec(froms, limit)[j].1,
        forall|k: Seq<char>, j: int|
            #![trigger sender_keys(froms).contains(k), top_senders_spec(froms, limit)[j]]
            sender_keys(froms).contains(k) && 0 <= j < top_senders_spec(froms, limit).len() && (
            forall|i: int|
                0 <= i < top_senders_spec(froms, limit).len() ==> #[trigger] top_senders_spec(
                    froms,
                    limit,
                )[i].0 != k) ==> count_of(sender_keys(froms), k) <= top_senders_spec(
                froms,
                limit,
            )[j].1,
{
    let keys = sender_keys(froms);
    let c = count_keys(keys);
    let key = by_count_desc();
    let sorted = order::stable_sort(c, key);
    lemma_count_keys(keys);
    order::lemma_stable_sort(c, key);
    let n = if limit < sorted.len() {
        limit as int
    } else {
        sorted.len() as int
    };
    let top = top_senders_spec(froms, limit);
    assert(top == sorted.take(n));
    assert forall|j: int| 0 <= j < top.len() implies #[trigger] top[j].1 == count_of(keys, top[j].0)
        && top[j].1 >= 1 by {
        assert(top[j] == sorted[j]);
        assert(sorted.contains(sorted[j]));
        assert(c.contains(sorted[j]));
        let m = choose|m: int| 0 <= m < c.len() && c[m] == sorted[j];
        assert(c[m].1 == count_of(keys, c[m].0));
    }
    assert forall|i: int, j: int| 0 <= i <= j < top.len() implies #[trigger] top[i].1
        >= #[trigger] top[j].1 by {
        assert(top[i] == sorted[i] && top[j] == sorted[j]);
        assert(key(sorted[i]) <= key(sorted[j]));
    }
    assert forall|k: Seq<char>, j: int|
        #![trigger keys.contains(k), top[j]]
        keys.contains(k) && 0 <= j < top.len() && (forall|i: int|
            0 <= i < top.len() ==> #[trigger] top[i].0 != k) implies count_of(keys, k) <= top[j].1 by {
        let x = choose|x: int| 0 <= x < keys.len() && keys[x] == k;
        assert(listed(c, keys[x]));
        let m = choose|m: int| 0 <= m < c.len() && #[trigger] c[m].0 == keys[x];
        assert(c.contains(c[m]));
        assert(sorted.contains(c[m]));
        let p = choose|p: int| 0 <= p < sorted.len() && sorted[p] == c[m];
        if p < n {
            assert(top[p] == sorted[p]);
            assert(top[p].0 == k);
        } else {
            assert(top[j] == sorted[j]);
            assert(key(sorted[j]) <= key(sorted[p]));
        }
    }
}

/// Count one more message of sender `k`.
fn add_count(counts: &mut Vec<(String, usize)>, k: String, Ghost(bound): Ghost<nat>)
    requires
        forall|j: int| 0 <= j < old(counts)@.len() ==> #[trigger] old(counts)@[j].1 <= bound,
        bound < usize::MAX,
    ensures
        counts_view(final(counts)@) == (match key_pos(counts_view(old(counts)@), k@, 0) {
            Some(i) => counts_view(old(counts)@).update(i, (k@, counts_view(old(counts)@)[i].1 + 1)),
            None => counts_view(old(counts)@).push((k@, 1)),
        }),
{
    let ghost cv = counts_view(counts@);
    let mut i: usize = 0;
    while i < counts.len()
        invariant
            i <= counts@.len(),
            cv == counts_view(counts@),
            counts@ == old(counts)@,
            forall|j: int| 0 <= j < counts@.len() ==> #[trigger] counts@[j].1 <= bound,
            bound < usize::MAX,
            key_pos(cv, k@, 0) == key_pos(cv, k@, i as int),
        decreases counts.len() - i,
    {
        if counts[i].0 == k {
            let c = counts[i].1 + 1;
            let name = text::copy_str(k.as_str());
            counts.set(i, (name, c));
            proof {
                assert(counts_view(counts@) =~= cv.update(i as int, (k@, cv[i as int].1 + 1)));
            }
            return;
        }
        i = i + 1;
    }
    let ghost before = counts@;
    counts.push((k, 1));
    proof {
        assert(counts_view(counts@) =~= counts_view(before).push((k@, 1)));
    }
}

/// Order the counts by count, descending, ties in their order.
fn sort_counts(v: Vec<(String, usize)>) -> (r: Vec<(String, usize)>)
    ensures
        counts_view(r@) == order::stable_sort(counts_view(v@), by_count_desc()),
{
    let ghost key = by_count_desc();
    let ghost iv = counts_view(v@);
    let mut out: Vec<(String, usize)> = Vec::new();
    let mut rest = v;
    let n = rest.len();
    let mut i: usize = 0;
    proof {
        assert(iv.take(0) =~= Seq::<(Seq<char>, nat)>::empty());
        assert(counts_view(out@) =~= Seq::<(Seq<char>, nat)>::empty());
        assert(counts_view(rest@) =~= iv.skip(0));
    }
    while i < n
        invariant
            i <= n == iv.len(),
            key == by_count_desc(),
            counts_view(rest@) == iv.skip(i as int),
            counts_view(out@) == order::stable_sort(iv.take(i as int), key),
        decreases n - i,
    {
        proof {
            assert(counts_view(rest@).len() == rest@.len());
        }
        let ghost old_rest = rest@;
        let x = rest.remove(0);
        proof {
            assert(counts_view(old_rest)[0] == iv.skip(i as int)[0]);
            assert forall|j: int| 0 <= j < rest@.len() implies #[trigger] counts_view(rest@)[j]
                == iv.skip(i + 1)[j] by {
                assert(rest@[j] == old_rest[j + 1]);
                assert(counts_view(old_rest)[j + 1] == iv.skip(i as int)[j + 1]);
            }
            assert(counts_view(rest@) =~= iv.skip(i + 1));
            assert((x.0@, x.1 as nat) == iv[i as int]);
        }
        let ghost so = counts_view(out@);
        proof {
            order::lemma_stable_sort(iv.take(i as int), key);
        }
        let mut p: usize = 0;
        while p < out.len() && out[p].1 >= x.1
            invariant
                p <= out@.len(),
                so == counts_view(out@),
                key == by_count_desc(),
                order::insert_pos(so, key, key((x.0@, x.1 as nat)), 0) == order::insert_pos(
                    so,
                    key,
                    key((x.0@, x.1 as nat)),
                    p as int,
                ),
            decreases out.len() - p,
        {
            p = p + 1;
        }
        let ghost xv = (x.0@, x.1 as nat);
        out.insert(p, x);
        proof {
            let t = iv.take(i + 1);
            assert(t.drop_last() =~= iv.take(i as int));
            assert(t.last() == xv);
            assert(counts_view(out@) =~= so.insert(p as int, xv));
        }
        i = i + 1;
    }
    proof {
        assert(iv.take(n as int) =~= iv);
    }
    out
}

/// The top senders of the messages whose `From` header is given (`None`
/// for a message without one): each counted under `sender_key`, most
/// frequent first, ties in order of first occurrence, at most `limit`.
pub fn top_senders(froms: &Vec<Option<String>>, limit: usize) -> (r: Vec<(String, usize)>)
    ensures
        counts_view(r@) == top_senders_spec(froms@, limit as nat),
{
    let mut counts: Vec<(String, usize)> = Vec::new();
    let mut i: usize = 0;
    proof {
        assert(sender_keys(froms@.take(0)) =~= Seq::<Seq<char>>::empty());
        assert(counts_view(counts@) =~= Seq::<(Seq<char>, nat)>::empty());
    }
    while i < froms.len()
        invariant
            i <= froms@.len(),
            counts_view(counts@) == count_keys(sender_keys(froms@.take(i as int))),
            sender_keys(froms@.take(i as int)).len() <= i,
            forall|j: int| 0 <= j < counts@.len() ==> #[trigger] counts@[j].1 <= i,
        decreases froms.len() - i,
    {
        let ghost t = froms@.take(i + 1);
        proof {
            assert(t.drop_last() =~= froms@.take(i as int));
            assert(t.last() == froms@[i as int]);
        }
        match &froms[i] {
            Some(f) => {
                let k = sender_key(f.as_str());
                proof {
                    assert(sender_keys(t) =~= sender_keys(froms@.take(i as int)).push(k@));
                    assert(sender_keys(t).drop_last() =~= sender_keys(froms@.take(i as int)));
                }
                add_count(&mut counts, k, Ghost(i as nat));
            },
            None => {
                proof {
                    assert(sender_keys(t) =~= sender_keys(froms@.take(i as int)));
                }
            },
        }
        proof {
            lemma_count_bound(sender_keys(t));
            assert forall|j: int| 0 <= j < counts@.len() implies #[trigger] counts@[j].1 <= i + 1 by {
                assert(counts_view(counts@)[j].1 == counts@[j].1);
            }
        }
        i = i + 1;
    }
    proof {
        assert(froms@.take(froms@.len() as int) =~= froms@);
    }
    let mut sorted = sort_counts(counts);
    proof {
        order::lemma_stable_sort(count_keys(sender_keys(froms@)), by_count_desc());
    }
    let ghost full = counts_view(sorted@);
    sorted.truncate(limit);
    proof {
        if limit < full.len() {
            assert(counts_view(sorted@) =~= full.take(limit as int));
        } else {
            assert(full.take(full.len() as int) =~= full);
        }
    }
    sorted
}

} // verus!
