//! Helpers for MCP tool output: truncation, snippets, error text, result
//! caps and fuzzy suggestions.
use vstd::prelude::*;
use crate::api::search::ThreadSummary;
use crate::api::thread::MessageDetail;
use crate::mail::body;
use crate::mcp;
use crate::mcp::BodyFormat;
use crate::order;
use crate::text;

verus! {

pub const MCP_MAX_BODY_CHARS: usize = 4000;

pub const MCP_MAX_ATTACHMENT_BYTES: usize = 50_000;

pub const MAX_SEARCH_RESULTS: usize = 100;

// ── Truncation ──────────────────────────────────────────────────────

pub open spec fn body_suffix() -> Seq<char> {
    " [truncated, use get_message for full content]"@
}

pub open spec fn attachment_suffix() -> Seq<char> {
    " [truncated, document continues...]"@
}

/// Truncate a message body for MCP output, adding a pointer to full content.
pub fn truncate_body(text: &str, max_chars: usize) -> (r: String)
    ensures
        r@ == body::truncate_spec(text@, max_chars as nat, body_suffix()),
{
    body::truncate_text_with_suffix(text, max_chars, " [truncated, use get_message for full content]")
}

/// Truncate attachment extracted text.
pub fn truncate_attachment_text(text: &str, max_bytes: usize) -> (r: String)
    ensures
        r@ == body::truncate_spec(text@, max_bytes as nat, attachment_suffix()),
{
    body::truncate_text_with_suffix(text, max_bytes, " [truncated, document continues...]")
}

/// A text cut to at most `max_chars` characters: one that has at most
/// `max_chars` characters is kept as it is; a longer one is cut, at a word
/// boundary where there is one, within its first `max_chars` characters,
/// and the suffix is added.
pub open spec fn truncate_chars_spec(s: Seq<char>, max_chars: nat, suffix: Seq<char>) -> Seq<char> {
    if s.len() <= max_chars {
        s
    } else {
        body::truncate_spec(s, text::byte_len(s.take(max_chars as int)), suffix)
    }
}

/// Cutting to `max_chars` characters keeps a text that has at most that
/// many characters, and cuts a longer one to a prefix of at most
/// `max_chars` characters followed by the suffix.
pub proof fn lemma_truncate_chars(s: Seq<char>, max_chars: nat, suffix: Seq<char>)
    ensures
        s.len() <= max_chars ==> truncate_chars_spec(s, max_chars, suffix) == s,
        s.len() > max_chars ==> exists|k: int|
            0 <= k <= max_chars && #[trigger] truncate_chars_spec(s, max_chars, suffix) == s.take(k)
                + suffix,
{
    if s.len() > max_chars {
        let m = max_chars as int;
        let limit = text::byte_len(s.take(m));
        text::lemma_byte_len_take_mono(s, m, s.len() as int);
        assert(s.take(s.len() as int) =~= s);
        body::lemma_truncate(s, limit, suffix);
        let k = choose|k: int|
            0 <= k <= s.len() && text::byte_len(s.take(k)) <= limit && #[trigger] body::truncate_spec(
                s,
                limit,
                suffix,
            ) == s.take(k) + suffix;
        if k > m {
            text::lemma_byte_len_take_mono(s, m, k);
        }
        assert(truncate_chars_spec(s, max_chars, suffix) == s.take(k) + suffix);
    }
}

/// Truncate a message body using the standard MCP 4000-char limit.
pub fn truncate_thread_body(text: &str) -> (r: String)
    ensures
        r@ == truncate_chars_spec(text@, MCP_MAX_BODY_CHARS as nat, body_suffix()),
{
    let s = text::chars_of(text);
    if s.len() <= MCP_MAX_BODY_CHARS {
        return text::copy_str(text);
    }
    // The byte length of the first MCP_MAX_BODY_CHARS characters.
    let mut used: usize = 0;
    let mut k: usize = 0;
    proof {
        assert(s@.take(0) =~= Seq::<char>::empty());
    }
    while k < MCP_MAX_BODY_CHARS
        invariant
            k <= MCP_MAX_BODY_CHARS < s@.len(),
            used == text::byte_len(s@.take(k as int)),
            used <= 4 * k,
        decreases MCP_MAX_BODY_CHARS - k,
    {
        proof {
            text::lemma_byte_len_take_succ(s@, k as int);
        }
        used = used + text::char_width(s[k]);
        k = k + 1;
    }
    truncate_body(text, used)
}

/// Truncate attachment text using the standard MCP 50 KB limit.
pub fn limit_attachment_text(text: &str) -> (r: String)
    ensures
        r@ == body::truncate_spec(text@, MCP_MAX_ATTACHMENT_BYTES as nat, attachment_suffix()),
{
    truncate_attachment_text(text, MCP_MAX_ATTACHMENT_BYTES)
}

/// Format a message body in the requested format and truncate to the standard limit.
pub fn format_and_truncate_body(msg: &MessageDetail, body_format: &BodyFormat) -> (r: String)
    requires
        mcp::format_body_defined(*msg, *body_format),
    ensures
        r@ == truncate_chars_spec(
            mcp::format_body_spec(*msg, *body_format),
            MCP_MAX_BODY_CHARS as nat,
            body_suffix(),
        ),
{
    let b = mcp::format_body(msg, body_format);
    truncate_thread_body(b.as_str())
}

// ── Snippet around a match ──────────────────────────────────────────

/// Extract a snippet of text around a search match.
///
/// The match is the first occurrence of the lower-cased `query` in the
/// lower-cased `text`, mapped back to `text` by character position; the
/// snippet reaches `context_chars` bytes before and after it, shrunk to
/// char boundaries, with `...` where it does not reach an end of `text`.
/// `None` where there is no match.
pub fn snippet_around_match(text: &str, query: &str, context_chars: usize) -> (r: Option<String>)
    ensures
        match mcp::snippet_window(
            text@,
            text::lowercase(text@),
            text::lowercase(query@),
            context_chars as int,
        ) {
            Some(w) => r matches Some(s) && s@ == w,
            None => r is None,
        },
        r is Some <==> text::find(text::lowercase(text@), text::lowercase(query@)) is Some,
{
    let text_lower = text::to_lowercase(text);
    let query_lower = text::to_lowercase(query);
    mcp::snippet_window_lowered(text, text_lower.as_str(), query_lower.as_str(), context_chars)
}

// ── Error text ──────────────────────────────────────────────────────

pub open spec fn search_error_suggestions() -> Seq<char> {
    "'. Suggestions:\n\
     - Broaden the date range (e.g., omit date: filters)\n\
     - Check spelling of names or terms\n\
     - Use tag:* to see available tags, then filter with tag:<name>\n\
     - Try a wildcard search with * (e.g., subject:*budget*)\n\
     - Use from: or to: with partial email addresses"@
}

/// Format an error message with helpful suggestions for the LLM.
pub fn format_search_error(query: &str) -> (r: String)
    ensures
        r@ == "No results for '"@ + query@ + search_error_suggestions(),
{
    let mut r = text::copy_str("No results for '");
    text::push_str(&mut r, query);
    text::push_str(
        &mut r,
        "'. Suggestions:\n\
         - Broaden the date range (e.g., omit date: filters)\n\
         - Check spelling of names or terms\n\
         - Use tag:* to see available tags, then filter with tag:<name>\n\
         - Try a wildcard search with * (e.g., subject:*budget*)\n\
         - Use from: or to: with partial email addresses",
    );
    r
}

// ── Result cap ──────────────────────────────────────────────────────

/// Cap search results to a maximum number of threads.
pub fn cap_search_results(threads: Vec<ThreadSummary>) -> (r: Vec<ThreadSummary>)
    ensures
        r@ == (if threads@.len() <= MAX_SEARCH_RESULTS {
            threads@
        } else {
            threads@.take(MAX_SEARCH_RESULTS as int)
        }),
{
    let ghost orig = threads@;
    let mut t = threads;
    t.truncate(MAX_SEARCH_RESULTS);
    proof {
        if orig.len() > MAX_SEARCH_RESULTS {
            assert(orig.subrange(0, MAX_SEARCH_RESULTS as int) =~= orig.take(
                MAX_SEARCH_RESULTS as int,
            ));
        }
    }
    t
}

// ── Fuzzy matching ──────────────────────────────────────────────────

pub open spec fn min_nat(x: nat, y: nat) -> nat {
    if x <= y {
        x
    } else {
        y
    }
}

/// The Levenshtein (edit) distance between `a` and `b`: the fewest single
/// character insertions, deletions and substitutions that turn one into
/// the other.
pub open spec fn levenshtein(a: Seq<char>, b: Seq<char>) -> nat
    decreases a.len() + b.len(),
{
    if a.len() == 0 {
        b.len()
    } else if b.len() == 0 {
        a.len()
    } else {
        let ins = levenshtein(a, b.drop_last()) + 1;
        let del = levenshtein(a.drop_last(), b) + 1;
        let sub = levenshtein(a.drop_last(), b.drop_last()) + (if a.last() == b.last() {
            0nat
        } else {
            1nat
        });
        min_nat(min_nat(ins, del), sub)
    }
}

/// The edit distance never exceeds the longer length.
pub proof fn lemma_levenshtein_bound(a: Seq<char>, b: Seq<char>)
    ensures
        levenshtein(a, b) <= (if a.len() <= b.len() {
            b.len()
        } else {
            a.len()
        }),
    decreases a.len() + b.len(),
{
    if a.len() > 0 && b.len() > 0 {
        lemma_levenshtein_bound(a.drop_last(), b.drop_last());
    }
}

/// The edit distance is symmetric.
pub proof fn lemma_levenshtein_symmetric(a: Seq<char>, b: Seq<char>)
    ensures
        levenshtein(a, b) == levenshtein(b, a),
    decreases a.len() + b.len(),
{
    if a.len() > 0 && b.len() > 0 {
        lemma_levenshtein_symmetric(a, b.drop_last());
        lemma_levenshtein_symmetric(a.drop_last(), b);
        lemma_levenshtein_symmetric(a.drop_last(), b.drop_last());
    }
}

/// A text is at distance 0 from itself, and at distance its length from the
/// empty text (either way round).
pub proof fn lemma_levenshtein_identity(a: Seq<char>)
    ensures
        levenshtein(a, a) == 0,
        levenshtein(a, Seq::<char>::empty()) == a.len(),
        levenshtein(Seq::<char>::empty(), a) == a.len(),
    decreases a.len(),
{
    if a.len() > 0 {
        lemma_levenshtein_identity(a.drop_last());
    }
}

/// One step of an edit script.
pub enum EditOp {
    /// Keep a character that both texts share.
    Keep,
    /// Replace a character by another.
    Substitute,
    /// Remove a character of the first text.
    Delete,
    /// Add a character of the second text.
    Insert,
}

/// `ops`, read from its end, turns `a` into `b`: each step takes the last
/// character of `a` (`Delete`), of `b` (`Insert`), or of both (`Keep`
/// where they are equal, `Substitute`), until both texts are used up.
pub open spec fn aligns(a: Seq<char>, b: Seq<char>, ops: Seq<EditOp>) -> bool
    decreases ops.len(),
{
    if ops.len() == 0 {
        a.len() == 0 && b.len() == 0
    } else {
        let rest = ops.drop_last();
        match ops.last() {
            EditOp::Keep => a.len() > 0 && b.len() > 0 && a.last() == b.last() && aligns(
                a.drop_last(),
                b.drop_last(),
                rest,
            ),
            EditOp::Substitute => a.len() > 0 && b.len() > 0 && aligns(
                a.drop_last(),
                b.drop_last(),
                rest,
            ),
            EditOp::Delete => a.len() > 0 && aligns(a.drop_last(), b, rest),
            EditOp::Insert => b.len() > 0 && aligns(a, b.drop_last(), rest),
        }
    }
}

/// The number of single-character insertions, deletions and substitutions
/// in `ops`.
pub open spec fn edit_cost(ops: Seq<EditOp>) -> nat
    decreases ops.len(),
{
    if ops.len() == 0 {
        0
    } else {
        edit_cost(ops.drop_last()) + (if ops.last() is Keep {
            0nat
        } else {
            1nat
        })
    }
}

/// No edit script turns `a` into `b` with fewer insertions, deletions and
/// substitutions than the edit distance.
pub proof fn lemma_levenshtein_least(a: Seq<char>, b: Seq<char>, ops: Seq<EditOp>)
    requires
        aligns(a, b, ops),
    ensures
        levenshtein(a, b) <= edit_cost(ops),
    decreases ops.len(),
{
    if ops.len() > 0 {
        let rest = ops.drop_last();
        lemma_levenshtein_identity(a);
        lemma_levenshtein_identity(b);
        match ops.last() {
            EditOp::Keep => {
                lemma_levenshtein_least(a.drop_last(), b.drop_last(), rest);
            },
            EditOp::Substitute => {
                lemma_levenshtein_least(a.drop_last(), b.drop_last(), rest);
            },
            EditOp::Delete => {
                lemma_levenshtein_least(a.drop_last(), b, rest);
                lemma_levenshtein_identity(a.drop_last());
            },
            EditOp::Insert => {
                lemma_levenshtein_least(a, b.drop_last(), rest);
                lemma_levenshtein_identity(b.drop_last());
            },
        }
    }
}

/// Some edit script turns `a` into `b` with exactly as many insertions,
/// deletions and substitutions as the edit distance: the distance is the
/// least number of them.
pub proof fn lemma_levenshtein_attained(a: Seq<char>, b: Seq<char>) -> (ops: Seq<EditOp>)
    ensures
        aligns(a, b, ops),
        edit_cost(ops) == levenshtein(a, b),
    decreases a.len() + b.len(),
{
    if a.len() == 0 && b.len() == 0 {
        Seq::empty()
    } else if a.len() == 0 {
        let r = lemma_levenshtein_attained(a, b.drop_last());
        let ops = r.push(EditOp::Insert);
        assert(ops.drop_last() =~= r);
        ops
    } else if b.len() == 0 {
        let r = lemma_levenshtein_attained(a.drop_last(), b);
        let ops = r.push(EditOp::Delete);
        assert(ops.drop_last() =~= r);
        ops
    } else {
        let ins = levenshtein(a, b.drop_last()) + 1;
        let del = levenshtein(a.drop_last(), b) + 1;
        let same = a.last() == b.last();
        let sub = levenshtein(a.drop_last(), b.drop_last()) + (if same {
            0nat
        } else {
            1nat
        });
        let d = levenshtein(a, b);
        if d == sub {
            let r = lemma_levenshtein_attained(a.drop_last(), b.drop_last());
            let ops = if same {
                r.push(EditOp::Keep)
            } else {
                r.push(EditOp::Substitute)
            };
            assert(ops.drop_last() =~= r);
            ops
        } else if d == del {
            let r = lemma_levenshtein_attained(a.drop_last(), b);
            let ops = r.push(EditOp::Delete);
            assert(ops.drop_last() =~= r);
            ops
        } else {
            let r = lemma_levenshtein_attained(a, b.drop_last());
            let ops = r.push(EditOp::Insert);
            assert(ops.drop_last() =~= r);
            ops
        }
    }
}

/// The Levenshtein distance of `a` and `b`, row by row.
fn levenshtein_distance(a: &Vec<char>, b: &Vec<char>) -> (d: usize)
    ensures
        d == levenshtein(a@, b@),
{
    let a_len = a.len();
    let b_len = b.len();
    if a_len == 0 {
        return b_len;
    }
    if b_len == 0 {
        return a_len;
    }
    proof {
        assert(a@.take(0) =~= Seq::<char>::empty());
    }
    let mut prev: Vec<u128> = Vec::new();
    let mut j: usize = 0;
    while j < b_len
        invariant
            j <= b_len == b.len(),
            a@.take(0) =~= Seq::<char>::empty(),
            prev@.len() == j,
            forall|k: int| 0 <= k < j ==> #[trigger] prev@[k] == levenshtein(a@.take(0), b@.take(k)),
            forall|k: int| 0 <= k < j ==> #[trigger] prev@[k] <= usize::MAX,
        decreases b_len - j,
    {
        prev.push(j as u128);
        j = j + 1;
    }
    prev.push(b_len as u128);
    let mut i: usize = 0;
    while i < a_len
        invariant
            i <= a_len == a.len(),
            b_len == b.len(),
            b_len > 0,
            prev@.len() == b_len + 1,
            forall|k: int| 0 <= k <= b_len ==> #[trigger] prev@[k] == levenshtein(a@.take(i as int), b@.take(k)),
            forall|k: int| 0 <= k <= b_len ==> #[trigger] prev@[k] <= usize::MAX,
        decreases a_len - i,
    {
        let mut curr: Vec<u128> = Vec::new();
        curr.push((i + 1) as u128);
        proof {
            assert(b@.take(0) =~= Seq::<char>::empty());
        }
        let mut j: usize = 0;
        while j < b_len
            invariant
                i < a_len == a.len(),
                b_len == b.len(),
                j <= b_len,
                prev@.len() == b_len + 1,
                forall|k: int| 0 <= k <= b_len ==> #[trigger] prev@[k] == levenshtein(a@.take(i as int), b@.take(k)),
                forall|k: int| 0 <= k <= b_len ==> #[trigger] prev@[k] <= usize::MAX,
                curr@.len() == j + 1,
                forall|k: int| 0 <= k <= j ==> #[trigger] curr@[k] == levenshtein(a@.take(i + 1), b@.take(k)),
                forall|k: int| 0 <= k <= j ==> #[trigger] curr@[k] <= usize::MAX,
            decreases b_len - j,
        {
            let cost: u128 = if a[i] == b[j] {
                0
            } else {
                1
            };
            let x = curr[j] + 1;
            let y = prev[j + 1] + 1;
            let z = prev[j] + cost;
            let m1 = if x <= y {
                x
            } else {
                y
            };
            let v = if m1 <= z {
                m1
            } else {
                z
            };
            proof {
                let ap = a@.take(i + 1);
                let bp = b@.take(j + 1);
                assert(ap.drop_last() =~= a@.take(i as int));
                assert(bp.drop_last() =~= b@.take(j as int));
                assert(ap.last() == a@[i as int]);
                assert(bp.last() == b@[j as int]);
                lemma_levenshtein_bound(ap, bp);
            }
            curr.push(v);
            j = j + 1;
        }
        prev = curr;
        i = i + 1;
    }
    proof {
        assert(a@.take(a_len as int) =~= a@);
        assert(b@.take(b_len as int) =~= b@);
    }
    prev[b_len] as usize
}

/// A candidate's distance to the query: 0 where either contains the other,
/// else their edit distance.
pub open spec fn fuzzy_score(q: Seq<char>, c: Seq<char>) -> nat {
    if text::contains(c, q) || text::contains(q, c) {
        0
    } else {
        levenshtein(q, c)
    }
}

/// The score of a scored candidate, the key the candidates are ordered by.
pub open spec fn by_score() -> spec_fn((nat, Seq<char>)) -> int {
    |p: (nat, Seq<char>)| p.0 as int
}

/// Each candidate with its score against the lower-cased query `q`, where
/// `lowered[i]` is the lower-cased `cands[i]`.
pub open spec fn scored(q: Seq<char>, lowered: Seq<Seq<char>>, cands: Seq<Seq<char>>) -> Seq<
    (nat, Seq<char>),
> {
    Seq::new(cands.len(), |i: int| (fuzzy_score(q, lowered[i]), cands[i]))
}

/// The candidates `fuzzy_match` returns: ordered by score (stably), at most
/// `max`.
pub open spec fn rank_spec(
    q: Seq<char>,
    lowered: Seq<Seq<char>>,
    cands: Seq<Seq<char>>,
    max: nat,
) -> Seq<Seq<char>> {
    let sorted = order::stable_sort(scored(q, lowered, cands), by_score());
    sorted.take(min_nat(max, sorted.len()) as int).map_values(|p: (nat, Seq<char>)| p.1)
}

/// Suggestions are candidates, at most `max` of them.
pub proof fn lemma_rank(q: Seq<char>, lowered: Seq<Seq<char>>, cands: Seq<Seq<char>>, max: nat)
    ensures
        rank_spec(q, lowered, cands, max).len() <= max,
        forall|j: int|
            0 <= j < rank_spec(q, lowered, cands, max).len() ==> cands.contains(
                #[trigger] rank_spec(q, lowered, cands, max)[j],
            ),
{
    let sc = scored(q, lowered, cands);
    let sorted = order::stable_sort(sc, by_score());
    order::lemma_stable_sort(sc, by_score());
    let r = rank_spec(q, lowered, cands, max);
    assert forall|j: int| 0 <= j < r.len() implies cands.contains(#[trigger] r[j]) by {
        assert(r[j] == sorted[j].1);
        assert(sorted.contains(sorted[j]));
        assert(sc.contains(sorted[j]));
        let m = choose|m: int| 0 <= m < sc.len() && sc[m] == sorted[j];
        assert(sc[m].1 == cands[m]);
    }
}

pub open spec fn pairs_view(v: Seq<(usize, String)>) -> Seq<(nat, Seq<char>)> {
    v.map_values(|p: (usize, String)| (p.0 as nat, p.1@))
}

pub open spec fn strings_view(v: Seq<String>) -> Seq<Seq<char>> {
    v.map_values(|s: String| s@)
}

pub open spec fn chars_view(v: Seq<Vec<char>>) -> Seq<Seq<char>> {
    v.map_values(|s: Vec<char>| s@)
}

/// Rank `candidates` against the lower-cased query, given the lower-cased
/// candidates (`lowered[i]` for `candidates[i]`).
pub fn fuzzy_rank(
    query_lower: &str,
    lowered: &Vec<String>,
    candidates: &[String],
    max_results: usize,
) -> (r: Vec<String>)
    requires
        lowered@.len() == candidates@.len(),
    ensures
        strings_view(r@) == rank_spec(
            query_lower@,
            strings_view(lowered@),
            strings_view(candidates@),
            max_results as nat,
        ),
{
    let q = text::chars_of(query_lower);
    let ghost sc = scored(query_lower@, strings_view(lowered@), strings_view(candidates@));
    let mut sorted: Vec<(usize, String)> = Vec::new();
    let n = candidates.len();
    let mut i: usize = 0;
    proof {
        assert(sc.take(0) =~= Seq::<(nat, Seq<char>)>::empty());
        assert(pairs_view(sorted@) =~= Seq::<(nat, Seq<char>)>::empty());
    }
    while i < n
        invariant
            i <= n == candidates@.len() == lowered@.len(),
            q@ == query_lower@,
            sc == scored(query_lower@, strings_view(lowered@), strings_view(candidates@)),
            pairs_view(sorted@) == order::stable_sort(sc.take(i as int), by_score()),
        decreases n - i,
    {
        let c = text::chars_of(lowered[i].as_str());
        let score: usize = if text::contains_exec(&c, &q) || text::contains_exec(&q, &c) {
            0
        } else {
            levenshtein_distance(&q, &c)
        };
        let ghost sv = pairs_view(sorted@);
        let mut p: usize = 0;
        proof {
            order::lemma_stable_sort(sc.take(i as int), by_score());
        }
        while p < sorted.len() && sorted[p].0 <= score
            invariant
                p <= sorted@.len(),
                sv == pairs_view(sorted@),
                order::insert_pos(sv, by_score(), score as int, 0) == order::insert_pos(
                    sv,
                    by_score(),
                    score as int,
                    p as int,
                ),
            decreases sorted.len() - p,
        {
            p = p + 1;
        }
        let item = text::copy_str(candidates[i].as_str());
        let ghost x = (score as nat, item@);
        sorted.insert(p, (score, item));
        proof {
            let t = sc.take(i + 1);
            assert(t.drop_last() =~= sc.take(i as int));
            assert(t.last() == sc[i as int]);
            assert(sc[i as int] == (fuzzy_score(query_lower@, lowered@[i as int]@), candidates@[i as int]@));
            assert(x == t.last());
            assert(pairs_view(sorted@) =~= sv.insert(p as int, x));
        }
        i = i + 1;
    }
    proof {
        assert(sc.take(n as int) =~= sc);
        order::lemma_stable_sort(sc, by_score());
    }
    let k = if max_results <= sorted.len() {
        max_results
    } else {
        sorted.len()
    };
    let ghost full = order::stable_sort(sc, by_score());
    let mut out: Vec<String> = Vec::new();
    let mut j: usize = 0;
    while j < k
        invariant
            j <= k <= sorted@.len(),
            pairs_view(sorted@) == full,
            strings_view(out@) == full.take(j as int).map_values(|p: (nat, Seq<char>)| p.1),
        decreases k - j,
    {
        let s = text::copy_str(sorted[j].1.as_str());
        let ghost before = out@;
        out.push(s);
        proof {
            assert(full[j as int] == (sorted@[j as int].0 as nat, sorted@[j as int].1@));
            assert(strings_view(out@) =~= strings_view(before).push(s@));
            assert(full.take(j + 1).map_values(|p: (nat, Seq<char>)| p.1) =~= full.take(
                j as int,
            ).map_values(|p: (nat, Seq<char>)| p.1).push(full[j as int].1));
        }
        j = j + 1;
    }
    out
}

/// Simple fuzzy string matching using substring containment and Levenshtein
/// distance: the candidates ordered by `fuzzy_score` against the query
/// (both lower-cased), ties in their given order, at most `max_results`.
pub fn fuzzy_match(query: &str, candidates: &[String], max_results: usize) -> (r: Vec<String>)
    ensures
        strings_view(r@) == rank_spec(
            text::lowercase(query@),
            candidates@.map_values(|c: String| text::lowercase(c@)),
            strings_view(candidates@),
            max_results as nat,
        ),
{
    let query_lower = text::to_lowercase(query);
    let mut lowered: Vec<String> = Vec::new();
    let mut i: usize = 0;
    while i < candidates.len()
        invariant
            i <= candidates@.len(),
            strings_view(lowered@) == candidates@.take(i as int).map_values(|c: String| text::lowercase(c@)),
        decreases candidates.len() - i,
    {
        let l = text::to_lowercase(candidates[i].as_str());
        let ghost before = lowered@;
        lowered.push(l);
        proof {
            assert(strings_view(lowered@) =~= strings_view(before).push(l@));
            assert(candidates@.take(i + 1).map_values(|c: String| text::lowercase(c@))
                =~= candidates@.take(i as int).map_values(|c: String| text::lowercase(c@)).push(
                text::lowercase(candidates@[i as int]@),
            ));
        }
        i = i + 1;
    }
    proof {
        assert(candidates@.take(candidates@.len() as int) =~= candidates@);
    }
    fuzzy_rank(query_lower.as_str(), &lowered, candidates, max_results)
}

} // verus!
