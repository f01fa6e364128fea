//! Body conversions: HTML to plain text, HTML to Markdown, plain text to
//! HTML, sanitisation and truncation.
use vstd::prelude::*;
use crate::text;

verus! {

// ── HTML entities ───────────────────────────────────────────────────

/// The entity that starts at position `i` of `s`, as its length and the
/// character it stands for; length 0 where no entity starts there.
pub open spec fn entity_at(s: Seq<char>, i: int) -> (int, char) {
    if text::matches_at(s, "&lt;"@, i) {
        (4, '<')
    } else if text::matches_at(s, "&gt;"@, i) {
        (4, '>')
    } else if text::matches_at(s, "&amp;"@, i) {
        (5, '&')
    } else if text::matches_at(s, "&quot;"@, i) {
        (6, '"')
    } else if text::matches_at(s, "&#39;"@, i) {
        (5, '\'')
    } else if text::matches_at(s, "&apos;"@, i) {
        (6, '\'')
    } else if text::matches_at(s, "&nbsp;"@, i) {
        (6, ' ')
    } else if text::matches_at(s, "&#160;"@, i) {
        (6, ' ')
    } else if text::matches_at(s, "&#x27;"@, i) {
        (6, '\'')
    } else if text::matches_at(s, "&#x22;"@, i) {
        (6, '"')
    } else if text::matches_at(s, "&#x3C;"@, i) {
        (6, '<')
    } else if text::matches_at(s, "&#x3E;"@, i) {
        (6, '>')
    } else if text::matches_at(s, "&#x26;"@, i) {
        (6, '&')
    } else {
        (0, ' ')
    }
}

/// An entity lies within the text.
pub proof fn lemma_entity_within(s: Seq<char>, i: int)
    ensures
        entity_at(s, i).0 > 0 ==> 0 <= i && i + entity_at(s, i).0 <= s.len(),
{
    reveal_strlit("&lt;");
    reveal_strlit("&gt;");
    reveal_strlit("&amp;");
    reveal_strlit("&quot;");
    reveal_strlit("&#39;");
    reveal_strlit("&apos;");
    reveal_strlit("&nbsp;");
    reveal_strlit("&#160;");
    reveal_strlit("&#x27;");
    reveal_strlit("&#x22;");
    reveal_strlit("&#x3C;");
    reveal_strlit("&#x3E;");
    reveal_strlit("&#x26;");
}

/// `s[i..]` with the common entities decoded, left to right: each entity
/// is replaced by the character it stands for and decoding resumes after
/// it, so the decoded text is never decoded again.
pub open spec fn decode_from(s: Seq<char>, i: int) -> Seq<char>
    decreases s.len() - i,
{
    if 0 <= i < s.len() {
        if entity_at(s, i).0 > 0 {
            proof {
                lemma_entity_within(s, i);
            }
            seq![entity_at(s, i).1] + decode_from(s, i + entity_at(s, i).0)
        } else {
            seq![s[i]] + decode_from(s, i + 1)
        }
    } else {
        Seq::empty()
    }
}

/// The entity decoding applied to converted bodies: `&lt;`, `&gt;`, `&amp;`,
/// `&quot;`, `&#39;`, `&apos;`, `&nbsp;`, `&#160;`, `&#x27;`, `&#x22;`,
/// `&#x3C;`, `&#x3E;` and `&#x26;`, each decoded once.
pub open spec fn decode_basic_entities(t: Seq<char>) -> Seq<char> {
    decode_from(t, 0)
}

/// Every entity starts with `&`: a position holding anything else starts
/// none.
pub proof fn lemma_entity_needs_amp(s: Seq<char>, i: int)
    requires
        0 <= i < s.len(),
        s[i] != '&',
    ensures
        entity_at(s, i).0 == 0,
{
    reveal_strlit("&lt;");
    reveal_strlit("&gt;");
    reveal_strlit("&amp;");
    reveal_strlit("&quot;");
    reveal_strlit("&#39;");
    reveal_strlit("&apos;");
    reveal_strlit("&nbsp;");
    reveal_strlit("&#160;");
    reveal_strlit("&#x27;");
    reveal_strlit("&#x22;");
    reveal_strlit("&#x3C;");
    reveal_strlit("&#x3E;");
    reveal_strlit("&#x26;");
    assert(!text::matches_at(s, "&lt;"@, i)) by {
        if text::matches_at(s, "&lt;"@, i) {
            assert(s.subrange(i, i + "&lt;"@.len())[0] == s[i]);
        }
    }
    assert(!text::matches_at(s, "&gt;"@, i)) by {
        if text::matches_at(s, "&gt;"@, i) {
            assert(s.subrange(i, i + "&gt;"@.len())[0] == s[i]);
        }
    }
    assert(!text::matches_at(s, "&amp;"@, i)) by {
        if text::matches_at(s, "&amp;"@, i) {
            assert(s.subrange(i, i + "&amp;"@.len())[0] == s[i]);
        }
    }
    assert(!text::matches_at(s, "&quot;"@, i)) by {
        if text::matches_at(s, "&quot;"@, i) {
            assert(s.subrange(i, i + "&quot;"@.len())[0] == s[i]);
        }
    }
    assert(!text::matches_at(s, "&#39;"@, i)) by {
        if text::matches_at(s, "&#39;"@, i) {
            assert(s.subrange(i, i + "&#39;"@.len())[0] == s[i]);
        }
    }
    assert(!text::matches_at(s, "&apos;"@, i)) by {
        if text::matches_at(s, "&apos;"@, i) {
            assert(s.subrange(i, i + "&apos;"@.len())[0] == s[i]);
        }
    }
    assert(!text::matches_at(s, "&nbsp;"@, i)) by {
        if text::matches_at(s, "&nbsp;"@, i) {
            assert(s.subrange(i, i + "&nbsp;"@.len())[0] == s[i]);
        }
    }
    assert(!text::matches_at(s, "&#160;"@, i)) by {
        if text::matches_at(s, "&#160;"@, i) {
            assert(s.subrange(i, i + "&#160;"@.len())[0] == s[i]);
        }
    }
    assert(!text::matches_at(s, "&#x27;"@, i)) by {
        if text::matches_at(s, "&#x27;"@, i) {
            assert(s.subrange(i, i + "&#x27;"@.len())[0] == s[i]);
        }
    }
    assert(!text::matches_at(s, "&#x22;"@, i)) by {
        if text::matches_at(s, "&#x22;"@, i) {
            assert(s.subrange(i, i + "&#x22;"@.len())[0] == s[i]);
        }
    }
    assert(!text::matches_at(s, "&#x3C;"@, i)) by {
        if text::matches_at(s, "&#x3C;"@, i) {
            assert(s.subrange(i, i + "&#x3C;"@.len())[0] == s[i]);
        }
    }
    assert(!text::matches_at(s, "&#x3E;"@, i)) by {
        if text::matches_at(s, "&#x3E;"@, i) {
            assert(s.subrange(i, i + "&#x3E;"@.len())[0] == s[i]);
        }
    }
    assert(!text::matches_at(s, "&#x26;"@, i)) by {
        if text::matches_at(s, "&#x26;"@, i) {
            assert(s.subrange(i, i + "&#x26;"@.len())[0] == s[i]);
        }
    }
}

fn entity_at_exec(s: &Vec<char>, i: usize) -> (r: (usize, char))
    requires
        i < s.len(),
    ensures
        r.0 as int == entity_at(s@, i as int).0,
        r.0 > 0 ==> r.1 == entity_at(s@, i as int).1,
{
    if s[i] != '&' {
        proof {
            lemma_entity_needs_amp(s@, i as int);
        }
        return (0, ' ');
    }
    if text::matches_at_exec(s, &text::chars_of("&lt;"), i) {
        return (4, '<');
    }
    if text::matches_at_exec(s, &text::chars_of("&gt;"), i) {
        return (4, '>');
    }
    if text::matches_at_exec(s, &text::chars_of("&amp;"), i) {
        return (5, '&');
    }
    if text::matches_at_exec(s, &text::chars_of("&quot;"), i) {
        return (6, '"');
    }
    if text::matches_at_exec(s, &text::chars_of("&#39;"), i) {
        return (5, '\'');
    }
    if text::matches_at_exec(s, &text::chars_of("&apos;"), i) {
        return (6, '\'');
    }
    if text::matches_at_exec(s, &text::chars_of("&nbsp;"), i) {
        return (6, ' ');
    }
    if text::matches_at_exec(s, &text::chars_of("&#160;"), i) {
        return (6, ' ');
    }
    if text::matches_at_exec(s, &text::chars_of("&#x27;"), i) {
        return (6, '\'');
    }
    if text::matches_at_exec(s, &text::chars_of("&#x22;"), i) {
        return (6, '"');
    }
    if text::matches_at_exec(s, &text::chars_of("&#x3C;"), i) {
        return (6, '<');
    }
    if text::matches_at_exec(s, &text::chars_of("&#x3E;"), i) {
        return (6, '>');
    }
    if text::matches_at_exec(s, &text::chars_of("&#x26;"), i) {
        return (6, '&');
    }
    (0, ' ')
}

pub fn decode_basic_entities_exec(text: &Vec<char>) -> (out: Vec<char>)
    ensures
        out@ == decode_basic_entities(text@),
{
    let mut out: Vec<char> = Vec::new();
    let mut i: usize = 0;
    while i < text.len()
        invariant
            i <= text.len(),
            out@ + decode_from(text@, i as int) == decode_basic_entities(text@),
        decreases text.len() - i,
    {
        let (n, c) = entity_at_exec(text, i);
        if n > 0 {
            proof {
                lemma_entity_within(text@, i as int);
                assert(out@.push(c) + decode_from(text@, i + n) =~= out@ + (seq![c] + decode_from(
                    text@,
                    i + n,
                )));
            }
            out.push(c);
            i = i + n;
        } else {
            proof {
                assert(out@.push(text@[i as int]) + decode_from(text@, i + 1) =~= out@ + (seq![
                    text@[i as int],
                ] + decode_from(text@, i + 1)));
            }
            out.push(text[i]);
            i = i + 1;
        }
    }
    proof {
        assert(out@ + Seq::<char>::empty() =~= out@);
    }
    out
}

// ── HTML → text ─────────────────────────────────────────────────────

/// The position of the first `>` at or after `i`.
pub open spec fn next_gt(s: Seq<char>, i: int) -> Option<int> {
    text::find_from(s, seq!['>'], i)
}

/// The end of the tag starting at `i`, if one does: `<`, one or more
/// characters other than `>`, and `>`.
pub open spec fn tag_end_at(s: Seq<char>, i: int) -> Option<int> {
    if 0 <= i < s.len() && s[i] == '<' {
        match next_gt(s, i + 1) {
            Some(j) => if j > i + 1 {
                Some(j + 1)
            } else {
                None
            },
            None => None,
        }
    } else {
        None
    }
}

pub proof fn lemma_tag_end_at(s: Seq<char>, i: int)
    ensures
        tag_end_at(s, i) matches Some(e) ==> i + 2 < e <= s.len() && s[e - 1] == '>',
{
    if 0 <= i < s.len() && s[i] == '<' {
        text::lemma_find_from_bounds(s, seq!['>'], i + 1);
        if let Some(j) = next_gt(s, i + 1) {
            assert(s.subrange(j, j + 1)[0] == s[j]);
        }
    }
}

/// `s[i..]` with every tag removed: a tag is `<`, one or more characters
/// other than `>`, and `>`, found left to right (the grammar `<[^>]+>`).
pub open spec fn strip_tags_from(s: Seq<char>, i: int) -> Seq<char>
    decreases s.len() - i,
{
    if i < 0 || i >= s.len() {
        Seq::empty()
    } else if let Some(e) = tag_end_at(s, i) {
        proof {
            lemma_tag_end_at(s, i);
        }
        strip_tags_from(s, e)
    } else {
        seq![s[i]] + strip_tags_from(s, i + 1)
    }
}

pub open spec fn strip_tags(s: Seq<char>) -> Seq<char> {
    strip_tags_from(s, 0)
}

pub fn strip_tags_exec(s: &Vec<char>) -> (out: Vec<char>)
    ensures
        out@ == strip_tags(s@),
{
    let mut gt: Vec<char> = Vec::new();
    gt.push('>');
    proof {
        assert(gt@ =~= seq!['>']);
    }
    let mut out: Vec<char> = Vec::new();
    let mut i: usize = 0;
    while i < s.len()
        invariant
            i <= s.len(),
            gt@ == seq!['>'],
            out@ + strip_tags_from(s@, i as int) == strip_tags(s@),
        decreases s.len() - i,
    {
        let mut skipped = false;
        if s[i] == '<' {
            match text::find_from_exec(s, &gt, i + 1) {
                Some(j) => {
                    if j > i + 1 {
                        proof {
                            text::lemma_find_from_bounds(s@, seq!['>'], i + 1);
                        }
                        i = j + 1;
                        skipped = true;
                    }
                },
                None => {},
            }
        }
        if !skipped {
            proof {
                assert(out@.push(s@[i as int]) + strip_tags_from(s@, i + 1) =~= out@ + (seq![
                    s@[i as int],
                ] + strip_tags_from(s@, i + 1)));
            }
            out.push(s[i]);
            i = i + 1;
        }
    }
    proof {
        assert(out@ + Seq::<char>::empty() =~= out@);
    }
    out
}

/// The text `html_to_text` produces: line breaks and paragraph ends become
/// newlines, paragraph starts vanish, remaining tags are stripped and the
/// basic entities are decoded.
pub open spec fn html_to_text_spec(html: Seq<char>) -> Seq<char> {
    let t = text::replace_all(html, "<br>"@, "\n"@);
    let t = text::replace_all(t, "<br/>"@, "\n"@);
    let t = text::replace_all(t, "<br />"@, "\n"@);
    let t = text::replace_all(t, "</p>"@, "\n\n"@);
    let t = text::replace_all(t, "<p>"@, ""@);
    decode_basic_entities(strip_tags(t))
}

proof fn lemma_strip_tags_absent(s: Seq<char>, i: int)
    requires
        0 <= i <= s.len(),
        forall|j: int| 0 <= j < s.len() ==> s[j] != '<',
    ensures
        strip_tags_from(s, i) == s.subrange(i, s.len() as int),
    decreases s.len() - i,
{
    if i < s.len() {
        lemma_strip_tags_absent(s, i + 1);
        assert(seq![s[i]] + s.subrange(i + 1, s.len() as int) =~= s.subrange(i, s.len() as int));
    } else {
        assert(s.subrange(i, s.len() as int) =~= Seq::<char>::empty());
    }
}

proof fn lemma_decode_absent(s: Seq<char>, i: int)
    requires
        0 <= i <= s.len(),
        forall|j: int| 0 <= j < s.len() ==> s[j] != '&',
    ensures
        decode_from(s, i) == s.subrange(i, s.len() as int),
    decreases s.len() - i,
{
    if i < s.len() {
        lemma_entity_needs_amp(s, i);
        lemma_decode_absent(s, i + 1);
        assert(seq![s[i]] + s.subrange(i + 1, s.len() as int) =~= s.subrange(i, s.len() as int));
    } else {
        assert(s.subrange(i, s.len() as int) =~= Seq::<char>::empty());
    }
}

/// Text with no `<` and no `&` is plain text already: converting it gives
/// it back unchanged.
pub proof fn lemma_html_to_text_plain(html: Seq<char>)
    requires
        forall|j: int| 0 <= j < html.len() ==> html[j] != '<' && html[j] != '&',
    ensures
        html_to_text_spec(html) == html,
{
    reveal_strlit("<br>");
    reveal_strlit("<br/>");
    reveal_strlit("<br />");
    reveal_strlit("</p>");
    reveal_strlit("<p>");
    assert(html.subrange(0, html.len() as int) =~= html);
    text::lemma_replace_absent(html, "<br>"@, "\n"@, 0);
    text::lemma_replace_absent(html, "<br/>"@, "\n"@, 0);
    text::lemma_replace_absent(html, "<br />"@, "\n"@, 0);
    text::lemma_replace_absent(html, "</p>"@, "\n\n"@, 0);
    text::lemma_replace_absent(html, "<p>"@, ""@, 0);
    lemma_strip_tags_absent(html, 0);
    lemma_decode_absent(html, 0);
}

/// Strip HTML tags and decode common entities to produce plain text.
/// Preserves paragraph breaks by replacing `<br>` and `</p>` with `\n`.
pub fn html_to_text(html: &str) -> (text: String)
    ensures
        text@ == html_to_text_spec(html@),
{
    let h = text::chars_of(html);
    let t = text::replace_str(&h, "<br>", "\n");
    let t = text::replace_str(&t, "<br/>", "\n");
    let t = text::replace_str(&t, "<br />", "\n");
    let t = text::replace_str(&t, "</p>", "\n\n");
    let t = text::replace_str(&t, "<p>", "");
    let t = strip_tags_exec(&t);
    let t = decode_basic_entities_exec(&t);
    text::string_of(&t)
}

// ── Truncation ──────────────────────────────────────────────────────

pub open spec fn is_break(c: char) -> bool {
    c == ' ' || c == '\n' || c == '\t'
}

/// The largest `k >= i` such that the first `k` characters of `s` take at
/// most `max_bytes` bytes, given that the first `i` do.
pub open spec fn fit_from(s: Seq<char>, max_bytes: nat, i: int) -> int
    decreases s.len() - i,
{
    if 0 <= i < s.len() && text::byte_len(s.take(i + 1)) <= max_bytes {
        fit_from(s, max_bytes, i + 1)
    } else {
        i
    }
}

/// The number of characters of the longest prefix of `s` that fits in
/// `max_bytes` bytes.
pub open spec fn fit_prefix(s: Seq<char>, max_bytes: nat) -> int {
    fit_from(s, max_bytes, 0)
}

/// The end of the last word break at or before `k`: the largest `j <= k`
/// such that `s[j - 1]` is a space, newline or tab, or 0.
pub open spec fn last_break_end(s: Seq<char>, k: int) -> int
    decreases k,
{
    if k <= 0 {
        0
    } else if is_break(s[k - 1]) {
        k
    } else {
        last_break_end(s, k - 1)
    }
}

/// `k` moved back over a run of spaces, newlines and tabs.
pub open spec fn trim_breaks(s: Seq<char>, k: int) -> int
    decreases k,
{
    if k > 0 && is_break(s[k - 1]) {
        trim_breaks(s, k - 1)
    } else {
        k
    }
}

/// The number of characters kept by `truncate_text_with_suffix` when `s`
/// does not fit: the text up to the last word break that fits, without the
/// break, or, where there is none, the longest prefix that fits.
pub open spec fn truncation_point(s: Seq<char>, max_bytes: nat) -> int {
    let k0 = fit_prefix(s, max_bytes);
    let b = last_break_end(s, k0);
    let e = if b == 0 {
        0
    } else {
        trim_breaks(s, b)
    };
    if e == 0 {
        k0
    } else {
        e
    }
}

pub open spec fn truncate_spec(s: Seq<char>, max_bytes: nat, suffix: Seq<char>) -> Seq<char> {
    if text::byte_len(s) <= max_bytes {
        s
    } else {
        s.take(truncation_point(s, max_bytes)) + suffix
    }
}

proof fn lemma_fit_from_bounds(s: Seq<char>, max_bytes: nat, i: int)
    requires
        0 <= i <= s.len(),
    ensures
        i <= fit_from(s, max_bytes, i) <= s.len(),
    decreases s.len() - i,
{
    if 0 <= i < s.len() && text::byte_len(s.take(i + 1)) <= max_bytes {
        lemma_fit_from_bounds(s, max_bytes, i + 1);
    }
}

proof fn lemma_last_break_bounds(s: Seq<char>, k: int)
    requires
        k <= s.len(),
    ensures
        0 <= last_break_end(s, k),
        k >= 0 ==> last_break_end(s, k) <= k,
    decreases k,
{
    if k > 0 && !is_break(s[k - 1]) {
        lemma_last_break_bounds(s, k - 1);
    }
}

proof fn lemma_trim_breaks_bounds(s: Seq<char>, k: int)
    requires
        0 <= k <= s.len(),
    ensures
        0 <= trim_breaks(s, k) <= k,
    decreases k,
{
    if k > 0 && is_break(s[k - 1]) {
        lemma_trim_breaks_bounds(s, k - 1);
    }
}

proof fn lemma_fit_from_fits(s: Seq<char>, max_bytes: nat, i: int)
    requires
        0 <= i <= s.len(),
        text::byte_len(s.take(i)) <= max_bytes,
    ensures
        text::byte_len(s.take(fit_from(s, max_bytes, i))) <= max_bytes,
    decreases s.len() - i,
{
    if 0 <= i < s.len() && text::byte_len(s.take(i + 1)) <= max_bytes {
        lemma_fit_from_fits(s, max_bytes, i + 1);
    }
}

/// Truncation keeps a text that fits as it is, and cuts one that does not
/// to a prefix that fits, followed by the suffix.
pub proof fn lemma_truncate(s: Seq<char>, max_bytes: nat, suffix: Seq<char>)
    ensures
        text::byte_len(s) <= max_bytes ==> truncate_spec(s, max_bytes, suffix) == s,
        text::byte_len(s) > max_bytes ==> exists|k: int|
            0 <= k <= s.len() && text::byte_len(s.take(k)) <= max_bytes && #[trigger] truncate_spec(
                s,
                max_bytes,
                suffix,
            ) == s.take(k) + suffix,
{
    if text::byte_len(s) > max_bytes {
        assert(s.take(0) =~= Seq::<char>::empty());
        lemma_fit_from_bounds(s, max_bytes, 0);
        lemma_fit_from_fits(s, max_bytes, 0);
        let k0 = fit_prefix(s, max_bytes);
        lemma_last_break_bounds(s, k0);
        let b = last_break_end(s, k0);
        if b != 0 {
            lemma_trim_breaks_bounds(s, b);
        }
        let k = truncation_point(s, max_bytes);
        assert(0 <= k <= k0);
        text::lemma_byte_len_take_mono(s, k, k0);
        assert(truncate_spec(s, max_bytes, suffix) == s.take(k) + suffix);
    }
}

/// A space, newline or tab: where a text may be cut between words.
pub open spec fn is_word_gap(c: char) -> bool {
    c == ' ' || c == '\n' || c == '\t'
}

proof fn lemma_fit_from_is(s: Seq<char>, max_bytes: nat, i: int, k: int)
    requires
        0 <= i <= k <= s.len(),
        text::byte_len(s.take(k)) <= max_bytes,
        k == s.len() || text::byte_len(s.take(k + 1)) > max_bytes,
    ensures
        fit_from(s, max_bytes, i) == k,
    decreases k - i,
{
    if i < k {
        text::lemma_byte_len_take_mono(s, i + 1, k);
        lemma_fit_from_is(s, max_bytes, i + 1, k);
    }
}

proof fn lemma_last_break_is(s: Seq<char>, k: int, b: int)
    requires
        0 < b <= k <= s.len(),
        is_word_gap(s[b - 1]),
        forall|j: int| b <= j < k ==> !is_word_gap(#[trigger] s[j]),
    ensures
        last_break_end(s, k) == b,
    decreases k,
{
    if k > b {
        assert(!is_word_gap(s[k - 1]));
        lemma_last_break_is(s, k - 1, b);
    }
}

proof fn lemma_no_break_before(s: Seq<char>, k: int)
    requires
        0 <= k <= s.len(),
        forall|j: int| 0 <= j < k ==> !is_word_gap(#[trigger] s[j]),
    ensures
        last_break_end(s, k) == 0,
    decreases k,
{
    if k > 0 {
        assert(!is_word_gap(s[k - 1]));
        lemma_no_break_before(s, k - 1);
    }
}

proof fn lemma_trim_breaks_is(s: Seq<char>, b: int, e: int)
    requires
        0 < e <= b <= s.len(),
        !is_word_gap(s[e - 1]),
        forall|j: int| e <= j < b ==> is_word_gap(#[trigger] s[j]),
    ensures
        trim_breaks(s, b) == e,
    decreases b,
{
    if b > e {
        assert(is_word_gap(s[b - 1]));
        lemma_trim_breaks_is(s, b - 1, e);
    }
}

/// A text that does not fit is cut between words: where the longest prefix
/// that fits (its first `k` characters) holds a space, newline or tab, the
/// cut comes after the last word before the last of them (`b` is the end of
/// that last gap, `e` the end of the word before the run of gaps), and the
/// suffix follows.  A newline or a tab is a gap exactly as a space is.
pub proof fn lemma_truncate_at_word_gap(
    s: Seq<char>,
    max_bytes: nat,
    suffix: Seq<char>,
    k: int,
    b: int,
    e: int,
)
    requires
        text::byte_len(s) > max_bytes,
        0 < e < b <= k < s.len(),
        text::byte_len(s.take(k)) <= max_bytes < text::byte_len(s.take(k + 1)),
        s[b - 1] == ' ' || s[b - 1] == '\n' || s[b - 1] == '\t',
        forall|j: int|
            b <= j < k ==> #[trigger] s[j] != ' ' && s[j] != '\n' && s[j] != '\t',
        forall|j: int| e <= j < b ==> #[trigger] s[j] == ' ' || s[j] == '\n' || s[j] == '\t',
        s[e - 1] != ' ' && s[e - 1] != '\n' && s[e - 1] != '\t',
    ensures
        truncate_spec(s, max_bytes, suffix) == s.take(e) + suffix,
{
    lemma_fit_from_is(s, max_bytes, 0, k);
    assert forall|j: int| b <= j < k implies !is_word_gap(#[trigger] s[j]) by {}
    assert forall|j: int| e <= j < b implies is_word_gap(#[trigger] s[j]) by {}
    lemma_last_break_is(s, k, b);
    lemma_trim_breaks_is(s, b, e);
    assert(is_break(s[b - 1]));
}

/// A text that does not fit, whose longest fitting prefix (its first `k`
/// characters) holds no space, newline or tab, is cut after that prefix.
pub proof fn lemma_truncate_without_gap(s: Seq<char>, max_bytes: nat, suffix: Seq<char>, k: int)
    requires
        text::byte_len(s) > max_bytes,
        0 <= k < s.len(),
        text::byte_len(s.take(k)) <= max_bytes < text::byte_len(s.take(k + 1)),
        forall|j: int| 0 <= j < k ==> #[trigger] s[j] != ' ' && s[j] != '\n' && s[j] != '\t',
    ensures
        truncate_spec(s, max_bytes, suffix) == s.take(k) + suffix,
{
    lemma_fit_from_is(s, max_bytes, 0, k);
    assert forall|j: int| 0 <= j < k implies !is_word_gap(#[trigger] s[j]) by {}
    lemma_no_break_before(s, k);
}

pub fn is_break_exec(c: char) -> (r: bool)
    ensures
        r == is_break(c),
{
    c == ' ' || c == '\n' || c == '\t'
}

/// Truncate text at a word boundary, appending a custom suffix.
///
/// A text of at most `max_bytes` bytes (UTF-8) comes back unchanged.  A
/// longer one is cut after the last word that fits in `max_bytes` bytes,
/// without the trailing spaces, newlines and tabs; where no word break fits,
/// it is cut after the longest prefix of whole characters that fits.
pub fn truncate_text_with_suffix(text: &str, max_bytes: usize, suffix: &str) -> (r: String)
    ensures
        r@ == truncate_spec(text@, max_bytes as nat, suffix@),
{
    let s = text::chars_of(text);
    // Find the longest prefix that fits, counting bytes as we go.
    let mut k0: usize = 0;
    let mut used: usize = 0;
    proof {
        assert(s@.take(0) =~= Seq::<char>::empty());
    }
    while k0 < s.len() && text::char_width(s[k0]) <= max_bytes - used
        invariant
            k0 <= s.len(),
            used == text::byte_len(s@.take(k0 as int)),
            used <= max_bytes,
            fit_prefix(s@, max_bytes as nat) == fit_from(s@, max_bytes as nat, k0 as int),
        decreases s.len() - k0,
    {
        proof {
            text::lemma_byte_len_take_succ(s@, k0 as int);
        }
        used = used + text::char_width(s[k0]);
        k0 = k0 + 1;
    }
    proof {
        if k0 < s.len() {
            text::lemma_byte_len_take_succ(s@, k0 as int);
        }
    }
    if k0 == s.len() {
        // The whole text fits.
        proof {
            assert(s@.take(s@.len() as int) =~= s@);
        }
        return text::copy_str(text);
    }
    proof {
        // It does not fit: text::byte_len(s) >= text::byte_len(take(k0 + 1)) > max_bytes.
        text::lemma_byte_len_take_succ(s@, k0 as int);
        text::lemma_byte_len_take_mono(s@, k0 + 1, s.len() as int);
        assert(s@.take(s@.len() as int) =~= s@);
        text::lemma_byte_len_take_mono_strict(s@, k0 + 1, s.len() as int);
    }
    // Walk back to a word boundary.
    let mut b: usize = k0;
    while b > 0 && !is_break_exec(s[b - 1])
        invariant
            b <= k0 < s.len(),
            last_break_end(s@, k0 as int) == last_break_end(s@, b as int),
        decreases b,
    {
        b = b - 1;
    }
    let mut e: usize = 0;
    if b > 0 {
        e = b;
        while e > 0 && is_break_exec(s[e - 1])
            invariant
                e <= b <= k0 < s.len(),
                trim_breaks(s@, b as int) == trim_breaks(s@, e as int),
            decreases e,
        {
            e = e - 1;
        }
    }
    let fin = if e == 0 { k0 } else { e };
    let mut r = text::string_of_range(&s, 0, fin);
    text::push_str(&mut r, suffix);
    proof {
        assert(s@.subrange(0, fin as int) =~= s@.take(fin as int));
    }
    r
}

/// Truncate text at a word boundary, appending ` [truncated...]`.
pub fn truncate_text(text: &str, max_chars: usize) -> (r: String)
    ensures
        r@ == truncate_spec(text@, max_chars as nat, " [truncated...]"@),
{
    truncate_text_with_suffix(text, max_chars, " [truncated...]")
}

} // verus!

verus! {

// ── HTML → Markdown ─────────────────────────────────────────────────

/// A tag found by the Markdown converter: `<`, an optional `/`, one or more
/// ASCII letters or digits (the name), any characters other than `>` (the
/// attributes) and `>`; `end` is the position after the `>`.
pub struct TagTok {
    pub end: int,
    pub closing: bool,
    pub name: Seq<char>,
    pub attrs: Seq<char>,
}

/// The end of the run of ASCII letters and digits starting at `i`.
pub open spec fn alnum_run_end(s: Seq<char>, i: int) -> int
    decreases s.len() - i,
{
    if 0 <= i < s.len() && text::is_ascii_alnum(s[i]) {
        alnum_run_end(s, i + 1)
    } else {
        i
    }
}

/// The tag starting at `k`, if one does.
pub open spec fn tag_at(s: Seq<char>, k: int) -> Option<TagTok> {
    if 0 <= k < s.len() && s[k] == '<' {
        let closing = k + 1 < s.len() && s[k + 1] == '/';
        let ns = if closing {
            k + 2
        } else {
            k + 1
        };
        let ne = alnum_run_end(s, ns);
        if ne == ns {
            None
        } else {
            match next_gt(s, ne) {
                Some(j) => Some(
                    TagTok {
                        end: j + 1,
                        closing,
                        name: s.subrange(ns, ne),
                        attrs: s.subrange(ne, j),
                    },
                ),
                None => None,
            }
        }
    } else {
        None
    }
}

/// The end of the run of whitespace starting at `i`.
pub open spec fn skip_ws(s: Seq<char>, i: int) -> int
    decreases s.len() - i,
{
    if 0 <= i < s.len() && text::is_ws(s[i]) {
        skip_ws(s, i + 1)
    } else {
        i
    }
}

/// The value of `href = "…"` starting at `k` (the grammar
/// `href\s*=\s*"([^"]*)"`), if it does.
pub open spec fn href_at(s: Seq<char>, k: int) -> Option<Seq<char>> {
    if text::matches_at(s, "href"@, k) {
        let m1 = skip_ws(s, k + "href"@.len());
        if 0 <= m1 < s.len() && s[m1] == '=' {
            let m2 = skip_ws(s, m1 + 1);
            if 0 <= m2 < s.len() && s[m2] == '"' {
                match text::find_from(s, seq!['"'], m2 + 1) {
                    Some(c) => Some(s.subrange(m2 + 1, c)),
                    None => None,
                }
            } else {
                None
            }
        } else {
            None
        }
    } else {
        None
    }
}

/// The leftmost `href` value at or after `k`.
pub open spec fn href_from(s: Seq<char>, k: int) -> Option<Seq<char>>
    decreases s.len() - k,
{
    if k < 0 || k >= s.len() {
        None
    } else {
        match href_at(s, k) {
            Some(v) => Some(v),
            None => href_from(s, k + 1),
        }
    }
}

/// The link target of an `<a>` tag's attributes: `Some(None)` where there
/// is none, `Some(Some(v))` where there is one, and `None` where the value is
/// a lone quote, which the converter does not accept.
pub open spec fn extract_href(attrs: Seq<char>) -> Option<Option<Seq<char>>> {
    match href_from(attrs, 0) {
        None => Some(None),
        Some(v) => if v.len() >= 1 && ((v[0] == '\'' && v.last() == '\'') || (v[0] == '"'
            && v.last() == '"')) {
            if v.len() == 1 {
                None
            } else {
                Some(Some(v.subrange(1, v.len() - 1)))
            }
        } else {
            Some(Some(v))
        },
    }
}

/// The state of the Markdown converter: the pending link target, the list
/// nesting depth, and for each open list whether it is ordered and its next
/// item number.
pub struct MdModel {
    pub href: Option<Seq<char>>,
    pub depth: nat,
    pub ordered: Seq<bool>,
    pub counters: Seq<nat>,
}

pub open spec fn md_init() -> MdModel {
    MdModel { href: None, depth: 0, ordered: Seq::empty(), counters: Seq::empty() }
}

pub open spec fn pop_last<A>(s: Seq<A>) -> Seq<A> {
    if s.len() > 0 {
        s.drop_last()
    } else {
        s
    }
}

pub open spec fn lower_name(n: Seq<char>) -> Seq<char> {
    n.map_values(|c: char| text::ascii_lower(c))
}

pub open spec fn heading_level(n: Seq<char>) -> nat {
    if n == "h1"@ {
        1
    } else if n == "h2"@ {
        2
    } else if n == "h3"@ {
        3
    } else if n == "h4"@ {
        4
    } else if n == "h5"@ {
        5
    } else if n == "h6"@ {
        6
    } else {
        0
    }
}

/// What the converter writes for one tag, and its state afterwards; `None`
/// where the tag is not accepted (see `extract_href`).
pub open spec fn apply_tag(t: TagTok, st: MdModel) -> Option<(Seq<char>, MdModel)> {
    let n = lower_name(t.name);
    if heading_level(n) > 0 {
        if !t.closing {
            Some((text::repeat("#"@, heading_level(n)) + " "@, st))
        } else {
            Some(("\n"@, st))
        }
    } else if n == "b"@ || n == "strong"@ {
        Some(("**"@, st))
    } else if n == "i"@ || n == "em"@ {
        Some(("*"@, st))
    } else if n == "a"@ {
        if t.closing {
            match st.href {
                Some(h) => Some(("]("@ + h + ")"@, MdModel { href: None, ..st })),
                None => Some((Seq::empty(), st)),
            }
        } else {
            match extract_href(t.attrs) {
                None => None,
                Some(None) => Some((Seq::empty(), st)),
                Some(Some(h)) => Some(("["@, MdModel { href: Some(h), ..st })),
            }
        }
    } else if n == "ul"@ || n == "ol"@ {
        if t.closing {
            Some(
                (
                    "\n"@,
                    MdModel {
                        href: st.href,
                        depth: if st.depth > 0 {
                            (st.depth - 1) as nat
                        } else {
                            0
                        },
                        ordered: pop_last(st.ordered),
                        counters: pop_last(st.counters),
                    },
                ),
            )
        } else {
            Some(
                (
                    Seq::empty(),
                    MdModel {
                        href: st.href,
                        depth: st.depth + 1,
                        ordered: st.ordered.push(n == "ol"@),
                        counters: st.counters.push(
                            if n == "ol"@ {
                                1nat
                            } else {
                                0nat
                            },
                        ),
                    },
                ),
            )
        }
    } else if n == "li"@ {
        if !t.closing {
            let indent = text::repeat(
                "  "@,
                if st.depth > 0 {
                    (st.depth - 1) as nat
                } else {
                    0
                },
            );
            if st.ordered.len() > 0 && st.ordered.last() {
                let num: nat = if st.counters.len() > 0 {
                    st.counters.last()
                } else {
                    0
                };
                let counters = if st.counters.len() > 0 {
                    st.counters.update(st.counters.len() - 1, num + 1)
                } else {
                    st.counters
                };
                Some((indent + text::decimal(num) + ". "@, MdModel { counters, ..st }))
            } else {
                Some((indent + "- "@, st))
            }
        } else {
            Some(("\n"@, st))
        }
    } else if n == "br"@ {
        Some(("\n"@, st))
    } else if n == "p"@ && t.closing {
        Some(("\n\n"@, st))
    } else {
        Some((Seq::empty(), st))
    }
}

pub open spec fn prefix_opt(p: Seq<char>, o: Option<Seq<char>>) -> Option<Seq<char>> {
    match o {
        Some(r) => Some(p + r),
        None => None,
    }
}

pub proof fn lemma_tag_at(s: Seq<char>, k: int)
    ensures
        tag_at(s, k) matches Some(t) ==> k + 3 <= t.end <= s.len(),
{
    if 0 <= k < s.len() && s[k] == '<' {
        let closing = k + 1 < s.len() && s[k + 1] == '/';
        let ns = if closing {
            k + 2
        } else {
            k + 1
        };
        let ne = alnum_run_end(s, ns);
        lemma_alnum_run_end(s, ns);
        if ne != ns {
            text::lemma_find_from_bounds(s, seq!['>'], ne);
        }
    }
}

pub proof fn lemma_alnum_run_end(s: Seq<char>, i: int)
    requires
        0 <= i,
    ensures
        i <= alnum_run_end(s, i),
        i <= s.len() ==> alnum_run_end(s, i) <= s.len(),
    decreases s.len() - i,
{
    if 0 <= i < s.len() && text::is_ascii_alnum(s[i]) {
        lemma_alnum_run_end(s, i + 1);
    }
}

/// The Markdown for `s[i..]` in state `st`, before entity decoding; `None`
/// where a tag is not accepted.
pub open spec fn md_from(s: Seq<char>, i: int, st: MdModel) -> Option<Seq<char>>
    decreases s.len() - i,
{
    if i < 0 || i >= s.len() {
        Some(Seq::empty())
    } else {
        match tag_at(s, i) {
            None => prefix_opt(seq![s[i]], md_from(s, i + 1, st)),
            Some(t) => {
                proof {
                    lemma_tag_at(s, i);
                }
                match apply_tag(t, st) {
                    None => None,
                    Some((o, st2)) => prefix_opt(o, md_from(s, t.end, st2)),
                }
            },
        }
    }
}

/// The Markdown `html_to_markdown` produces for `html`; `None` where an
/// `<a>` tag's `href` value is a lone quote.
pub open spec fn html_to_markdown_spec(html: Seq<char>) -> Option<Seq<char>> {
    match md_from(html, 0, md_init()) {
        Some(m) => Some(decode_basic_entities(m)),
        None => None,
    }
}

pub open spec fn markdown_defined(html: Seq<char>) -> bool {
    html_to_markdown_spec(html) is Some
}

proof fn lemma_md_plain(s: Seq<char>, i: int, j: int, st: MdModel)
    requires
        0 <= i <= j <= s.len(),
        forall|q: int| i <= q < j ==> #[trigger] s[q] != '<',
    ensures
        md_from(s, i, st) == prefix_opt(s.subrange(i, j), md_from(s, j, st)),
    decreases j - i,
{
    if i < j {
        lemma_md_plain(s, i + 1, j, st);
        assert(tag_at(s, i) is None);
        match md_from(s, j, st) {
            Some(r) => {
                assert(seq![s[i]] + (s.subrange(i + 1, j) + r) =~= s.subrange(i, j) + r);
            },
            None => {},
        }
    } else {
        match md_from(s, j, st) {
            Some(r) => {
                assert(s.subrange(i, j) + r =~= r);
            },
            None => {},
        }
    }
}

proof fn lemma_md_to_end(s: Seq<char>, i: int, st: MdModel)
    requires
        0 <= i <= s.len(),
        forall|q: int| i <= q < s.len() ==> #[trigger] s[q] != '<',
    ensures
        md_from(s, i, st) == Some(s.subrange(i, s.len() as int)),
{
    lemma_md_plain(s, i, s.len() as int, st);
    assert(s.subrange(i, s.len() as int) + Seq::<char>::empty() =~= s.subrange(i, s.len() as int));
}

/// Text with no tag and no entity (no `<`, no `&`) is its own Markdown.
pub proof fn lemma_markdown_plain(a: Seq<char>)
    requires
        forall|q: int| 0 <= q < a.len() ==> #[trigger] a[q] != '<' && a[q] != '&',
    ensures
        html_to_markdown_spec(a) == Some(a),
{
    lemma_md_to_end(a, 0, md_init());
    assert(a.subrange(0, a.len() as int) =~= a);
    lemma_decode_absent(a, 0);
}

/// A `<br>` line break between two runs of plain text (no `<`, no `&`)
/// becomes exactly one newline in the Markdown.
pub proof fn lemma_markdown_br(a: Seq<char>, b: Seq<char>)
    requires
        forall|q: int| 0 <= q < a.len() ==> #[trigger] a[q] != '<' && a[q] != '&',
        forall|q: int| 0 <= q < b.len() ==> #[trigger] b[q] != '<' && b[q] != '&',
    ensures
        html_to_markdown_spec(a + "<br>"@ + b) == Some(a + "\n"@ + b),
{
    reveal_strlit("<br>");
    reveal_strlit("\n");
    reveal_strlit("br");
    reveal_strlit("b");
    reveal_strlit("strong");
    reveal_strlit("i");
    reveal_strlit("em");
    reveal_strlit("a");
    reveal_strlit("ul");
    reveal_strlit("ol");
    reveal_strlit("li");
    reveal_strlit("p");
    reveal_strlit("h1");
    reveal_strlit("h2");
    reveal_strlit("h3");
    reveal_strlit("h4");
    reveal_strlit("h5");
    reveal_strlit("h6");
    let s = a + "<br>"@ + b;
    let k = a.len() as int;
    assert(s[k] == '<');
    assert(s[k + 1] == 'b');
    assert(s[k + 2] == 'r');
    assert(s[k + 3] == '>');
    assert forall|q: int| 0 <= q < k implies #[trigger] s[q] != '<' by {
        assert(s[q] == a[q]);
    }
    assert forall|q: int| k + 4 <= q < s.len() implies #[trigger] s[q] != '<' by {
        assert(s[q] == b[q - k - 4]);
    }
    // The tag at `k` is `<br>`.
    assert(alnum_run_end(s, k + 3) == k + 3);
    assert(alnum_run_end(s, k + 2) == k + 3);
    assert(alnum_run_end(s, k + 1) == k + 3);
    assert(text::matches_at(s, seq!['>'], k + 3)) by {
        assert(s.subrange(k + 3, k + 4) =~= seq!['>']);
    }
    assert(next_gt(s, k + 3) == Some(k + 3));
    let t = tag_at(s, k).unwrap();
    assert(tag_at(s, k) is Some);
    assert(t.end == k + 4);
    assert(!t.closing);
    assert(t.name =~= "br"@);
    let n = lower_name(t.name);
    assert(n =~= "br"@);
    assert(heading_level(n) == 0) by {
        assert(n != "h1"@ && n != "h2"@ && n != "h3"@ && n != "h4"@ && n != "h5"@ && n != "h6"@) by {
            assert(n[0] != "h1"@[0]);
        }
    }
    assert(n != "b"@ && n != "strong"@ && n != "i"@ && n != "em"@ && n != "a"@ && n != "ul"@
        && n != "ol"@ && n != "li"@) by {
        assert(n.len() != "b"@.len());
        assert(n.len() != "strong"@.len());
        assert(n[0] != "em"@[0] && n[0] != "ul"@[0] && n[0] != "ol"@[0] && n[0] != "li"@[0]);
    }
    assert(apply_tag(t, md_init()) == Some(("\n"@, md_init())));
    lemma_md_to_end(s, k + 4, md_init());
    assert(s.subrange(k + 4, s.len() as int) =~= b);
    lemma_md_plain(s, 0, k, md_init());
    assert(s.subrange(0, k) =~= a);
    let m = a + "\n"@ + b;
    assert(md_from(s, 0, md_init()) == Some(m)) by {
        assert(a + ("\n"@ + b) =~= m);
    }
    assert forall|q: int| 0 <= q < m.len() implies #[trigger] m[q] != '&' by {
        if q < k {
            assert(m[q] == a[q]);
        } else if q == k {
        } else {
            assert(m[q] == b[q - k - 1]);
        }
    }
    lemma_decode_absent(m, 0);
    assert(m.subrange(0, m.len() as int) =~= m);
}

} // verus!

verus! {

pub fn alnum_run_end_exec(s: &Vec<char>, i: usize) -> (e: usize)
    requires
        i <= s.len(),
    ensures
        e == alnum_run_end(s@, i as int),
        i <= e <= s.len(),
{
    let mut e = i;
    while e < s.len() && text::is_ascii_alnum_exec(s[e])
        invariant
            i <= e <= s.len(),
            alnum_run_end(s@, i as int) == alnum_run_end(s@, e as int),
        decreases s.len() - e,
    {
        e = e + 1;
    }
    e
}

/// The tag starting at `k`: its end, whether it closes, and the bounds of
/// its name and attributes.
pub fn tag_at_exec(s: &Vec<char>, k: usize) -> (r: Option<(usize, bool, usize, usize, usize)>)
    ensures
        match r {
            Some((end, closing, ns, ne, j)) => tag_at(s@, k as int) matches Some(t) && t.end
                == end && t.closing == closing && ns <= ne <= j < end <= s.len() && t.name
                == s@.subrange(ns as int, ne as int) && t.attrs == s@.subrange(ne as int, j as int),
            None => tag_at(s@, k as int) is None,
        },
{
    if k >= s.len() || s[k] != '<' {
        return None;
    }
    let closing = k + 1 < s.len() && s[k + 1] == '/';
    let ns = if closing { k + 2 } else { k + 1 };
    let ne = alnum_run_end_exec(s, ns);
    if ne == ns {
        return None;
    }
    let mut gt: Vec<char> = Vec::new();
    gt.push('>');
    proof {
        assert(gt@ =~= seq!['>']);
    }
    match text::find_from_exec(s, &gt, ne) {
        Some(j) => {
            proof {
                text::lemma_find_from_bounds(s@, seq!['>'], ne as int);
            }
            Some((j + 1, closing, ns, ne, j))
        },
        None => None,
    }
}

pub fn skip_ws_exec(s: &Vec<char>, i: usize) -> (e: usize)
    requires
        i <= s.len(),
    ensures
        e == skip_ws(s@, i as int),
        i <= e <= s.len(),
{
    let mut e = i;
    while e < s.len() && text::is_ws_exec(s[e])
        invariant
            i <= e <= s.len(),
            skip_ws(s@, i as int) == skip_ws(s@, e as int),
        decreases s.len() - e,
    {
        e = e + 1;
    }
    e
}

/// The bounds of the `href` value starting at `k`, if one does.
pub fn href_at_exec(s: &Vec<char>, k: usize) -> (r: Option<(usize, usize)>)
    requires
        k <= s.len(),
    ensures
        match r {
            Some((a, b)) => a <= b <= s.len() && href_at(s@, k as int) == Some(
                s@.subrange(a as int, b as int),
            ),
            None => href_at(s@, k as int) is None,
        },
{
    let h = text::chars_of("href");
    if !text::matches_at_exec(s, &h, k) {
        return None;
    }
    let m1 = skip_ws_exec(s, k + h.len());
    if m1 >= s.len() || s[m1] != '=' {
        return None;
    }
    let m2 = skip_ws_exec(s, m1 + 1);
    if m2 >= s.len() || s[m2] != '"' {
        return None;
    }
    let mut q: Vec<char> = Vec::new();
    q.push('"');
    proof {
        assert(q@ =~= seq!['"']);
    }
    match text::find_from_exec(s, &q, m2 + 1) {
        Some(c) => {
            proof {
                text::lemma_find_from_bounds(s@, seq!['"'], m2 + 1);
            }
            Some((m2 + 1, c))
        },
        None => None,
    }
}

/// The bounds of the leftmost `href` value.
pub fn href_from_exec(attrs: &Vec<char>) -> (r: Option<(usize, usize)>)
    ensures
        match r {
            Some((a, b)) => a <= b <= attrs.len() && href_from(attrs@, 0) == Some(
                attrs@.subrange(a as int, b as int),
            ),
            None => href_from(attrs@, 0) is None,
        },
{
    let mut k: usize = 0;
    while k < attrs.len()
        invariant
            k <= attrs.len(),
            href_from(attrs@, 0) == href_from(attrs@, k as int),
        decreases attrs.len() - k,
    {
        match href_at_exec(attrs, k) {
            Some(ab) => {
                return Some(ab);
            },
            None => {},
        }
        k = k + 1;
    }
    None
}

/// The link target of an `<a>` tag's attributes (see `extract_href`).
pub fn extract_href_exec(attrs: &Vec<char>) -> (r: Option<Option<Vec<char>>>)
    ensures
        match r {
            None => extract_href(attrs@) is None,
            Some(None) => extract_href(attrs@) == Some(None::<Seq<char>>),
            Some(Some(v)) => extract_href(attrs@) == Some(Some(v@)),
        },
{
    let found = href_from_exec(attrs);
    match found {
        None => {
            Some(None)
        },
        Some((a, b)) => {
            let n = b - a;
            if n >= 1 && ((attrs[a] == '\'' && attrs[b - 1] == '\'') || (attrs[a] == '"'
                && attrs[b - 1] == '"')) {
                if n == 1 {
                    None
                } else {
                    let mut v: Vec<char> = Vec::new();
                    let mut i = a + 1;
                    while i < b - 1
                        invariant
                            a + 1 <= i <= b - 1,
                            b <= attrs.len(),
                            v@ == attrs@.subrange(a + 1, i as int),
                        decreases b - 1 - i,
                    {
                        v.push(attrs[i]);
                        proof {
                            assert(attrs@.subrange(a + 1, i + 1) =~= attrs@.subrange(
                                a + 1,
                                i as int,
                            ).push(attrs@[i as int]));
                        }
                        i = i + 1;
                    }
                    proof {
                        let w = attrs@.subrange(a as int, b as int);
                        assert(w.subrange(1, w.len() - 1) =~= v@);
                    }
                    Some(Some(v))
                }
            } else {
                let mut v: Vec<char> = Vec::new();
                let mut i = a;
                while i < b
                    invariant
                        a <= i <= b <= attrs.len(),
                        v@ == attrs@.subrange(a as int, i as int),
                    decreases b - i,
                {
                    v.push(attrs[i]);
                    proof {
                        assert(attrs@.subrange(a as int, i + 1) =~= attrs@.subrange(
                            a as int,
                            i as int,
                        ).push(attrs@[i as int]));
                    }
                    i = i + 1;
                }
                Some(Some(v))
            }
        },
    }
}

/// The converter's state as it runs.
pub struct MdState {
    pub href: Option<Vec<char>>,
    pub depth: usize,
    pub ordered: Vec<bool>,
    pub counters: Vec<usize>,
}

impl MdState {
    pub open spec fn model(&self) -> MdModel {
        MdModel {
            href: match self.href {
                Some(h) => Some(h@),
                None => None,
            },
            depth: self.depth as nat,
            ordered: self.ordered@,
            counters: self.counters@.map_values(|c: usize| c as nat),
        }
    }

    pub open spec fn bounded(&self, limit: nat) -> bool {
        self.depth <= limit && forall|k: int|
            0 <= k < self.counters@.len() ==> #[trigger] self.counters@[k] <= limit
    }
}

/// Apply one tag to the converter: write its Markdown to `out` and update
/// the state; `false` where the tag is not accepted.
pub fn apply_tag_exec(
    closing: bool,
    name: &Vec<char>,
    attrs: &Vec<char>,
    st: &mut MdState,
    out: &mut Vec<char>,
    limit: usize,
) -> (ok: bool)
    requires
        old(st).bounded(limit as nat),
        limit < usize::MAX,
    ensures
        match apply_tag(TagTok { end: 0, closing, name: name@, attrs: attrs@ }, old(st).model()) {
            Some((o, st2)) => ok && final(out)@ == old(out)@ + o && final(st).model() == st2
                && final(st).bounded((limit + 1) as nat),
            None => !ok,
        },
{
    let t = Ghost(TagTok { end: 0, closing, name: name@, attrs: attrs@ });
    let mut n: Vec<char> = Vec::new();
    let mut i: usize = 0;
    while i < name.len()
        invariant
            i <= name.len(),
            n@ == name@.take(i as int).map_values(|c: char| text::ascii_lower(c)),
        decreases name.len() - i,
    {
        n.push(text::ascii_lower_exec(name[i]));
        proof {
            assert(name@.take(i + 1).map_values(|c: char| text::ascii_lower(c)) =~= name@.take(
                i as int,
            ).map_values(|c: char| text::ascii_lower(c)).push(text::ascii_lower(name@[i as int])));
        }
        i = i + 1;
    }
    proof {
        assert(name@.take(name@.len() as int) =~= name@);
        assert(n@ == lower_name(name@));
    }
    let level: usize = if text::eq_lit(&n, "h1") {
        1
    } else if text::eq_lit(&n, "h2") {
        2
    } else if text::eq_lit(&n, "h3") {
        3
    } else if text::eq_lit(&n, "h4") {
        4
    } else if text::eq_lit(&n, "h5") {
        5
    } else if text::eq_lit(&n, "h6") {
        6
    } else {
        0
    };
    assert(level == heading_level(n@));
    if level > 0 {
        if !closing {
            text::push_repeat(out, "#", level);
            text::extend_str(out, " ");
            proof {
                assert(old(out)@ + text::repeat("#"@, level as nat) + " "@ =~= old(out)@ + (
                text::repeat("#"@, level as nat) + " "@));
            }
        } else {
            text::extend_str(out, "\n");
        }
        return true;
    }
    if text::eq_lit(&n, "b") || text::eq_lit(&n, "strong") {
        text::extend_str(out, "**");
        return true;
    }
    if text::eq_lit(&n, "i") || text::eq_lit(&n, "em") {
        text::extend_str(out, "*");
        return true;
    }
    if text::eq_lit(&n, "a") {
        if closing {
            match st.href.take() {
                Some(h) => {
                    text::extend_str(out, "](");
                    text::extend_chars(out, &h);
                    text::extend_str(out, ")");
                    proof {
                        assert(old(out)@ + "]("@ + h@ + ")"@ =~= old(out)@ + ("]("@ + h@
                            + ")"@));
                        assert(st.model() == MdModel { href: None, ..old(st).model() });
                    }
                },
                None => {
                    proof {
                        assert(old(out)@ + Seq::<char>::empty() =~= old(out)@);
                    }
                },
            }
        } else {
            match extract_href_exec(attrs) {
                None => {
                    return false;
                },
                Some(None) => {
                    proof {
                        assert(old(out)@ + Seq::<char>::empty() =~= old(out)@);
                    }
                },
                Some(Some(h)) => {
                    st.href = Some(h);
                    text::extend_str(out, "[");
                    proof {
                        assert(st.model() == MdModel { href: Some(h@), ..old(st).model() });
                    }
                },
            }
        }
        return true;
    }
    let is_ol = text::eq_lit(&n, "ol");
    if text::eq_lit(&n, "ul") || is_ol {
        if closing {
            if st.ordered.len() > 0 {
                st.ordered.pop();
            }
            if st.counters.len() > 0 {
                st.counters.pop();
            }
            st.depth = if st.depth > 0 { st.depth - 1 } else { 0 };
            text::extend_str(out, "\n");
            proof {
                assert(st.counters@.map_values(|c: usize| c as nat) =~= pop_last(
                    old(st).counters@.map_values(|c: usize| c as nat),
                ));
                assert(st.ordered@ =~= pop_last(old(st).ordered@));
                assert forall|k: int| 0 <= k < st.counters@.len() implies #[trigger] st.counters@[k]
                    <= limit + 1 by {
                    assert(st.counters@[k] == old(st).counters@[k]);
                }
            }
        } else {
            st.ordered.push(is_ol);
            st.counters.push(if is_ol { 1 } else { 0 });
            st.depth = st.depth + 1;
            proof {
                assert(st.counters@.map_values(|c: usize| c as nat) =~= old(
                    st,
                ).counters@.map_values(|c: usize| c as nat).push(
                    if is_ol {
                        1nat
                    } else {
                        0nat
                    },
                ));
                assert(old(out)@ + Seq::<char>::empty() =~= old(out)@);
                assert forall|k: int| 0 <= k < st.counters@.len() implies #[trigger] st.counters@[k]
                    <= limit + 1 by {
                    if k < old(st).counters@.len() {
                        assert(st.counters@[k] == old(st).counters@[k]);
                    }
                }
            }
        }
        return true;
    }
    if text::eq_lit(&n, "li") {
        if !closing {
            let d = if st.depth > 0 { st.depth - 1 } else { 0 };
            text::push_repeat(out, "  ", d);
            let ord = st.ordered.len() > 0 && st.ordered[st.ordered.len() - 1];
            if ord {
                let num: usize = if st.counters.len() > 0 {
                    st.counters[st.counters.len() - 1]
                } else {
                    0
                };
                if st.counters.len() > 0 {
                    let last = st.counters.len() - 1;
                    st.counters.set(last, num + 1);
                }
                let ghost mid = out@;
                text::push_decimal(out, num);
                text::extend_str(out, ". ");
                proof {
                    let indent = text::repeat("  "@, d as nat);
                    assert(out@ =~= old(out)@ + (indent + text::decimal(num as nat) + ". "@));
                    let oc = old(st).counters@.map_values(|c: usize| c as nat);
                    if old(st).counters@.len() > 0 {
                        assert(st.counters@.map_values(|c: usize| c as nat) =~= oc.update(
                            oc.len() - 1,
                            (num + 1) as nat,
                        ));
                    } else {
                        assert(st.counters@.map_values(|c: usize| c as nat) =~= oc);
                    }
                    assert forall|k: int| 0 <= k < st.counters@.len() implies #[trigger] st.counters@[k]
                        <= limit + 1 by {
                        if k != st.counters@.len() - 1 {
                            assert(st.counters@[k] == old(st).counters@[k]);
                        }
                    }
                }
            } else {
                text::extend_str(out, "- ");
                proof {
                    assert(out@ =~= old(out)@ + (text::repeat("  "@, d as nat) + "- "@));
                }
            }
        } else {
            text::extend_str(out, "\n");
        }
        return true;
    }
    if text::eq_lit(&n, "br") {
        text::extend_str(out, "\n");
        return true;
    }
    if text::eq_lit(&n, "p") && closing {
        text::extend_str(out, "\n\n");
        return true;
    }
    proof {
        assert(old(out)@ + Seq::<char>::empty() =~= old(out)@);
    }
    true
}

} // verus!

verus! {

/// Convert (sanitised) HTML to basic Markdown, or `None` where an `<a>`
/// tag's `href` value is a lone quote.
///
/// Headings become `#` lines, `<b>`/`<strong>` `**`, `<i>`/`<em>` `*`,
/// links `[text](href)`, list items `- ` or `1. ` (indented two spaces per
/// nesting level), `<br>` a newline and `</p>` a blank line; other tags are
/// dropped, and the basic entities are decoded.
pub fn try_html_to_markdown(html: &str) -> (r: Option<String>)
    ensures
        match r {
            Some(m) => html_to_markdown_spec(html@) == Some(m@),
            None => html_to_markdown_spec(html@) is None,
        },
{
    let s = text::chars_of(html);
    let mut out: Vec<char> = Vec::new();
    let mut st = MdState { href: None, depth: 0, ordered: Vec::new(), counters: Vec::new() };
    proof {
        assert(st.model() == md_init()) by {
            assert(st.counters@.map_values(|c: usize| c as nat) =~= Seq::<nat>::empty());
            assert(st.ordered@ =~= Seq::<bool>::empty());
        }
        assert(Seq::<char>::empty() + md_from(s@, 0, md_init())->0 =~= md_from(s@, 0, md_init())->0);
    }
    let mut i: usize = 0;
    while i < s.len()
        invariant
            i <= s.len(),
            s@ == html@,
            st.bounded(i as nat),
            md_from(s@, 0, md_init()) == prefix_opt(out@, md_from(s@, i as int, st.model())),
        decreases s.len() - i,
    {
        match tag_at_exec(&s, i) {
            None => {
                proof {
                    match md_from(s@, i + 1, st.model()) {
                        Some(r) => {
                            assert(out@.push(s@[i as int]) + r =~= out@ + (seq![s@[i as int]] + r));
                        },
                        None => {},
                    }
                }
                out.push(s[i]);
                i = i + 1;
            },
            Some((end, closing, ns, ne, j)) => {
                let name = text::subvec(&s, ns, ne);
                let attrs = text::subvec(&s, ne, j);
                let ghost t = tag_at(s@, i as int)->0;
                let ghost st0 = st.model();
                let ghost out0 = out@;
                proof {
                    lemma_tag_at(s@, i as int);
                }
                assert(apply_tag(t, st0) == apply_tag(
                    TagTok { end: 0, closing, name: name@, attrs: attrs@ },
                    st0,
                ));
                if !apply_tag_exec(closing, &name, &attrs, &mut st, &mut out, i) {
                    proof {
                        assert(md_from(s@, i as int, st0) is None);
                        assert(md_from(s@, 0, md_init()) == prefix_opt(out0, md_from(s@, i as int, st0)));
                        assert(md_from(s@, 0, md_init()) is None);
                        assert(s@ == html@);
                        assert(md_from(html@, 0, md_init()) is None);
                    }
                    return None;
                }
                proof {
                    let (o, _st2) = apply_tag(t, st0)->0;
                    assert(md_from(s@, i as int, st0) == prefix_opt(
                        o,
                        md_from(s@, end as int, st.model()),
                    ));
                    match md_from(s@, end as int, st.model()) {
                        Some(r) => {
                            assert(out0 + o + r =~= out0 + (o + r));
                        },
                        None => {},
                    }
                    assert forall|k: int| 0 <= k < st.counters@.len() implies #[trigger] st.counters@[k]
                        <= end by {}
                }
                i = end;
            },
        }
    }
    proof {
        assert(out@ + Seq::<char>::empty() =~= out@);
    }
    let m = decode_basic_entities_exec(&out);
    Some(text::string_of(&m))
}

/// Convert (sanitised) HTML to basic Markdown (see `try_html_to_markdown`).
pub fn html_to_markdown(html: &str) -> (md: String)
    requires
        markdown_defined(html@),
    ensures
        html_to_markdown_spec(html@) == Some(md@),
{
    match try_html_to_markdown(html) {
        Some(m) => m,
        None => String::new(),
    }
}

} // verus!
