//! The text of the MCP tools' error answers.
use vstd::prelude::*;
use crate::mcp::util;
use crate::text;

verus! {

pub open spec fn empty_query_text() -> Seq<char> {
    "Query is empty. Try: from:someone, tag:inbox, or a keyword. \
     Example: from:alice@example.com, tag:inbox AND date:2013-06.."@
}

/// The answer to an empty query.
pub fn empty_query_message() -> (r: String)
    ensures
        r@ == empty_query_text(),
{
    text::copy_str(
        "Query is empty. Try: from:someone, tag:inbox, or a keyword. \
         Example: from:alice@example.com, tag:inbox AND date:2013-06..",
    )
}

/// The answer where an entity is not found.
pub fn not_found_message(what: &str, id: &str) -> (r: String)
    ensures
        r@ == what@ + " not found: "@ + id@ + ". Use search to find valid IDs first."@,
{
    let mut r = text::copy_str(what);
    text::push_str(&mut r, " not found: ");
    text::push_str(&mut r, id);
    text::push_str(&mut r, ". Use search to find valid IDs first.");
    r
}

pub open spec fn unsupported_tail() -> Seq<char> {
    ". Supported formats: docx, xlsx, pdf, pptx, doc, xls, txt, csv, json, html, md. \
     Use get_attachment for the raw binary."@
}

/// The answer for a MIME type whose text cannot be extracted.
pub fn unsupported_format_message(mime_type: &str) -> (r: String)
    ensures
        r@ == "Cannot extract text from "@ + mime_type@ + unsupported_tail(),
{
    let mut r = text::copy_str("Cannot extract text from ");
    text::push_str(&mut r, mime_type);
    text::push_str(
        &mut r,
        ". Supported formats: docx, xlsx, pdf, pptx, doc, xls, txt, csv, json, html, md. \
         Use get_attachment for the raw binary.",
    );
    r
}

pub open spec fn not_implemented_tail() -> Seq<char> {
    " is not yet available. \
     This feature requires backend extensions (Phase 1 of the MCP build plan)."@
}

/// The answer for a feature the backend does not offer yet.
pub fn not_implemented_message(feature: &str) -> (r: String)
    ensures
        r@ == feature@ + not_implemented_tail(),
{
    let mut r = text::copy_str(feature);
    text::push_str(
        &mut r,
        " is not yet available. \
         This feature requires backend extensions (Phase 1 of the MCP build plan).",
    );
    r
}

// ── No results ──────────────────────────────────────────────────────

/// The text between the first occurrence of `m` in `q` and the next one (or
/// the end), as `q.split(m).nth(1)`; empty where `m` does not occur.
pub open spec fn after_marker(q: Seq<char>, m: Seq<char>) -> Seq<char> {
    match text::find(q, m) {
        None => Seq::empty(),
        Some(i) => {
            let rest = q.skip(i + m.len());
            match text::find(rest, m) {
                Some(j) => rest.take(j),
                None => rest,
            }
        },
    }
}

/// The first whitespace-separated word of `s`, or empty.
pub open spec fn first_word(s: Seq<char>) -> Seq<char> {
    if text::words(s).len() > 0 {
        text::words(s)[0]
    } else {
        Seq::empty()
    }
}

/// The tag named after `tag:` in a query.
pub open spec fn tag_query(q: Seq<char>) -> Seq<char> {
    first_word(after_marker(q, "tag:"@))
}

/// The sender filter of a query: `from:`, else `to:`.
pub open spec fn sender_prefix(q: Seq<char>) -> Seq<char> {
    if text::contains(q, "from:"@) {
        "from:"@
    } else {
        "to:"@
    }
}

/// The address named after the sender filter of a query.
pub open spec fn sender_query(q: Seq<char>) -> Seq<char> {
    first_word(after_marker(q, sender_prefix(q)))
}

pub open spec fn wants_tag_suggestions(q: Seq<char>) -> bool {
    text::contains(q, "tag:"@) && tag_query(q).len() > 0
}

pub open spec fn wants_sender_suggestions(q: Seq<char>) -> bool {
    (text::contains(q, "from:"@) || text::contains(q, "to:"@)) && sender_query(q).len() > 0
}

pub open spec fn general_suggestions() -> Seq<Seq<char>> {
    seq![
        "Broaden the date range (e.g., omit date: filters)"@,
        "Check spelling of names or terms"@,
        "Use tag:* to see available tags, then filter with tag:<name>"@,
        "Try a wildcard search with * (e.g., subject:*budget*)"@,
    ]
}

/// The suggestions of the no-results answer, given the tags and senders
/// close to those the query names.
pub open spec fn suggestions_spec(
    q: Seq<char>,
    close_tags: Seq<Seq<char>>,
    close_senders: Seq<Seq<char>>,
) -> Seq<Seq<char>> {
    (if wants_tag_suggestions(q) && close_tags.len() > 0 {
        seq!["Similar tags: "@ + text::join_with(close_tags, ", "@)]
    } else {
        Seq::empty()
    }) + (if wants_sender_suggestions(q) && close_senders.len() > 0 {
        seq!["Similar senders: "@ + text::join_with(close_senders, ", "@)]
    } else {
        Seq::empty()
    }) + general_suggestions()
}

pub open spec fn no_results_spec(
    q: Seq<char>,
    close_tags: Seq<Seq<char>>,
    close_senders: Seq<Seq<char>>,
) -> Seq<char> {
    "No results for '"@ + q + "'.\nDid you mean:\n- "@ + text::join_with(
        suggestions_spec(q, close_tags, close_senders),
        "\n- "@,
    )
}

/// `after_marker(q, m)`, for a marker that occurs in `q`.
fn after_marker_exec(q: &Vec<char>, m: &str) -> (r: Vec<char>)
    ensures
        r@ == after_marker(q@, m@),
{
    let mv = text::chars_of(m);
    match text::find_from_exec(q, &mv, 0) {
        None => Vec::new(),
        Some(i) => {
            proof {
                text::lemma_find_from_bounds(q@, mv@, 0);
                assert(text::matches_at(q@, mv@, i as int));
            }
            let ml = mv.len();
            let ql = q.len();
            assert(i + ml <= ql);
            let rest = text::subvec(q, i + ml, ql);
            proof {
                assert(rest@ =~= q@.skip(i + mv@.len()));
            }
            match text::find_from_exec(&rest, &mv, 0) {
                None => rest,
                Some(j) => {
                    proof {
                        text::lemma_find_from_bounds(rest@, mv@, 0);
                        assert(text::matches_at(rest@, mv@, j as int));
                    }
                    let r = text::subvec(&rest, 0, j);
                    proof {
                        assert(r@ =~= rest@.take(j as int));
                    }
                    r
                },
            }
        },
    }
}

fn first_word_exec(s: &Vec<char>) -> (r: Vec<char>)
    ensures
        r@ == first_word(s@),
{
    let ws = text::words_exec(s);
    if ws.len() > 0 {
        let w = text::subvec(&ws[0], 0, ws[0].len());
        proof {
            assert(w@ =~= ws@[0]@);
        }
        w
    } else {
        Vec::new()
    }
}

/// The no-results answer, given the tags and senders close to those the
/// query names (as `fuzzy_match` finds them).
pub fn no_results_text(query: &str, close_tags: &Vec<String>, close_senders: &Vec<String>) -> (r:
    String)
    ensures
        r@ == no_results_spec(
            query@,
            util::strings_view(close_tags@),
            util::strings_view(close_senders@),
        ),
{
    let q = text::chars_of(query);
    let tq = first_word_exec(&after_marker_exec(&q, "tag:"));
    let has_tag = text::contains_exec(&q, &text::chars_of("tag:"));
    let has_from = text::contains_exec(&q, &text::chars_of("from:"));
    let has_to = text::contains_exec(&q, &text::chars_of("to:"));
    let prefix = if has_from {
        "from:"
    } else {
        "to:"
    };
    let sq = first_word_exec(&after_marker_exec(&q, prefix));
    let mut sugg: Vec<String> = Vec::new();
    if has_tag && tq.len() > 0 && close_tags.len() > 0 {
        let mut line: Vec<char> = Vec::new();
        text::extend_str(&mut line, "Similar tags: ");
        text::push_joined(&mut line, close_tags, ", ");
        sugg.push(text::string_of(&line));
    }
    if (has_from || has_to) && sq.len() > 0 && close_senders.len() > 0 {
        let mut line: Vec<char> = Vec::new();
        text::extend_str(&mut line, "Similar senders: ");
        text::push_joined(&mut line, close_senders, ", ");
        sugg.push(text::string_of(&line));
    }
    sugg.push(text::copy_str("Broaden the date range (e.g., omit date: filters)"));
    sugg.push(text::copy_str("Check spelling of names or terms"));
    sugg.push(text::copy_str("Use tag:* to see available tags, then filter with tag:<name>"));
    sugg.push(text::copy_str("Try a wildcard search with * (e.g., subject:*budget*)"));
    proof {
        assert(util::strings_view(sugg@) =~= suggestions_spec(
            query@,
            util::strings_view(close_tags@),
            util::strings_view(close_senders@),
        ));
    }
    let mut out: Vec<char> = Vec::new();
    text::extend_str(&mut out, "No results for '");
    text::extend_str(&mut out, query);
    text::extend_str(&mut out, "'.\nDid you mean:\n- ");
    text::push_joined(&mut out, &sugg, "\n- ");
    text::string_of(&out)
}

/// The answer where a search finds nothing: suggestions of up to five tags
/// close to the one after `tag:` and up to five senders close to the one
/// after `from:` (else `to:`), then general advice.
pub fn no_results_message(query: &str, tags: &[String], senders: &[String]) -> (r: String)
    ensures
        r@ == no_results_spec(
            query@,
            util::rank_spec(
                text::lowercase(tag_query(query@)),
                tags@.map_values(|c: String| text::lowercase(c@)),
                util::strings_view(tags@),
                5,
            ),
            util::rank_spec(
                text::lowercase(sender_query(query@)),
                senders@.map_values(|c: String| text::lowercase(c@)),
                util::strings_view(senders@),
                5,
            ),
        ),
{
    let q = text::chars_of(query);
    let tq = text::string_of(&first_word_exec(&after_marker_exec(&q, "tag:")));
    let prefix = if text::contains_exec(&q, &text::chars_of("from:")) {
        "from:"
    } else {
        "to:"
    };
    let sq = text::string_of(&first_word_exec(&after_marker_exec(&q, prefix)));
    let close_tags = util::fuzzy_match(tq.as_str(), tags, 5);
    let close_senders = util::fuzzy_match(sq.as_str(), senders, 5);
    no_results_text(query, &close_tags, &close_senders)
}

} // verus!
