//! The Model Context Protocol layer: body formats, snippets, truncation and
//! the text of the tools' answers.
use vstd::prelude::*;
use crate::api::stats::ArchiveStats;
use crate::api::thread::MessageDetail;
use crate::mail::body;
use crate::text;

pub mod error;
pub mod prompts;
pub mod replies;
pub mod resources;
pub mod tools;
pub mod util;

verus! {

/// Body output format for MCP tools.
#[derive(Debug, Clone, Copy, PartialEq, Eq)]
pub enum BodyFormat {
    /// Clean plain text for analysis and summarization (default).
    Text,
    /// Preserves formatting: bold, links, lists, headings.
    Markdown,
    /// Raw sanitized HTML (wastes tokens, rarely needed).
    Html,
}

pub open spec fn body_format_name(f: BodyFormat) -> Seq<char> {
    match f {
        BodyFormat::Text => "text"@,
        BodyFormat::Markdown => "markdown"@,
        BodyFormat::Html => "html"@,
    }
}

impl BodyFormat {
    /// The default format: plain text.
    pub fn default_format() -> (f: BodyFormat)
        ensures
            f == BodyFormat::Text,
    {
        BodyFormat::Text
    }

    /// Return the format name as a `&str`.
    pub fn as_str(&self) -> (s: &'static str)
        ensures
            s@ == body_format_name(*self),
    {
        match self {
            BodyFormat::Text => "text",
            BodyFormat::Markdown => "markdown",
            BodyFormat::Html => "html",
        }
    }
}

// ── Body formats ────────────────────────────────────────────────────

/// `format_body` converts on the fly only where the message lacks the
/// pre-computed field; a Markdown conversion must then be defined.
pub open spec fn format_body_defined(msg: MessageDetail, f: BodyFormat) -> bool {
    f == BodyFormat::Markdown && msg.body_markdown is None ==> body::markdown_defined(msg.content@)
}

/// The body of `msg` in format `f`: the pre-computed text or Markdown where
/// the message has it, else a conversion of its HTML content.
pub open spec fn format_body_spec(msg: MessageDetail, f: BodyFormat) -> Seq<char> {
    match f {
        BodyFormat::Html => msg.content@,
        BodyFormat::Markdown => match msg.body_markdown {
            Some(m) => m@,
            None => match body::html_to_markdown_spec(msg.content@) {
                Some(m) => m,
                None => Seq::empty(),
            },
        },
        BodyFormat::Text => match msg.body_text {
            Some(t) => t@,
            None => body::html_to_text_spec(msg.content@),
        },
    }
}

/// Apply the requested body format to a `MessageDetail`.
///
/// Prefers the pre-computed `body_text` / `body_markdown` fields (populated by
/// the parser at message-load time).  Falls back to on-the-fly conversion via
/// `mail::body` only when the fields are `None`.
pub fn format_body(msg: &MessageDetail, body_format: &BodyFormat) -> (r: String)
    requires
        format_body_defined(*msg, *body_format),
    ensures
        r@ == format_body_spec(*msg, *body_format),
{
    match body_format {
        BodyFormat::Html => text::copy_str(msg.content.as_str()),
        BodyFormat::Markdown => match &msg.body_markdown {
            Some(m) => text::copy_str(m.as_str()),
            None => body::html_to_markdown(msg.content.as_str()),
        },
        BodyFormat::Text => match &msg.body_text {
            Some(t) => text::copy_str(t.as_str()),
            None => body::html_to_text(msg.content.as_str()),
        },
    }
}

// ── Char boundaries ─────────────────────────────────────────────────

/// The character position of the first char boundary of `s` at or after
/// byte offset `pos`.
pub fn snap_to_char_boundary(s: &Vec<char>, offs: &Vec<u128>, pos: u128) -> (k: usize)
    requires
        text::is_byte_offsets(s@, offs@),
    ensures
        k == text::ceil_char(s@, pos as int),
{
    let mut k: usize = 0;
    while k < s.len() && offs[k] < pos
        invariant
            k <= s.len(),
            text::is_byte_offsets(s@, offs@),
            text::ceil_char(s@, pos as int) == text::ceil_from(s@, pos as int, k as int),
        decreases s.len() - k,
    {
        k = k + 1;
    }
    k
}

/// The character position of the last char boundary of `s` at or before
/// byte offset `pos`.
pub fn snap_to_char_boundary_end(s: &Vec<char>, offs: &Vec<u128>, pos: u128) -> (k: usize)
    requires
        text::is_byte_offsets(s@, offs@),
    ensures
        k == text::floor_char(s@, pos as int),
{
    let mut k: usize = s.len();
    while k > 0 && offs[k] > pos
        invariant
            k <= s.len(),
            text::is_byte_offsets(s@, offs@),
            text::floor_char(s@, pos as int) == text::floor_from(s@, pos as int, k as int),
        decreases k,
    {
        k = k - 1;
    }
    k
}

/// Map a byte offset in `lowered` (a lower-cased copy of `original`) back to
/// a byte offset in `original`, walking both strings one character at a
/// time: the offset of the character of `original` at the position of the
/// first character boundary of `lowered` at or after `target`, or the end of
/// `original`.
pub fn char_byte_offset(
    original: &Vec<char>,
    orig_offs: &Vec<u128>,
    lowered: &Vec<char>,
    target: u128,
) -> (r: u128)
    requires
        text::is_byte_offsets(original@, orig_offs@),
    ensures
        r == text::byte_len(
            original@.take(
                if text::ceil_char(lowered@, target as int) < original@.len() {
                    text::ceil_char(lowered@, target as int)
                } else {
                    original@.len() as int
                },
            ),
        ),
{
    let mut n: usize = 0;
    let mut low: u128 = 0;
    proof {
        assert(lowered@.take(0) =~= Seq::<char>::empty());
    }
    while n < lowered.len() && low < target
        invariant
            n <= lowered.len(),
            low == text::byte_len(lowered@.take(n as int)),
            low <= 4 * n,
            text::ceil_char(lowered@, target as int) == text::ceil_from(
                lowered@,
                target as int,
                n as int,
            ),
        decreases lowered.len() - n,
    {
        proof {
            text::lemma_byte_len_take_succ(lowered@, n as int);
        }
        low = low + text::char_width(lowered[n]) as u128;
        n = n + 1;
    }
    let m = if n < original.len() {
        n
    } else {
        original.len()
    };
    orig_offs[m]
}

// ── Snippets ────────────────────────────────────────────────────────

/// `s[a..b]`, with `...` before it where it does not start at the beginning
/// of `s` and `...` after it where it does not reach the end.
pub open spec fn ellipsized(s: Seq<char>, a: int, b: int) -> Seq<char> {
    (if a > 0 {
        "..."@
    } else {
        Seq::empty()
    }) + s.subrange(a, b) + (if b < s.len() {
        "..."@
    } else {
        Seq::empty()
    })
}

/// The snippet around the first match of `lq` in `lt` (the lower-cased
/// `s` and term): the match is mapped back to `s` by character position,
/// and the window reaches `context` bytes before and after it, shrunk to
/// char boundaries of `s`, with `...` where it does not reach an end of
/// `s`.  `None` where `lq` does not occur in `lt`.
pub open spec fn snippet_window(s: Seq<char>, lt: Seq<char>, lq: Seq<char>, context: int) -> Option<
    Seq<char>,
> {
    match text::find(lt, lq) {
        Some(i) => {
            let n0 = if i < s.len() {
                i
            } else {
                s.len() as int
            };
            let n1 = if i + lq.len() < s.len() {
                i + lq.len()
            } else {
                s.len() as int
            };
            let ob0 = text::byte_len(s.take(n0)) as int;
            let ob1 = text::byte_len(s.take(n1)) as int;
            let a = text::ceil_char(
                s,
                if ob0 >= context {
                    ob0 - context
                } else {
                    0
                },
            );
            let b = text::floor_char(
                s,
                if ob1 + context <= text::byte_len(s) {
                    ob1 + context
                } else {
                    text::byte_len(s) as int
                },
            );
            Some(ellipsized(s, a, b))
        },
        None => None,
    }
}

/// The snippet `extract_snippet` cuts from `s`, given the lower-cased text
/// `lt` and term `lq`: the window of 100 bytes on each side of the first
/// match (see `snippet_window`); the first 200 characters where there is no
/// match.
pub open spec fn snippet_of(s: Seq<char>, lt: Seq<char>, lq: Seq<char>) -> Seq<char> {
    match snippet_window(s, lt, lq, 100) {
        Some(w) => w,
        None => s.take(
            if s.len() < 200 {
                s.len() as int
            } else {
                200
            },
        ),
    }
}

/// Append `s[a..b]` to `out`, between the ellipses of `ellipsized`.
pub fn push_ellipsized(out: &mut String, s: &Vec<char>, a: usize, b: usize)
    requires
        a <= b <= s.len(),
    ensures
        final(out)@ == old(out)@ + ellipsized(s@, a as int, b as int),
{
    let ghost o = out@;
    if a > 0 {
        text::push_str(out, "...");
    }
    let piece = text::string_of_range(s, a, b);
    text::push_str(out, piece.as_str());
    if b < s.len() {
        text::push_str(out, "...");
    }
    proof {
        let pre: Seq<char> = if a > 0 {
            "..."@
        } else {
            Seq::empty()
        };
        let post: Seq<char> = if b < s.len() {
            "..."@
        } else {
            Seq::empty()
        };
        if a == 0 {
            assert(o + Seq::<char>::empty() =~= o);
        }
        if b >= s.len() {
            assert(o + pre + piece@ + Seq::<char>::empty() =~= o + pre + piece@);
        }
        assert(o + pre + piece@ + post =~= o + (pre + s@.subrange(a as int, b as int) + post));
    }
}

/// The snippet of `text` around the first match of `lower_term` in
/// `lower_text`, the lower-cased `text`, with `context` bytes on each side
/// (see `snippet_window`); `None` where there is no match.
pub fn snippet_window_lowered(text: &str, lower_text: &str, lower_term: &str, context: usize) -> (r:
    Option<String>)
    ensures
        match snippet_window(text@, lower_text@, lower_term@, context as int) {
            Some(w) => r matches Some(x) && x@ == w,
            None => r is None,
        },
{
    let s = text::chars_of(text);
    let lt = text::chars_of(lower_text);
    let lq = text::chars_of(lower_term);
    match text::find_from_exec(&lt, &lq, 0) {
        Some(i) => {
            proof {
                text::lemma_find_from_bounds(lt@, lq@, 0);
                assert(text::matches_at(lt@, lq@, i as int));
                assert(i + lq@.len() <= lt@.len());
            }
            let offs = text::byte_offsets(&s);
            let loffs = text::byte_offsets(&lt);
            let ll = lq.len();
            let lt_len = lt.len();
            assert(i + ll <= lt_len);
            let end: usize = i + ll;
            let orig_start = char_byte_offset(&s, &offs, &lt, loffs[i]);
            let orig_end = char_byte_offset(&s, &offs, &lt, loffs[end]);
            let ghost n0: int = if i < s.len() {
                i as int
            } else {
                s.len() as int
            };
            let ghost n1: int = if i + lq.len() < s.len() {
                i + lq.len()
            } else {
                s.len() as int
            };
            proof {
                text::lemma_ceil_char_at(lt@, i as int);
                text::lemma_ceil_char_at(lt@, i + lq.len());
                text::lemma_byte_len_full(s@);
                text::lemma_byte_len_take_mono(s@, n1, s.len() as int);
                text::lemma_byte_len_bound(s@.take(n1));
            }
            let total = offs[s.len()];
            let ctx = context as u128;
            let sb: u128 = if orig_start >= ctx {
                orig_start - ctx
            } else {
                0
            };
            let se: u128 = if orig_end + ctx <= total {
                orig_end + ctx
            } else {
                total
            };
            let a = snap_to_char_boundary(&s, &offs, sb);
            let b = snap_to_char_boundary_end(&s, &offs, se);
            proof {
                text::lemma_ceil_char_le(s@, sb as int, n0);
                text::lemma_floor_char_ge(s@, se as int, n1);
            }
            let mut out = String::new();
            push_ellipsized(&mut out, &s, a, b);
            proof {
                assert(Seq::<char>::empty() + ellipsized(s@, a as int, b as int) =~= ellipsized(
                    s@,
                    a as int,
                    b as int,
                ));
            }
            Some(out)
        },
        None => None,
    }
}

/// The snippet of `text` around the first match of `lower_term` in
/// `lower_text`, the lower-cased `text` (see `snippet_of`).
pub fn extract_snippet_lowered(text: &str, lower_text: &str, lower_term: &str) -> (r: String)
    ensures
        r@ == snippet_of(text@, lower_text@, lower_term@),
{
    match snippet_window_lowered(text, lower_text, lower_term, 100) {
        Some(w) => w,
        None => {
            let s = text::chars_of(text);
            let k = if s.len() < 200 {
                s.len()
            } else {
                200
            };
            let r = text::string_of_range(&s, 0, k);
            proof {
                assert(s@.subrange(0, k as int) =~= s@.take(k as int));
            }
            r
        },
    }
}

/// Extract a snippet (~200 chars) around a case-insensitive match.
///
/// Positions found in the lower-cased copy are translated back to byte
/// offsets in the original text by character position, so multibyte text
/// does not break it.
pub fn extract_snippet(text: &str, term: &str) -> (r: String)
    ensures
        r@ == snippet_of(text@, text::lowercase(text@), text::lowercase(term@)),
{
    let lower_text = text::to_lowercase(text);
    let lower_term = text::to_lowercase(term);
    extract_snippet_lowered(text, lower_text.as_str(), lower_term.as_str())
}

// ── Dynamic instructions ────────────────────────────────────────────

/// `name (count)`.
pub open spec fn count_entry(e: (String, usize)) -> Seq<char> {
    e.0@ + " ("@ + text::decimal(e.1 as nat) + ")"@
}

/// The entries of `es`, as `count_entry` writes them, separated by `, `.
pub open spec fn join_entries(es: Seq<(String, usize)>) -> Seq<char>
    decreases es.len(),
{
    if es.len() == 0 {
        Seq::empty()
    } else if es.len() == 1 {
        count_entry(es[0])
    } else {
        join_entries(es.drop_last()) + ", "@ + count_entry(es.last())
    }
}

/// The first ten entries of `es` (or all of them).
pub open spec fn top_ten(es: Seq<(String, usize)>) -> Seq<(String, usize)> {
    es.take(
        if es.len() < 10 {
            es.len() as int
        } else {
            10
        },
    )
}

pub open spec fn instructions_fallback() -> Seq<char> {
    "Rummage email archive MCP server.\nSearch uses notmuch query syntax.\n"@
}

pub open spec fn instructions_guide() -> Seq<char> {
    "\n\nSearch uses notmuch query syntax:\n\
     from:alice@example.com         \u{2014} messages from alice\n\
     tag:inbox AND date:2013-06..   \u{2014} inbox messages from June 2013 onward\n\
     subject:invoice has:attachment  \u{2014} invoices with attachments\n\
     \"exact phrase\"                  \u{2014} phrase search\n\
     NOT tag:spam                    \u{2014} exclude spam\n\n\
     Strategy:\n\
     - Start broad, then narrow with filters\n\
     - Use tag: and from: for targeted searches\n\
     - Use date: ranges to scope time periods\n\
     - Use has:attachment to find messages with files\n\
     - For document content, use get_attachment_text to read PDFs, DOCX, XLSX"@
}

/// The server instructions: archive size, the top ten tags and senders
/// with their counts, and a guide to the query syntax; a short fallback
/// where the statistics could not be read.
pub open spec fn instructions_spec(
    stats: Option<ArchiveStats>,
    tags: Seq<(String, usize)>,
    senders: Seq<(String, usize)>,
) -> Seq<char> {
    match stats {
        None => instructions_fallback(),
        Some(st) => "This is a read-only email archive containing "@ + text::decimal(
            st.total_messages as nat,
        ) + " messages across "@ + text::decimal(st.total_threads as nat) + " threads.\nTop tags: "@
            + join_entries(top_ten(tags)) + "\nTop senders: "@ + join_entries(top_ten(senders))
            + instructions_guide(),
    }
}

/// Append the first `limit` entries of `es` to `out`, as `join_entries`.
fn push_entries(out: &mut Vec<char>, es: &Vec<(String, usize)>, limit: usize)
    requires
        limit <= es.len(),
    ensures
        final(out)@ == old(out)@ + join_entries(es@.take(limit as int)),
{
    let mut i: usize = 0;
    proof {
        assert(es@.take(0) =~= Seq::<(String, usize)>::empty());
        assert(old(out)@ + Seq::<char>::empty() =~= old(out)@);
    }
    while i < limit
        invariant
            i <= limit <= es.len(),
            out@ == old(out)@ + join_entries(es@.take(i as int)),
        decreases limit - i,
    {
        let ghost before = out@;
        if i > 0 {
            text::extend_str(out, ", ");
        }
        text::extend_str(out, es[i].0.as_str());
        text::extend_str(out, " (");
        text::push_decimal(out, es[i].1);
        text::extend_str(out, ")");
        proof {
            let t = es@.take(i + 1);
            assert(t.drop_last() =~= es@.take(i as int));
            assert(t.last() == es@[i as int]);
            if i == 0 {
                assert(t.len() == 1);
                assert(out@ =~= old(out)@ + count_entry(t[0]));
            } else {
                assert(out@ =~= before + (", "@ + count_entry(t.last())));
                assert(out@ =~= old(out)@ + (join_entries(t.drop_last()) + ", "@ + count_entry(
                    t.last(),
                )));
            }
        }
        i = i + 1;
    }
}

/// Build the server instructions from the archive statistics (`None` where
/// they could not be read), the tags and the senders with their counts.
pub fn build_instructions(
    stats: Option<ArchiveStats>,
    tags: &Vec<(String, usize)>,
    senders: &Vec<(String, usize)>,
) -> (r: String)
    ensures
        r@ == instructions_spec(stats, tags@, senders@),
{
    match stats {
        None => {
            let r = text::copy_str(
                "Rummage email archive MCP server.\nSearch uses notmuch query syntax.\n",
            );
            r
        },
        Some(st) => {
            let mut out: Vec<char> = Vec::new();
            text::extend_str(&mut out, "This is a read-only email archive containing ");
            text::push_decimal(&mut out, st.total_messages);
            text::extend_str(&mut out, " messages across ");
            text::push_decimal(&mut out, st.total_threads);
            text::extend_str(&mut out, " threads.\nTop tags: ");
            let nt = if tags.len() < 10 {
                tags.len()
            } else {
                10
            };
            push_entries(&mut out, tags, nt);
            text::extend_str(&mut out, "\nTop senders: ");
            let ns = if senders.len() < 10 {
                senders.len()
            } else {
                10
            };
            push_entries(&mut out, senders, ns);
            text::extend_str(
                &mut out,
                "\n\nSearch uses notmuch query syntax:\n\
                 from:alice@example.com         \u{2014} messages from alice\n\
                 tag:inbox AND date:2013-06..   \u{2014} inbox messages from June 2013 onward\n\
                 subject:invoice has:attachment  \u{2014} invoices with attachments\n\
                 \"exact phrase\"                  \u{2014} phrase search\n\
                 NOT tag:spam                    \u{2014} exclude spam\n\n\
                 Strategy:\n\
                 - Start broad, then narrow with filters\n\
                 - Use tag: and from: for targeted searches\n\
                 - Use date: ranges to scope time periods\n\
                 - Use has:attachment to find messages with files\n\
                 - For document content, use get_attachment_text to read PDFs, DOCX, XLSX",
            );
            proof {
                assert(out@ =~= instructions_spec(stats, tags@, senders@));
            }
            text::string_of(&out)
        },
    }
}

} // verus!
