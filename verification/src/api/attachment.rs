//! Attachment download parameters and the choice of how to serve and read a
//! MIME part.
use vstd::prelude::*;
use crate::error::AppError;
use crate::text;

verus! {

/// Query parameters of `GET /api/attachment`.
#[derive(Debug, Clone)]
pub struct AttachmentParams {
    pub msg: String,
    pub part: usize,
}

// ── Serving a part ──────────────────────────────────────────────────

/// Content types a browser renders in place: images, text, video and PDF.
pub open spec fn shown_inline(ct: Seq<char>) -> bool {
    text::starts_with(ct, "image/"@) || text::starts_with(ct, "text/"@) || text::starts_with(
        ct,
        "video/"@,
    ) || ct == "application/pdf"@
}

/// A control character (general category `Cc`, as `char::is_control`).
pub open spec fn is_control(c: char) -> bool {
    (c as u32) <= 0x1F || (0x7F <= (c as u32) && (c as u32) <= 0x9F)
}

/// `s` without control characters, double quotes and backslashes.
pub open spec fn header_safe(s: Seq<char>) -> Seq<char>
    decreases s.len(),
{
    if s.len() == 0 {
        s
    } else {
        let c = s.last();
        let rest = header_safe(s.drop_last());
        if !is_control(c) && c != '"' && c != '\\' {
            rest.push(c)
        } else {
            rest
        }
    }
}

/// A cleaned file name holds no control character, quote or backslash: it
/// cannot break out of the header or its quoted value.
pub proof fn lemma_header_safe(s: Seq<char>)
    ensures
        forall|i: int|
            0 <= i < header_safe(s).len() ==> !is_control(#[trigger] header_safe(s)[i])
                && header_safe(s)[i] != '"' && header_safe(s)[i] != '\\',
    decreases s.len(),
{
    if s.len() > 0 {
        lemma_header_safe(s.drop_last());
        let r = header_safe(s.drop_last());
        assert forall|i: int| 0 <= i < header_safe(s).len() implies !is_control(
            #[trigger] header_safe(s)[i],
        ) && header_safe(s)[i] != '"' && header_safe(s)[i] != '\\' by {
            if i < r.len() {
                assert(header_safe(s)[i] == r[i]);
            }
        }
    }
}

/// The name a download is offered under is never empty, and is as safe
/// for the header as `header_safe` makes it.
pub proof fn lemma_download_name(filename: Option<Seq<char>>)
    ensures
        download_name(filename).len() > 0,
        forall|i: int|
            0 <= i < download_name(filename).len() ==> !is_control(
                #[trigger] download_name(filename)[i],
            ) && download_name(filename)[i] != '"' && download_name(filename)[i] != '\\',
{
    reveal_strlit("attachment");
    let f = header_safe(
        match filename {
            Some(f) => f,
            None => "attachment"@,
        },
    );
    lemma_header_safe(
        match filename {
            Some(f) => f,
            None => "attachment"@,
        },
    );
    if f.len() == 0 {
        assert forall|i: int| 0 <= i < "attachment"@.len() implies !is_control("attachment"@[i])
            && "attachment"@[i] != '"' && "attachment"@[i] != '\\' by {}
    }
}

/// The file name a download is offered under: the part's, cleaned for a
/// header; `attachment` where there is none or nothing is left of it.
pub open spec fn download_name(filename: Option<Seq<char>>) -> Seq<char> {
    let f = header_safe(
        match filename {
            Some(f) => f,
            None => "attachment"@,
        },
    );
    if f.len() == 0 {
        "attachment"@
    } else {
        f
    }
}

/// The `Content-Disposition` of a downloaded part: `inline` for what a
/// browser renders, `attachment` otherwise, with the cleaned file name.
pub open spec fn disposition_spec(ct: Seq<char>, filename: Option<Seq<char>>) -> Seq<char> {
    (if shown_inline(ct) {
        "inline"@
    } else {
        "attachment"@
    }) + "; filename=\""@ + download_name(filename) + "\""@
}

pub open spec fn opt_view(o: Option<String>) -> Option<Seq<char>> {
    match o {
        Some(s) => Some(s@),
        None => None,
    }
}

fn is_control_exec(c: char) -> (r: bool)
    ensures
        r == is_control(c),
{
    let u = c as u32;
    u <= 0x1F || (0x7F <= u && u <= 0x9F)
}

fn header_safe_exec(s: &Vec<char>) -> (r: Vec<char>)
    ensures
        r@ == header_safe(s@),
{
    let mut r: Vec<char> = Vec::new();
    let mut i: usize = 0;
    proof {
        assert(s@.take(0) =~= Seq::<char>::empty());
    }
    while i < s.len()
        invariant
            i <= s@.len(),
            r@ == header_safe(s@.take(i as int)),
        decreases s.len() - i,
    {
        let c = s[i];
        proof {
            assert(s@.take(i + 1).drop_last() =~= s@.take(i as int));
            assert(s@.take(i + 1).last() == c);
        }
        if !is_control_exec(c) && c != '"' && c != '\\' {
            r.push(c);
        }
        i = i + 1;
    }
    proof {
        assert(s@.take(s@.len() as int) =~= s@);
    }
    r
}

/// The `Content-Disposition` header of a downloaded part.
pub fn content_disposition(content_type: &str, filename: &Option<String>) -> (r: String)
    ensures
        r@ == disposition_spec(content_type@, opt_view(*filename)),
{
    let ct = text::chars_of(content_type);
    let inline = text::starts_with_exec(&ct, &text::chars_of("image/")) || text::starts_with_exec(
        &ct,
        &text::chars_of("text/"),
    ) || text::starts_with_exec(&ct, &text::chars_of("video/")) || text::str_eq(
        content_type,
        "application/pdf",
    );
    let raw = match filename {
        Some(f) => text::chars_of(f.as_str()),
        None => text::chars_of("attachment"),
    };
    let f = header_safe_exec(&raw);
    let mut out: Vec<char> = Vec::new();
    if inline {
        text::extend_str(&mut out, "inline");
    } else {
        text::extend_str(&mut out, "attachment");
    }
    text::extend_str(&mut out, "; filename=\"");
    if f.len() == 0 {
        text::extend_str(&mut out, "attachment");
    } else {
        text::extend_chars(&mut out, &f);
    }
    text::extend_str(&mut out, "\"");
    proof {
        assert(out@ =~= disposition_spec(content_type@, opt_view(*filename)));
    }
    text::string_of(&out)
}

// ── Reading a part as text ──────────────────────────────────────────

/// The file name endings of text formats.
pub open spec fn text_suffixes() -> Seq<Seq<char>> {
    seq![
        ".txt"@,
        ".csv"@,
        ".json"@,
        ".html"@,
        ".htm"@,
        ".md"@,
        ".markdown"@,
        ".xml"@,
        ".yaml"@,
        ".yml"@,
        ".rst"@,
        ".log"@,
    ]
}

/// A part is read as text directly when its type is `text/*` or its file
/// name, lower-cased, ends in a text format's ending.
pub open spec fn is_text_spec(ct: Seq<char>, filename: Option<Seq<char>>) -> bool {
    text::starts_with(ct, "text/"@) || match filename {
        Some(f) => exists|i: int|
            0 <= i < text_suffixes().len() && text::ends_with(
                text::lowercase(f),
                #[trigger] text_suffixes()[i],
            ),
        None => false,
    }
}

fn ends_with_any(name: &Vec<char>) -> (r: bool)
    ensures
        r == exists|i: int|
            0 <= i < text_suffixes().len() && text::ends_with(name@, #[trigger] text_suffixes()[i]),
{
    let suffixes: [&str; 12] = [
        ".txt",
        ".csv",
        ".json",
        ".html",
        ".htm",
        ".md",
        ".markdown",
        ".xml",
        ".yaml",
        ".yml",
        ".rst",
        ".log",
    ];
    proof {
        assert(forall|i: int| 0 <= i < 12 ==> #[trigger] suffixes@[i]@ == text_suffixes()[i]);
    }
    let mut i: usize = 0;
    while i < 12
        invariant
            i <= 12,
            forall|k: int| 0 <= k < 12 ==> #[trigger] suffixes@[k]@ == text_suffixes()[k],
            forall|k: int| 0 <= k < i ==> !text::ends_with(name@, #[trigger] text_suffixes()[k]),
        decreases 12 - i,
    {
        let suf = text::chars_of(suffixes[i]);
        if text::ends_with_exec(name, &suf) {
            return true;
        }
        i = i + 1;
    }
    false
}

/// Whether a part is read as text directly (see `is_text_spec`).
pub fn is_text_attachment(content_type: &str, filename: &Option<String>) -> (r: bool)
    ensures
        r == is_text_spec(content_type@, opt_view(*filename)),
{
    let ct = text::chars_of(content_type);
    if text::starts_with_exec(&ct, &text::chars_of("text/")) {
        return true;
    }
    match filename {
        Some(f) => {
            let lower = text::to_lowercase(f.as_str());
            ends_with_any(&text::chars_of(lower.as_str()))
        },
        None => false,
    }
}

/// The text `String::from_utf8_lossy` decodes from `bytes`.
pub uninterp spec fn utf8_lossy(bytes: Seq<u8>) -> Seq<char>;

/// `String::from_utf8_lossy(bytes).into_owned()`: the contract names the
/// result `utf8_lossy(bytes)`, and states what the documentation gives for
/// ASCII input, which decodes byte for byte.
#[verifier::external_body]
fn decode_lossy(bytes: &[u8]) -> (r: String)
    ensures
        r@ == utf8_lossy(bytes@),
        (forall|i: int| 0 <= i < bytes@.len() ==> #[trigger] bytes@[i] < 0x80) ==> (r@.len()
            == bytes@.len() && forall|i: int| 0 <= i < bytes@.len() ==> #[trigger] r@[i] as u32
            == bytes@[i] as u32),
{
    String::from_utf8_lossy(bytes).into_owned()
}

/// The text of a part read directly: its bytes decoded as UTF-8 (invalid
/// sequences replaced), where the part is text (see `is_text_spec`);
/// `None` where the part needs a document extractor.
pub fn direct_text(content_type: &str, filename: &Option<String>, body: &[u8]) -> (r: Option<
    String,
>)
    ensures
        is_text_spec(content_type@, opt_view(*filename)) ==> (r matches Some(t) && t@ == utf8_lossy(
            body@,
        )),
        !is_text_spec(content_type@, opt_view(*filename)) ==> r is None,
{
    if is_text_attachment(content_type, filename) {
        Some(decode_lossy(body))
    } else {
        None
    }
}

/// The text of a part no extractor recognises: its bytes decoded as UTF-8,
/// invalid sequences replaced.
pub fn fallback_text(body: &[u8]) -> (r: String)
    ensures
        r@ == utf8_lossy(body@),
{
    decode_lossy(body)
}

/// Whether the caller asked for Markdown (`markdown`) rather than plain
/// text.
pub fn wants_markdown(format: &str) -> (r: bool)
    ensures
        r == (format@ == "markdown"@),
{
    text::str_eq(format, "markdown")
}

/// The error for a document extractor that failed on a part of type
/// `content_type`, with the extractor's own account in `detail`.
pub fn extraction_failed(markdown: bool, content_type: &str, detail: &str) -> (r: AppError)
    ensures
        r matches AppError::Internal(m) && m@ == "batdoc "@ + (if markdown {
            "markdown"@
        } else {
            "plain"@
        }) + " extraction failed for "@ + content_type@ + ": "@ + detail@,
{
    let mut m = text::copy_str("batdoc ");
    if markdown {
        text::push_str(&mut m, "markdown");
    } else {
        text::push_str(&mut m, "plain");
    }
    text::push_str(&mut m, " extraction failed for ");
    text::push_str(&mut m, content_type);
    text::push_str(&mut m, ": ");
    text::push_str(&mut m, detail);
    proof {
        assert(m@ =~= "batdoc "@ + (if markdown {
            "markdown"@
        } else {
            "plain"@
        }) + " extraction failed for "@ + content_type@ + ": "@ + detail@);
    }
    AppError::Internal(m)
}

} // verus!
