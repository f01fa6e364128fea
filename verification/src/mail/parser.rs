//! Email MIME parsing: headers, body selection and attachments.
//!
//! `mail_parser` parses the raw message; what the logic reads of the parse
//! is held in plain values (`MailModel`), and everything done with them is
//! verified.
use vstd::prelude::*;
use mail_parser::MimeHeaders;
use crate::api::thread::{AttachmentSummary, MessageDetail, MessageHeaders};
use crate::error::AppError;
use crate::mail::body;
use crate::mail::html;
use crate::mcp::util;
use crate::text;

verus! {

// ── The parsed message, as plain values ─────────────────────────────

/// The `Content-Type` and the file name attributes of a MIME part.
#[derive(Debug, Clone)]
pub struct PartHead {
    pub c_type: Option<String>,
    pub c_subtype: Option<String>,
    /// The `name` attribute of the `Content-Type`.
    pub name_attr: Option<String>,
    /// The `filename` attribute of the `Content-Disposition`.
    pub filename_attr: Option<String>,
}

/// The decoded body of a MIME part.
#[derive(Debug, Clone)]
pub enum PartBody {
    Text(String),
    Html(String),
    Binary(Vec<u8>),
    InlineBinary(Vec<u8>),
    Message,
    Multipart,
}

/// The parts that make up the message's HTML body, text body and
/// attachments, and its subject.
#[derive(Debug, Clone)]
pub struct MailLayout {
    pub html_body: Vec<u32>,
    pub text_body: Vec<u32>,
    pub attachments: Vec<u32>,
    pub subject: Option<String>,
}

/// One address of an address header.
#[derive(Debug, Clone)]
pub struct MailAddr {
    pub name: Option<String>,
    pub address: Option<String>,
}

/// An address header: a list of addresses, or groups of them.
#[derive(Debug, Clone)]
pub enum MailAddress {
    List(Vec<MailAddr>),
    Group(Vec<Vec<MailAddr>>),
}

/// A header value read as text: one text, a list of texts, or another
/// kind of value.
#[derive(Debug, Clone)]
pub enum HeaderText {
    Text(String),
    TextList(Vec<String>),
    Other,
}

/// What the logic reads of a parsed message.
pub struct MailModel {
    pub heads: Vec<PartHead>,
    pub bodies: Vec<PartBody>,
    pub layout: MailLayout,
    pub from: Option<MailAddress>,
    pub to: Option<MailAddress>,
    pub cc: Option<MailAddress>,
    pub bcc: Option<MailAddress>,
    pub in_reply_to: Option<HeaderText>,
    pub references: Option<HeaderText>,
}

/// The message `mail_parser` parses from `raw`, or `None` where it cannot.
pub uninterp spec fn parsed_mail(raw: Seq<u8>) -> Option<MailModel>;

/// The address header of `m` named `field`.
pub open spec fn address_field(m: MailModel, field: Seq<char>) -> Option<MailAddress> {
    if field == "From"@ {
        m.from
    } else if field == "To"@ {
        m.to
    } else if field == "Cc"@ {
        m.cc
    } else {
        m.bcc
    }
}

pub open spec fn address_name(field: Seq<char>) -> bool {
    field == "From"@ || field == "To"@ || field == "Cc"@ || field == "Bcc"@
}

/// The text header of `m` named `name`.
pub open spec fn text_field(m: MailModel, name: Seq<char>) -> Option<HeaderText> {
    if name == "In-Reply-To"@ {
        m.in_reply_to
    } else {
        m.references
    }
}

/// `MessageParser::default().parse(raw)`, then each part's content type
/// (`ctype`, `subtype`), its `name` attribute and its content disposition's
/// `filename` attribute.  The contract names the parse `parsed_mail(raw)`.
#[verifier::external_body]
fn parse_heads(raw: &[u8]) -> (r: Option<Vec<PartHead>>)
    ensures
        r == (match parsed_mail(raw@) {
            Some(m) => Some(m.heads),
            None => None,
        }),
{
    let m = mail_parser::MessageParser::default().parse(raw)?;
    Some(m.parts.iter().map(|p| PartHead {
        c_type: p.content_type().map(|c| c.ctype().to_string()),
        c_subtype: p.content_type().and_then(|c| c.subtype()).map(|s| s.to_string()),
        name_attr: p.content_type().and_then(|c| c.attribute("name")).map(|s| s.to_string()),
        filename_attr: p.content_disposition().and_then(|c| c.attribute("filename")).map(|s| s.to_string()),
    }).collect())
}

/// `MessageParser::default().parse(raw)`, then each part's decoded body.
/// There is one body per part, as one content type per part.
#[verifier::external_body]
fn parse_bodies(raw: &[u8]) -> (r: Option<Vec<PartBody>>)
    ensures
        r == (match parsed_mail(raw@) {
            Some(m) => Some(m.bodies),
            None => None,
        }),
        r matches Some(b) ==> b@.len() == parsed_mail(raw@)->0.heads@.len(),
{
    let m = mail_parser::MessageParser::default().parse(raw)?;
    Some(m.parts.iter().map(|p| match &p.body {
        mail_parser::PartType::Text(t) => PartBody::Text(t.to_string()),
        mail_parser::PartType::Html(h) => PartBody::Html(h.to_string()),
        mail_parser::PartType::Binary(b) => PartBody::Binary(b.to_vec()),
        mail_parser::PartType::InlineBinary(b) => PartBody::InlineBinary(b.to_vec()),
        mail_parser::PartType::Message(_) => PartBody::Message,
        mail_parser::PartType::Multipart(_) => PartBody::Multipart,
    }).collect())
}

/// `MessageParser::default().parse(raw)`, then the part numbers of its
/// HTML body, text body and attachments, and its subject.
#[verifier::external_body]
fn parse_layout(raw: &[u8]) -> (r: Option<MailLayout>)
    ensures
        r == (match parsed_mail(raw@) {
            Some(m) => Some(m.layout),
            None => None,
        }),
{
    let m = mail_parser::MessageParser::default().parse(raw)?;
    Some(MailLayout {
        html_body: m.html_body.clone(),
        text_body: m.text_body.clone(),
        attachments: m.attachments.clone(),
        subject: m.subject().map(|s| s.to_string()),
    })
}

/// `MessageParser::default().parse(raw)`, then the address header `field`
/// (`header(field)`, `as_address`), each address's name and address.
#[verifier::external_body]
fn parse_address(raw: &[u8], field: &str) -> (r: Option<Option<MailAddress>>)
    requires
        address_name(field@),
    ensures
        r == (match parsed_mail(raw@) {
            Some(m) => Some(address_field(m, field@)),
            None => None,
        }),
{
    let m = mail_parser::MessageParser::default().parse(raw)?;
    let addr = |a: &mail_parser::Addr| MailAddr { name: a.name().map(|s| s.to_string()), address: a.address().map(|s| s.to_string()) };
    Some(m.header(field).and_then(|h| h.as_address()).map(|a| match a {
        mail_parser::Address::List(l) => MailAddress::List(l.iter().map(addr).collect()),
        mail_parser::Address::Group(g) => MailAddress::Group(g.iter().map(|g| g.addresses.iter().map(addr).collect()).collect()),
    }))
}

/// `MessageParser::default().parse(raw)`, then the header `name`
/// (`header(name)`) where it is text or a list of texts.
#[verifier::external_body]
fn parse_header_text(raw: &[u8], name: &str) -> (r: Option<Option<HeaderText>>)
    requires
        name@ == "In-Reply-To"@ || name@ == "References"@,
    ensures
        r == (match parsed_mail(raw@) {
            Some(m) => Some(text_field(m, name@)),
            None => None,
        }),
{
    let m = mail_parser::MessageParser::default().parse(raw)?;
    Some(m.header(name).map(|h| match h {
        mail_parser::HeaderValue::Text(t) => HeaderText::Text(t.to_string()),
        mail_parser::HeaderValue::TextList(l) => HeaderText::TextList(l.iter().map(|s| s.to_string()).collect()),
        _ => HeaderText::Other,
    }))
}

// ── MIME helpers ────────────────────────────────────────────────────

pub open spec fn opt_view(o: Option<String>) -> Option<Seq<char>> {
    match o {
        Some(s) => Some(s@),
        None => None,
    }
}

/// `type/subtype` of a part, `application/octet-stream` without a content
/// type, and `octet-stream` for a missing subtype.
pub open spec fn content_type_spec(h: PartHead) -> Seq<char> {
    match h.c_type {
        None => "application/octet-stream"@,
        Some(t) => t@ + "/"@ + match h.c_subtype {
            Some(s) => s@,
            None => "octet-stream"@,
        },
    }
}

/// The disposition's `filename`, else the content type's `name`.
pub open spec fn filename_spec(h: PartHead) -> Option<Seq<char>> {
    match h.filename_attr {
        Some(f) => Some(f@),
        None => opt_view(h.name_attr),
    }
}

/// The MIME type `mime_guess` gives first for a file name's extension.
pub uninterp spec fn guessed_mime(name: Seq<char>) -> Option<Seq<char>>;

/// `mime_guess::from_path(name).first()`, as text.  The contract names the
/// result `guessed_mime(name)`.
#[verifier::external_body]
fn guess_mime(name: &str) -> (r: Option<String>)
    ensures
        opt_view(r) == guessed_mime(name@),
{
    mime_guess::from_path(name).first().map(|m| m.to_string())
}

/// The generic `application/octet-stream` replaced by the type guessed from
/// the file name, where there is one.
pub open spec fn refined_type(ct: Seq<char>, filename: Option<Seq<char>>) -> Seq<char> {
    if ct == "application/octet-stream"@ {
        match filename {
            Some(n) => match guessed_mime(n) {
                Some(g) => g,
                None => ct,
            },
            None => ct,
        }
    } else {
        ct
    }
}

/// Resolve the MIME content-type string for a part.
pub fn content_type_of(h: &PartHead) -> (r: String)
    ensures
        r@ == content_type_spec(*h),
{
    match &h.c_type {
        None => text::copy_str("application/octet-stream"),
        Some(t) => {
            let mut r = text::copy_str(t.as_str());
            text::push_str(&mut r, "/");
            match &h.c_subtype {
                Some(s) => text::push_str(&mut r, s.as_str()),
                None => text::push_str(&mut r, "octet-stream"),
            }
            r
        },
    }
}

fn copy_opt(o: &Option<String>) -> (r: Option<String>)
    ensures
        opt_view(r) == opt_view(*o),
{
    match o {
        Some(s) => Some(text::copy_str(s.as_str())),
        None => None,
    }
}

/// Resolve the filename (or `name` attribute) for a MIME part.
pub fn filename_of(h: &PartHead) -> (r: Option<String>)
    ensures
        opt_view(r) == filename_spec(*h),
{
    match &h.filename_attr {
        Some(f) => Some(text::copy_str(f.as_str())),
        None => copy_opt(&h.name_attr),
    }
}

/// If the MIME type is the generic `application/octet-stream`, try to infer
/// a more specific type from the filename extension.  Many email clients
/// send PDFs/images with this generic type.
pub fn refine_content_type(ct: &str, filename: &Option<String>) -> (r: String)
    ensures
        r@ == refined_type(ct@, opt_view(*filename)),
{
    if text::str_eq(ct, "application/octet-stream") {
        match filename {
            Some(name) => match guess_mime(name.as_str()) {
                Some(g) => g,
                None => text::copy_str(ct),
            },
            None => text::copy_str(ct),
        }
    } else {
        text::copy_str(ct)
    }
}

/// The size of a part's body: bytes for binary and text bodies, none for
/// the others.
pub open spec fn size_spec(b: PartBody) -> Option<usize> {
    match b {
        PartBody::Binary(v) => Some(v@.len() as usize),
        PartBody::InlineBinary(v) => Some(v@.len() as usize),
        PartBody::Text(t) => Some(vstd::utf8::encode_utf8(t@).len() as usize),
        _ => None,
    }
}

/// `a` summarises part `idx` with head `h` and body `b`.
pub open spec fn summary_is(a: AttachmentSummary, h: PartHead, b: PartBody, idx: int) -> bool {
    &&& opt_view(a.filename) == filename_spec(h)
    &&& a.content_type@ == refined_type(content_type_spec(h), filename_spec(h))
    &&& a.part == idx
    &&& a.size_bytes == size_spec(b)
}

/// Build an `AttachmentSummary` from a MIME part.
pub fn attachment_summary(h: &PartHead, b: &PartBody, idx: usize) -> (r: AttachmentSummary)
    ensures
        summary_is(r, *h, *b, idx as int),
{
    let fname = filename_of(h);
    let ct = refine_content_type(content_type_of(h).as_str(), &fname);
    let size_bytes = match b {
        PartBody::Binary(v) => Some(v.len()),
        PartBody::InlineBinary(v) => Some(v.len()),
        PartBody::Text(t) => Some(t.as_str().len()),
        _ => None,
    };
    AttachmentSummary { filename: fname, content_type: ct, part: idx, size_bytes }
}

// ── Body selection ──────────────────────────────────────────────────

/// The text of the first part of `ids`, where it is a text part.
pub open spec fn first_text(ids: Seq<u32>, bodies: Seq<PartBody>) -> Option<Seq<char>> {
    if ids.len() > 0 && (ids[0] as int) < bodies.len() {
        match bodies[ids[0] as int] {
            PartBody::Text(t) => Some(t@),
            _ => None,
        }
    } else {
        None
    }
}

/// The parts of `ids[..k]` that exist, in order.
pub open spec fn listed_parts(ids: Seq<u32>, n: int, k: int) -> Seq<int>
    decreases k,
{
    if k <= 0 {
        Seq::empty()
    } else {
        let s = listed_parts(ids, n, k - 1);
        if (ids[k - 1] as int) < n {
            s.push(ids[k - 1] as int)
        } else {
            s
        }
    }
}

/// The binary parts among the first `k`, outside the HTML and text bodies.
pub open spec fn binary_parts(l: MailLayout, bodies: Seq<PartBody>, k: int) -> Seq<int>
    decreases k,
{
    if k <= 0 {
        Seq::empty()
    } else {
        let s = binary_parts(l, bodies, k - 1);
        let i = k - 1;
        if !l.html_body@.contains(i as u32) && !l.text_body@.contains(i as u32) && (
        bodies[i] is Binary || bodies[i] is InlineBinary) {
            s.push(i)
        } else {
            s
        }
    }
}

/// The parts listed as attachments, or, where none is, the binary parts
/// outside the bodies.
pub open spec fn attachment_parts(l: MailLayout, bodies: Seq<PartBody>) -> Seq<int> {
    let listed = listed_parts(l.attachments@, bodies.len() as int, l.attachments@.len() as int);
    if listed.len() > 0 {
        listed
    } else {
        binary_parts(l, bodies, bodies.len() as int)
    }
}

/// The words of each text of `list`, in order.
pub open spec fn flat_words(list: Seq<String>) -> Seq<Seq<char>>
    decreases list.len(),
{
    if list.len() == 0 {
        Seq::empty()
    } else {
        flat_words(list.drop_last()) + text::words(list.last()@)
    }
}

/// The message IDs of a `References` header.
pub open spec fn references_spec(h: Option<HeaderText>) -> Seq<Seq<char>> {
    match h {
        Some(HeaderText::TextList(list)) => flat_words(list@),
        Some(HeaderText::Text(t)) => text::words(t@),
        _ => Seq::empty(),
    }
}

/// The `In-Reply-To` header where it is text.
pub open spec fn in_reply_to_spec(h: Option<HeaderText>) -> Option<Seq<char>> {
    match h {
        Some(HeaderText::Text(t)) => Some(t@),
        _ => None,
    }
}

/// What `extract_body_and_attachments` finds.
pub struct BodyParts {
    pub content: String,
    pub content_type: String,
    pub attachments: Vec<AttachmentSummary>,
    pub in_reply_to: Option<String>,
    pub references: Vec<String>,
    pub raw_text: Option<String>,
}

/// The body a message shows: the sanitised HTML body, else the text body
/// as HTML, else a placeholder; with its type.
pub open spec fn content_spec(l: MailLayout, bodies: Seq<PartBody>) -> (Seq<char>, Seq<char>) {
    match first_text(l.html_body@, bodies) {
        Some(h) => (html::cleaned_html(h, html::allowed_tags(), html::allowed_attributes()), "text/html"@),
        None => match first_text(l.text_body@, bodies) {
            Some(t) => (html::text_to_html_spec(t), "text/plain"@),
            None => ("(no readable body)"@, "text/plain"@),
        },
    }
}

pub open spec fn body_parts_are(
    r: BodyParts,
    heads: Seq<PartHead>,
    bodies: Seq<PartBody>,
    l: MailLayout,
    irt: Option<HeaderText>,
    refs: Option<HeaderText>,
) -> bool {
    let idxs = attachment_parts(l, bodies);
    &&& r.content@ == content_spec(l, bodies).0
    &&& r.content_type@ == content_spec(l, bodies).1
    &&& r.attachments@.len() == idxs.len()
    &&& forall|k: int|
        0 <= k < idxs.len() ==> summary_is(
            #[trigger] r.attachments@[k],
            heads[idxs[k]],
            bodies[idxs[k]],
            idxs[k],
        )
    &&& opt_view(r.in_reply_to) == in_reply_to_spec(irt)
    &&& util::strings_view(r.references@) == references_spec(refs)
    &&& opt_view(r.raw_text) == first_text(l.text_body@, bodies)
}

fn first_text_exec(ids: &Vec<u32>, bodies: &Vec<PartBody>) -> (r: Option<String>)
    ensures
        opt_view(r) == first_text(ids@, bodies@),
{
    if ids.len() > 0 && (ids[0] as usize) < bodies.len() {
        match &bodies[ids[0] as usize] {
            PartBody::Text(t) => Some(text::copy_str(t.as_str())),
            _ => None,
        }
    } else {
        None
    }
}

fn contains_u32(v: &Vec<u32>, x: u32) -> (r: bool)
    ensures
        r == v@.contains(x),
{
    let mut i: usize = 0;
    while i < v.len()
        invariant
            i <= v@.len(),
            forall|j: int| 0 <= j < i ==> v@[j] != x,
        decreases v.len() - i,
    {
        if v[i] == x {
            proof {
                assert(v@[i as int] == x);
            }
            return true;
        }
        i = i + 1;
    }
    false
}

/// The strings of the words of `s`.
pub(crate) fn word_strings(s: &String, out: &mut Vec<String>)
    ensures
        util::strings_view(final(out)@) == util::strings_view(old(out)@) + text::words(s@),
{
    let ws = text::words_exec(&text::chars_of(s.as_str()));
    let mut i: usize = 0;
    proof {
        assert(util::strings_view(out@) + text::words(s@).take(0) =~= util::strings_view(out@));
    }
    while i < ws.len()
        invariant
            i <= ws@.len() == text::words(s@).len(),
            forall|j: int| 0 <= j < ws@.len() ==> #[trigger] ws@[j]@ == text::words(s@)[j],
            util::strings_view(out@) == util::strings_view(old(out)@) + text::words(s@).take(i as int),
        decreases ws.len() - i,
    {
        let ghost before = out@;
        out.push(text::string_of(&ws[i]));
        proof {
            assert(util::strings_view(out@) =~= util::strings_view(before).push(ws@[i as int]@));
            assert(text::words(s@).take(i + 1) =~= text::words(s@).take(i as int).push(
                text::words(s@)[i as int],
            ));
        }
        i = i + 1;
    }
    proof {
        assert(text::words(s@).take(ws@.len() as int) =~= text::words(s@));
    }
}

/// Extract the preferred body, all attachments, and threading headers of a
/// parsed message.
pub fn extract_body_and_attachments(
    heads: &Vec<PartHead>,
    bodies: &Vec<PartBody>,
    layout: &MailLayout,
    in_reply_to: &Option<HeaderText>,
    references: &Option<HeaderText>,
) -> (r: BodyParts)
    requires
        heads@.len() == bodies@.len(),
    ensures
        body_parts_are(r, heads@, bodies@, *layout, *in_reply_to, *references),
{
    let html_body = first_text_exec(&layout.html_body, bodies);
    let text_body = first_text_exec(&layout.text_body, bodies);
    let n = bodies.len();
    // Attachments by the attachment list.
    let mut idxs: Vec<usize> = Vec::new();
    let mut k: usize = 0;
    let ghost ids = layout.attachments@;
    while k < layout.attachments.len()
        invariant
            k <= ids.len(),
            ids == layout.attachments@,
            n == bodies@.len(),
            crate::api::thread::ints(idxs@) == listed_parts(ids, n as int, k as int),
        decreases layout.attachments.len() - k,
    {
        let id = layout.attachments[k] as usize;
        if id < n {
            idxs.push(id);
        }
        proof {
            assert(crate::api::thread::ints(idxs@) =~= listed_parts(ids, n as int, k + 1));
        }
        k = k + 1;
    }
    if idxs.len() == 0 {
        // None listed: the binary parts outside the bodies.
        let mut i: usize = 0;
        proof {
            assert(crate::api::thread::ints(idxs@) =~= binary_parts(*layout, bodies@, 0));
        }
        while i < n
            invariant
                i <= n == bodies@.len(),
                crate::api::thread::ints(idxs@) == binary_parts(*layout, bodies@, i as int),
            decreases n - i,
        {
            let i32 = i as u32;
            let in_bodies = contains_u32(&layout.html_body, i32) || contains_u32(&layout.text_body, i32);
            let binary = match &bodies[i] {
                PartBody::Binary(_) => true,
                PartBody::InlineBinary(_) => true,
                _ => false,
            };
            if !in_bodies && binary {
                idxs.push(i);
            }
            proof {
                assert(crate::api::thread::ints(idxs@) =~= binary_parts(*layout, bodies@, i + 1));
            }
            i = i + 1;
        }
    }
    let ghost pidx = attachment_parts(*layout, bodies@);
    proof {
        lemma_parts_in_range(*layout, bodies@);
    }
    let mut attachments: Vec<AttachmentSummary> = Vec::new();
    let mut j: usize = 0;
    while j < idxs.len()
        invariant
            j <= idxs@.len(),
            crate::api::thread::ints(idxs@) == pidx,
            pidx == attachment_parts(*layout, bodies@),
            forall|x: int| 0 <= x < pidx.len() ==> 0 <= #[trigger] pidx[x] < bodies@.len(),
            heads@.len() == bodies@.len(),
            attachments@.len() == j,
            forall|x: int|
                0 <= x < j ==> summary_is(
                    #[trigger] attachments@[x],
                    heads@[pidx[x]],
                    bodies@[pidx[x]],
                    pidx[x],
                ),
        decreases idxs.len() - j,
    {
        let p = idxs[j];
        proof {
            assert(pidx[j as int] == p as int);
        }
        attachments.push(attachment_summary(&heads[p], &bodies[p], p));
        j = j + 1;
    }
    let irt = match in_reply_to {
        Some(HeaderText::Text(t)) => Some(text::copy_str(t.as_str())),
        _ => None,
    };
    let mut refs: Vec<String> = Vec::new();
    match references {
        Some(HeaderText::TextList(list)) => {
            let mut i: usize = 0;
            proof {
                assert(util::strings_view(refs@) =~= flat_words(list@.take(0)));
            }
            while i < list.len()
                invariant
                    i <= list@.len(),
                    util::strings_view(refs@) == flat_words(list@.take(i as int)),
                decreases list.len() - i,
            {
                word_strings(&list[i], &mut refs);
                proof {
                    assert(list@.take(i + 1).drop_last() =~= list@.take(i as int));
                }
                i = i + 1;
            }
            proof {
                assert(list@.take(list@.len() as int) =~= list@);
            }
        },
        Some(HeaderText::Text(t)) => {
            word_strings(t, &mut refs);
            proof {
                assert(Seq::<Seq<char>>::empty() + text::words(t@) =~= text::words(t@));
            }
        },
        _ => {
            proof {
                assert(util::strings_view(refs@) =~= Seq::<Seq<char>>::empty());
            }
        },
    }
    let raw_text = copy_opt(&text_body);
    let (content, content_type) = match html_body {
        Some(h) => (html::sanitize_html(h.as_str()), text::copy_str("text/html")),
        None => match text_body {
            Some(t) => (html::text_to_html(t.as_str()), text::copy_str("text/plain")),
            None => (text::copy_str("(no readable body)"), text::copy_str("text/plain")),
        },
    };
    BodyParts { content, content_type, attachments, in_reply_to: irt, references: refs, raw_text }
}

proof fn lemma_listed_in_range(ids: Seq<u32>, n: int, k: int)
    requires
        0 <= k <= ids.len(),
    ensures
        forall|x: int|
            0 <= x < listed_parts(ids, n, k).len() ==> 0 <= #[trigger] listed_parts(ids, n, k)[x] < n,
    decreases k,
{
    if k > 0 {
        lemma_listed_in_range(ids, n, k - 1);
        let s = listed_parts(ids, n, k - 1);
        if (ids[k - 1] as int) < n {
            let t = s.push(ids[k - 1] as int);
            assert(listed_parts(ids, n, k) == t);
            assert forall|x: int| 0 <= x < t.len() implies 0 <= #[trigger] t[x] < n by {
                if x < s.len() {
                    assert(t[x] == s[x]);
                }
            }
        }
    }
}

proof fn lemma_binary_in_range(l: MailLayout, bodies: Seq<PartBody>, k: int)
    requires
        0 <= k <= bodies.len(),
    ensures
        forall|x: int|
            0 <= x < binary_parts(l, bodies, k).len() ==> 0 <= #[trigger] binary_parts(l, bodies, k)[x]
                < k,
    decreases k,
{
    if k > 0 {
        lemma_binary_in_range(l, bodies, k - 1);
        let s = binary_parts(l, bodies, k - 1);
        let i = k - 1;
        if !l.html_body@.contains(i as u32) && !l.text_body@.contains(i as u32) && (bodies[i] is Binary
            || bodies[i] is InlineBinary) {
            let t = s.push(i);
            assert(binary_parts(l, bodies, k) == t);
            assert forall|x: int| 0 <= x < t.len() implies 0 <= #[trigger] t[x] < k by {
                if x < s.len() {
                    assert(t[x] == s[x]);
                }
            }
        }
    }
}

proof fn lemma_parts_in_range(l: MailLayout, bodies: Seq<PartBody>)
    ensures
        forall|x: int|
            0 <= x < attachment_parts(l, bodies).len() ==> 0 <= #[trigger] attachment_parts(l, bodies)[x]
                < bodies.len(),
{
    lemma_listed_in_range(l.attachments@, bodies.len() as int, l.attachments@.len() as int);
    lemma_binary_in_range(l, bodies, bodies.len() as int);
}

// ── Addresses ───────────────────────────────────────────────────────

/// `name <address>`, or the address alone; `(no address)` for a missing
/// address.
pub open spec fn addr_text(a: MailAddr) -> Seq<char> {
    let address = match a.address {
        Some(x) => x@,
        None => "(no address)"@,
    };
    match a.name {
        Some(n) => n@ + " <"@ + address + ">"@,
        None => address,
    }
}

/// The addresses of the groups, in order.
pub open spec fn group_addrs(g: Seq<Vec<MailAddr>>) -> Seq<MailAddr>
    decreases g.len(),
{
    if g.len() == 0 {
        Seq::empty()
    } else {
        group_addrs(g.drop_last()) + g.last()@
    }
}

pub open spec fn address_entries(a: MailAddress) -> Seq<MailAddr> {
    match a {
        MailAddress::List(l) => l@,
        MailAddress::Group(g) => group_addrs(g@),
    }
}

/// The addresses of a header, each as `addr_text`, separated by `, `.
pub open spec fn address_list_text(a: MailAddress) -> Seq<char> {
    text::join_with(address_entries(a).map_values(|x: MailAddr| addr_text(x)), ", "@)
}

fn format_address(a: &MailAddr) -> (r: String)
    ensures
        r@ == addr_text(*a),
{
    let address = match &a.address {
        Some(x) => text::copy_str(x.as_str()),
        None => text::copy_str("(no address)"),
    };
    match &a.name {
        Some(n) => {
            let mut r = text::copy_str(n.as_str());
            text::push_str(&mut r, " <");
            text::push_str(&mut r, address.as_str());
            text::push_str(&mut r, ">");
            r
        },
        None => address,
    }
}

fn push_formatted(out: &mut Vec<String>, list: &Vec<MailAddr>)
    ensures
        util::strings_view(final(out)@) == util::strings_view(old(out)@) + list@.map_values(
            |x: MailAddr| addr_text(x),
        ),
{
    let mut i: usize = 0;
    proof {
        assert(util::strings_view(out@) + list@.map_values(|x: MailAddr| addr_text(x)).take(0)
            =~= util::strings_view(out@));
    }
    while i < list.len()
        invariant
            i <= list@.len(),
            util::strings_view(out@) == util::strings_view(old(out)@) + list@.map_values(
                |x: MailAddr| addr_text(x),
            ).take(i as int),
        decreases list.len() - i,
    {
        let ghost before = out@;
        let s = format_address(&list[i]);
        out.push(s);
        proof {
            assert(util::strings_view(out@) =~= util::strings_view(before).push(s@));
            assert(list@.map_values(|x: MailAddr| addr_text(x)).take(i + 1) =~= list@.map_values(
                |x: MailAddr| addr_text(x),
            ).take(i as int).push(addr_text(list@[i as int])));
        }
        i = i + 1;
    }
    proof {
        assert(list@.map_values(|x: MailAddr| addr_text(x)).take(list@.len() as int)
            =~= list@.map_values(|x: MailAddr| addr_text(x)));
    }
}

proof fn lemma_group_addrs_map(g: Seq<Vec<MailAddr>>, k: int)
    requires
        0 <= k < g.len(),
    ensures
        group_addrs(g.take(k + 1)).map_values(|x: MailAddr| addr_text(x)) == group_addrs(g.take(k)).map_values(
            |x: MailAddr| addr_text(x),
        ) + g[k]@.map_values(|x: MailAddr| addr_text(x)),
{
    assert(g.take(k + 1).drop_last() =~= g.take(k));
    assert(group_addrs(g.take(k + 1)) == group_addrs(g.take(k)) + g[k]@);
    assert(group_addrs(g.take(k + 1)).map_values(|x: MailAddr| addr_text(x)) =~= group_addrs(
        g.take(k),
    ).map_values(|x: MailAddr| addr_text(x)) + g[k]@.map_values(|x: MailAddr| addr_text(x)));
}

/// The addresses of a header, formatted and separated by `, `.
pub fn format_address_list(a: &MailAddress) -> (r: String)
    ensures
        r@ == address_list_text(*a),
{
    let mut parts: Vec<String> = Vec::new();
    match a {
        MailAddress::List(l) => {
            push_formatted(&mut parts, l);
            proof {
                assert(Seq::<Seq<char>>::empty() + l@.map_values(|x: MailAddr| addr_text(x))
                    =~= l@.map_values(|x: MailAddr| addr_text(x)));
            }
        },
        MailAddress::Group(g) => {
            let mut i: usize = 0;
            proof {
                assert(g@.take(0) =~= Seq::<Vec<MailAddr>>::empty());
                assert(util::strings_view(parts@) =~= group_addrs(g@.take(0)).map_values(
                    |x: MailAddr| addr_text(x),
                ));
            }
            while i < g.len()
                invariant
                    i <= g@.len(),
                    util::strings_view(parts@) == group_addrs(g@.take(i as int)).map_values(
                        |x: MailAddr| addr_text(x),
                    ),
                decreases g.len() - i,
            {
                push_formatted(&mut parts, &g[i]);
                proof {
                    lemma_group_addrs_map(g@, i as int);
                }
                i = i + 1;
            }
            proof {
                assert(g@.take(g@.len() as int) =~= g@);
            }
        },
    }
    let mut out: Vec<char> = Vec::new();
    text::push_joined(&mut out, &parts, ", ");
    proof {
        assert(Seq::<char>::empty() + text::join_with(util::strings_view(parts@), ", "@)
            =~= text::join_with(util::strings_view(parts@), ", "@));
    }
    text::string_of(&out)
}

// ── Attachment extraction ───────────────────────────────────────────

/// The bytes of a part's body: binary bodies as they are, text bodies as
/// UTF-8; none for HTML, message and multipart bodies.
pub open spec fn part_bytes(b: PartBody) -> Option<Seq<u8>> {
    match b {
        PartBody::Binary(v) => Some(v@),
        PartBody::InlineBinary(v) => Some(v@),
        PartBody::Text(t) => Some(vstd::utf8::encode_utf8(t@)),
        _ => None,
    }
}

fn copy_bytes(v: &[u8]) -> (r: Vec<u8>)
    ensures
        r@ == v@,
{
    let mut r: Vec<u8> = Vec::new();
    let mut i: usize = 0;
    while i < v.len()
        invariant
            i <= v@.len(),
            r@ == v@.take(i as int),
        decreases v.len() - i,
    {
        r.push(v[i]);
        proof {
            assert(v@.take(i + 1) =~= v@.take(i as int).push(v@[i as int]));
        }
        i = i + 1;
    }
    proof {
        assert(v@.take(v@.len() as int) =~= v@);
    }
    r
}

/// The result of `extract_attachment_full` on the parse `m`.
pub open spec fn attachment_ok(
    m: MailModel,
    part_num: int,
    r: (String, Vec<u8>, Option<String>),
) -> bool {
    let h = m.heads@[part_num];
    &&& r.0@ == refined_type(content_type_spec(h), filename_spec(h))
    &&& part_bytes(m.bodies@[part_num]) == Some(r.1@)
    &&& opt_view(r.2) == filename_spec(h)
}

/// Extract a single MIME part by index, returning content-type, body, and
/// filename in one parse pass.
///
/// Errors: `MailParse` where the message cannot be parsed, `NotFound` where
/// the part does not exist or its body is not binary or text.
pub fn extract_attachment_full(raw: &[u8], part_num: usize) -> (r: Result<
    (String, Vec<u8>, Option<String>),
    AppError,
>)
    ensures
        match parsed_mail(raw@) {
            None => r matches Err(AppError::MailParse(msg)) && msg@
                == "failed to parse email for attachment"@,
            Some(m) => if part_num >= m.heads@.len() {
                r matches Err(AppError::NotFound(msg)) && msg@ == "part "@ + text::decimal(
                    part_num as nat,
                ) + " not found"@
            } else if part_bytes(m.bodies@[part_num as int]) is None {
                r matches Err(AppError::NotFound(msg)) && msg@ == "part is not a binary attachment"@
            } else {
                r matches Ok(v) && attachment_ok(m, part_num as int, v)
            },
        },
{
    let heads = match parse_heads(raw) {
        Some(h) => h,
        None => {
            return Err(AppError::MailParse(text::copy_str("failed to parse email for attachment")));
        },
    };
    let bodies = match parse_bodies(raw) {
        Some(b) => b,
        None => {
            return Err(AppError::MailParse(text::copy_str("failed to parse email for attachment")));
        },
    };
    if part_num >= heads.len() {
        let mut msg: Vec<char> = Vec::new();
        text::extend_str(&mut msg, "part ");
        text::push_decimal(&mut msg, part_num);
        text::extend_str(&mut msg, " not found");
        return Err(AppError::NotFound(text::string_of(&msg)));
    }
    let h = &heads[part_num];
    let fname = filename_of(h);
    let ct = refine_content_type(content_type_of(h).as_str(), &fname);
    let body = match &bodies[part_num] {
        PartBody::Binary(v) => copy_bytes(v.as_slice()),
        PartBody::InlineBinary(v) => copy_bytes(v.as_slice()),
        PartBody::Text(t) => copy_bytes(t.as_str().as_bytes()),
        _ => {
            return Err(AppError::NotFound(text::copy_str("part is not a binary attachment")));
        },
    };
    Ok((ct, body, fname))
}

/// Extract a single MIME part from raw message bytes (see
/// `extract_attachment_full`), without its file name.
pub fn extract_attachment(raw: &[u8], part_num: usize) -> (r: Result<(String, Vec<u8>), AppError>)
    ensures
        match parsed_mail(raw@) {
            None => r matches Err(AppError::MailParse(msg)) && msg@
                == "failed to parse email for attachment"@,
            Some(m) => if part_num >= m.heads@.len() {
                r matches Err(AppError::NotFound(msg)) && msg@ == "part "@ + text::decimal(
                    part_num as nat,
                ) + " not found"@
            } else if part_bytes(m.bodies@[part_num as int]) is None {
                r matches Err(AppError::NotFound(msg)) && msg@ == "part is not a binary attachment"@
            } else {
                r matches Ok(v) && v.0@ == refined_type(
                    content_type_spec(m.heads@[part_num as int]),
                    filename_spec(m.heads@[part_num as int]),
                ) && part_bytes(m.bodies@[part_num as int]) == Some(v.1@)
            },
        },
{
    match extract_attachment_full(raw, part_num) {
        Ok((ct, body, _filename)) => Ok((ct, body)),
        Err(e) => Err(e),
    }
}

/// Attempt to resolve the filename of a MIME part by index: `None` where the
/// message cannot be parsed or has no such part.
pub fn attachment_filename(raw: &[u8], part_num: usize) -> (r: Option<String>)
    ensures
        match parsed_mail(raw@) {
            None => r is None,
            Some(m) => if part_num >= m.heads@.len() {
                r is None
            } else {
                opt_view(r) == filename_spec(m.heads@[part_num as int])
            },
        },
{
    let heads = parse_heads(raw)?;
    if part_num >= heads.len() {
        return None;
    }
    filename_of(&heads[part_num])
}

// ── Parsing a message ───────────────────────────────────────────────

pub open spec fn header_text(a: Option<MailAddress>) -> Seq<char> {
    match a {
        Some(x) => address_list_text(x),
        None => Seq::empty(),
    }
}

pub open spec fn opt_header_text(a: Option<MailAddress>) -> Option<Seq<char>> {
    match a {
        Some(x) => Some(address_list_text(x)),
        None => None,
    }
}

/// The plain text kept of a body: the HTML body converted, or the text body
/// as it came (the shown content where there is none).
pub open spec fn body_text_spec(m: MailModel) -> Option<Seq<char>> {
    let (content, ct) = content_spec(m.layout, m.bodies@);
    if ct == "text/html"@ {
        Some(body::html_to_text_spec(content))
    } else if ct == "text/plain"@ {
        Some(
            match first_text(m.layout.text_body@, m.bodies@) {
                Some(t) => t,
                None => content,
            },
        )
    } else {
        None
    }
}

/// The Markdown kept of a body: the HTML body converted, or the same text
/// as `body_text_spec`.
pub open spec fn body_markdown_spec(m: MailModel) -> Option<Seq<char>> {
    let (content, ct) = content_spec(m.layout, m.bodies@);
    if ct == "text/html"@ {
        body::html_to_markdown_spec(content)
    } else {
        body_text_spec(m)
    }
}

/// The HTML body of the parse, sanitised, converts to Markdown (the
/// conversion is undefined for a link whose `href` is a lone quote).
pub open spec fn markdown_ok(raw: Seq<u8>) -> bool {
    match parsed_mail(raw) {
        Some(m) => match first_text(m.layout.html_body@, m.bodies@) {
            Some(h) => body::markdown_defined(
                html::cleaned_html(h, html::allowed_tags(), html::allowed_attributes()),
            ),
            None => true,
        },
        None => true,
    }
}

/// `d` is the message of the parse `m` with the given ID, date and tags.
pub open spec fn detail_is(
    d: MessageDetail,
    m: MailModel,
    message_id: Seq<char>,
    date: i64,
    date_relative: String,
    tags: Vec<String>,
) -> bool {
    let (content, ct) = content_spec(m.layout, m.bodies@);
    let idxs = attachment_parts(m.layout, m.bodies@);
    &&& d.message_id@ == message_id
    &&& d.headers.from@ == header_text(m.from)
    &&& d.headers.to@ == header_text(m.to)
    &&& opt_view(d.headers.cc) == opt_header_text(m.cc)
    &&& opt_view(d.headers.bcc) == opt_header_text(m.bcc)
    &&& d.date == date
    &&& d.date_relative == date_relative
    &&& d.subject@ == (match m.layout.subject {
        Some(s) => s@,
        None => "(no subject)"@,
    })
    &&& d.content@ == content
    &&& d.content_type@ == ct
    &&& d.attachments@.len() == idxs.len()
    &&& forall|k: int|
        0 <= k < idxs.len() ==> summary_is(
            #[trigger] d.attachments@[k],
            m.heads@[idxs[k]],
            m.bodies@[idxs[k]],
            idxs[k],
        )
    &&& opt_view(d.body_text) == body_text_spec(m)
    &&& opt_view(d.body_markdown) == body_markdown_spec(m)
    &&& d.tags == tags
    &&& opt_view(d.in_reply_to) == in_reply_to_spec(m.in_reply_to)
    &&& util::strings_view(d.references@) == references_spec(m.references)
}

/// The result of `parse_message`.
pub open spec fn parse_result_is(
    r: Result<MessageDetail, AppError>,
    raw: Seq<u8>,
    message_id: Seq<char>,
    date: i64,
    date_relative: String,
    tags: Vec<String>,
) -> bool {
    match parsed_mail(raw) {
        None => r matches Err(AppError::MailParse(msg)) && msg@ == "failed to parse email"@,
        Some(m) => r matches Ok(d) && detail_is(d, m, message_id, date, date_relative, tags),
    }
}

fn parse_error() -> (r: AppError)
    ensures
        r matches AppError::MailParse(msg) && msg@ == "failed to parse email"@,
{
    AppError::MailParse(text::copy_str("failed to parse email"))
}

fn header_or_empty(a: &Option<MailAddress>) -> (r: String)
    ensures
        r@ == header_text(*a),
{
    match a {
        Some(x) => format_address_list(x),
        None => String::new(),
    }
}

fn header_opt(a: &Option<MailAddress>) -> (r: Option<String>)
    ensures
        opt_view(r) == opt_header_text(*a),
{
    match a {
        Some(x) => Some(format_address_list(x)),
        None => None,
    }
}

/// Parse raw RFC822 bytes into a `MessageDetail`.
///
/// Errors: `MailParse` where the message cannot be parsed.
pub fn parse_message(
    raw: &[u8],
    message_id: &str,
    date: i64,
    date_relative: String,
    tags: Vec<String>,
) -> (r: Result<MessageDetail, AppError>)
    requires
        markdown_ok(raw@),
    ensures
        parse_result_is(r, raw@, message_id@, date, date_relative, tags),
{
    let heads = match parse_heads(raw) {
        Some(h) => h,
        None => {
            return Err(parse_error());
        },
    };
    let bodies = match parse_bodies(raw) {
        Some(b) => b,
        None => {
            return Err(parse_error());
        },
    };
    let layout = match parse_layout(raw) {
        Some(l) => l,
        None => {
            return Err(parse_error());
        },
    };
    let from = match parse_address(raw, "From") {
        Some(a) => a,
        None => {
            return Err(parse_error());
        },
    };
    let to = match parse_address(raw, "To") {
        Some(a) => a,
        None => {
            return Err(parse_error());
        },
    };
    let cc = match parse_address(raw, "Cc") {
        Some(a) => a,
        None => {
            return Err(parse_error());
        },
    };
    let bcc = match parse_address(raw, "Bcc") {
        Some(a) => a,
        None => {
            return Err(parse_error());
        },
    };
    let irt = match parse_header_text(raw, "In-Reply-To") {
        Some(h) => h,
        None => {
            return Err(parse_error());
        },
    };
    let refs = match parse_header_text(raw, "References") {
        Some(h) => h,
        None => {
            return Err(parse_error());
        },
    };
    let ghost m = parsed_mail(raw@)->0;
    proof {
        reveal_strlit("From");
        reveal_strlit("To");
        reveal_strlit("Cc");
        reveal_strlit("Bcc");
        reveal_strlit("In-Reply-To");
        reveal_strlit("References");
        assert("Cc"@[0] != "To"@[0]);
        assert("To"@ != "From"@);
        assert("Bcc"@[0] != "From"@[0] && "Bcc"@[0] != "To"@[0] && "Bcc"@[0] != "Cc"@[0]);
        assert("References"@[0] != "In-Reply-To"@[0]);
        assert(from == m.from && to == m.to && cc == m.cc && bcc == m.bcc);
        assert(irt == m.in_reply_to && refs == m.references);
    }
    let headers = MessageHeaders {
        from: header_or_empty(&from),
        to: header_or_empty(&to),
        cc: header_opt(&cc),
        bcc: header_opt(&bcc),
    };
    let subject = match &layout.subject {
        Some(s) => text::copy_str(s.as_str()),
        None => text::copy_str("(no subject)"),
    };
    let bp = extract_body_and_attachments(&heads, &bodies, &layout, &irt, &refs);
    proof {
        reveal_strlit("text/html");
        reveal_strlit("text/plain");
        assert("text/html"@[5] != "text/plain"@[5]);
    }
    let (body_text, body_markdown) = if text::str_eq(bp.content_type.as_str(), "text/html") {
        (Some(body::html_to_text(bp.content.as_str())), Some(body::html_to_markdown(bp.content.as_str())))
    } else if text::str_eq(bp.content_type.as_str(), "text/plain") {
        let t = match &bp.raw_text {
            Some(t) => text::copy_str(t.as_str()),
            None => text::copy_str(bp.content.as_str()),
        };
        let t2 = text::copy_str(t.as_str());
        (Some(t), Some(t2))
    } else {
        (None, None)
    };
    Ok(MessageDetail {
        message_id: text::copy_str(message_id),
        headers,
        date,
        date_relative,
        subject,
        content: bp.content,
        content_type: bp.content_type,
        attachments: bp.attachments,
        body_text,
        body_markdown,
        tags,
        in_reply_to: bp.in_reply_to,
        references: bp.references,
    })
}

/// `parse_message` where the HTML body converts to Markdown; `None` where it
/// does not.
pub fn try_parse_message(
    raw: &[u8],
    message_id: &str,
    date: i64,
    date_relative: String,
    tags: Vec<String>,
) -> (r: Option<Result<MessageDetail, AppError>>)
    ensures
        match r {
            Some(x) => markdown_ok(raw@) && parse_result_is(
                x,
                raw@,
                message_id@,
                date,
                date_relative,
                tags,
            ),
            None => !markdown_ok(raw@),
        },
{
    let ok = match parse_layout(raw) {
        Some(l) => match parse_bodies(raw) {
            Some(b) => match first_text_exec(&l.html_body, &b) {
                Some(h) => {
                    let clean = html::sanitize_html(h.as_str());
                    body::try_html_to_markdown(clean.as_str()).is_some()
                },
                None => true,
            },
            None => true,
        },
        None => true,
    };
    if ok {
        Some(parse_message(raw, message_id, date, date_relative, tags))
    } else {
        None
    }
}

} // verus!
