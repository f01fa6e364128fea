//! HTML out of mail bodies: sanitising HTML bodies, and plain text to HTML
//! with quote levels, escaping and links.
use vstd::prelude::*;
use crate::text;

verus! {

// ── Escaping ────────────────────────────────────────────────────────

/// The escape of one character: `&`, `<` and `>` always, `"` and `'` in
/// attribute values.
pub open spec fn escape_char(c: char, quotes: bool) -> Seq<char> {
    if c == '&' {
        "&amp;"@
    } else if c == '<' {
        "&lt;"@
    } else if c == '>' {
        "&gt;"@
    } else if quotes && c == '"' {
        "&quot;"@
    } else if quotes && c == '\'' {
        "&#x27;"@
    } else {
        seq![c]
    }
}

/// `s` with each character escaped.
pub open spec fn escape_html(s: Seq<char>, quotes: bool) -> Seq<char>
    decreases s.len(),
{
    if s.len() == 0 {
        Seq::empty()
    } else {
        escape_html(s.drop_last(), quotes) + escape_char(s.last(), quotes)
    }
}

/// Escaped text holds no `<` or `>`, and, escaped for an attribute, no
/// quote: it cannot open a tag or leave the attribute value.
pub proof fn lemma_escape_safe(s: Seq<char>, quotes: bool)
    ensures
        forall|i: int|
            0 <= i < escape_html(s, quotes).len() ==> #[trigger] escape_html(s, quotes)[i] != '<'
                && escape_html(s, quotes)[i] != '>' && (quotes ==> escape_html(s, quotes)[i] != '"'
                && escape_html(s, quotes)[i] != '\''),
    decreases s.len(),
{
    if s.len() > 0 {
        lemma_escape_safe(s.drop_last(), quotes);
        let a = escape_html(s.drop_last(), quotes);
        let c = s.last();
        let e = escape_char(c, quotes);
        reveal_strlit("&amp;");
        reveal_strlit("&lt;");
        reveal_strlit("&gt;");
        reveal_strlit("&quot;");
        reveal_strlit("&#x27;");
        assert forall|i: int| 0 <= i < e.len() implies e[i] != '<' && e[i] != '>' && (quotes
            ==> e[i] != '"' && e[i] != '\'') by {}
        assert forall|i: int| 0 <= i < escape_html(s, quotes).len() implies #[trigger] escape_html(
            s,
            quotes,
        )[i] != '<' && escape_html(s, quotes)[i] != '>' && (quotes ==> escape_html(s, quotes)[i]
            != '"' && escape_html(s, quotes)[i] != '\'') by {
            if i < a.len() {
                assert(escape_html(s, quotes)[i] == a[i]);
            } else {
                assert(escape_html(s, quotes)[i] == e[i - a.len()]);
            }
        }
    }
}

/// `html_escape::encode_text`: `&`, `<` and `>` become `&amp;`, `&lt;` and
/// `&gt;`, every other character stays (as the crate documents).
#[verifier::external_body]
pub(crate) fn encode_text(s: &str) -> (r: String)
    ensures
        r@ == escape_html(s@, false),
{
    html_escape::encode_text(s).into_owned()
}

/// `html_escape::encode_quoted_attribute`: as `encode_text`, and also `"`
/// and `'` become `&quot;` and `&#x27;` (as the crate documents).
#[verifier::external_body]
fn encode_quoted_attribute(s: &str) -> (r: String)
    ensures
        r@ == escape_html(s@, true),
{
    html_escape::encode_quoted_attribute(s).into_owned()
}

// ── Sanitising ──────────────────────────────────────────────────────

/// The HTML `ammonia` makes of `raw` when it keeps only the tags `tags`,
/// on each tag `t` of `tag_attrs` the attributes listed with it (and its
/// default generic attributes), and relative URLs as they are.
pub uninterp spec fn cleaned_html(
    raw: Seq<char>,
    tags: Seq<Seq<char>>,
    tag_attrs: Seq<(Seq<char>, Seq<Seq<char>>)>,
) -> Seq<char>;

pub open spec fn strs_view(v: Seq<&str>) -> Seq<Seq<char>> {
    v.map_values(|s: &str| s@)
}

pub open spec fn attrs_view(v: Seq<(&str, Vec<&str>)>) -> Seq<(Seq<char>, Seq<Seq<char>>)> {
    v.map_values(|p: (&str, Vec<&str>)| (p.0@, strs_view(p.1@)))
}

/// The configurations `ammonia::Builder::clean` accepts without a failed
/// assertion (with its default content-cleaning tags `script` and `style`,
/// and its default `rel` on links).
pub open spec fn builder_accepts(tags: Seq<Seq<char>>, tag_attrs: Seq<(Seq<char>, Seq<Seq<char>>)>) -> bool {
    &&& !tags.contains("script"@)
    &&& !tags.contains("style"@)
    &&& forall|i: int|
        0 <= i < tag_attrs.len() ==> {
            &&& #[trigger] tag_attrs[i].0 != "script"@
            &&& tag_attrs[i].0 != "style"@
            &&& (tag_attrs[i].0 == "a"@ ==> !tag_attrs[i].1.contains("rel"@))
        }
}

/// `ammonia::Builder::default()` with the allowed tags `tags`, the allowed
/// attributes per tag `tag_attrs` and relative URLs passed through, then
/// `clean(raw)`.  Its contract names the result `cleaned_html`; the
/// configuration is one `clean` accepts without a failed assertion.
#[verifier::external_body]
fn ammonia_clean(raw: &str, tags: &Vec<&str>, tag_attrs: &Vec<(&str, Vec<&str>)>) -> (r: String)
    requires
        builder_accepts(strs_view(tags@), attrs_view(tag_attrs@)),
    ensures
        r@ == cleaned_html(raw@, strs_view(tags@), attrs_view(tag_attrs@)),
{
    ammonia::Builder::default()
        .tags(tags.iter().copied().collect())
        .tag_attributes(tag_attrs.iter().map(|(t, a)| (*t, a.iter().copied().collect())).collect())
        .url_relative(ammonia::UrlRelative::PassThrough)
        .clean(raw)
        .to_string()
}

pub open spec fn allowed_tags() -> Seq<Seq<char>> {
    seq![
        "a"@, "abbr"@, "b"@, "blockquote"@, "br"@, "code"@, "div"@, "em"@, "i"@, "li"@, "ol"@,
        "p"@, "pre"@, "span"@, "strong"@, "ul"@, "table"@, "thead"@, "tbody"@, "tr"@, "td"@,
        "th"@, "img"@, "h1"@, "h2"@, "h3"@, "h4"@, "h5"@, "h6"@, "hr"@, "dl"@, "dt"@, "dd"@,
        "font"@, "center"@, "address"@,
    ]
}

pub open spec fn allowed_attributes() -> Seq<(Seq<char>, Seq<Seq<char>>)> {
    seq![
        ("a"@, seq!["href"@, "title"@, "name"@]),
        ("img"@, seq!["src"@, "alt"@, "title"@, "width"@, "height"@]),
        ("abbr"@, seq!["title"@]),
    ]
}

/// No item of `s[k..]` is `x`.
pub open spec fn lacks_from(s: Seq<Seq<char>>, x: Seq<char>, k: int) -> bool
    decreases s.len() - k,
{
    if k < 0 || k >= s.len() {
        true
    } else {
        s[k] != x && lacks_from(s, x, k + 1)
    }
}

proof fn lemma_lacks_from(s: Seq<Seq<char>>, x: Seq<char>, k: int)
    requires
        0 <= k,
        lacks_from(s, x, k),
    ensures
        forall|i: int| k <= i < s.len() ==> s[i] != x,
    decreases s.len() - k,
{
    if k < s.len() {
        lemma_lacks_from(s, x, k + 1);
    }
}

proof fn lemma_lacks(s: Seq<Seq<char>>, x: Seq<char>)
    requires
        lacks_from(s, x, 0),
    ensures
        !s.contains(x),
{
    lemma_lacks_from(s, x, 0);
}

proof fn lemma_no_script()
    ensures
        !allowed_tags().contains("script"@),
{
    reveal_strlit("script");
    reveal_strlit("a");
    reveal_strlit("abbr");
    reveal_strlit("b");
    reveal_strlit("blockquote");
    reveal_strlit("br");
    reveal_strlit("code");
    reveal_strlit("div");
    reveal_strlit("em");
    reveal_strlit("i");
    reveal_strlit("li");
    reveal_strlit("ol");
    reveal_strlit("p");
    reveal_strlit("pre");
    reveal_strlit("span");
    reveal_strlit("strong");
    reveal_strlit("ul");
    reveal_strlit("table");
    reveal_strlit("thead");
    reveal_strlit("tbody");
    reveal_strlit("tr");
    reveal_strlit("td");
    reveal_strlit("th");
    reveal_strlit("img");
    reveal_strlit("h1");
    reveal_strlit("h2");
    reveal_strlit("h3");
    reveal_strlit("h4");
    reveal_strlit("h5");
    reveal_strlit("h6");
    reveal_strlit("hr");
    reveal_strlit("dl");
    reveal_strlit("dt");
    reveal_strlit("dd");
    reveal_strlit("font");
    reveal_strlit("center");
    reveal_strlit("address");
    assert("strong"@[1] != "script"@[1]);
    assert("center"@[0] != "script"@[0]);
    reveal_with_fuel(lacks_from, 40);
    lemma_lacks(allowed_tags(), "script"@);
}

proof fn lemma_no_style()
    ensures
        !allowed_tags().contains("style"@),
{
    reveal_strlit("style");
    reveal_strlit("a");
    reveal_strlit("abbr");
    reveal_strlit("b");
    reveal_strlit("blockquote");
    reveal_strlit("br");
    reveal_strlit("code");
    reveal_strlit("div");
    reveal_strlit("em");
    reveal_strlit("i");
    reveal_strlit("li");
    reveal_strlit("ol");
    reveal_strlit("p");
    reveal_strlit("pre");
    reveal_strlit("span");
    reveal_strlit("strong");
    reveal_strlit("ul");
    reveal_strlit("table");
    reveal_strlit("thead");
    reveal_strlit("tbody");
    reveal_strlit("tr");
    reveal_strlit("td");
    reveal_strlit("th");
    reveal_strlit("img");
    reveal_strlit("h1");
    reveal_strlit("h2");
    reveal_strlit("h3");
    reveal_strlit("h4");
    reveal_strlit("h5");
    reveal_strlit("h6");
    reveal_strlit("hr");
    reveal_strlit("dl");
    reveal_strlit("dt");
    reveal_strlit("dd");
    reveal_strlit("font");
    reveal_strlit("center");
    reveal_strlit("address");
    assert("table"@[0] != "style"@[0]);
    assert("thead"@[0] != "style"@[0]);
    assert("tbody"@[0] != "style"@[0]);
    assert("strong"@[2] != "style"@[2]);
    reveal_with_fuel(lacks_from, 40);
    lemma_lacks(allowed_tags(), "style"@);
}

proof fn lemma_no_rel()
    ensures
        !seq!["href"@, "title"@, "name"@].contains("rel"@),
{
    reveal_strlit("rel");
    reveal_strlit("href");
    reveal_strlit("title");
    reveal_strlit("name");
    assert("href"@[0] != "rel"@[0]);
    assert("title"@[0] != "rel"@[0]);
    assert("name"@[0] != "rel"@[0]);
    reveal_with_fuel(lacks_from, 4);
    lemma_lacks(seq!["href"@, "title"@, "name"@], "rel"@);
}

/// Sanitize raw HTML email body, allowing only safe tags and attributes.
pub fn sanitize_html(raw: &str) -> (r: String)
    ensures
        r@ == cleaned_html(raw@, allowed_tags(), allowed_attributes()),
{
    let tags: Vec<&str> = vec![
        "a", "abbr", "b", "blockquote", "br", "code", "div", "em", "i", "li", "ol", "p", "pre",
        "span", "strong", "ul", "table", "thead", "tbody", "tr", "td", "th", "img", "h1", "h2",
        "h3", "h4", "h5", "h6", "hr", "dl", "dt", "dd", "font", "center", "address",
    ];
    let attrs: Vec<(&str, Vec<&str>)> = vec![
        ("a", vec!["href", "title", "name"]),
        ("img", vec!["src", "alt", "title", "width", "height"]),
        ("abbr", vec!["title"]),
    ];
    proof {
        reveal_strlit("script");
        reveal_strlit("style");
        reveal_strlit("rel");
        reveal_strlit("a");
        reveal_strlit("abbr");
        reveal_strlit("b");
        reveal_strlit("blockquote");
        reveal_strlit("br");
        reveal_strlit("code");
        reveal_strlit("div");
        reveal_strlit("em");
        reveal_strlit("i");
        reveal_strlit("li");
        reveal_strlit("ol");
        reveal_strlit("p");
        reveal_strlit("pre");
        reveal_strlit("span");
        reveal_strlit("strong");
        reveal_strlit("ul");
        reveal_strlit("table");
        reveal_strlit("thead");
        reveal_strlit("tbody");
        reveal_strlit("tr");
        reveal_strlit("td");
        reveal_strlit("th");
        reveal_strlit("img");
        reveal_strlit("h1");
        reveal_strlit("h2");
        reveal_strlit("h3");
        reveal_strlit("h4");
        reveal_strlit("h5");
        reveal_strlit("h6");
        reveal_strlit("hr");
        reveal_strlit("dl");
        reveal_strlit("dt");
        reveal_strlit("dd");
        reveal_strlit("font");
        reveal_strlit("center");
        reveal_strlit("address");
        reveal_strlit("href");
        reveal_strlit("title");
        reveal_strlit("name");
        assert(strs_view(tags@) =~= allowed_tags());
        assert(strs_view(attrs@[0].1@) =~= seq!["href"@, "title"@, "name"@]);
        assert(strs_view(attrs@[1].1@) =~= seq!["src"@, "alt"@, "title"@, "width"@, "height"@]);
        assert(strs_view(attrs@[2].1@) =~= seq!["title"@]);
        assert(attrs_view(attrs@) =~= allowed_attributes());
        lemma_no_script();
        lemma_no_style();
        lemma_no_rel();
    }
    proof {
        assert forall|i: int| 0 <= i < allowed_attributes().len() implies {
            &&& #[trigger] allowed_attributes()[i].0 != "script"@
            &&& allowed_attributes()[i].0 != "style"@
            &&& (allowed_attributes()[i].0 == "a"@ ==> !allowed_attributes()[i].1.contains("rel"@))
        } by {
            if i == 0 {
                assert(allowed_attributes()[0].0 == "a"@);
            } else if i == 1 {
                assert(allowed_attributes()[1].0 == "img"@);
            } else {
                assert(allowed_attributes()[2].0 == "abbr"@);
            }
        }
    }
    ammonia_clean(raw, &tags, &attrs)
}

// ── Plain text to HTML ──────────────────────────────────────────────

/// A line without the `\r` of a `\r\n` ending (`ended`: a `\n` follows).
pub open spec fn strip_cr(p: Seq<char>, ended: bool) -> Seq<char> {
    if ended && p.len() > 0 && p.last() == '\r' {
        p.drop_last()
    } else {
        p
    }
}

/// The lines of `s` (as `str::lines`): split at `\n`, a `\r` before the
/// `\n` dropped, and no empty line after a final line ending.
pub open spec fn lines(s: Seq<char>) -> Seq<Seq<char>> {
    let pieces = text::split_char(s, '\n');
    let n = if pieces.len() > 0 && pieces.last().len() == 0 {
        pieces.len() - 1
    } else {
        pieces.len() as int
    };
    Seq::new(n as nat, |k: int| strip_cr(pieces[k], k + 1 < pieces.len()))
}

/// The quote level of a line (its leading `>`s, each with an optional
/// space after it) and the rest of the line.
pub open spec fn quote_depth(line: Seq<char>) -> (nat, Seq<char>)
    decreases line.len(),
{
    if line.len() > 0 && line[0] == '>' {
        let rest = line.drop_first();
        let rest2 = if rest.len() > 0 && rest[0] == ' ' {
            rest.drop_first()
        } else {
            rest
        };
        let (d, c) = quote_depth(rest2);
        (d + 1, c)
    } else {
        (0, line)
    }
}

/// Count the leading `>` quote markers of a line (each with an optional
/// space after it); return the level and the rest of the line.
pub fn count_quote_depth(line: &Vec<char>) -> (r: (usize, Vec<char>))
    ensures
        r.0 as nat == quote_depth(line@).0,
        r.1@ == quote_depth(line@).1,
{
    let mut depth: usize = 0;
    let mut i: usize = 0;
    proof {
        assert(line@.skip(0) =~= line@);
    }
    while i < line.len() && line[i] == '>'
        invariant
            i <= line@.len(),
            depth <= i,
            quote_depth(line@).0 == depth + quote_depth(line@.skip(i as int)).0,
            quote_depth(line@).1 == quote_depth(line@.skip(i as int)).1,
        decreases line.len() - i,
    {
        let ghost rest = line@.skip(i + 1);
        proof {
            assert(line@.skip(i as int).drop_first() =~= rest);
        }
        depth = depth + 1;
        i = i + 1;
        if i < line.len() && line[i] == ' ' {
            proof {
                assert(rest.drop_first() =~= line@.skip(i + 1));
            }
            i = i + 1;
        }
    }
    (depth, text::subvec(line, i, line.len()))
}

/// A link `linkify` found: its byte range and whether it is an e-mail
/// address (else a URL).
#[derive(Debug, Clone, Copy)]
pub struct LinkSpan {
    pub start: usize,
    pub end: usize,
    pub email: bool,
}

/// The URLs and e-mail addresses `linkify` finds in `s`, in order.
pub uninterp spec fn found_links(s: Seq<char>) -> Seq<LinkSpan>;

/// The links come in order, each range ascending and after the previous.
pub open spec fn links_ordered(ls: Seq<LinkSpan>) -> bool {
    &&& forall|k: int| 0 <= k < ls.len() ==> (#[trigger] ls[k]).start <= ls[k].end
    &&& forall|k: int| 0 <= k < ls.len() - 1 ==> (#[trigger] ls[k]).end <= ls[k + 1].start
}

/// `linkify::LinkFinder` for URLs and e-mail addresses, `links(s)`: each
/// link's `start()`, `end()` and kind.  Its contract names the result
/// `found_links(s)` and states what the finder's scan shows: each link
/// starts where the scan resumes after the previous one, so the links come
/// in order without overlapping.  The offsets are char boundaries of `s`
/// (the crate slices `s` at them); that is not stated.
#[verifier::external_body]
fn find_links(s: &str) -> (r: Vec<LinkSpan>)
    ensures
        r@ == found_links(s@),
        links_ordered(r@),
{
    let mut finder = linkify::LinkFinder::new();
    finder.kinds(&[linkify::LinkKind::Url, linkify::LinkKind::Email]);
    finder.links(s).map(|l| LinkSpan { start: l.start(), end: l.end(), email: l.kind() == &linkify::LinkKind::Email }).collect()
}

/// The anchor for a link with text `url`: `mailto:` before an e-mail
/// address, `https://` before a URL without an `http` scheme.
pub open spec fn link_html(url: Seq<char>, email: bool) -> Seq<char> {
    let href = if email {
        "mailto:"@ + url
    } else if !text::starts_with(url, "http://"@) && !text::starts_with(url, "https://"@) {
        "https://"@ + url
    } else {
        url
    };
    "<a href=\""@ + escape_html(href, true) + "\" rel=\"noopener noreferrer\" target=\"_blank\">"@
        + url + "</a>"@
}

/// The anchor for a link (see `link_html`).
fn anchor(url: &Vec<char>, email: bool) -> (r: Vec<char>)
    ensures
        r@ == link_html(url@, email),
{
    let mut href: Vec<char> = Vec::new();
    if email {
        text::extend_str(&mut href, "mailto:");
    } else if !text::starts_with_exec(url, &text::chars_of("http://")) && !text::starts_with_exec(
        url,
        &text::chars_of("https://"),
    ) {
        text::extend_str(&mut href, "https://");
    }
    text::extend_chars(&mut href, url);
    let hs = text::string_of(&href);
    let he = encode_quoted_attribute(hs.as_str());
    let mut out: Vec<char> = Vec::new();
    text::extend_str(&mut out, "<a href=\"");
    text::extend_str(&mut out, he.as_str());
    text::extend_str(&mut out, "\" rel=\"noopener noreferrer\" target=\"_blank\">");
    text::extend_chars(&mut out, url);
    text::extend_str(&mut out, "</a>");
    proof {
        assert(Seq::<char>::empty() + ("mailto:"@ + url@) =~= "mailto:"@ + url@);
        assert(Seq::<char>::empty() + ("https://"@ + url@) =~= "https://"@ + url@);
        assert(Seq::<char>::empty() + url@ =~= url@);
        assert(out@ =~= link_html(url@, email));
    }
    out
}

/// `t` from character `last` on, with the links `ls[k..]` made anchors.
pub open spec fn auto_link_from(t: Seq<char>, ls: Seq<LinkSpan>, k: int, last: int) -> Seq<char>
    decreases ls.len() - k,
{
    if k < 0 || k >= ls.len() {
        t.subrange(last, t.len() as int)
    } else {
        let a = text::ceil_char(t, ls[k].start as int);
        let b = text::ceil_char(t, ls[k].end as int);
        t.subrange(last, a) + link_html(t.subrange(a, b), ls[k].email) + auto_link_from(
            t,
            ls,
            k + 1,
            b,
        )
    }
}

pub proof fn lemma_ceil_char_mono(s: Seq<char>, b1: int, b2: int)
    requires
        b1 <= b2,
    ensures
        0 <= text::ceil_char(s, b1) <= text::ceil_char(s, b2) <= s.len(),
{
    text::lemma_ceil_from(s, b1, 0);
    text::lemma_ceil_from(s, b2, 0);
    let k1 = text::ceil_char(s, b1);
    let k2 = text::ceil_char(s, b2);
    if k2 < k1 {
        assert(text::byte_len(s.take(k2)) < b1);
    }
}

/// Make the URLs and e-mail addresses of an (escaped) line anchors.
fn auto_link(t: &Vec<char>) -> (r: Vec<char>)
    ensures
        r@ == auto_link_from(t@, found_links(t@), 0, 0),
{
    let ts = text::string_of(t);
    let links = find_links(ts.as_str());
    let offs = text::byte_offsets(t);
    let mut out: Vec<char> = Vec::new();
    let mut last: usize = 0;
    let mut k: usize = 0;
    let ghost ls = found_links(t@);
    proof {
        assert(out@ + auto_link_from(t@, ls, 0, 0) =~= auto_link_from(t@, ls, 0, 0));
    }
    while k < links.len()
        invariant
            links@ == ls,
            ls == found_links(t@),
            links_ordered(ls),
            text::is_byte_offsets(t@, offs@),
            k <= ls.len(),
            last <= t@.len(),
            k == 0 ==> last == 0,
            k > 0 ==> last == text::ceil_char(t@, ls[k - 1].end as int),
            out@ + auto_link_from(t@, ls, k as int, last as int) == auto_link_from(t@, ls, 0, 0),
        decreases links.len() - k,
    {
        let sp = links[k];
        let a = crate::mcp::snap_to_char_boundary(t, &offs, sp.start as u128);
        let b = crate::mcp::snap_to_char_boundary(t, &offs, sp.end as u128);
        proof {
            assert(sp == ls[k as int]);
            lemma_ceil_char_mono(t@, sp.start as int, sp.end as int);
            if k > 0 {
                assert(ls[k - 1].end <= ls[k as int].start);
                lemma_ceil_char_mono(t@, ls[k - 1].end as int, sp.start as int);
                assert(last <= a);
            } else {
                text::lemma_ceil_from(t@, sp.start as int, 0);
            }
            assert(a as int == text::ceil_char(t@, sp.start as int));
            assert(b as int == text::ceil_char(t@, sp.end as int));
            assert(last <= a);
            assert(a <= b);
            assert(b <= t@.len());
        }
        let ghost out0 = out@;
        let url = text::subvec(t, a, b);
        let piece = text::subvec(t, last, a);
        let link = anchor(&url, sp.email);
        text::extend_chars(&mut out, &piece);
        text::extend_chars(&mut out, &link);
        proof {
            let rest = auto_link_from(t@, ls, k + 1, b as int);
            assert(auto_link_from(t@, ls, k as int, last as int) == piece@ + link@ + rest);
            assert(out@ + rest =~= out0 + (piece@ + link@ + rest));
        }
        last = b;
        k = k + 1;
    }
    let tail = text::subvec(t, last, t.len());
    text::extend_chars(&mut out, &tail);
    out
}

/// The HTML of the first `k` lines, and the quote level open after them.
pub open spec fn html_lines(ls: Seq<Seq<char>>, k: int) -> (Seq<char>, nat)
    decreases k,
{
    if k <= 0 {
        (Seq::empty(), 0)
    } else {
        let (out, open) = html_lines(ls, k - 1);
        let (d, c) = quote_depth(ls[k - 1]);
        let e = escape_html(c, false);
        let moves = if open > d {
            text::repeat("</blockquote>"@, (open - d) as nat)
        } else {
            text::repeat("<blockquote>"@, (d - open) as nat)
        };
        (out + moves + auto_link_from(e, found_links(e), 0, 0) + "<br>\n"@, d)
    }
}

/// The HTML of a plain-text body: each line escaped, its links made
/// anchors and `<br>` after it, inside as many nested `<blockquote>`s as
/// its quote level, all of them closed at the end.
pub open spec fn text_to_html_spec(raw: Seq<char>) -> Seq<char> {
    let ls = lines(raw);
    let (out, open) = html_lines(ls, ls.len() as int);
    out + text::repeat("</blockquote>"@, open)
}

/// Plain lines written one after the other, each followed by `<br>\n`.
pub open spec fn lines_with_breaks(ls: Seq<Seq<char>>, k: int) -> Seq<char>
    decreases k,
{
    if k <= 0 {
        Seq::empty()
    } else {
        lines_with_breaks(ls, k - 1) + ls[k - 1] + "<br>\n"@
    }
}

proof fn lemma_escape_plain(s: Seq<char>)
    requires
        forall|q: int| 0 <= q < s.len() ==> #[trigger] s[q] != '<' && s[q] != '>' && s[q] != '&',
    ensures
        escape_html(s, false) == s,
    decreases s.len(),
{
    if s.len() > 0 {
        assert forall|q: int| 0 <= q < s.drop_last().len() implies #[trigger] s.drop_last()[q] != '<'
            && s.drop_last()[q] != '>' && s.drop_last()[q] != '&' by {
            assert(s.drop_last()[q] == s[q]);
        }
        lemma_escape_plain(s.drop_last());
        assert(s.drop_last() + seq![s.last()] =~= s);
    }
}

proof fn lemma_html_lines_plain(ls: Seq<Seq<char>>, k: int)
    requires
        0 <= k <= ls.len(),
        forall|i: int, q: int|
            0 <= i < ls.len() && 0 <= q < ls[i].len() ==> #[trigger] ls[i][q] != '<' && ls[i][q]
                != '>' && ls[i][q] != '&',
        forall|i: int| 0 <= i < ls.len() ==> found_links(#[trigger] ls[i]) == Seq::<LinkSpan>::empty(),
    ensures
        html_lines(ls, k) == (lines_with_breaks(ls, k), 0nat),
    decreases k,
{
    if k > 0 {
        lemma_html_lines_plain(ls, k - 1);
        let l = ls[k - 1];
        if l.len() > 0 {
            assert(l[0] != '>');
        }
        assert(quote_depth(l) == (0nat, l));
        assert forall|q: int| 0 <= q < l.len() implies #[trigger] l[q] != '<' && l[q] != '>' && l[q]
            != '&' by {
            assert(ls[k - 1][q] == l[q]);
        }
        lemma_escape_plain(l);
        assert(found_links(l) == Seq::<LinkSpan>::empty());
        assert(auto_link_from(l, found_links(l), 0, 0) =~= l);
        assert(text::repeat("<blockquote>"@, 0) == Seq::<char>::empty());
        assert(lines_with_breaks(ls, k - 1) + Seq::<char>::empty() + l + "<br>\n"@ =~= lines_with_breaks(
            ls,
            k - 1,
        ) + l + "<br>\n"@);
    }
}

/// Plain text (no `<`, `>` or `&`, so no quote marker and nothing to
/// escape, and no link found in any line) becomes its lines, each followed
/// by `<br>\n`: every line gives one line break, blank lines included.
pub proof fn lemma_text_to_html_plain(raw: Seq<char>)
    requires
        forall|i: int, q: int|
            0 <= i < lines(raw).len() && 0 <= q < lines(raw)[i].len() ==> #[trigger] lines(raw)[i][q]
                != '<' && lines(raw)[i][q] != '>' && lines(raw)[i][q] != '&',
        forall|i: int|
            0 <= i < lines(raw).len() ==> found_links(#[trigger] lines(raw)[i]) == Seq::<
                LinkSpan,
            >::empty(),
    ensures
        text_to_html_spec(raw) == lines_with_breaks(lines(raw), lines(raw).len() as int),
{
    let ls = lines(raw);
    lemma_html_lines_plain(ls, ls.len() as int);
    let out = lines_with_breaks(ls, ls.len() as int);
    assert(out + text::repeat("</blockquote>"@, 0) =~= out);
}

/// The lines of `s`, as `lines`.
fn lines_exec(s: &Vec<char>) -> (r: Vec<Vec<char>>)
    ensures
        r@.len() == lines(s@).len(),
        forall|k: int| 0 <= k < r@.len() ==> #[trigger] r@[k]@ == lines(s@)[k],
{
    let pieces = text::split_char_exec(s, '\n');
    proof {
        text::lemma_split_char_len(s@, '\n');
    }
    let ghost ps = text::split_char(s@, '\n');
    let n = pieces.len();
    let keep = if pieces[n - 1].len() == 0 {
        n - 1
    } else {
        n
    };
    let mut out: Vec<Vec<char>> = Vec::new();
    let mut k: usize = 0;
    while k < keep
        invariant
            n == pieces@.len() == ps.len(),
            ps == text::split_char(s@, '\n'),
            n >= 1,
            keep <= n,
            keep == (if ps.len() > 0 && ps.last().len() == 0 {
                n - 1
            } else {
                n as int
            }),
            lines(s@).len() == keep,
            forall|j: int| 0 <= j < n ==> #[trigger] pieces@[j]@ == ps[j],
            k <= keep,
            out@.len() == k,
            forall|j: int| 0 <= j < k ==> #[trigger] out@[j]@ == lines(s@)[j],
        decreases keep - k,
    {
        let p = &pieces[k];
        let line = if k + 1 < n && p.len() > 0 && p[p.len() - 1] == '\r' {
            let l = text::subvec(p, 0, p.len() - 1);
            proof {
                assert(l@ =~= p@.drop_last());
            }
            l
        } else {
            let l = text::subvec(p, 0, p.len());
            proof {
                assert(l@ =~= p@);
            }
            l
        };
        proof {
            let pieces = text::split_char(s@, '\n');
            assert(pieces == ps);
            let f = |j: int| strip_cr(pieces[j], j + 1 < pieces.len());
            assert(lines(s@) == Seq::new(keep as nat, f));
            assert(Seq::new(keep as nat, f)[k as int] == f(k as int));
            assert(lines(s@)[k as int] == strip_cr(ps[k as int], k + 1 < n));
        }
        out.push(line);
        k = k + 1;
    }
    out
}

/// Convert plain text email body to safe HTML.
/// - Escape HTML entities
/// - Nest blockquotes for `>` prefixes
/// - Auto-link URLs and emails
/// - Convert newlines to `<br>`
pub fn text_to_html(raw: &str) -> (r: String)
    ensures
        r@ == text_to_html_spec(raw@),
{
    let ls = lines_exec(&text::chars_of(raw));
    let ghost lv = lines(raw@);
    let mut out: Vec<char> = Vec::new();
    let mut open: usize = 0;
    let mut k: usize = 0;
    proof {
        assert(out@ =~= html_lines(lv, 0).0);
    }
    while k < ls.len()
        invariant
            lv == lines(raw@),
            ls@.len() == lv.len(),
            forall|j: int| 0 <= j < ls@.len() ==> #[trigger] ls@[j]@ == lv[j],
            k <= ls@.len(),
            out@ == html_lines(lv, k as int).0,
            open as nat == html_lines(lv, k as int).1,
        decreases ls.len() - k,
    {
        let (d, c) = count_quote_depth(&ls[k]);
        if open > d {
            text::push_repeat(&mut out, "</blockquote>", open - d);
        } else {
            text::push_repeat(&mut out, "<blockquote>", d - open);
        }
        let cs = text::string_of(&c);
        let e = encode_text(cs.as_str());
        let linked = auto_link(&text::chars_of(e.as_str()));
        text::extend_chars(&mut out, &linked);
        text::extend_str(&mut out, "<br>\n");
        open = d;
        k = k + 1;
    }
    text::push_repeat(&mut out, "</blockquote>", open);
    text::string_of(&out)
}

} // verus!
