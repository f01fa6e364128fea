//! What the web pages show: numbers, names, sidebar rows, thread metadata,
//! attachment previews and the page document around the rendered body.
use vstd::prelude::*;
use crate::api::thread::{MessageDetail, ThreadDetail};
use crate::text;

verus! {

// ── Numbers ─────────────────────────────────────────────────────────

/// Digits with a comma between each group of three, counted from the right.
pub open spec fn group_thousands(d: Seq<char>) -> Seq<char>
    decreases d.len(),
{
    if d.len() <= 3 {
        d
    } else {
        group_thousands(d.take(d.len() - 3)) + seq![','] + d.skip(d.len() - 3)
    }
}

/// `n` in decimal with comma-separated thousands (`1,234,567`).
pub open spec fn fmt_number_spec(n: nat) -> Seq<char> {
    group_thousands(text::decimal(n))
}

fn group_prefix(d: &Vec<char>, n: usize) -> (r: Vec<char>)
    requires
        n <= d@.len(),
    ensures
        r@ == group_thousands(d@.take(n as int)),
    decreases n,
{
    if n <= 3 {
        let r = text::subvec(d, 0, n);
        proof {
            assert(r@ =~= d@.take(n as int));
        }
        r
    } else {
        let mut r = group_prefix(d, n - 3);
        r.push(',');
        let tail = text::subvec(d, n - 3, n);
        text::extend_chars(&mut r, &tail);
        proof {
            let t = d@.take(n as int);
            assert(t.take(t.len() - 3) =~= d@.take(n - 3));
            assert(t.skip(t.len() - 3) =~= d@.subrange(n - 3, n as int));
            assert(r@ =~= group_thousands(d@.take(n - 3)) + seq![','] + t.skip(t.len() - 3));
        }
        r
    }
}

/// `s` without the character `c`.
pub open spec fn without(s: Seq<char>, c: char) -> Seq<char>
    decreases s.len(),
{
    if s.len() == 0 {
        s
    } else if s.last() == c {
        without(s.drop_last(), c)
    } else {
        without(s.drop_last(), c).push(s.last())
    }
}

proof fn lemma_without_concat(a: Seq<char>, b: Seq<char>, c: char)
    ensures
        without(a + b, c) == without(a, c) + without(b, c),
    decreases b.len(),
{
    if b.len() == 0 {
        assert(a + b =~= a);
        assert(without(b, c) =~= Seq::<char>::empty());
        assert(without(a, c) + without(b, c) =~= without(a, c));
    } else {
        assert((a + b).drop_last() =~= a + b.drop_last());
        lemma_without_concat(a, b.drop_last(), c);
        if b.last() != c {
            assert(without(a, c) + without(b.drop_last(), c).push(b.last()) =~= (without(a, c)
                + without(b.drop_last(), c)).push(b.last()));
        }
    }
}

proof fn lemma_without_absent(s: Seq<char>, c: char)
    requires
        !s.contains(c),
    ensures
        without(s, c) == s,
    decreases s.len(),
{
    if s.len() > 0 {
        assert(!s.drop_last().contains(c)) by {
            if s.drop_last().contains(c) {
                let i = choose|i: int| 0 <= i < s.drop_last().len() && s.drop_last()[i] == c;
                assert(s[i] == c);
            }
        }
        lemma_without_absent(s.drop_last(), c);
        assert(s.last() != c) by {
            assert(s[s.len() - 1] == s.last());
        }
        assert(s.drop_last().push(s.last()) =~= s);
    }
}

/// Grouping only inserts commas: without them, the grouped digits are the
/// digits again.
pub proof fn lemma_group_thousands_digits(d: Seq<char>)
    requires
        !d.contains(','),
    ensures
        without(group_thousands(d), ',') == d,
    decreases d.len(),
{
    if d.len() <= 3 {
        lemma_without_absent(d, ',');
    } else {
        let h = d.take(d.len() - 3);
        let t = d.skip(d.len() - 3);
        assert(!h.contains(',')) by {
            if h.contains(',') {
                let i = choose|i: int| 0 <= i < h.len() && h[i] == ',';
                assert(d[i] == ',');
            }
        }
        assert(!t.contains(',')) by {
            if t.contains(',') {
                let i = choose|i: int| 0 <= i < t.len() && t[i] == ',';
                assert(d[d.len() - 3 + i] == ',');
            }
        }
        lemma_group_thousands_digits(h);
        lemma_without_concat(group_thousands(h) + seq![','], t, ',');
        lemma_without_concat(group_thousands(h), seq![','], ',');
        lemma_without_absent(t, ',');
        assert(without(seq![','], ',') =~= Seq::<char>::empty()) by {
            let one = seq![','];
            assert(one.len() == 1);
            assert(one.last() == ',');
            assert(one.drop_last() =~= Seq::<char>::empty());
            assert(without(one.drop_last(), ',') =~= Seq::<char>::empty());
        }
        assert(h + Seq::<char>::empty() + t =~= d);
    }
}

/// The decimal digits of a number hold no comma.
pub proof fn lemma_decimal_digits(n: nat)
    ensures
        forall|i: int| 0 <= i < text::decimal(n).len() ==> '0' <= #[trigger] text::decimal(n)[i] <= '9',
    decreases n,
{
    let d = (n % 10) as u8;
    assert(d < 10);
    let c = (d + 48u8) as char;
    assert(48 <= d + 48u8 <= 57);
    assert('0' <= c <= '9');
    assert(text::digit_char(n) == c);
    if n >= 10 {
        lemma_decimal_digits(n / 10);
        assert(text::digit_char(n % 10) == c);
        let h = text::decimal(n / 10);
        assert forall|i: int| 0 <= i < text::decimal(n).len() implies '0' <= #[trigger] text::decimal(
            n,
        )[i] <= '9' by {
            if i < h.len() {
                assert(text::decimal(n)[i] == h[i]);
            } else {
                assert(text::decimal(n)[i] == c);
            }
        }
    } else {
        assert(text::decimal(n) =~= seq![c]);
    }
}

/// A formatted number is the decimal representation of the number with
/// commas added.
pub proof fn lemma_fmt_number_digits(n: nat)
    ensures
        without(fmt_number_spec(n), ',') == text::decimal(n),
{
    lemma_decimal_digits(n);
    assert(!text::decimal(n).contains(',')) by {
        if text::decimal(n).contains(',') {
            let i = choose|i: int| 0 <= i < text::decimal(n).len() && text::decimal(n)[i] == ',';
            assert('0' <= text::decimal(n)[i] <= '9');
        }
    }
    lemma_group_thousands_digits(text::decimal(n));
}

/// `n` with comma-separated thousands (see `fmt_number_spec`).
pub fn fmt_number(n: usize) -> (r: String)
    ensures
        r@ == fmt_number_spec(n as nat),
{
    let d = text::decimal_exec(n);
    let g = group_prefix(&d, d.len());
    proof {
        assert(d@.take(d@.len() as int) =~= d@);
    }
    text::string_of(&g)
}

/// `n` with at least two digits, a leading zero below ten (`{:02}`).
pub open spec fn pad2_spec(n: nat) -> Seq<char> {
    if n < 10 {
        seq!['0'] + text::decimal(n)
    } else {
        text::decimal(n)
    }
}

/// `n` with at least two digits (see `pad2_spec`).
pub fn pad2(n: usize) -> (r: String)
    ensures
        r@ == pad2_spec(n as nat),
{
    let mut v: Vec<char> = Vec::new();
    if n < 10 {
        v.push('0');
    }
    text::push_decimal(&mut v, n);
    proof {
        if n < 10 {
            assert(v@ =~= seq!['0'] + text::decimal(n as nat));
        } else {
            assert(v@ =~= text::decimal(n as nat));
        }
    }
    text::string_of(&v)
}

// ── Names ───────────────────────────────────────────────────────────

/// The display name and the address of a `Name <address>` header: the text
/// before the first `<`, trimmed, and the text after it up to the next
/// `>` (empty without one); the whole header and no address where there is
/// no `<`.
pub open spec fn parse_from_spec(from: Seq<char>) -> (Seq<char>, Seq<char>) {
    match text::find(from, seq!['<']) {
        Some(start) => {
            let after = from.skip(start + 1);
            (
                text::trim(from.take(start)),
                match text::find(after, seq!['>']) {
                    Some(end) => after.take(end),
                    None => Seq::empty(),
                },
            )
        },
        None => (from, Seq::empty()),
    }
}

/// Split a `Name <address>` header (see `parse_from_spec`).
pub fn parse_from_header(from: &str) -> (r: (String, String))
    ensures
        (r.0@, r.1@) == parse_from_spec(from@),
{
    let s = text::chars_of(from);
    let lt = text::chars_of("<");
    let gt = text::chars_of(">");
    proof {
        reveal_strlit("<");
        reveal_strlit(">");
        assert(lt@ =~= seq!['<']);
        assert(gt@ =~= seq!['>']);
    }
    match text::find_from_exec(&s, &lt, 0) {
        Some(start) => {
            proof {
                text::lemma_find_from_bounds(s@, lt@, 0);
            }
            let name = text::trim_exec(&text::subvec(&s, 0, start));
            let after = text::subvec(&s, start + 1, s.len());
            proof {
                assert(s@.take(start as int) =~= s@.subrange(0, start as int));
                assert(after@ =~= s@.skip(start + 1));
            }
            let email = match text::find_from_exec(&after, &gt, 0) {
                Some(end) => {
                    proof {
                        text::lemma_find_from_bounds(after@, gt@, 0);
                        assert(after@.take(end as int) =~= after@.subrange(0, end as int));
                    }
                    text::string_of_range(&after, 0, end)
                },
                None => String::new(),
            };
            (text::string_of(&name), email)
        },
        None => (text::copy_str(from), String::new()),
    }
}

// ── Sidebar ─────────────────────────────────────────────────────────

/// A row in a sidebar section (tag, sender, etc.).
#[derive(Debug, Clone, PartialEq)]
pub struct SidebarRow {
    pub name: String,
    pub count: usize,
}

/// A saved query displayed in the sidebar.
#[derive(Debug, Clone, PartialEq)]
pub struct SavedQuery {
    pub display_name: String,
    pub query: String,
    pub count: usize,
}

/// How many tags and senders the sidebar lists.
pub const SIDEBAR_TAGS: usize = 10;

pub const SIDEBAR_SENDERS: usize = 6;

pub open spec fn rows_view(v: Seq<SidebarRow>) -> Seq<(Seq<char>, usize)> {
    v.map_values(|r: SidebarRow| (r.name@, r.count))
}

pub open spec fn first_n<A>(s: Seq<A>, n: nat) -> Seq<A> {
    if s.len() <= n {
        s
    } else {
        s.take(n as int)
    }
}

/// The first row named `name`.
pub open spec fn row_pos(rows: Seq<(Seq<char>, usize)>, name: Seq<char>, i: int) -> Option<int>
    decreases rows.len() - i,
{
    if i < 0 || i >= rows.len() {
        None
    } else if rows[i].0 == name {
        Some(i)
    } else {
        row_pos(rows, name, i + 1)
    }
}

/// The tag a `tag:<name>` query selects.
pub open spec fn active_tag(query: Seq<char>) -> Option<Seq<char>> {
    if text::starts_with(query, "tag:"@) {
        Some(query.skip(4))
    } else {
        None
    }
}

/// The tags the sidebar lists, and the one the query selects among them.
pub open spec fn tag_rows_spec(tags: Seq<(Seq<char>, usize)>, query: Seq<char>) -> (Seq<(Seq<char>, usize)>, Option<int>) {
    let rows = first_n(tags, SIDEBAR_TAGS as nat);
    (
        rows,
        match active_tag(query) {
            Some(t) => row_pos(rows, t, 0),
            None => None,
        },
    )
}

fn copy_row(r: &SidebarRow) -> (c: SidebarRow)
    ensures
        c.name@ == r.name@,
        c.count == r.count,
{
    SidebarRow { name: text::copy_str(r.name.as_str()), count: r.count }
}

/// The first `n` rows of `rows`.
fn take_rows(rows: &Vec<SidebarRow>, n: usize) -> (r: Vec<SidebarRow>)
    ensures
        rows_view(r@) == first_n(rows_view(rows@), n as nat),
{
    let k = if rows.len() < n {
        rows.len()
    } else {
        n
    };
    let mut r: Vec<SidebarRow> = Vec::new();
    let mut i: usize = 0;
    while i < k
        invariant
            k <= rows@.len(),
            i <= k,
            rows_view(r@) == rows_view(rows@).take(i as int),
        decreases k - i,
    {
        let ghost before = r@;
        r.push(copy_row(&rows[i]));
        proof {
            assert(rows_view(r@) =~= rows_view(before).push((rows@[i as int].name@, rows@[i as int].count)));
            assert(rows_view(rows@).take(i + 1) =~= rows_view(rows@).take(i as int).push(rows_view(rows@)[i as int]));
        }
        i = i + 1;
    }
    proof {
        if rows@.len() <= n {
            assert(rows_view(rows@).take(k as int) =~= rows_view(rows@));
        }
    }
    r
}

/// The tags the sidebar lists (the first ten) and the position among them
/// of the tag a `tag:<name>` query selects.
pub fn tag_rows(tags: &Vec<SidebarRow>, query: &str) -> (r: (Vec<SidebarRow>, Option<usize>))
    ensures
        rows_view(r.0@) == tag_rows_spec(rows_view(tags@), query@).0,
        match tag_rows_spec(rows_view(tags@), query@).1 {
            Some(i) => r.1 == Some(i as usize),
            None => r.1 is None,
        },
{
    let rows = take_rows(tags, SIDEBAR_TAGS);
    let q = text::chars_of(query);
    let prefix = text::chars_of("tag:");
    proof {
        reveal_strlit("tag:");
    }
    if !text::starts_with_exec(&q, &prefix) {
        return (rows, None);
    }
    let t = text::subvec(&q, 4, q.len());
    proof {
        assert(t@ =~= q@.skip(4));
    }
    let ghost rv = rows_view(rows@);
    proof {
        assert(active_tag(query@) == Some(t@));
    }
    let mut i: usize = 0;
    while i < rows.len()
        invariant
            i <= rows@.len(),
            rv == rows_view(rows@),
            rv == tag_rows_spec(rows_view(tags@), query@).0,
            active_tag(query@) == Some(t@),
            row_pos(rv, t@, 0) == row_pos(rv, t@, i as int),
        decreases rows.len() - i,
    {
        let name = text::chars_of(rows[i].name.as_str());
        if text::seq_eq(&name, &t) {
            proof {
                assert(rv[i as int].0 == t@);
            }
            return (rows, Some(i));
        }
        proof {
            assert(rv[i as int].0 != t@);
        }
        i = i + 1;
    }
    (rows, None)
}

/// The part of an address before its first `@` (all of it without one).
pub open spec fn user_part(s: Seq<char>) -> Seq<char> {
    match text::find(s, seq!['@']) {
        Some(i) => s.take(i),
        None => s,
    }
}

/// The senders the sidebar lists: the first six, each shown by the part of
/// its address before the `@`.
pub open spec fn sender_rows_spec(senders: Seq<(Seq<char>, usize)>) -> Seq<(Seq<char>, usize)> {
    first_n(senders, SIDEBAR_SENDERS as nat).map_values(
        |r: (Seq<char>, usize)| (user_part(r.0), r.1),
    )
}

/// The senders the sidebar lists (see `sender_rows_spec`).
pub fn sender_rows(senders: &Vec<SidebarRow>) -> (r: Vec<SidebarRow>)
    ensures
        rows_view(r@) == sender_rows_spec(rows_view(senders@)),
{
    let rows = take_rows(senders, SIDEBAR_SENDERS);
    let at = text::chars_of("@");
    proof {
        reveal_strlit("@");
        assert(at@ =~= seq!['@']);
    }
    let ghost rv = rows_view(rows@);
    let mut out: Vec<SidebarRow> = Vec::new();
    let mut i: usize = 0;
    while i < rows.len()
        invariant
            i <= rows@.len(),
            rv == rows_view(rows@),
            at@ == seq!['@'],
            rows_view(out@) == rv.take(i as int).map_values(
                |r: (Seq<char>, usize)| (user_part(r.0), r.1),
            ),
        decreases rows.len() - i,
    {
        let s = text::chars_of(rows[i].name.as_str());
        let name = match text::find_from_exec(&s, &at, 0) {
            Some(k) => {
                proof {
                    text::lemma_find_from_bounds(s@, at@, 0);
                    assert(s@.take(k as int) =~= s@.subrange(0, k as int));
                }
                text::string_of_range(&s, 0, k)
            },
            None => text::string_of(&s),
        };
        let ghost before = out@;
        out.push(SidebarRow { name, count: rows[i].count });
        proof {
            assert(rows_view(out@) =~= rows_view(before).push((user_part(rv[i as int].0), rv[i as int].1)));
            assert(rv.take(i + 1) =~= rv.take(i as int).push(rv[i as int]));
            assert(rv.take(i + 1).map_values(|r: (Seq<char>, usize)| (user_part(r.0), r.1))
                =~= rv.take(i as int).map_values(|r: (Seq<char>, usize)| (user_part(r.0), r.1)).push(
                (user_part(rv[i as int].0), rv[i as int].1),
            ));
        }
        i = i + 1;
    }
    proof {
        assert(rv.take(rv.len() as int) =~= rv);
    }
    out
}

// ── Icons (1.4px stroke, 16px viewBox) ──────────────────────────────

/// The icons the pages draw.
#[derive(Debug, Clone, Copy, PartialEq, Eq)]
pub enum IconName {
    Search,
    Inbox,
    Star,
    Paperclip,
    ChevronRight,
    ChevronDown,
    Download,
    File,
    Image,
    Mail,
    Tag,
    User,
    Calendar,
    ArrowLeft,
    ArrowRight,
    Sliders,
    X,
    Archive,
    Trash,
    Plus,
    Eye,
    Filter,
    Quote,
    Sort,
    Check,
    Dot,
    Reply,
    Forward,
    Link,
}

/// The SVG path data of each icon (16×16 viewBox).
pub open spec fn path_data_spec(i: IconName) -> Seq<char> {
    match i {
            IconName::Search => "M14 14l-3.5-3.5M11.5 6.5a5 5 0 1 1-10 0 5 5 0 0 1 10 0z"@,
            IconName::Inbox => "M2 9l1.5-5.5A1 1 0 0 1 4.5 3h7a1 1 0 0 1 1 0.7L14 9M2 9v3.5a.5.5 0 0 0 .5.5h11a.5.5 0 0 0 .5-.5V9M2 9h3.5l1 2h3l1-2H14"@,
            IconName::Star => "M8 1.5l2 4.5 5 .5-3.7 3.4 1.1 5L8 12.3l-4.4 2.6 1.1-5L1 6.5l5-.5z"@,
            IconName::Paperclip => "M11.5 7L6 12.5a2.5 2.5 0 1 1-3.5-3.5L8 3.5a1.5 1.5 0 1 1 2 2L4.5 11"@,
            IconName::ChevronRight => "M6 4l4 4-4 4"@,
            IconName::ChevronDown => "M4 6l4 4 4-4"@,
            IconName::Download => "M8 2v9M4.5 7.5L8 11l3.5-3.5M3 13h10"@,
            IconName::File => "M3 2h6l4 4v8H3z M9 2v4h4"@,
            IconName::Image => "M2 3h12v10H2z M5.5 6.5a1 1 0 1 1-2 0 1 1 0 0 1 2 0 M2 11l3-3 3 3 2-2 4 4"@,
            IconName::Mail => "M2 4h12v8H2z M2 4l6 4 6-4"@,
            IconName::Tag => "M2 2h6l6 6-6 6-6-6z M5 5h.01"@,
            IconName::User => "M3 13c0-2 2-3.5 5-3.5s5 1.5 5 3.5 M8 8a2.5 2.5 0 1 0 0-5 2.5 2.5 0 0 0 0 5z"@,
            IconName::Calendar => "M3 4h10v9H3z M3 7h10 M5 2v3 M11 2v3"@,
            IconName::ArrowLeft => "M10 12L6 8l4-4"@,
            IconName::ArrowRight => "M6 4l4 4-4 4"@,
            IconName::Sliders => "M2 4h6 M10 4h4 M2 8h2 M6 8h8 M2 12h10 M12 12h2 M9 4a1.5 1.5 0 1 0 0-3 1.5 1.5 0 0 0 0 3z M5 8a1.5 1.5 0 1 0 0-3 1.5 1.5 0 0 0 0 3z M11 12a1.5 1.5 0 1 0 0-3 1.5 1.5 0 0 0 0 3z"@,
            IconName::X => "M3 3l10 10 M13 3L3 13"@,
            IconName::Archive => "M2 3h12v3H2z M3 6v8h10V6 M6 9h4"@,
            IconName::Trash => "M3 4h10 M5 4V2h6v2 M5 4l1 10h4l1-10"@,
            IconName::Plus => "M8 3v10 M3 8h10"@,
            IconName::Eye => "M1 8s2.5-5 7-5 7 5 7 5-2.5 5-7 5-7-5-7-5z M8 10.5a2.5 2.5 0 1 0 0-5 2.5 2.5 0 0 0 0 5z"@,
            IconName::Filter => "M1 3h14l-5.5 6.5V14L6.5 12V9.5z"@,
            IconName::Quote => "M3 6h3v3l-2 3H3V9zm6 0h3v3l-2 3H9V9z"@,
            IconName::Sort => "M4 3v10 M2 11l2 2 2-2 M12 13V3 M14 5l-2-2-2 2"@,
            IconName::Check => "M3 8l3 3 7-7"@,
            IconName::Dot => "M8 8m-2 0a2 2 0 1 0 4 0 2 2 0 1 0 -4 0"@,
            IconName::Reply => "M6 4L2 8l4 4 M2 8h7a4 4 0 0 1 4 4v1"@,
            IconName::Forward => "M10 4l4 4-4 4 M14 8H7a4 4 0 0 0-4 4v1"@,
            IconName::Link => "M7 9a3 3 0 0 0 4.2 0l2.5-2.5a3 3 0 1 0-4.2-4.2L8 4 M9 7a3 3 0 0 0-4.2 0L2.3 9.5a3 3 0 1 0 4.2 4.2L8 12"@,
    }
}

impl IconName {
    /// SVG path data for this icon (16×16 viewBox, 1.4px stroke).
    pub fn path_data(&self) -> (r: &'static str)
        ensures
            r@ == path_data_spec(*self),
    {
        match self {
            IconName::Search => "M14 14l-3.5-3.5M11.5 6.5a5 5 0 1 1-10 0 5 5 0 0 1 10 0z",
            IconName::Inbox => "M2 9l1.5-5.5A1 1 0 0 1 4.5 3h7a1 1 0 0 1 1 0.7L14 9M2 9v3.5a.5.5 0 0 0 .5.5h11a.5.5 0 0 0 .5-.5V9M2 9h3.5l1 2h3l1-2H14",
            IconName::Star => "M8 1.5l2 4.5 5 .5-3.7 3.4 1.1 5L8 12.3l-4.4 2.6 1.1-5L1 6.5l5-.5z",
            IconName::Paperclip => "M11.5 7L6 12.5a2.5 2.5 0 1 1-3.5-3.5L8 3.5a1.5 1.5 0 1 1 2 2L4.5 11",
            IconName::ChevronRight => "M6 4l4 4-4 4",
            IconName::ChevronDown => "M4 6l4 4 4-4",
            IconName::Download => "M8 2v9M4.5 7.5L8 11l3.5-3.5M3 13h10",
            IconName::File => "M3 2h6l4 4v8H3z M9 2v4h4",
            IconName::Image => "M2 3h12v10H2z M5.5 6.5a1 1 0 1 1-2 0 1 1 0 0 1 2 0 M2 11l3-3 3 3 2-2 4 4",
            IconName::Mail => "M2 4h12v8H2z M2 4l6 4 6-4",
            IconName::Tag => "M2 2h6l6 6-6 6-6-6z M5 5h.01",
            IconName::User => "M3 13c0-2 2-3.5 5-3.5s5 1.5 5 3.5 M8 8a2.5 2.5 0 1 0 0-5 2.5 2.5 0 0 0 0 5z",
            IconName::Calendar => "M3 4h10v9H3z M3 7h10 M5 2v3 M11 2v3",
            IconName::ArrowLeft => "M10 12L6 8l4-4",
            IconName::ArrowRight => "M6 4l4 4-4 4",
            IconName::Sliders => "M2 4h6 M10 4h4 M2 8h2 M6 8h8 M2 12h10 M12 12h2 M9 4a1.5 1.5 0 1 0 0-3 1.5 1.5 0 0 0 0 3z M5 8a1.5 1.5 0 1 0 0-3 1.5 1.5 0 0 0 0 3z M11 12a1.5 1.5 0 1 0 0-3 1.5 1.5 0 0 0 0 3z",
            IconName::X => "M3 3l10 10 M13 3L3 13",
            IconName::Archive => "M2 3h12v3H2z M3 6v8h10V6 M6 9h4",
            IconName::Trash => "M3 4h10 M5 4V2h6v2 M5 4l1 10h4l1-10",
            IconName::Plus => "M8 3v10 M3 8h10",
            IconName::Eye => "M1 8s2.5-5 7-5 7 5 7 5-2.5 5-7 5-7-5-7-5z M8 10.5a2.5 2.5 0 1 0 0-5 2.5 2.5 0 0 0 0 5z",
            IconName::Filter => "M1 3h14l-5.5 6.5V14L6.5 12V9.5z",
            IconName::Quote => "M3 6h3v3l-2 3H3V9zm6 0h3v3l-2 3H9V9z",
            IconName::Sort => "M4 3v10 M2 11l2 2 2-2 M12 13V3 M14 5l-2-2-2 2",
            IconName::Check => "M3 8l3 3 7-7",
            IconName::Dot => "M8 8m-2 0a2 2 0 1 0 4 0 2 2 0 1 0 -4 0",
            IconName::Reply => "M6 4L2 8l4 4 M2 8h7a4 4 0 0 1 4 4v1",
            IconName::Forward => "M10 4l4 4-4 4 M14 8H7a4 4 0 0 0-4 4v1",
            IconName::Link => "M7 9a3 3 0 0 0 4.2 0l2.5-2.5a3 3 0 1 0-4.2-4.2L8 4 M9 7a3 3 0 0 0-4.2 0L2.3 9.5a3 3 0 1 0 4.2 4.2L8 12",
        }
    }
}

// ── Reader pane ─────────────────────────────────────────────────────

/// The distinct strings of `s`, in order of first occurrence.
pub open spec fn distinct(s: Seq<Seq<char>>) -> Seq<Seq<char>>
    decreases s.len(),
{
    if s.len() == 0 {
        s
    } else {
        let d = distinct(s.drop_last());
        if d.contains(s.last()) {
            d
        } else {
            d.push(s.last())
        }
    }
}

pub open spec fn min_of(s: Seq<i64>) -> i64
    recommends
        s.len() > 0,
    decreases s.len(),
{
    if s.len() <= 1 {
        s[0]
    } else {
        let m = min_of(s.drop_last());
        if s.last() < m {
            s.last()
        } else {
            m
        }
    }
}

pub open spec fn max_of(s: Seq<i64>) -> i64
    recommends
        s.len() > 0,
    decreases s.len(),
{
    if s.len() <= 1 {
        s[0]
    } else {
        let m = max_of(s.drop_last());
        if s.last() > m {
            s.last()
        } else {
            m
        }
    }
}

pub open spec fn senders_of(msgs: Seq<MessageDetail>) -> Seq<Seq<char>> {
    msgs.map_values(|m: MessageDetail| m.headers.from@)
}

pub open spec fn dates_of(msgs: Seq<MessageDetail>) -> Seq<i64> {
    msgs.map_values(|m: MessageDetail| m.date)
}

/// What the head of the reader pane shows of a thread.
#[derive(Debug, Clone, PartialEq)]
pub struct ReaderMeta {
    /// The subject of the first message (empty without messages).
    pub subject: String,
    pub message_count: usize,
    /// The number of distinct `From` headers.
    pub participant_count: usize,
    /// The dates of the oldest and the newest message.
    pub date_span: Option<(i64, i64)>,
}

/// The head of the reader pane: the first message's subject, the numbers
/// of messages and of distinct senders, and the oldest and newest date.
pub fn reader_meta(detail: &ThreadDetail) -> (r: ReaderMeta)
    ensures
        r.subject@ == (if detail.messages@.len() > 0 {
            detail.messages@[0].subject@
        } else {
            Seq::<char>::empty()
        }),
        r.message_count == detail.messages@.len(),
        r.participant_count == distinct(senders_of(detail.messages@)).len(),
        detail.messages@.len() == 0 ==> r.date_span is None,
        detail.messages@.len() > 0 ==> r.date_span == Some(
            (min_of(dates_of(detail.messages@)), max_of(dates_of(detail.messages@))),
        ),
{
    let msgs = &detail.messages;
    let n = msgs.len();
    let subject = if n > 0 {
        text::copy_str(msgs[0].subject.as_str())
    } else {
        String::new()
    };
    let ghost fs = senders_of(msgs@);
    let ghost ds = dates_of(msgs@);
    let mut seen: Vec<String> = Vec::new();
    let mut lo: i64 = 0;
    let mut hi: i64 = 0;
    let mut i: usize = 0;
    proof {
        assert(fs.take(0) =~= Seq::<Seq<char>>::empty());
        assert(crate::order::string_views(seen@) =~= Seq::<Seq<char>>::empty());
    }
    while i < n
        invariant
            i <= n == msgs@.len(),
            fs == senders_of(msgs@),
            ds == dates_of(msgs@),
            crate::order::string_views(seen@) == distinct(fs.take(i as int)),
            seen@.len() <= i,
            i > 0 ==> lo == min_of(ds.take(i as int)) && hi == max_of(ds.take(i as int)),
        decreases n - i,
    {
        let ghost sv = crate::order::string_views(seen@);
        let f = text::chars_of(msgs[i].headers.from.as_str());
        let mut found = false;
        let mut k: usize = 0;
        while k < seen.len()
            invariant
                k <= seen@.len(),
                sv == crate::order::string_views(seen@),
                found ==> sv.contains(f@),
                !found ==> forall|j: int| 0 <= j < k ==> sv[j] != f@,
            decreases seen.len() - k,
        {
            let sk = text::chars_of(seen[k].as_str());
            if text::seq_eq(&sk, &f) {
                proof {
                    assert(sv[k as int] == f@);
                }
                found = true;
            }
            k = k + 1;
        }
        proof {
            assert(fs.take(i + 1).drop_last() =~= fs.take(i as int));
            assert(fs.take(i + 1).last() == f@);
            assert(ds.take(i + 1).drop_last() =~= ds.take(i as int));
            assert(ds.take(i + 1).last() == msgs@[i as int].date);
        }
        if !found {
            let ghost before = seen@;
            seen.push(text::string_of(&f));
            proof {
                assert(crate::order::string_views(seen@) =~= sv.push(f@));
            }
        }
        let d = msgs[i].date;
        if i == 0 {
            lo = d;
            hi = d;
        } else {
            if d < lo {
                lo = d;
            }
            if d > hi {
                hi = d;
            }
        }
        i = i + 1;
    }
    proof {
        assert(fs.take(n as int) =~= fs);
        assert(ds.take(n as int) =~= ds);
    }
    let date_span = if n > 0 {
        Some((lo, hi))
    } else {
        None
    };
    ReaderMeta { subject, message_count: n, participant_count: seen.len(), date_span }
}

/// `one` for a count of one, `many` for any other.
pub fn plural<'a>(n: usize, one: &'a str, many: &'a str) -> (r: &'a str)
    ensures
        r@ == (if n == 1 {
            one@
        } else {
            many@
        }),
{
    if n == 1 {
        one
    } else {
        many
    }
}

// ── Attachments ─────────────────────────────────────────────────────

/// How an attachment is previewed under its download bar.
#[derive(Debug, Clone, Copy, PartialEq, Eq)]
pub enum PreviewKind {
    /// A PDF frame.
    Pdf,
    /// An image.
    Image,
    /// A video player.
    Video,
    /// A frame showing text.
    Text,
    /// No preview: the download bar only.
    DownloadOnly,
}

/// The preview of an attachment of type `ct` named `name`: PDF by type or
/// `.pdf` name, then image and video by type, then text for `text/plain`,
/// `text/log` or a `.log` or `.txt` name.
pub open spec fn preview_kind_spec(ct: Seq<char>, name: Seq<char>) -> PreviewKind {
    if ct == "application/pdf"@ || text::ends_with(name, ".pdf"@) {
        PreviewKind::Pdf
    } else if text::starts_with(ct, "image/"@) {
        PreviewKind::Image
    } else if text::starts_with(ct, "video/"@) {
        PreviewKind::Video
    } else if ct == "text/plain"@ || ct == "text/log"@ || text::ends_with(name, ".log"@)
        || text::ends_with(name, ".txt"@) {
        PreviewKind::Text
    } else {
        PreviewKind::DownloadOnly
    }
}

/// The preview of an attachment (see `preview_kind_spec`).
pub fn preview_kind(content_type: &str, name: &str) -> (r: PreviewKind)
    ensures
        r == preview_kind_spec(content_type@, name@),
{
    let ct = text::chars_of(content_type);
    let nm = text::chars_of(name);
    if text::str_eq(content_type, "application/pdf") || text::ends_with_exec(
        &nm,
        &text::chars_of(".pdf"),
    ) {
        PreviewKind::Pdf
    } else if text::starts_with_exec(&ct, &text::chars_of("image/")) {
        PreviewKind::Image
    } else if text::starts_with_exec(&ct, &text::chars_of("video/")) {
        PreviewKind::Video
    } else if text::str_eq(content_type, "text/plain") || text::str_eq(content_type, "text/log")
        || text::ends_with_exec(&nm, &text::chars_of(".log")) || text::ends_with_exec(
        &nm,
        &text::chars_of(".txt"),
    ) {
        PreviewKind::Text
    } else {
        PreviewKind::DownloadOnly
    }
}

/// The icon of an attachment: an image's, or a file's.
pub fn attachment_icon(content_type: &str) -> (r: IconName)
    ensures
        r == (if text::starts_with(content_type@, "image/"@) {
            IconName::Image
        } else {
            IconName::File
        }),
{
    if text::starts_with_exec(&text::chars_of(content_type), &text::chars_of("image/")) {
        IconName::Image
    } else {
        IconName::File
    }
}

/// The name an attachment is shown under: its file name, or `unnamed`.
pub fn attachment_name(filename: &Option<String>) -> (r: String)
    ensures
        r@ == match filename {
            Some(f) => f@,
            None => "unnamed"@,
        },
{
    match filename {
        Some(f) => text::copy_str(f.as_str()),
        None => text::copy_str("unnamed"),
    }
}

/// A byte that percent-encoding leaves as it is: ASCII letters and digits,
/// `-`, `.`, `_` and `~`.
pub open spec fn is_unreserved(b: u8) -> bool {
    (48 <= b <= 57) || (65 <= b <= 90) || (97 <= b <= 122) || b == 45 || b == 46 || b == 95 || b
        == 126
}

/// The upper-case hexadecimal digit of `d` (below sixteen).
pub open spec fn hex_upper(d: int) -> char {
    if d < 10 {
        (48 + d) as char
    } else {
        (55 + d) as char
    }
}

/// `bytes` percent-encoded: each unreserved byte as its character, every
/// other as `%` and two upper-case hexadecimal digits.
pub open spec fn percent_encode(bytes: Seq<u8>) -> Seq<char>
    decreases bytes.len(),
{
    if bytes.len() == 0 {
        Seq::empty()
    } else {
        let b = bytes.last();
        percent_encode(bytes.drop_last()) + if is_unreserved(b) {
            seq![b as char]
        } else {
            seq!['%', hex_upper((b / 16) as int), hex_upper((b % 16) as int)]
        }
    }
}

/// A character percent-encoding may write: an unreserved one, `%`, or an
/// upper-case hexadecimal digit.
pub open spec fn url_safe(c: char) -> bool {
    ('0' <= c <= '9') || ('A' <= c <= 'Z') || ('a' <= c <= 'z') || c == '-' || c == '.' || c
        == '_' || c == '~' || c == '%'
}

/// Percent-encoded text holds only unreserved characters, `%` and
/// hexadecimal digits: nothing that ends a query parameter or a URL.
pub proof fn lemma_percent_encode_safe(bytes: Seq<u8>)
    ensures
        forall|i: int| 0 <= i < percent_encode(bytes).len() ==> url_safe(#[trigger] percent_encode(bytes)[i]),
    decreases bytes.len(),
{
    if bytes.len() > 0 {
        lemma_percent_encode_safe(bytes.drop_last());
        let a = percent_encode(bytes.drop_last());
        let b = bytes.last();
        let e = if is_unreserved(b) {
            seq![b as char]
        } else {
            seq!['%', hex_upper((b / 16) as int), hex_upper((b % 16) as int)]
        };
        assert forall|i: int| 0 <= i < e.len() implies url_safe(e[i]) by {}
        assert forall|i: int| 0 <= i < percent_encode(bytes).len() implies url_safe(
            #[trigger] percent_encode(bytes)[i],
        ) by {
            if i < a.len() {
                assert(percent_encode(bytes)[i] == a[i]);
            } else {
                assert(percent_encode(bytes)[i] == e[i - a.len()]);
            }
        }
    }
}

/// `urlencoding::encode`: the UTF-8 bytes of `s`, each percent-encoded
/// except alphanumerics and `-`, `_`, `.`, `~` (as the crate documents it
/// and its source does, with upper-case hexadecimal digits).
#[verifier::external_body]
fn url_encode(s: &str) -> (r: String)
    ensures
        r@ == percent_encode(vstd::utf8::encode_utf8(s@)),
{
    urlencoding::encode(s).into_owned()
}

/// The download link of part `part` of message `message_id`.
pub fn attachment_url(message_id: &str, part: usize) -> (r: String)
    ensures
        r@ == "/api/attachment?msg="@ + percent_encode(vstd::utf8::encode_utf8(message_id@))
            + "&part="@ + text::decimal(part as nat),
{
    let mut v: Vec<char> = Vec::new();
    text::extend_str(&mut v, "/api/attachment?msg=");
    let enc = url_encode(message_id);
    text::extend_str(&mut v, enc.as_str());
    text::extend_str(&mut v, "&part=");
    text::push_decimal(&mut v, part);
    text::string_of(&v)
}

// ── Dates ───────────────────────────────────────────────────────────

/// The age of a message shown in the results list, from its age in
/// seconds: `just now` for a date ahead of the clock, then minutes, hours
/// and days (`5m`, `3h`, `2d`) up to a week; `None` for older messages,
/// which show their calendar date.
pub open spec fn relative_age_spec(secs: i64) -> Option<Seq<char>> {
    if secs < 0 {
        Some("just now"@)
    } else if secs < 3600 {
        Some(text::decimal((secs / 60) as nat) + "m"@)
    } else if secs < 86400 {
        Some(text::decimal((secs / 3600) as nat) + "h"@)
    } else if secs < 86400 * 7 {
        Some(text::decimal((secs / 86400) as nat) + "d"@)
    } else {
        None
    }
}

/// The relative age of a message (see `relative_age_spec`).
pub fn relative_age(secs: i64) -> (r: Option<String>)
    ensures
        match relative_age_spec(secs) {
            Some(t) => r matches Some(s) && s@ == t,
            None => r is None,
        },
{
    if secs < 0 {
        return Some(text::copy_str("just now"));
    }
    let (n, unit): (i64, &str) = if secs < 3600 {
        (secs / 60, "m")
    } else if secs < 86400 {
        (secs / 3600, "h")
    } else if secs < 86400 * 7 {
        (secs / 86400, "d")
    } else {
        return None;
    };
    let mut v = text::decimal_exec(n as usize);
    text::extend_str(&mut v, unit);
    Some(text::string_of(&v))
}

/// Date display format for `fmt_date`.
#[derive(Debug, Clone, Copy, PartialEq, Eq)]
pub enum DateFormat {
    /// Relative: "5m", "3h", "2d", or "Feb 10".
    Relative,
    /// ISO-like: "2026-04-30 14:05".
    Iso,
    /// Short: "Apr 30 '26".
    Short,
}

/// The calendar pattern a date is written with: ISO date and time, or month
/// and day, followed by the two-digit year unless the date is relative and
/// falls in the current year.
pub open spec fn date_pattern_spec(mode: DateFormat, year: i32, now_year: i32) -> Seq<char> {
    match mode {
        DateFormat::Iso => "%Y-%m-%d %H:%M"@,
        DateFormat::Short => "%b %d '%y"@,
        DateFormat::Relative => if year == now_year {
            "%b %d"@
        } else {
            "%b %d '%y"@
        },
    }
}

/// The pattern for a date of `year`, shown in `mode` while the clock reads
/// `now_year` (see `date_pattern_spec`); used where a relative age does not
/// apply.
pub fn date_pattern(mode: DateFormat, year: i32, now_year: i32) -> (p: &'static str)
    ensures
        p@ == date_pattern_spec(mode, year, now_year),
{
    match mode {
        DateFormat::Iso => "%Y-%m-%d %H:%M",
        DateFormat::Short => "%b %d '%y",
        DateFormat::Relative => if year == now_year {
            "%b %d"
        } else {
            "%b %d '%y"
        },
    }
}

// ── The page document ───────────────────────────────────────────────

/// One of the `;`-separated cookies of `c`, trimmed, is `theme=light`.
pub open spec fn asks_light(c: Seq<char>) -> bool {
    exists|i: int|
        0 <= i < text::split_char(c, ';').len() && #[trigger] text::trim(text::split_char(c, ';')[i])
            == "theme=light"@
}

/// The theme a `Cookie` header asks for: `light` where one of its cookies
/// is `theme=light`, else `dark`.
pub open spec fn theme_spec(cookie: Option<Seq<char>>) -> Seq<char> {
    match cookie {
        Some(c) => if asks_light(c) {
            "light"@
        } else {
            "dark"@
        },
        None => "dark"@,
    }
}

/// The theme of a request, from its `Cookie` header (see `theme_spec`).
pub fn theme_from_cookies(cookie: Option<&str>) -> (r: &'static str)
    ensures
        r@ == theme_spec(
            match cookie {
                Some(c) => Some(c@),
                None => None,
            },
        ),
{
    match cookie {
        None => "dark",
        Some(c) => {
            let parts = text::split_char_exec(&text::chars_of(c), ';');
            let ghost ps = text::split_char(c@, ';');
            let mut i: usize = 0;
            while i < parts.len()
                invariant
                    i <= parts@.len(),
                    cookie == Some(c),
                    parts@.len() == ps.len(),
                    ps == text::split_char(c@, ';'),
                    forall|k: int| 0 <= k < parts@.len() ==> #[trigger] parts@[k]@ == ps[k],
                    forall|k: int| 0 <= k < i ==> text::trim(#[trigger] ps[k]) != "theme=light"@,
                decreases parts.len() - i,
            {
                let t = text::trim_exec(&parts[i]);
                if text::eq_lit(&t, "theme=light") {
                    proof {
                        assert(text::trim(ps[i as int]) == "theme=light"@);
                        assert(0 <= i < text::split_char(c@, ';').len());
                        assert(text::trim(text::split_char(c@, ';')[i as int]) == "theme=light"@);
                        assert(asks_light(c@));
                    }
                    return "light";
                }
                i = i + 1;
            }
            "dark"
        },
    }
}

/// The class of the page body for a theme.
pub fn theme_class(theme: &str) -> (r: &'static str)
    ensures
        r@ == (if theme@ == "light"@ {
            "theme-instrument light"@
        } else {
            "theme-instrument dark"@
        }),
{
    if text::str_eq(theme, "light") {
        "theme-instrument light"
    } else {
        "theme-instrument dark"
    }
}

/// The escape of one character in a double-quoted attribute value: `&`,
/// `<`, `>` and `"`.
pub open spec fn escape_dq_char(c: char) -> Seq<char> {
    if c == '&' {
        "&amp;"@
    } else if c == '<' {
        "&lt;"@
    } else if c == '>' {
        "&gt;"@
    } else if c == '"' {
        "&quot;"@
    } else {
        seq![c]
    }
}

/// `s` escaped for a double-quoted attribute value.
pub open spec fn escape_dq(s: Seq<char>) -> Seq<char>
    decreases s.len(),
{
    if s.len() == 0 {
        Seq::empty()
    } else {
        escape_dq(s.drop_last()) + escape_dq_char(s.last())
    }
}

/// Text escaped for a double-quoted attribute holds no `"`, `<` or `>`:
/// it cannot leave the attribute value.
pub proof fn lemma_escape_dq_safe(s: Seq<char>)
    ensures
        forall|i: int|
            0 <= i < escape_dq(s).len() ==> #[trigger] escape_dq(s)[i] != '"' && escape_dq(s)[i]
                != '<' && escape_dq(s)[i] != '>',
    decreases s.len(),
{
    if s.len() > 0 {
        lemma_escape_dq_safe(s.drop_last());
        let a = escape_dq(s.drop_last());
        let e = escape_dq_char(s.last());
        reveal_strlit("&amp;");
        reveal_strlit("&lt;");
        reveal_strlit("&gt;");
        reveal_strlit("&quot;");
        assert forall|i: int| 0 <= i < e.len() implies e[i] != '"' && e[i] != '<' && e[i] != '>' by {}
        assert forall|i: int| 0 <= i < escape_dq(s).len() implies #[trigger] escape_dq(s)[i] != '"'
            && escape_dq(s)[i] != '<' && escape_dq(s)[i] != '>' by {
            if i < a.len() {
                assert(escape_dq(s)[i] == a[i]);
            } else {
                assert(escape_dq(s)[i] == e[i - a.len()]);
            }
        }
    }
}

/// `html_escape::encode_double_quoted_attribute`: `&`, `<`, `>` and `"`
/// become `&amp;`, `&lt;`, `&gt;` and `&quot;`, every other character
/// stays (as the crate documents).
#[verifier::external_body]
fn encode_double_quoted_attribute(s: &str) -> (r: String)
    ensures
        r@ == escape_dq(s@),
{
    html_escape::encode_double_quoted_attribute(s).into_owned()
}

/// The HTML document of a page: the rendered `body` with the style sheets
/// `tokens`, `instrument` and `app`, the escaped `title`, and the theme as
/// an escaped attribute and a body class.
pub open spec fn page_spec(
    title: Seq<char>,
    theme: Seq<char>,
    body: Seq<char>,
    tokens: Seq<char>,
    instrument: Seq<char>,
    app: Seq<char>,
) -> Seq<char> {
    "<!DOCTYPE html>\n<html lang=\"en\" data-theme=\""@ + escape_dq(theme)
        + "\">\n<head>\n<meta charset=\"UTF-8\">\n<meta name=\"viewport\" content=\"width=device-width, initial-scale=1.0\">\n<link rel=\"icon\" type=\"image/svg+xml\" href=\"/favicon.svg\">\n<title>"@
        + crate::mail::html::escape_html(title, false) + "</title>\n<style>\n"@ + tokens
        + "\n</style>\n<style>\n"@ + instrument + "\n</style>\n<style>\n"@ + app
        + "\n</style>\n</head>\n<body class=\""@ + (if theme == "light"@ {
        "theme-instrument light"@
    } else {
        "theme-instrument dark"@
    }) + "\">\n"@ + body + "\n<script src=\"/app.js\" defer></script>\n</body>\n</html>"@
}

/// The HTML document of a page (see `page_spec`).
pub fn page_document(
    title: &str,
    theme: &str,
    body: &str,
    tokens: &str,
    instrument: &str,
    app: &str,
) -> (r: String)
    ensures
        r@ == page_spec(title@, theme@, body@, tokens@, instrument@, app@),
{
    let safe_theme = encode_double_quoted_attribute(theme);
    let safe_title = crate::mail::html::encode_text(title);
    let mut r = text::copy_str("<!DOCTYPE html>\n<html lang=\"en\" data-theme=\"");
    text::push_str(&mut r, safe_theme.as_str());
    text::push_str(
        &mut r,
        "\">\n<head>\n<meta charset=\"UTF-8\">\n<meta name=\"viewport\" content=\"width=device-width, initial-scale=1.0\">\n<link rel=\"icon\" type=\"image/svg+xml\" href=\"/favicon.svg\">\n<title>",
    );
    text::push_str(&mut r, safe_title.as_str());
    text::push_str(&mut r, "</title>\n<style>\n");
    text::push_str(&mut r, tokens);
    text::push_str(&mut r, "\n</style>\n<style>\n");
    text::push_str(&mut r, instrument);
    text::push_str(&mut r, "\n</style>\n<style>\n");
    text::push_str(&mut r, app);
    text::push_str(&mut r, "\n</style>\n</head>\n<body class=\"");
    text::push_str(&mut r, theme_class(theme));
    text::push_str(&mut r, "\">\n");
    text::push_str(&mut r, body);
    text::push_str(&mut r, "\n<script src=\"/app.js\" defer></script>\n</body>\n</html>");
    r
}

// ── Pages of the server ─────────────────────────────────────────────

/// The title of the home page.
pub fn home_title() -> (r: &'static str)
    ensures
        r@ == "Rummage — Email Archive Search"@,
{
    "Rummage — Email Archive Search"
}

/// The query a search page runs: the one asked for, else `tag:inbox`.
pub fn page_query(q: Option<String>) -> (r: String)
    ensures
        r@ == match q {
            Some(s) => s@,
            None => "tag:inbox"@,
        },
{
    match q {
        Some(s) => s,
        None => text::copy_str("tag:inbox"),
    }
}

/// A search request wants JSON where its `Accept` header names
/// `application/json`.
pub fn wants_json(accept: Option<&str>) -> (r: bool)
    ensures
        r == match accept {
            Some(a) => text::contains(a@, "application/json"@),
            None => false,
        },
{
    match accept {
        Some(a) => text::contains_exec(&text::chars_of(a), &text::chars_of("application/json")),
        None => false,
    }
}

/// The title of a search page.
pub fn search_title(query: &str) -> (r: String)
    ensures
        r@ == "Search: "@ + query@ + " — Rummage"@,
{
    let mut r = text::copy_str("Search: ");
    text::push_str(&mut r, query);
    text::push_str(&mut r, " — Rummage");
    r
}

/// The title of a thread page: its first message's subject, or `Thread`.
pub fn thread_title(detail: &ThreadDetail) -> (r: String)
    ensures
        r@ == (if detail.messages@.len() > 0 {
            detail.messages@[0].subject@
        } else {
            "Thread"@
        }) + " — Rummage"@,
{
    let mut r = if detail.messages.len() > 0 {
        text::copy_str(detail.messages[0].subject.as_str())
    } else {
        text::copy_str("Thread")
    };
    text::push_str(&mut r, " — Rummage");
    r
}

/// The status line of a search page: `<threads> threads · <ms> ms`.
pub fn search_status(threads: usize, elapsed_ms: usize) -> (r: String)
    ensures
        r@ == text::decimal(threads as nat) + " threads · "@ + text::decimal(elapsed_ms as nat)
            + " ms"@,
{
    let mut v = text::decimal_exec(threads);
    text::extend_str(&mut v, " threads · ");
    text::push_decimal(&mut v, elapsed_ms);
    text::extend_str(&mut v, " ms");
    text::string_of(&v)
}

} // verus!
