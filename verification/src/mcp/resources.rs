//! The MCP resources: which resource a URI names.
use vstd::prelude::*;
use crate::text;

verus! {

/// The resource a URI names.
#[derive(Debug, Clone, PartialEq, Eq)]
pub enum ResourceTarget {
    /// `rummage://tags`: all tags with their counts.
    Tags,
    /// `rummage://stats`: archive statistics.
    Stats,
    /// `rummage://message/<id>`: the raw text of a message.
    Message(String),
    /// Anything else.
    Unknown,
}

/// `s` with every leading repetition of `p` removed (as
/// `str::trim_start_matches` with a string pattern).
pub open spec fn trim_start_matches(s: Seq<char>, p: Seq<char>) -> Seq<char>
    decreases s.len(),
{
    if p.len() > 0 && text::starts_with(s, p) {
        trim_start_matches(s.skip(p.len() as int), p)
    } else {
        s
    }
}

/// The message prefix of resource URIs.
pub open spec fn message_prefix() -> Seq<char> {
    "rummage://message/"@
}

/// The resource `uri` names: the tag list, the statistics, a message by the
/// id after the message prefix (every leading repetition of the prefix
/// removed), or none.
pub open spec fn target_spec(uri: Seq<char>) -> Option<Option<Seq<char>>> {
    if uri == "rummage://tags"@ || uri == "rummage://stats"@ {
        None
    } else if text::starts_with(uri, message_prefix()) {
        Some(Some(trim_start_matches(uri, message_prefix())))
    } else {
        Some(None)
    }
}

/// The message resource of an id is read back as that id: the URI that
/// `rummage://message/` and `id` make names the message `id`, for every id
/// that does not itself start with the prefix.
pub proof fn lemma_message_uri(id: Seq<char>)
    requires
        !text::starts_with(id, message_prefix()),
    ensures
        target_spec(message_prefix() + id) == Some(Some(id)),
{
    reveal_strlit("rummage://message/");
    reveal_strlit("rummage://tags");
    reveal_strlit("rummage://stats");
    let u = message_prefix() + id;
    let p = message_prefix();
    assert(u.take(p.len() as int) =~= p);
    assert(u.skip(p.len() as int) =~= id);
    assert(u != "rummage://tags"@) by {
        assert(u[10] == 'm');
    }
    assert(u != "rummage://stats"@) by {
        assert(u[10] == 'm');
    }
    assert(trim_start_matches(id, p) == id);
}

fn trim_start_matches_exec(s: &Vec<char>, p: &Vec<char>) -> (r: Vec<char>)
    ensures
        r@ == trim_start_matches(s@, p@),
{
    let mut i: usize = 0;
    proof {
        assert(s@.skip(0) =~= s@);
    }
    while p.len() > 0 && i <= s.len() && text::matches_at_exec(s, p, i)
        invariant
            i <= s@.len(),
            trim_start_matches(s@, p@) == trim_start_matches(s@.skip(i as int), p@),
        decreases s.len() - i,
    {
        proof {
            assert(s@.subrange(i as int, i + p@.len()) =~= s@.skip(i as int).take(p@.len() as int));
            assert(s@.skip(i as int).skip(p@.len() as int) =~= s@.skip(i + p@.len()));
        }
        i = i + p.len();
    }
    proof {
        if p@.len() > 0 && text::starts_with(s@.skip(i as int), p@) {
            assert(s@.subrange(i as int, i + p@.len()) =~= s@.skip(i as int).take(p@.len() as int));
        }
    }
    text::subvec(s, i, s.len())
}

/// The resource `uri` names (see `target_spec`).
pub fn resource_target(uri: &str) -> (r: ResourceTarget)
    ensures
        uri@ == "rummage://tags"@ ==> r == ResourceTarget::Tags,
        uri@ == "rummage://stats"@ ==> r == ResourceTarget::Stats,
        match target_spec(uri@) {
            Some(Some(id)) => r matches ResourceTarget::Message(m) && m@ == id,
            Some(None) => r == ResourceTarget::Unknown,
            None => r == ResourceTarget::Tags || r == ResourceTarget::Stats,
        },
{
    if text::str_eq(uri, "rummage://tags") {
        proof {
            reveal_strlit("rummage://tags");
            reveal_strlit("rummage://stats");
            assert("rummage://tags"@[10] != "rummage://stats"@[10]);
        }
        return ResourceTarget::Tags;
    }
    if text::str_eq(uri, "rummage://stats") {
        return ResourceTarget::Stats;
    }
    let u = text::chars_of(uri);
    let p = text::chars_of("rummage://message/");
    if text::starts_with_exec(&u, &p) {
        let id = trim_start_matches_exec(&u, &p);
        ResourceTarget::Message(text::string_of(&id))
    } else {
        ResourceTarget::Unknown
    }
}

/// The error text of a URI that names no resource.
pub fn unknown_resource_message(uri: &str) -> (r: String)
    ensures
        r@ == "Unknown resource URI: "@ + uri@,
{
    let mut r = text::copy_str("Unknown resource URI: ");
    text::push_str(&mut r, uri);
    r
}

} // verus!
