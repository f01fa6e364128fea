//! Orders: stable ordering by an integer key, as `sort_by_key` performs it,
//! and the lexicographic order of strings.
use vstd::prelude::*;

verus! {

/// The position, from `p` on, before which an item with key `k` enters
/// `sorted`: after every item whose key is at most `k`.
pub open spec fn insert_pos<A>(sorted: Seq<A>, key: spec_fn(A) -> int, k: int, p: int) -> int
    decreases sorted.len() - p,
{
    if 0 <= p < sorted.len() && key(sorted[p]) <= k {
        insert_pos(sorted, key, k, p + 1)
    } else {
        p
    }
}

/// `s` ordered by `key`, items of equal key in their original order.
pub open spec fn stable_sort<A>(s: Seq<A>, key: spec_fn(A) -> int) -> Seq<A>
    decreases s.len(),
{
    if s.len() == 0 {
        s
    } else {
        let t = stable_sort(s.drop_last(), key);
        t.insert(insert_pos(t, key, key(s.last()), 0), s.last())
    }
}

/// `s` is ordered by `key`.
pub open spec fn sorted_by<A>(s: Seq<A>, key: spec_fn(A) -> int) -> bool {
    forall|i: int, j: int| 0 <= i <= j < s.len() ==> key(#[trigger] s[i]) <= key(#[trigger] s[j])
}

pub proof fn lemma_insert_pos<A>(sorted: Seq<A>, key: spec_fn(A) -> int, k: int, p: int)
    requires
        0 <= p <= sorted.len(),
    ensures
        p <= insert_pos(sorted, key, k, p) <= sorted.len(),
        forall|j: int| p <= j < insert_pos(sorted, key, k, p) ==> key(#[trigger] sorted[j]) <= k,
        insert_pos(sorted, key, k, p) < sorted.len() ==> key(sorted[insert_pos(sorted, key, k, p)])
            > k,
    decreases sorted.len() - p,
{
    if p < sorted.len() && key(sorted[p]) <= k {
        lemma_insert_pos(sorted, key, k, p + 1);
    }
}

pub proof fn lemma_insert_contains<A>(t: Seq<A>, p: int, a: A)
    requires
        0 <= p <= t.len(),
    ensures
        forall|x: A| t.insert(p, a).contains(x) <==> (t.contains(x) || x == a),
{
    t.insert_ensures(p, a);
    let u = t.insert(p, a);
    assert forall|x: A| u.contains(x) implies (t.contains(x) || x == a) by {
        let j = choose|j: int| 0 <= j < u.len() && u[j] == x;
        if j < p {
            assert(t[j] == x);
        } else if j > p {
            assert(t[j - 1] == x);
        }
    }
    assert forall|x: A| (t.contains(x) || x == a) implies u.contains(x) by {
        if x == a {
            assert(u[p] == x);
        } else {
            let j = choose|j: int| 0 <= j < t.len() && t[j] == x;
            if j < p {
                assert(u[j] == x);
            } else {
                assert(u[j + 1] == x);
            }
        }
    }
}

/// A stable sort keeps the items (by membership and count) and orders them
/// by key.
pub proof fn lemma_stable_sort<A>(s: Seq<A>, key: spec_fn(A) -> int)
    ensures
        stable_sort(s, key).len() == s.len(),
        forall|x: A| stable_sort(s, key).contains(x) <==> s.contains(x),
        sorted_by(stable_sort(s, key), key),
    decreases s.len(),
{
    if s.len() > 0 {
        let t = stable_sort(s.drop_last(), key);
        lemma_stable_sort(s.drop_last(), key);
        let k = key(s.last());
        let p = insert_pos(t, key, k, 0);
        lemma_insert_pos(t, key, k, 0);
        lemma_insert_contains(t, p, s.last());
        t.insert_ensures(p, s.last());
        let u = t.insert(p, s.last());
        assert forall|x: A| s.drop_last().contains(x) || x == s.last() implies s.contains(x) by {
            if x == s.last() {
                assert(s[s.len() - 1] == x);
            } else {
                let j = choose|j: int| 0 <= j < s.drop_last().len() && s.drop_last()[j] == x;
                assert(s[j] == x);
            }
        }
        assert forall|x: A| s.contains(x) implies s.drop_last().contains(x) || x == s.last() by {
            let j = choose|j: int| 0 <= j < s.len() && s[j] == x;
            if j < s.len() - 1 {
                assert(s.drop_last()[j] == x);
            }
        }
        assert forall|i: int, j: int| 0 <= i <= j < u.len() implies key(#[trigger] u[i]) <= key(
            #[trigger] u[j],
        ) by {
            if j < p {
                assert(u[i] == t[i] && u[j] == t[j]);
            } else if j == p {
                if i < p {
                    assert(u[i] == t[i]);
                }
            } else if i < p {
                assert(u[i] == t[i] && u[j] == t[j - 1]);
                assert(key(t[i]) <= key(t[p]));
            } else if i == p {
                assert(u[j] == t[j - 1]);
                assert(key(t[p]) <= key(t[j - 1]));
            } else {
                assert(u[i] == t[i - 1] && u[j] == t[j - 1]);
            }
        }
    }
}

} // verus!

verus! {

// ── Lexicographic order of strings ──────────────────────────────────

/// `a` sorts before or equal to `b`: character by character, by code
/// point, a prefix first (the order of `str`'s `Ord`, as UTF-8 preserves
/// code point order byte by byte).
pub open spec fn lex_le(a: Seq<char>, b: Seq<char>) -> bool
    decreases a.len(),
{
    if a.len() == 0 {
        true
    } else if b.len() == 0 {
        false
    } else if a[0] == b[0] {
        lex_le(a.drop_first(), b.drop_first())
    } else {
        a[0] < b[0]
    }
}

/// Any two strings are ordered one way or the other.
pub proof fn lemma_lex_total(a: Seq<char>, b: Seq<char>)
    ensures
        lex_le(a, b) || lex_le(b, a),
    decreases a.len(),
{
    if a.len() > 0 && b.len() > 0 && a[0] == b[0] {
        lemma_lex_total(a.drop_first(), b.drop_first());
    }
}

/// The order is transitive.
pub proof fn lemma_lex_trans(a: Seq<char>, b: Seq<char>, c: Seq<char>)
    requires
        lex_le(a, b),
        lex_le(b, c),
    ensures
        lex_le(a, c),
    decreases a.len(),
{
    if a.len() > 0 && b.len() > 0 && c.len() > 0 && a[0] == b[0] && b[0] == c[0] {
        lemma_lex_trans(a.drop_first(), b.drop_first(), c.drop_first());
    }
}

/// Strings ordered both ways are equal.
pub proof fn lemma_lex_antisym(a: Seq<char>, b: Seq<char>)
    requires
        lex_le(a, b),
        lex_le(b, a),
    ensures
        a == b,
    decreases a.len(),
{
    if a.len() > 0 && b.len() > 0 {
        if a[0] == b[0] {
            lemma_lex_antisym(a.drop_first(), b.drop_first());
            assert(a.drop_first().len() == b.drop_first().len());
            assert(a.len() == b.len());
            assert forall|i: int| 0 <= i < a.len() implies a[i] == b[i] by {
                if i > 0 {
                    assert(a[i] == a.drop_first()[i - 1]);
                    assert(b[i] == b.drop_first()[i - 1]);
                }
            }
            assert(a =~= b);
        }
    } else {
        assert(a =~= b);
    }
}

/// Whether `a` sorts before or equal to `b`.
pub fn lex_le_exec(a: &Vec<char>, b: &Vec<char>) -> (r: bool)
    ensures
        r == lex_le(a@, b@),
{
    let mut i: usize = 0;
    proof {
        assert(a@.skip(0) =~= a@);
        assert(b@.skip(0) =~= b@);
    }
    while i < a.len() && i < b.len() && a[i] == b[i]
        invariant
            i <= a@.len(),
            i <= b@.len(),
            lex_le(a@, b@) == lex_le(a@.skip(i as int), b@.skip(i as int)),
        decreases a.len() - i,
    {
        proof {
            assert(a@.skip(i as int).drop_first() =~= a@.skip(i + 1));
            assert(b@.skip(i as int).drop_first() =~= b@.skip(i + 1));
            assert(a@.skip(i as int)[0] == a@[i as int]);
            assert(b@.skip(i as int)[0] == b@[i as int]);
        }
        i = i + 1;
    }
    if i == a.len() {
        proof {
            assert(a@.skip(i as int).len() == 0);
        }
        true
    } else if i == b.len() {
        proof {
            assert(b@.skip(i as int).len() == 0);
        }
        false
    } else {
        proof {
            assert(a@.skip(i as int)[0] == a@[i as int]);
            assert(b@.skip(i as int)[0] == b@[i as int]);
        }
        a[i] < b[i]
    }
}

pub open spec fn string_views(v: Seq<String>) -> Seq<Seq<char>> {
    v.map_values(|s: String| s@)
}

/// `s` is in lexicographic order.
pub open spec fn lex_sorted(s: Seq<Seq<char>>) -> bool {
    forall|i: int, j: int| 0 <= i < j < s.len() ==> lex_le(#[trigger] s[i], #[trigger] s[j])
}

/// The position of the least string of `v`, the first of equal ones.
fn least_pos(v: &Vec<String>) -> (m: usize)
    requires
        v@.len() > 0,
    ensures
        m < v@.len(),
        forall|j: int| 0 <= j < v@.len() ==> lex_le(v@[m as int]@, #[trigger] v@[j]@),
{
    let mut m: usize = 0;
    let mut mc = crate::text::chars_of(v[0].as_str());
    let mut k: usize = 1;
    proof {
        lemma_lex_total(v@[0]@, v@[0]@);
    }
    while k < v.len()
        invariant
            1 <= k <= v@.len(),
            m < k,
            mc@ == v@[m as int]@,
            forall|j: int| 0 <= j < k ==> lex_le(v@[m as int]@, #[trigger] v@[j]@),
        decreases v.len() - k,
    {
        let kc = crate::text::chars_of(v[k].as_str());
        if !lex_le_exec(&mc, &kc) {
            proof {
                lemma_lex_total(mc@, kc@);
                assert forall|j: int| 0 <= j <= k implies lex_le(v@[k as int]@, #[trigger] v@[j]@) by {
                    if j < k {
                        lemma_lex_trans(v@[k as int]@, v@[m as int]@, v@[j]@);
                    } else {
                        lemma_lex_total(kc@, kc@);
                    }
                }
            }
            m = k;
            mc = kc;
        } else {
            proof {
                assert(lex_le(v@[m as int]@, v@[k as int]@));
            }
        }
        k = k + 1;
    }
    m
}

/// `v` in lexicographic order (as `sort` on `String`s orders them).
pub fn sort_strings(v: Vec<String>) -> (r: Vec<String>)
    ensures
        string_views(r@).to_multiset() == string_views(v@).to_multiset(),
        lex_sorted(string_views(r@)),
{
    broadcast use vstd::seq_lib::group_to_multiset_ensures;

    let ghost mv = string_views(v@).to_multiset();
    let mut rest = v;
    let mut out: Vec<String> = Vec::new();
    proof {
        assert(string_views(out@) =~= Seq::<Seq<char>>::empty());
        assert(string_views(out@).to_multiset() =~= vstd::multiset::Multiset::empty());
        assert(string_views(out@).to_multiset().add(string_views(rest@).to_multiset()) =~= mv);
    }
    while rest.len() > 0
        invariant
            string_views(out@).to_multiset().add(string_views(rest@).to_multiset()) == mv,
            lex_sorted(string_views(out@)),
            forall|i: int, j: int|
                0 <= i < out@.len() && 0 <= j < rest@.len() ==> lex_le(
                    #[trigger] out@[i]@,
                    #[trigger] rest@[j]@,
                ),
        decreases rest.len(),
    {
        let m = least_pos(&rest);
        let ghost old_rest = rest@;
        let ghost old_out = out@;
        let x = rest.remove(m);
        proof {
            assert(string_views(rest@) =~= string_views(old_rest).remove(m as int));
            assert(string_views(old_rest)[m as int] == x@);
        }
        out.push(x);
        proof {
            assert(string_views(out@) =~= string_views(old_out).push(x@));
            let a = x@;
            let mo = string_views(old_out).to_multiset();
            let mr = string_views(old_rest).to_multiset();
            assert(mr.count(a) > 0) by {
                assert(string_views(old_rest)[m as int] == a);
                assert(string_views(old_rest).contains(a));
                string_views(old_rest).to_multiset_ensures();
            }
            assert(mo.insert(a).add(mr.remove(a)) =~= mo.add(mr));
            string_views(old_out).to_multiset_ensures();
            string_views(old_rest).to_multiset_ensures();
            assert(string_views(old_out).push(a).to_multiset() == mo.insert(a));
            assert(string_views(old_rest).remove(m as int).to_multiset() == mr.remove(a));
            assert(string_views(out@).to_multiset() == mo.insert(a));
            assert(string_views(rest@).to_multiset() == mr.remove(a));
            assert forall|i: int, j: int| 0 <= i < j < out@.len() implies lex_le(
                #[trigger] string_views(out@)[i],
                #[trigger] string_views(out@)[j],
            ) by {
                if j < out@.len() - 1 {
                    assert(string_views(old_out)[i] == string_views(out@)[i]);
                    assert(string_views(old_out)[j] == string_views(out@)[j]);
                } else {
                    assert(out@[i] == old_out[i]);
                    assert(lex_le(old_out[i]@, old_rest[m as int]@));
                }
            }
            assert forall|i: int, j: int|
                0 <= i < out@.len() && 0 <= j < rest@.len() implies lex_le(
                #[trigger] out@[i]@,
                #[trigger] rest@[j]@,
            ) by {
                let jj = if j < m { j } else { j + 1 };
                assert(rest@[j] == old_rest[jj]);
                if i < out@.len() - 1 {
                    assert(out@[i] == old_out[i]);
                } else {
                    assert(lex_le(old_rest[m as int]@, old_rest[jj]@));
                }
            }
        }
    }
    proof {
        assert(string_views(rest@) =~= Seq::<Seq<char>>::empty());
        assert(string_views(out@).to_multiset().add(vstd::multiset::Multiset::empty()) =~= string_views(out@).to_multiset());
    }
    out
}

} // verus!
