//! Matching a text with a pattern: `%` stands for any text, `_` for any one character.

use vstd::prelude::*;

use crate::text::chars_of;

verus! {

/// Whether a text matches a pattern.
pub open spec fn like(t: Seq<char>, p: Seq<char>) -> bool
    decreases t.len() + p.len(),
{
    if p.len() == 0 {
        t.len() == 0
    } else if p[0] == '%' {
        like(t, p.skip(1)) || (t.len() > 0 && like(t.skip(1), p))
    } else {
        t.len() > 0 && (p[0] == '_' || p[0] == t[0]) && like(t.skip(1), p.skip(1))
    }
}

/// The pattern of a search: anything before and behind what is searched for.
pub open spec fn search_pattern(q: Seq<char>) -> Seq<char> {
    seq!['%'] + q + seq!['%']
}

fn like_from(t: &Vec<char>, i: usize, p: &Vec<char>, j: usize) -> (r: bool)
    requires
        i <= t@.len(),
        j <= p@.len(),
    ensures
        r == like(t@.skip(i as int), p@.skip(j as int)),
    decreases t@.len() - i + p@.len() - j,
{
    let ghost ts = t@.skip(i as int);
    let ghost ps = p@.skip(j as int);
    if j == p.len() {
        return i == t.len();
    }
    proof {
        assert(ps[0] == p@[j as int]);
        assert(ps.skip(1) =~= p@.skip(j + 1));
        if i < t@.len() {
            assert(ts[0] == t@[i as int]);
            assert(ts.skip(1) =~= t@.skip(i + 1));
        }
    }
    if p[j] == '%' {
        like_from(t, i, p, j + 1) || (i < t.len() && like_from(t, i + 1, p, j))
    } else {
        i < t.len() && (p[j] == '_' || p[j] == t[i]) && like_from(t, i + 1, p, j + 1)
    }
}

/// Whether a text matches the pattern of a search.
pub fn is_found(t: &str, q: &str) -> (r: bool)
    ensures
        r == like(t@, search_pattern(q@)),
{
    let text = chars_of(t);
    let mut pattern: Vec<char> = Vec::new();
    pattern.push('%');
    let middle = chars_of(q);
    for i in 0..middle.len()
        invariant
            middle@ == q@,
            pattern@ == seq!['%'] + q@.take(i as int),
    {
        pattern.push(middle[i]);
        assert(seq!['%'] + q@.take(i + 1) =~= (seq!['%'] + q@.take(i as int)).push(q@[i as int]));
    }
    assert(q@.take(q@.len() as int) =~= q@);
    pattern.push('%');
    assert(pattern@ =~= search_pattern(q@));
    assert(text@.skip(0) =~= text@);
    assert(pattern@.skip(0) =~= pattern@);
    like_from(&text, 0, &pattern, 0)
}

/// Whether a text has no character with a meaning in a pattern.
pub open spec fn is_plain(q: Seq<char>) -> bool {
    forall|i: int| 0 <= i < q.len() ==> #[trigger] q[i] != '%' && q[i] != '_'
}

/// Whether another text stands in a text from a place on.
pub open spec fn stands_at(t: Seq<char>, q: Seq<char>, at: int) -> bool {
    0 <= at && at + q.len() <= t.len() && t.subrange(at, at + q.len()) == q
}

proof fn lemma_any_text(t: Seq<char>)
    ensures
        like(t, seq!['%']),
    decreases t.len(),
{
    reveal_with_fuel(like, 2);
    assert(seq!['%'].skip(1) =~= Seq::<char>::empty());
    if t.len() > 0 {
        lemma_any_text(t.skip(1));
    }
}

/// A plain pattern with anything behind it is matched by what starts with it.
proof fn lemma_start(t: Seq<char>, q: Seq<char>)
    requires
        is_plain(q),
    ensures
        like(t, q + seq!['%']) == stands_at(t, q, 0),
    decreases q.len(),
{
    let p = q + seq!['%'];
    if q.len() == 0 {
        assert(p =~= seq!['%']);
        lemma_any_text(t);
        assert(t.subrange(0, 0) =~= q);
    } else {
        let rest = q.skip(1);
        assert(p.skip(1) =~= rest + seq!['%']);
        assert(p[0] == q[0]);
        assert(is_plain(rest)) by {
            assert forall|i: int| 0 <= i < rest.len() implies #[trigger] rest[i] != '%' && rest[i]
                != '_' by {
                assert(rest[i] == q[i + 1]);
            }
        }
        if t.len() > 0 {
            lemma_start(t.skip(1), rest);
            if stands_at(t, q, 0) {
                assert(t.subrange(0, q.len() as int)[0] == q[0]);
                assert(t.skip(1).subrange(0, rest.len() as int) =~= t.subrange(
                    0,
                    q.len() as int,
                ).skip(1));
            }
            if t[0] == q[0] && stands_at(t.skip(1), rest, 0) {
                assert forall|i: int| 0 <= i < q.len() implies t.subrange(
                    0,
                    q.len() as int,
                )[i] == q[i] by {
                    if i > 0 {
                        assert(t.skip(1).subrange(0, rest.len() as int)[i - 1] == rest[i - 1]);
                    }
                }
                assert(t.subrange(0, q.len() as int) =~= q);
            }
        }
    }
}

/// A search for a text without wildcards finds exactly the texts in which it stands.
pub proof fn plain_searches_find_what_contains_them(t: Seq<char>, q: Seq<char>)
    requires
        is_plain(q),
    ensures
        like(t, search_pattern(q)) <==> exists|at: int| stands_at(t, q, at),
    decreases t.len(),
{
    let p = search_pattern(q);
    assert(p.skip(1) =~= q + seq!['%']);
    assert(p[0] == '%');
    lemma_start(t, q);
    if t.len() > 0 {
        let rest = t.skip(1);
        plain_searches_find_what_contains_them(rest, q);
        if exists|at: int| stands_at(rest, q, at) {
            let at = choose|at: int| stands_at(rest, q, at);
            assert(t.subrange(at + 1, at + 1 + q.len()) =~= rest.subrange(at, at + q.len()));
            assert(stands_at(t, q, at + 1));
        }
        if exists|at: int| stands_at(t, q, at) {
            let at = choose|at: int| stands_at(t, q, at);
            if at > 0 {
                assert(rest.subrange(at - 1, at - 1 + q.len()) =~= t.subrange(
                    at,
                    at + q.len(),
                ));
                assert(stands_at(rest, q, at - 1));
            }
        }
    } else {
        if exists|at: int| stands_at(t, q, at) {
            let at = choose|at: int| stands_at(t, q, at);
            assert(at == 0);
        }
    }
}

} // verus!
