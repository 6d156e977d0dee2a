//! Laws of texts that leave the program: escaped text, literals, paths and content types.

use vstd::prelude::*;

use crate::accounts;
use crate::extension;
use crate::text;
use crate::web;

verus! {

/// What stands in a page for a character: an entity for `&`, `<` and `>`, and else itself.
pub open spec fn entity(c: char) -> Seq<char> {
    if c == '&' {
        seq!['&', 'a', 'm', 'p', ';']
    } else if c == '<' {
        seq!['&', 'l', 't', ';']
    } else if c == '>' {
        seq!['&', 'g', 't', ';']
    } else {
        seq![c]
    }
}

/// Text is escaped character by character.
pub proof fn each_character_is_escaped(s: Seq<char>, c: char)
    ensures
        web::escaped(Seq::empty()) == Seq::<char>::empty(),
        web::escaped(s.push(c)) == web::escaped(s) + entity(c),
{
    reveal_strlit("&amp;");
    reveal_strlit("&lt;");
    reveal_strlit("&gt;");
    assert("&amp;"@ =~= seq!['&', 'a', 'm', 'p', ';']);
    assert("&lt;"@ =~= seq!['&', 'l', 't', ';']);
    assert("&gt;"@ =~= seq!['&', 'g', 't', ';']);
    let one = text::replaced(seq![c], '&', "&amp;"@);
    lemma_one(c, '&', "&amp;"@);
    let a = text::replaced(s, '&', "&amp;"@);
    let b = text::replaced(a, '<', "&lt;"@);
    assert(s.push(c) =~= s + seq![c]);
    lemma_replaced_parts(s, seq![c], '&', "&amp;"@);
    lemma_replaced_parts(a, one, '<', "&lt;"@);
    let two = text::replaced(one, '<', "&lt;"@);
    lemma_replaced_parts(b, two, '>', "&gt;"@);
    if c == '<' {
        lemma_one(c, '<', "&lt;"@);
        lemma_untouched("&lt;"@, '>', "&gt;"@);
    } else if c == '&' {
        lemma_untouched("&amp;"@, '<', "&lt;"@);
        lemma_untouched("&amp;"@, '>', "&gt;"@);
    } else {
        lemma_one(c, '<', "&lt;"@);
        lemma_one(c, '>', "&gt;"@);
    }
    assert(text::replaced(Seq::<char>::empty(), '&', "&amp;"@) =~= Seq::empty());
}

proof fn lemma_one(c: char, from: char, with: Seq<char>)
    ensures
        text::replaced(seq![c], from, with) == if c == from {
            with
        } else {
            seq![c]
        },
{
    assert(seq![c].drop_last() =~= Seq::empty());
    assert(text::replaced(seq![c].drop_last(), from, with) =~= Seq::empty());
    assert(text::replaced(seq![c], from, with) =~= if c == from {
        with
    } else {
        seq![c]
    });
}

proof fn lemma_untouched(s: Seq<char>, c: char, with: Seq<char>)
    requires
        !s.contains(c),
    ensures
        text::replaced(s, c, with) == s,
    decreases s.len(),
{
    if s.len() > 0 {
        let t = s.drop_last();
        assert(!t.contains(c)) by {
            if t.contains(c) {
                let i = choose|i: int| 0 <= i < t.len() && t[i] == c;
                assert(s[i] == c);
            }
        }
        lemma_untouched(t, c, with);
        assert(s[s.len() - 1] == s.last());
        assert(t.push(s.last()) =~= s);
    } else {
        assert(s =~= Seq::empty());
    }
}

proof fn lemma_replaced_parts(a: Seq<char>, b: Seq<char>, c: char, with: Seq<char>)
    ensures
        text::replaced(a + b, c, with) == text::replaced(a, c, with) + text::replaced(b, c, with),
    decreases b.len(),
{
    if b.len() == 0 {
        assert(a + b =~= a);
        assert(text::replaced(a, c, with) + text::replaced(b, c, with) =~= text::replaced(
            a,
            c,
            with,
        ));
    } else {
        let t = b.drop_last();
        lemma_replaced_parts(a, t, c, with);
        assert((a + b).drop_last() =~= a + t);
        assert((a + b).last() == b.last());
        assert(text::replaced(a + b, c, with) =~= text::replaced(a, c, with) + text::replaced(
            b,
            c,
            with,
        ));
    }
}

/// A literal is the path between quotes; a quote in it is doubled, and nothing else changes.
pub proof fn literals_double_their_quotes(path: Seq<char>, c: char)
    ensures
        ({
            let before = web::sql_literal(path);
            let after = web::sql_literal(path.push(c));
            &&& before.len() >= 2
            &&& before[0] == '\''
            &&& before.last() == '\''
            &&& after == before.drop_last() + (if c == '\'' {
                seq!['\'', '\'']
            } else {
                seq![c]
            }) + seq!['\'']
        }),
        web::sql_literal(Seq::empty()) == seq!['\'', '\''],
{
    reveal_strlit("'");
    reveal_strlit("''");
    assert("'"@ =~= seq!['\'']);
    assert("''"@ =~= seq!['\'', '\'']);
    assert(path.push(c).drop_last() =~= path);
    let before = web::sql_literal(path);
    let after = web::sql_literal(path.push(c));
    assert(after =~= before.drop_last() + (if c == '\'' {
        seq!['\'', '\'']
    } else {
        seq![c]
    }) + seq!['\'']);
    assert(text::replaced(Seq::<char>::empty(), '\'', "''"@) =~= Seq::empty());
    assert(web::sql_literal(Seq::empty()) =~= seq!['\'', '\'']);
}

/// What follows the last dot of a name is its extension, whatever stands before it.
pub proof fn extensions_follow_the_last_dot(name: Seq<char>, e: Seq<char>)
    requires
        !e.contains('.'),
    ensures
        web::extension(name + seq!['.'] + e) == e,
        web::extension(e) == e,
    decreases e.len(),
{
    let whole = name + seq!['.'] + e;
    if e.len() == 0 {
        assert(whole.last() == '.');
        assert(e =~= Seq::empty());
    } else {
        let t = e.drop_last();
        assert(!t.contains('.')) by {
            if t.contains('.') {
                let i = choose|i: int| 0 <= i < t.len() && t[i] == '.';
                assert(e[i] == '.');
            }
        }
        extensions_follow_the_last_dot(name, t);
        assert(e[e.len() - 1] == e.last());
        assert(whole.drop_last() =~= name + seq!['.'] + t);
        assert(whole.last() == e.last());
        assert(t.push(e.last()) =~= e);
    }
}

/// A path with a part ends with the part, begins with the path, and has one separator between
/// them where the path is not empty and does not end with one.
pub proof fn paths_have_one_separator(path: Seq<char>, part: Seq<char>)
    ensures
        ({
            let whole = accounts::path_with(path, part);
            let plain = path.len() == 0 || path.last() == '/';
            &&& whole.len() == path.len() + part.len() + (if plain { 0int } else { 1int })
            &&& whole.take(path.len() as int) == path
            &&& whole.skip(whole.len() - part.len()) == part
            &&& !plain ==> whole[path.len() as int] == '/'
        }),
{
    reveal_strlit("/");
    let whole = accounts::path_with(path, part);
    assert(whole.take(path.len() as int) =~= path);
    assert(whole.skip(whole.len() - part.len()) =~= part);
}

/// Taking a character off the start or the end of a text takes off all of them there, and
/// nothing else.
pub proof fn characters_are_taken_off(s: Seq<char>, c: char)
    ensures
        ({
            let t = extension::without_leading(s, c);
            &&& t.len() <= s.len()
            &&& t == s.skip(s.len() - t.len())
            &&& t.len() > 0 ==> t[0] != c
            &&& forall|i: int| 0 <= i < s.len() - t.len() ==> #[trigger] s[i] == c
        }),
        ({
            let t = text::without_trailing(s, c);
            &&& t.len() <= s.len()
            &&& t == s.take(t.len() as int)
            &&& t.len() > 0 ==> t.last() != c
            &&& forall|i: int| t.len() <= i < s.len() ==> #[trigger] s[i] == c
        }),
    decreases s.len(),
{
    if s.len() > 0 && s[0] == c {
        let rest = s.skip(1);
        characters_are_taken_off(rest, c);
        let t = extension::without_leading(s, c);
        assert(t =~= s.skip(s.len() - t.len()));
        assert forall|i: int| 0 <= i < s.len() - t.len() implies #[trigger] s[i] == c by {
            if i > 0 {
                assert(rest[i - 1] == s[i]);
            }
        }
    } else {
        assert(s.skip(0) =~= s);
    }
    if s.len() > 0 && s.last() == c {
        let rest = s.drop_last();
        characters_are_taken_off(rest, c);
        let t = text::without_trailing(s, c);
        assert(t =~= s.take(t.len() as int));
        assert forall|i: int| t.len() <= i < s.len() implies #[trigger] s[i] == c by {
            if i < s.len() - 1 {
                assert(rest[i] == s[i]);
            }
        }
    } else {
        assert(s.take(s.len() as int) =~= s);
    }
}

/// The type of a file goes by its extension alone.
pub proof fn types_go_by_the_extension(name: Seq<char>, other: Seq<char>, e: Seq<char>)
    requires
        !e.contains('.'),
    ensures
        web::content_type(name + seq!['.'] + e) == web::content_type(other + seq!['.'] + e),
        e == "css"@ ==> web::content_type(name + seq!['.'] + e) == "text/css; charset=utf-8"@,
        e == "html"@ ==> web::content_type(name + seq!['.'] + e) == "text/html; charset=utf-8"@,
        e == "js"@ ==> web::content_type(name + seq!['.'] + e)
            == "application/javascript; charset=utf-8"@,
{
    extensions_follow_the_last_dot(name, e);
    extensions_follow_the_last_dot(other, e);
    reveal_strlit("css");
    reveal_strlit("js");
    reveal_strlit("html");
    assert("css"@.len() != "js"@.len());
    assert("css"@.len() != "html"@.len());
    assert("js"@.len() != "html"@.len());
}

} // verus!
