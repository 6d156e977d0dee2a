//! Text for pages and queries.

use vstd::prelude::*;

use crate::text;
use crate::text::{replace_char, text_eq};

verus! {

/// Text that is safe in a page: `&`, `<` and `>` as entities.
pub open spec fn escaped(s: Seq<char>) -> Seq<char> {
    text::replaced(
        text::replaced(text::replaced(s, '&', "&amp;"@), '<', "&lt;"@),
        '>',
        "&gt;"@,
    )
}

/// Text that is safe in a page.
pub fn esc(s: &str) -> (r: String)
    ensures
        r@ == escaped(s@),
{
    let a = replace_char(s, '&', "&amp;");
    let b = replace_char(a.as_str(), '<', "&lt;");
    replace_char(b.as_str(), '>', "&gt;")
}

proof fn lemma_replaced(s: Seq<char>, c: char, with: Seq<char>, other: char)
    requires
        !with.contains(c),
        !with.contains(other),
        !s.contains(other) || other == c,
    ensures
        !text::replaced(s, c, with).contains(c),
        !text::replaced(s, c, with).contains(other),
    decreases s.len(),
{
    if s.len() > 0 {
        let t = s.drop_last();
        assert(!t.contains(other) || other == c) by {
            if t.contains(other) && other != c {
                let i = choose|i: int| 0 <= i < t.len() && t[i] == other;
                assert(s[i] == other);
            }
        }
        lemma_replaced(t, c, with, other);
        let before = text::replaced(t, c, with);
        let after = text::replaced(s, c, with);
        assert(s[s.len() - 1] == s.last());
        assert forall|i: int| 0 <= i < after.len() implies #[trigger] after[i] != c && after[i]
            != other by {
            if i < before.len() {
                assert(before.contains(before[i]));
            } else if s.last() == c {
                assert(with.contains(with[i - before.len()]));
            }
        }
    }
}

/// Escaped text opens and closes no tag.
pub proof fn escaped_text_holds_no_tags(s: Seq<char>)
    ensures
        !escaped(s).contains('<'),
        !escaped(s).contains('>'),
{
    reveal_strlit("&lt;");
    reveal_strlit("&gt;");
    let a = text::replaced(s, '&', "&amp;"@);
    let b = text::replaced(a, '<', "&lt;"@);
    lemma_replaced(a, '<', "&lt;"@, '<');
    lemma_replaced(b, '>', "&gt;"@, '<');
}

/// A path as a string literal of SQL.
pub open spec fn sql_literal(path: Seq<char>) -> Seq<char> {
    "'"@ + text::replaced(path, '\'', "''"@) + "'"@
}

/// A path as a string literal of SQL.
pub fn sql_str(path: &str) -> (r: String)
    ensures
        r@ == sql_literal(path@),
{
    let mut out = String::new();
    out.append("'");
    let inner = replace_char(path, '\'', "''");
    out.append(inner.as_str());
    out.append("'");
    assert(out@ =~= sql_literal(path@));
    out
}

/// What follows the last `.` of a name; the name itself where there is none.
pub open spec fn extension(file: Seq<char>) -> Seq<char>
    decreases file.len(),
{
    if file.len() == 0 || file.last() == '.' {
        Seq::empty()
    } else {
        extension(file.drop_last()).push(file.last())
    }
}

/// The content type of a file, by its extension.
pub open spec fn content_type(file: Seq<char>) -> Seq<char> {
    let e = extension(file);
    if e == "css"@ {
        "text/css; charset=utf-8"@
    } else if e == "js"@ {
        "application/javascript; charset=utf-8"@
    } else if e == "html"@ {
        "text/html; charset=utf-8"@
    } else {
        "application/octet-stream"@
    }
}

fn extension_of(file: &str) -> (r: String)
    ensures
        r@ == extension(file@),
{
    let chars = text::chars_of(file);
    let n: usize = chars.len();
    let mut from: usize = n;
    assert(chars@.take(n as int) =~= file@);
    assert(Seq::<char>::empty() =~= chars@.subrange(n as int, n as int));
    assert(extension(file@) =~= extension(chars@.take(n as int)) + chars@.subrange(
        n as int,
        n as int,
    ));
    while from > 0 && chars[from - 1] != '.'
        invariant
            chars@ == file@,
            n == chars@.len(),
            from <= n,
            extension(file@) == extension(chars@.take(from as int)) + chars@.subrange(
                from as int,
                n as int,
            ),
        decreases from,
    {
        proof {
            assert(chars@.take(from as int).drop_last() =~= chars@.take(from - 1));
            assert(chars@.take(from as int).last() == chars@[from - 1]);
            assert(extension(chars@.take(from - 1)).push(chars@[from - 1]) + chars@.subrange(
                from as int,
                n as int,
            ) =~= extension(chars@.take(from - 1)) + chars@.subrange(from - 1, n as int));
        }
        from = from - 1;
    }
    proof {
        if from > 0 {
            assert(chars@.take(from as int).last() == chars@[from - 1]);
        }
        assert(extension(chars@.take(from as int)) =~= Seq::empty());
        assert(Seq::<char>::empty() + chars@.subrange(from as int, n as int) =~= chars@.subrange(
            from as int,
            n as int,
        ));
    }
    text::string_of(&chars, from, n)
}

/// The content type of a file.
pub fn mime_of(file: &str) -> (r: &'static str)
    ensures
        r@ == content_type(file@),
{
    let e = extension_of(file);
    if text_eq(e.as_str(), "css") {
        "text/css; charset=utf-8"
    } else if text_eq(e.as_str(), "js") {
        "application/javascript; charset=utf-8"
    } else if text_eq(e.as_str(), "html") {
        "text/html; charset=utf-8"
    } else {
        "application/octet-stream"
    }
}

/// Whether a change over the web is allowed: where no key guards it, or where the key is given.
pub fn admin_ok(admin_key: &str, given: Option<&str>) -> (r: bool)
    ensures
        r == (admin_key@.len() == 0 || (given matches Some(k) && k@ == admin_key@)),
{
    if admin_key.unicode_len() == 0 {
        return true;
    }
    match given {
        Some(k) => text_eq(k, admin_key),
        None => false,
    }
}

} // verus!
