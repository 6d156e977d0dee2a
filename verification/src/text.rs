//! Text: what the library needs of strings, stated over sequences of characters.

use vstd::prelude::*;

use crate::decimal;
use crate::decimal::{rounded_even_div, Decimal, UNIT};

verus! {

/// `String::push` appends the character.
pub assume_specification[ String::push ](s: &mut String, c: char)
    ensures
        final(s)@ == old(s)@.push(c),
;

/// Whether a character has the Unicode property `White_Space`.
pub open spec fn is_white(c: char) -> bool {
    let n = c as int;
    ||| 9 <= n <= 13
    ||| n == 0x20
    ||| n == 0x85
    ||| n == 0xA0
    ||| n == 0x1680
    ||| 0x2000 <= n <= 0x200A
    ||| n == 0x2028
    ||| n == 0x2029
    ||| n == 0x202F
    ||| n == 0x205F
    ||| n == 0x3000
}

/// `char::is_whitespace` answers whether a character has the Unicode property `White_Space`,
/// which [`is_white`] lists.
pub assume_specification[ char::is_whitespace ](c: char) -> (r: bool)
    ensures
        r == is_white(c),
;

/// The letters and digits of ASCII.
pub open spec fn is_ascii_letter_or_digit(c: char) -> bool {
    ||| '0' as int <= c as int <= '9' as int
    ||| 'A' as int <= c as int <= 'Z' as int
    ||| 'a' as int <= c as int <= 'z' as int
}

/// What `char::is_alphanumeric` answers beyond ASCII: whether a character is alphabetic or
/// numeric in Unicode's sense.
pub uninterp spec fn is_wide_letter_or_number(c: char) -> bool;

/// Whether a character is alphabetic or numeric in Unicode's sense.
pub open spec fn is_letter_or_number(c: char) -> bool {
    if (c as int) < 128 {
        is_ascii_letter_or_digit(c)
    } else {
        is_wide_letter_or_number(c) && !is_white(c)
    }
}

/// `char::is_alphanumeric` answers whether a character is alphabetic or numeric in Unicode's
/// sense. In ASCII these are the letters and digits; beyond it the answer is what
/// [`is_wide_letter_or_number`] names, and no white space is among them.
pub assume_specification[ char::is_alphanumeric ](c: char) -> (r: bool)
    ensures
        (c as int) < 128 ==> r == is_ascii_letter_or_digit(c),
        (c as int) >= 128 ==> r == is_wide_letter_or_number(c),
        is_white(c) ==> !r,
;

/// What `str::to_uppercase` returns of text that is not all ASCII.
pub uninterp spec fn wide_uppercase(s: Seq<char>) -> Seq<char>;

/// Whether all characters are ASCII.
pub open spec fn is_ascii_text(s: Seq<char>) -> bool {
    forall|i: int| 0 <= i < s.len() ==> (#[trigger] s[i] as int) < 128
}

/// The upper-case letter of an ASCII letter; every other character stays.
pub open spec fn ascii_upper(c: char) -> char {
    if 'a' as int <= c as int <= 'z' as int {
        (c as int - 32) as char
    } else {
        c
    }
}

/// Text in upper case.
pub open spec fn uppercase(s: Seq<char>) -> Seq<char> {
    if is_ascii_text(s) {
        s.map_values(|c: char| ascii_upper(c))
    } else {
        wide_uppercase(s)
    }
}

/// `str::to_uppercase` maps the letters `a` to `z` of ASCII text to `A` to `Z` and keeps its
/// other characters. Of other text it returns what [`wide_uppercase`] names.
pub assume_specification[ str::to_uppercase ](s: &str) -> (r: String)
    ensures
        is_ascii_text(s@) ==> r@ == s@.map_values(|c: char| ascii_upper(c)),
        !is_ascii_text(s@) ==> r@ == wide_uppercase(s@),
;

/// The characters of a string.
pub fn chars_of(s: &str) -> (r: Vec<char>)
    ensures
        r@ == s@,
{
    let mut out: Vec<char> = Vec::new();
    for c in it: s.chars()
        invariant
            out@ == it.seq().take(it.index() as int),
            it.seq() == s@,
    {
        out.push(c);
    }
    assert(out@ =~= s@);
    out
}

/// The string of the characters `from..to`.
pub fn string_of(chars: &Vec<char>, from: usize, to: usize) -> (r: String)
    requires
        from <= to <= chars@.len(),
    ensures
        r@ == chars@.subrange(from as int, to as int),
{
    let mut out = String::new();
    for i in from..to
        invariant
            from <= to <= chars@.len(),
            out@ == chars@.subrange(from as int, i as int),
    {
        out.push(chars[i]);
        assert(chars@.subrange(from as int, i + 1) =~= chars@.subrange(from as int, i as int).push(
            chars@[i as int],
        ));
    }
    out
}

/// Whether two strings hold the same characters.
pub fn text_eq(a: &str, b: &str) -> (r: bool)
    ensures
        r == (a@ == b@),
{
    let x = a.to_owned();
    let y = b.to_owned();
    x == y
}

/// Whether `s` begins with `prefix`.
pub fn has_prefix(s: &str, prefix: &str) -> (r: bool)
    ensures
        r == prefix@.is_prefix_of(s@),
{
    let a = chars_of(s);
    let p = chars_of(prefix);
    if p.len() > a.len() {
        return false;
    }
    for i in 0..p.len()
        invariant
            a@ == s@,
            p@ == prefix@,
            p@.len() <= a@.len(),
            forall|j: int| 0 <= j < i ==> p@[j] == a@[j],
    {
        if p[i] != a[i] {
            assert(p@[i as int] != a@.subrange(0, p@.len() as int)[i as int]);
            return false;
        }
    }
    assert(p@ =~= a@.subrange(0, p@.len() as int));
    true
}

/// Whether `s` ends with `suffix`.
pub fn has_suffix(s: &str, suffix: &str) -> (r: bool)
    ensures
        r == suffix@.is_suffix_of(s@),
{
    let a = chars_of(s);
    let p = chars_of(suffix);
    if p.len() > a.len() {
        return false;
    }
    let start: usize = a.len() - p.len();
    for i in 0..p.len()
        invariant
            a@ == s@,
            p@ == suffix@,
            start + p@.len() == a.len(),
            forall|j: int| 0 <= j < i ==> p@[j] == a@[start + j],
    {
        if p[i] != a[start + i] {
            assert(p@[i as int] != a@.subrange(start as int, a@.len() as int)[i as int]);
            return false;
        }
    }
    assert(p@ =~= a@.subrange(start as int, a@.len() as int));
    true
}

/// Whether `part` stands in `s` at position `i`.
pub open spec fn occurs_at(s: Seq<char>, part: Seq<char>, i: int) -> bool {
    0 <= i <= s.len() - part.len() && s.subrange(i, i + part.len()) == part
}

/// Whether `part` stands somewhere in `s`.
pub open spec fn contains_part(s: Seq<char>, part: Seq<char>) -> bool {
    exists|i: int| occurs_at(s, part, i)
}

/// Whether `part` stands somewhere in `s`.
pub fn text_contains(s: &str, part: &str) -> (r: bool)
    ensures
        r == contains_part(s@, part@),
{
    let a = chars_of(s);
    let p = chars_of(part);
    if p.len() > a.len() {
        return false;
    }
    let last: usize = a.len() - p.len();
    let mut i: usize = 0;
    while i <= last
        invariant
            a@ == s@,
            p@ == part@,
            last + p@.len() == a.len(),
            i <= last + 1,
            forall|k: int| 0 <= k < i ==> !occurs_at(s@, part@, k),
        decreases last + 1 - i,
    {
        let mut same = true;
        let mut j: usize = 0;
        while j < p.len() && same
            invariant
                a@ == s@,
                p@ == part@,
                last + p@.len() == a.len(),
                i <= last,
                j <= p@.len(),
                same ==> forall|k: int| 0 <= k < j ==> a@[i + k] == p@[k],
                !same ==> !occurs_at(s@, part@, i as int),
            decreases p.len() - j + (if same { 1int } else { 0int }),
        {
            if a[i + j] != p[j] {
                same = false;
                assert(s@.subrange(i as int, i + part@.len())[j as int] != part@[j as int]);
            } else {
                j = j + 1;
            }
        }
        if same {
            assert(s@.subrange(i as int, i + part@.len()) =~= part@);
            assert(occurs_at(s@, part@, i as int));
            return true;
        }
        if i == last {
            assert forall|k: int| !occurs_at(s@, part@, k) by {}
            return false;
        }
        i = i + 1;
    }
    false
}

/// Whether the character stands in `s`.
pub fn text_has(s: &str, c: char) -> (r: bool)
    ensures
        r == s@.contains(c),
{
    let a = chars_of(s);
    for i in 0..a.len()
        invariant
            a@ == s@,
            forall|j: int| 0 <= j < i ==> a@[j] != c,
    {
        if a[i] == c {
            assert(s@[i as int] == c);
            return true;
        }
    }
    false
}

/// The strings agree before position `k`, and there `a` ends or has the smaller character.
pub open spec fn less_at(a: Seq<char>, b: Seq<char>, k: int) -> bool {
    &&& 0 <= k <= a.len()
    &&& k < b.len()
    &&& forall|j: int| 0 <= j < k ==> a[j] == b[j]
    &&& k == a.len() || (a[k] as int) < (b[k] as int)
}

/// Lexicographic order by code points, the order of `str`.
pub open spec fn text_less(a: Seq<char>, b: Seq<char>) -> bool {
    exists|k: int| less_at(a, b, k)
}

/// Whether `a` is lexicographically before `b`.
pub fn is_less(a: &str, b: &str) -> (r: bool)
    ensures
        r == text_less(a@, b@),
{
    let x = chars_of(a);
    let y = chars_of(b);
    let mut i: usize = 0;
    while i < x.len() && i < y.len() && x[i] == y[i]
        invariant
            x@ == a@,
            y@ == b@,
            i <= x@.len(),
            i <= y@.len(),
            forall|j: int| 0 <= j < i ==> a@[j] == b@[j],
        decreases x.len() - i,
    {
        i = i + 1;
    }
    if i >= y.len() {
        assert forall|k: int| !less_at(a@, b@, k) by {}
        false
    } else if i >= x.len() {
        assert(less_at(a@, b@, i as int));
        true
    } else if x[i] < y[i] {
        assert(less_at(a@, b@, i as int));
        true
    } else {
        assert forall|k: int| !less_at(a@, b@, k) by {
            if less_at(a@, b@, k) {
                if k < i {
                    assert(a@[k] == b@[k]);
                } else if k > i {
                    assert(a@[i as int] == b@[i as int]);
                }
            }
        }
        false
    }
}

/// The order is irreflexive and total: of two strings, one is before the other unless they
/// are the same.
pub proof fn text_order_is_total(a: Seq<char>, b: Seq<char>)
    ensures
        text_less(a, b) || text_less(b, a) || a == b,
        !(text_less(a, b) && text_less(b, a)),
        a == b ==> !text_less(a, b),
{
    lemma_first_difference(a, b, 0);
    if text_less(a, b) && text_less(b, a) {
        let k = choose|k: int| less_at(a, b, k);
        let l = choose|l: int| less_at(b, a, l);
        if k < l {
            assert(b[k] == a[k]);
        } else if l < k {
            assert(a[l] == b[l]);
        }
    }
}

/// Of three strings, the first is before the third where it is before the second and the
/// second before the third.
pub proof fn text_order_is_transitive(a: Seq<char>, b: Seq<char>, c: Seq<char>)
    requires
        text_less(a, b),
        text_less(b, c),
    ensures
        text_less(a, c),
{
    let k = choose|k: int| less_at(a, b, k);
    let l = choose|l: int| less_at(b, c, l);
    let m = if k <= l {
        k
    } else {
        l
    };
    assert(less_at(a, c, m));
}

proof fn lemma_first_difference(a: Seq<char>, b: Seq<char>, k: int)
    requires
        0 <= k <= a.len(),
        k <= b.len(),
        forall|j: int| 0 <= j < k ==> a[j] == b[j],
    ensures
        text_less(a, b) || text_less(b, a) || a == b,
    decreases a.len() - k,
{
    if k == a.len() && k == b.len() {
        assert(a =~= b);
    } else if k == a.len() {
        assert(less_at(a, b, k));
    } else if k == b.len() {
        assert(less_at(b, a, k));
    } else if a[k] == b[k] {
        lemma_first_difference(a, b, k + 1);
    } else if (a[k] as int) < (b[k] as int) {
        assert(less_at(a, b, k));
    } else {
        assert(less_at(b, a, k));
    }
}

/// A string without its leading white space.
pub open spec fn trimmed_start(s: Seq<char>) -> Seq<char>
    decreases s.len(),
{
    if s.len() > 0 && is_white(s[0]) {
        trimmed_start(s.drop_first())
    } else {
        s
    }
}

/// A string without its trailing white space.
pub open spec fn trimmed_end(s: Seq<char>) -> Seq<char>
    decreases s.len(),
{
    if s.len() > 0 && is_white(s.last()) {
        trimmed_end(s.drop_last())
    } else {
        s
    }
}

/// A string without the white space at its two ends.
pub open spec fn trimmed(s: Seq<char>) -> Seq<char> {
    trimmed_end(trimmed_start(s))
}

/// The string without the white space at its two ends.
pub fn trim_text(s: &str) -> (r: String)
    ensures
        r@ == trimmed(s@),
{
    let a = chars_of(s);
    let n: usize = a.len();
    let mut i: usize = 0;
    assert(a@.subrange(0, n as int) =~= s@);
    while i < n && a[i].is_whitespace()
        invariant
            a@ == s@,
            n == a@.len(),
            i <= n,
            trimmed_start(s@) == trimmed_start(a@.subrange(i as int, n as int)),
        decreases n - i,
    {
        assert(a@.subrange(i as int, n as int).drop_first() =~= a@.subrange(i + 1, n as int));
        i = i + 1;
    }
    let mut j: usize = n;
    assert(trimmed_start(s@) == a@.subrange(i as int, n as int));
    while j > i && a[j - 1].is_whitespace()
        invariant
            a@ == s@,
            n == a@.len(),
            i <= j <= n,
            trimmed(s@) == trimmed_end(a@.subrange(i as int, j as int)),
        decreases j,
    {
        assert(a@.subrange(i as int, j as int).drop_last() =~= a@.subrange(i as int, j - 1));
        j = j - 1;
    }
    assert(trimmed(s@) == a@.subrange(i as int, j as int));
    string_of(&a, i, j)
}

/// Trimming a trimmed string changes nothing.
pub proof fn trimming_is_idempotent(s: Seq<char>)
    ensures
        trimmed(trimmed(s)) == trimmed(s),
{
    lemma_trimmed_start(s);
    lemma_trimmed_end(trimmed_start(s));
}

proof fn lemma_trimmed_start(s: Seq<char>)
    ensures
        ({
            let t = trimmed_start(s);
            t.len() == 0 || !is_white(t[0])
        }),
    decreases s.len(),
{
    if s.len() > 0 && is_white(s[0]) {
        lemma_trimmed_start(s.drop_first());
    }
}

proof fn lemma_trimmed_end(s: Seq<char>)
    ensures
        ({
            let t = trimmed_end(s);
            &&& t.len() == 0 || !is_white(t.last())
            &&& t.is_prefix_of(s)
        }),
    decreases s.len(),
{
    if s.len() > 0 && is_white(s.last()) {
        lemma_trimmed_end(s.drop_last());
        let t = trimmed_end(s);
        assert(t =~= s.subrange(0, t.len() as int));
    } else {
        assert(s =~= s.subrange(0, s.len() as int));
    }
}

/// The pieces of `s` between the occurrences of `sep`.
pub open spec fn split_at_char(s: Seq<char>, sep: char) -> Seq<Seq<char>>
    decreases s.len(),
{
    if s.len() == 0 {
        seq![Seq::empty()]
    } else {
        let before = split_at_char(s.drop_last(), sep);
        if s.last() == sep {
            before.push(Seq::empty())
        } else {
            before.update(before.len() - 1, before.last().push(s.last()))
        }
    }
}

/// The views of a list of strings.
pub open spec fn views(list: Seq<String>) -> Seq<Seq<char>> {
    Seq::new(list.len(), |i: int| list[i]@)
}

proof fn lemma_split_len(s: Seq<char>, sep: char)
    ensures
        split_at_char(s, sep).len() >= 1,
    decreases s.len(),
{
    if s.len() > 0 {
        lemma_split_len(s.drop_last(), sep);
    }
}

/// The pieces of `s` between the occurrences of `sep`.
pub fn split_text(s: &str, sep: char) -> (r: Vec<String>)
    ensures
        views(r@) == split_at_char(s@, sep),
{
    let a = chars_of(s);
    let mut out: Vec<String> = Vec::new();
    let mut cur = String::new();
    assert(a@.take(0) =~= Seq::empty());
    assert(views(out@).push(cur@) =~= split_at_char(a@.take(0), sep));
    for i in 0..a.len()
        invariant
            a@ == s@,
            views(out@).push(cur@) == split_at_char(a@.take(i as int), sep),
    {
        let ghost before = split_at_char(a@.take(i as int), sep);
        proof {
            assert(a@.take(i + 1).drop_last() =~= a@.take(i as int));
            assert(a@.take(i + 1).last() == a@[i as int]);
        }
        if a[i] == sep {
            let ghost old_out = out@;
            let done = cur;
            out.push(done);
            cur = String::new();
            assert(views(out@) =~= views(old_out).push(done@));
            assert(views(out@).push(cur@) =~= before.push(Seq::empty()));
        } else {
            let ghost old_cur = cur@;
            cur.push(a[i]);
            assert(before.last() == old_cur);
            assert(views(out@).push(cur@) =~= before.update(before.len() - 1, old_cur.push(a@[i as int])));
        }
    }
    assert(a@.take(a@.len() as int) =~= s@);
    let ghost old_out = out@;
    let done = cur;
    out.push(done);
    assert(views(out@) =~= views(old_out).push(done@));
    out
}

/// The strings of a list with `sep` between them.
pub open spec fn joined(list: Seq<Seq<char>>, sep: Seq<char>) -> Seq<char>
    decreases list.len(),
{
    if list.len() == 0 {
        Seq::empty()
    } else if list.len() == 1 {
        list[0]
    } else {
        joined(list.drop_last(), sep) + sep + list.last()
    }
}

/// The strings of a list with `sep` between them.
pub fn join_text(list: &Vec<String>, sep: &str) -> (r: String)
    ensures
        r@ == joined(views(list@), sep@),
{
    let mut out = String::new();
    for i in 0..list.len()
        invariant
            out@ == joined(views(list@).take(i as int), sep@),
    {
        let ghost all = views(list@);
        proof {
            assert(all.take(i + 1).drop_last() =~= all.take(i as int));
            assert(all.take(i + 1).last() == list@[i as int]@);
        }
        if i > 0 {
            out.append(sep);
        } else {
            assert(all.take(0) =~= Seq::empty());
        }
        out.append(list[i].as_str());
        assert(i == 0 ==> out@ =~= list@[0]@);
    }
    assert(views(list@).take(list@.len() as int) =~= views(list@));
    out
}

/// `s` with `with` in place of each `c`.
pub open spec fn replaced(s: Seq<char>, c: char, with: Seq<char>) -> Seq<char>
    decreases s.len(),
{
    if s.len() == 0 {
        Seq::empty()
    } else if s.last() == c {
        replaced(s.drop_last(), c, with) + with
    } else {
        replaced(s.drop_last(), c, with).push(s.last())
    }
}

/// `s` with `with` in place of each `c`.
pub fn replace_char(s: &str, c: char, with: &str) -> (r: String)
    ensures
        r@ == replaced(s@, c, with@),
{
    let a = chars_of(s);
    let mut out = String::new();
    assert(a@.take(0) =~= Seq::empty());
    for i in 0..a.len()
        invariant
            a@ == s@,
            out@ == replaced(a@.take(i as int), c, with@),
    {
        proof {
            assert(a@.take(i + 1).drop_last() =~= a@.take(i as int));
            assert(a@.take(i + 1).last() == a@[i as int]);
        }
        if a[i] == c {
            out.append(with);
        } else {
            out.push(a[i]);
        }
    }
    assert(a@.take(a@.len() as int) =~= s@);
    out
}

/// `s` without the characters `c` at its end.
pub open spec fn without_trailing(s: Seq<char>, c: char) -> Seq<char>
    decreases s.len(),
{
    if s.len() > 0 && s.last() == c {
        without_trailing(s.drop_last(), c)
    } else {
        s
    }
}

/// `s` without the characters `c` at its end.
pub fn strip_trailing(s: &str, c: char) -> (r: String)
    ensures
        r@ == without_trailing(s@, c),
{
    let a = chars_of(s);
    let mut j: usize = a.len();
    assert(a@.subrange(0, j as int) =~= s@);
    while j > 0 && a[j - 1] == c
        invariant
            a@ == s@,
            j <= a@.len(),
            without_trailing(s@, c) == without_trailing(a@.subrange(0, j as int), c),
        decreases j,
    {
        assert(a@.subrange(0, j as int).drop_last() =~= a@.subrange(0, j - 1));
        j = j - 1;
    }
    string_of(&a, 0, j)
}

/// The decimal digit `d`.
pub open spec fn digit(d: int) -> char {
    (48 + d) as char
}

/// A natural number in decimal digits.
pub open spec fn digits(n: int) -> Seq<char>
    decreases n,
{
    if n < 10 {
        seq![digit(n)]
    } else {
        digits(n / 10).push(digit(n % 10))
    }
}

/// The last `width` decimal digits of a natural number.
pub open spec fn digits_wide(n: int, width: nat) -> Seq<char>
    decreases width,
{
    if width == 0 {
        Seq::empty()
    } else {
        digits_wide(n / 10, (width - 1) as nat).push(digit(n % 10))
    }
}

fn digit_char(d: u8) -> (r: char)
    requires
        d < 10,
    ensures
        r == digit(d as int),
{
    (48 + d) as char
}

/// Appends a natural number in decimal digits.
pub fn push_digits(out: &mut String, n: i128)
    requires
        n >= 0,
    ensures
        final(out)@ == old(out)@ + digits(n as int),
    decreases n,
{
    if n >= 10 {
        push_digits(out, n / 10);
    }
    let c = digit_char((n % 10) as u8);
    out.push(c);
    assert(out@ =~= old(out)@ + digits(n as int));
}

fn push_digits_wide(out: &mut String, n: i128, width: u8)
    requires
        n >= 0,
    ensures
        final(out)@ == old(out)@ + digits_wide(n as int, width as nat),
    decreases width,
{
    if width > 0 {
        push_digits_wide(out, n / 10, width - 1);
        let c = digit_char((n % 10) as u8);
        out.push(c);
    }
    assert(out@ =~= old(out)@ + digits_wide(n as int, width as nat));
}

/// The last `width` decimal digits of a natural number.
pub fn wide_digits(n: i128, width: u8) -> (r: String)
    requires
        n >= 0,
    ensures
        r@ == digits_wide(n as int, width as nat),
{
    let mut out = String::new();
    push_digits_wide(&mut out, n, width);
    assert(out@ =~= digits_wide(n as int, width as nat));
    out
}

/// An integer in decimal digits, with a minus sign before a negative one.
pub open spec fn int_text(n: int) -> Seq<char> {
    if n < 0 {
        seq!['-'] + digits(-n)
    } else {
        digits(n)
    }
}

/// Appends an integer in decimal digits.
pub fn push_int(out: &mut String, n: i128)
    requires
        n > i128::MIN,
    ensures
        final(out)@ == old(out)@ + int_text(n as int),
{
    if n < 0 {
        out.push('-');
        push_digits(out, -n);
        assert(out@ =~= old(out)@ + int_text(n as int));
    } else {
        push_digits(out, n);
    }
}

/// An integer in decimal digits.
pub fn int_string(n: i128) -> (r: String)
    requires
        n > i128::MIN,
    ensures
        r@ == int_text(n as int),
{
    let mut out = String::new();
    push_int(&mut out, n);
    assert(out@ =~= int_text(n as int));
    out
}

/// The sign of a number: a minus before a negative one, and a plus before another one where
/// `plus` asks for it.
pub open spec fn sign_text(negative: bool, plus: bool) -> Seq<char> {
    if negative {
        seq!['-']
    } else if plus {
        seq!['+']
    } else {
        Seq::empty()
    }
}

/// The natural number `q / 10^places` written with `places` fractional digits.
pub open spec fn places_text(q: int, places: nat) -> Seq<char> {
    if places == 0 {
        digits(q)
    } else {
        digits(q / decimal::pow10(places)) + seq!['.'] + digits_wide(q % decimal::pow10(places), places)
    }
}

/// The quotient `num / den` with `places` fractional digits, rounded to the nearest, halves
/// to the even digit. A zero divisor gives `inf`, or `NaN` under a zero dividend.
pub open spec fn quotient_text(num: int, den: int, places: nat, plus: bool) -> Seq<char> {
    if den == 0 {
        if num == 0 {
            seq!['N', 'a', 'N']
        } else {
            sign_text(num < 0, plus) + seq!['i', 'n', 'f']
        }
    } else {
        let negative = (num < 0 && den > 0) || (num > 0 && den < 0);
        sign_text(negative, plus) + places_text(
            decimal::div_round_even(decimal::abs(num) * decimal::pow10(places), decimal::abs(den)),
            places,
        )
    }
}

fn power_of_ten(places: u8) -> (r: i128)
    requires
        places <= 3,
    ensures
        r == decimal::pow10(places as nat),
        1 <= r <= 1000,
{
    proof {
        reveal_with_fuel(decimal::pow10, 5);
    }
    if places == 0 {
        1
    } else if places == 1 {
        10
    } else if places == 2 {
        100
    } else {
        1000
    }
}

/// The largest magnitude of a dividend or divisor that [`push_quotient`] writes.
pub const QUOTIENT_MAX: i128 = 40_000_000_000_000_000_000_000_000_000_000_000;

/// Appends the quotient `num / den` with `places` fractional digits.
pub fn push_quotient(out: &mut String, num: i128, den: i128, places: u8, plus: bool)
    requires
        -QUOTIENT_MAX <= num <= QUOTIENT_MAX,
        -QUOTIENT_MAX <= den <= QUOTIENT_MAX,
        places <= 3,
    ensures
        final(out)@ == old(out)@ + quotient_text(num as int, den as int, places as nat, plus),
{
    let ghost start = out@;
    let ghost goal = quotient_text(num as int, den as int, places as nat, plus);
    if den == 0 {
        if num == 0 {
            out.push('N');
            out.push('a');
            out.push('N');
        } else {
            if num < 0 {
                out.push('-');
            } else if plus {
                out.push('+');
            }
            out.push('i');
            out.push('n');
            out.push('f');
        }
        assert(out@ =~= start + goal);
        return ;
    }
    let negative = (num < 0 && den > 0) || (num > 0 && den < 0);
    if negative {
        out.push('-');
    } else if plus {
        out.push('+');
    }
    let ghost signed = out@;
    assert(signed =~= start + sign_text(negative, plus));
    let scale = power_of_ten(places);
    let n: i128 = if num < 0 {
        -num
    } else {
        num
    };
    let d: i128 = if den < 0 {
        -den
    } else {
        den
    };
    assert(0 <= n * scale <= n * 1000) by (nonlinear_arith)
        requires
            n >= 0,
            1 <= scale <= 1000,
    ;
    let q = rounded_even_div(n * scale, d);
    if places == 0 {
        push_digits(out, q);
    } else {
        proof {
            vstd::arithmetic::div_mod::lemma_div_pos_is_pos(q as int, scale as int);
            vstd::arithmetic::div_mod::lemma_mod_bound(q as int, scale as int);
        }
        push_digits(out, q / scale);
        out.push('.');
        push_digits_wide(out, q % scale, places);
    }
    assert(out@ =~= signed + places_text(q as int, places as nat));
    assert(out@ =~= start + goal);
}

/// A decimal with `places` fractional digits.
pub open spec fn decimal_text(d: int, places: nat, plus: bool) -> Seq<char> {
    quotient_text(d, UNIT as int, places, plus)
}

/// Appends a decimal with `places` fractional digits.
pub fn push_decimal(out: &mut String, d: Decimal, places: u8, plus: bool)
    requires
        -QUOTIENT_MAX <= d <= QUOTIENT_MAX,
        places <= 3,
    ensures
        final(out)@ == old(out)@ + decimal_text(d as int, places as nat, plus),
{
    push_quotient(out, d, UNIT, places, plus);
}

} // verus!
