//! Numbers read from text and written to it.

use vstd::prelude::*;

use crate::decimal::{Decimal, MONEY_MAX, UNIT};
use crate::text;
use crate::text::{chars_of, push_digits, string_of};

verus! {

/// Whether a character is a decimal digit.
pub open spec fn is_digit(c: char) -> bool {
    '0' <= c <= '9'
}

/// Whether every character is a decimal digit.
pub open spec fn all_digits(s: Seq<char>) -> bool {
    forall|i: int| 0 <= i < s.len() ==> is_digit(#[trigger] s[i])
}

/// The natural number that decimal digits stand for; 0 for none.
pub open spec fn number(s: Seq<char>) -> int
    decreases s.len(),
{
    if s.len() == 0 {
        0
    } else {
        number(s.drop_last()) * 10 + (s.last() as int - '0' as int)
    }
}

/// Whether a number begins with a sign.
pub open spec fn has_sign(s: Seq<char>) -> bool {
    s.len() > 0 && (s[0] == '-' || s[0] == '+')
}

/// A number without its sign.
pub open spec fn unsigned(s: Seq<char>) -> Seq<char> {
    if has_sign(s) {
        s.skip(1)
    } else {
        s
    }
}

/// The number `m` under the sign of `s`.
pub open spec fn under_sign(s: Seq<char>, m: int) -> int {
    if s.len() > 0 && s[0] == '-' {
        -m
    } else {
        m
    }
}

/// The integer that a text of an optional sign and one or more digits stands for.
pub open spec fn integer_of(s: Seq<char>) -> Option<int> {
    let body = unsigned(s);
    if body.len() > 0 && all_digits(body) {
        Some(under_sign(s, number(body)))
    } else {
        None
    }
}

/// The 64-bit integer that a text stands for.
pub open spec fn i64_of(s: Seq<char>) -> Option<i64> {
    match integer_of(s) {
        Some(n) => if i64::MIN <= n <= i64::MAX {
            Some(n as i64)
        } else {
            None
        },
        None => None,
    }
}

proof fn lemma_number_grows(s: Seq<char>, k: int)
    requires
        0 <= k <= s.len(),
        all_digits(s),
    ensures
        0 <= number(s.take(k)) <= number(s),
    decreases s.len() - k,
{
    lemma_number_natural(s.take(k));
    if k == s.len() {
        assert(s.take(k) =~= s);
    } else {
        lemma_number_grows(s, k + 1);
        assert(s.take(k + 1).drop_last() =~= s.take(k));
        assert(is_digit(s[k]));
    }
}

proof fn lemma_number_natural(s: Seq<char>)
    requires
        all_digits(s),
    ensures
        number(s) >= 0,
    decreases s.len(),
{
    if s.len() > 0 {
        let t = s.drop_last();
        assert forall|i: int| 0 <= i < t.len() implies is_digit(#[trigger] t[i]) by {
            assert(t[i] == s[i]);
        }
        lemma_number_natural(t);
        assert(is_digit(s[s.len() - 1]));
    }
}

/// Where the digits that start at `from` stop.
fn digits_end(chars: &Vec<char>, from: usize) -> (r: usize)
    requires
        from <= chars@.len(),
    ensures
        from <= r <= chars@.len(),
        all_digits(chars@.subrange(from as int, r as int)),
        r < chars@.len() ==> !is_digit(chars@[r as int]),
{
    let mut i: usize = from;
    while i < chars.len() && '0' <= chars[i] && chars[i] <= '9'
        invariant
            from <= i <= chars@.len(),
            all_digits(chars@.subrange(from as int, i as int)),
        decreases chars.len() - i,
    {
        assert(chars@.subrange(from as int, i + 1) =~= chars@.subrange(from as int, i as int).push(
            chars@[i as int],
        ));
        i = i + 1;
    }
    i
}

/// The largest number that [`digits_value`] tells apart from larger ones.
pub const VALUE_MAX: i128 = 10_000_000_000_000_000_000_000_000_000_000;

/// The number of the digits `from..to`, `None` where it is above [`VALUE_MAX`].
fn digits_value(chars: &Vec<char>, from: usize, to: usize) -> (r: Option<i128>)
    requires
        from <= to <= chars@.len(),
        all_digits(chars@.subrange(from as int, to as int)),
    ensures
        ({
            let n = number(chars@.subrange(from as int, to as int));
            &&& n >= 0
            &&& r == (if n <= VALUE_MAX {
                Some(n as i128)
            } else {
                None
            })
        }),
{
    let ghost all = chars@.subrange(from as int, to as int);
    let mut acc: i128 = 0;
    for i in from..to
        invariant
            from <= to <= chars@.len(),
            all == chars@.subrange(from as int, to as int),
            all_digits(all),
            acc == number(all.take(i - from)),
            0 <= acc <= VALUE_MAX,
    {
        proof {
            assert(all.take(i + 1 - from).drop_last() =~= all.take(i - from));
            assert(all.take(i + 1 - from).last() == chars@[i as int]);
            assert(is_digit(all[i - from]));
            lemma_number_grows(all, i + 1 - from);
        }
        let d: i128 = chars[i] as u8 as i128 - 48;
        acc = acc * 10 + d;
        if acc > VALUE_MAX {
            return None;
        }
    }
    assert(all.take(to - from) =~= all);
    Some(acc)
}

/// Reads a 64-bit integer.
pub fn parse_i64(s: &str) -> (r: Option<i64>)
    ensures
        r == i64_of(s@),
{
    let chars = chars_of(s);
    let n: usize = chars.len();
    let start: usize = if n > 0 && (chars[0] == '-' || chars[0] == '+') {
        1
    } else {
        0
    };
    let negative = n > 0 && chars[0] == '-';
    let end = digits_end(&chars, start);
    assert(unsigned(s@) =~= chars@.subrange(start as int, n as int));
    if end == start || end < n {
        proof {
            if end < n {
                assert(unsigned(s@)[end - start] == chars@[end as int]);
            }
        }
        return None;
    }
    match digits_value(&chars, start, end) {
        None => None,
        Some(v) => {
            let signed: i128 = if negative {
                -v
            } else {
                v
            };
            if signed < -9_223_372_036_854_775_808 || signed > 9_223_372_036_854_775_807 {
                None
            } else {
                Some(signed as i64)
            }
        },
    }
}

/// The unsigned 64-bit integer that a text of an optional plus sign and digits stands for.
pub open spec fn u64_of(s: Seq<char>) -> Option<u64> {
    match integer_of(s) {
        Some(n) => if s[0] != '-' && n <= u64::MAX {
            Some(n as u64)
        } else {
            None
        },
        None => None,
    }
}

/// Reads an unsigned 64-bit integer.
pub fn parse_u64(s: &str) -> (r: Option<u64>)
    ensures
        r == u64_of(s@),
{
    let chars = chars_of(s);
    let n: usize = chars.len();
    if n > 0 && chars[0] == '-' {
        return None;
    }
    let start: usize = if n > 0 && chars[0] == '+' {
        1
    } else {
        0
    };
    let end = digits_end(&chars, start);
    assert(unsigned(s@) =~= chars@.subrange(start as int, n as int));
    if end == start || end < n {
        proof {
            if end < n {
                assert(unsigned(s@)[end - start] == chars@[end as int]);
            }
        }
        return None;
    }
    match digits_value(&chars, start, end) {
        None => None,
        Some(v) => if v > 18_446_744_073_709_551_615 {
            None
        } else {
            Some(v as u64)
        },
    }
}

proof fn lemma_digits(n: int)
    requires
        n >= 0,
    ensures
        text::digits(n).len() >= 1,
        all_digits(text::digits(n)),
        number(text::digits(n)) == n,
    decreases n,
{
    let s = text::digits(n);
    if n < 10 {
        assert(s.drop_last() =~= Seq::<char>::empty());
        reveal_with_fuel(number, 2);
    } else {
        lemma_digits(n / 10);
        assert(s.drop_last() =~= text::digits(n / 10));
    }
}

/// A written integer is read back.
pub proof fn written_integers_are_read_back(n: int)
    ensures
        integer_of(text::int_text(n)) == Some(n),
{
    let s = text::int_text(n);
    if n < 0 {
        lemma_digits(-n);
        assert(unsigned(s) =~= text::digits(-n));
    } else {
        lemma_digits(n);
        assert(is_digit(s[0]));
    }
}

/// The position of the first `.`, or the length where there is none.
pub open spec fn point_of(s: Seq<char>) -> int
    decreases s.len(),
{
    if s.len() == 0 || s[0] == '.' {
        0
    } else {
        1 + point_of(s.drop_first())
    }
}

/// The first six digits of a fraction, zeros where it has fewer.
pub open spec fn six_digits(s: Seq<char>) -> Seq<char> {
    Seq::new(
        6,
        |i: int|
            if i < s.len() {
                s[i]
            } else {
                '0'
            },
    )
}

/// What a text of an optional sign, digits and an optional fraction stands for, in
/// millionths; digits behind the sixth round it by the seventh.
pub open spec fn plain_decimal_of(s: Seq<char>) -> Option<int> {
    let body = unsigned(s);
    let point = point_of(body);
    let whole = body.take(point);
    let fraction = if point < body.len() {
        body.skip(point + 1)
    } else {
        Seq::empty()
    };
    let value = number(whole) * UNIT + number(six_digits(fraction)) + if fraction.len() > 6
        && fraction[6] >= '5' {
        1int
    } else {
        0int
    };
    if whole.len() + fraction.len() > 0 && all_digits(whole) && all_digits(fraction) && value
        <= MONEY_MAX {
        Some(under_sign(s, value))
    } else {
        None
    }
}

proof fn lemma_point(s: Seq<char>, k: int)
    requires
        0 <= k <= s.len(),
        forall|i: int| 0 <= i < k ==> #[trigger] s[i] != '.',
        k == s.len() || s[k] == '.',
    ensures
        point_of(s) == k,
    decreases k,
{
    if k > 0 {
        let t = s.drop_first();
        assert forall|i: int| 0 <= i < k - 1 implies #[trigger] t[i] != '.' by {
            assert(t[i] == s[i + 1]);
        }
        lemma_point(t, k - 1);
        assert(s[0] != '.');
    }
}

proof fn lemma_six(s: Seq<char>)
    requires
        s.len() == 6,
        all_digits(s),
    ensures
        0 <= number(s) < UNIT,
        number(s) == (s[0] as int - 48) * 100_000 + (s[1] as int - 48) * 10_000 + (s[2] as int
            - 48) * 1_000 + (s[3] as int - 48) * 100 + (s[4] as int - 48) * 10 + (s[5] as int
            - 48),
{
    let a = s.drop_last();
    let b = a.drop_last();
    let c = b.drop_last();
    let d = c.drop_last();
    let e = d.drop_last();
    assert(e.drop_last() =~= Seq::<char>::empty());
    reveal_with_fuel(number, 7);
    assert(is_digit(s[0]) && is_digit(s[1]) && is_digit(s[2]) && is_digit(s[3]) && is_digit(s[4])
        && is_digit(s[5]));
}

/// Reads a decimal in plain notation.
fn parse_plain(s: &str) -> (r: Option<Decimal>)
    ensures
        match plain_decimal_of(s@) {
            Some(d) => r == Some(d as Decimal) && -MONEY_MAX <= d <= MONEY_MAX,
            None => r is None,
        },
{
    let chars = chars_of(s);
    let n: usize = chars.len();
    let start: usize = if n > 0 && (chars[0] == '-' || chars[0] == '+') {
        1
    } else {
        0
    };
    let negative = n > 0 && chars[0] == '-';
    let ghost body = unsigned(s@);
    assert(body =~= chars@.subrange(start as int, n as int));
    let point = digits_end(&chars, start);
    assert forall|i: int| 0 <= i < point - start implies #[trigger] body[i] != '.' by {
        assert(is_digit(chars@.subrange(start as int, point as int)[i]));
    }
    if point < n && chars[point] != '.' {
        proof {
            let k = point_of(body);
            lemma_point_bounds(body);
            assert(body[point - start] == chars@[point as int]);
            assert(k > point - start) by {
                if k <= point - start {
                    if k < point - start {
                        assert(body[k] != '.');
                    }
                }
            }
            assert(!all_digits(body.take(k))) by {
                assert(!is_digit(body.take(k)[point - start]));
            }
        }
        return None;
    }
    proof {
        lemma_point(body, point - start);
    }
    let ghost whole = body.take(point - start);
    assert(whole =~= chars@.subrange(start as int, point as int));
    let from: usize = if point < n {
        point + 1
    } else {
        n
    };
    let end = digits_end(&chars, from);
    let ghost fraction = if point_of(body) < body.len() {
        body.skip(point_of(body) + 1)
    } else {
        Seq::empty()
    };
    assert(fraction =~= chars@.subrange(from as int, n as int));
    if end < n {
        assert(fraction[end - from] == chars@[end as int]);
        return None;
    }
    if point == start && end == from {
        return None;
    }
    assert(all_digits(fraction));
    let mut micros: i128 = 0;
    let mut i: usize = 0;
    let ghost six = six_digits(fraction);
    assert(all_digits(six));
    assert(six.take(0) =~= Seq::<char>::empty());
    while i < 6
        invariant
            i <= 6,
            from <= end <= chars@.len(),
            end == n,
            n == chars@.len(),
            fraction == chars@.subrange(from as int, n as int),
            six == six_digits(fraction),
            all_digits(six),
            micros == number(six.take(i as int)),
            0 <= micros,
            i == 0 ==> micros == 0,
            i == 1 ==> micros < 10,
            i == 2 ==> micros < 100,
            i == 3 ==> micros < 1_000,
            i == 4 ==> micros < 10_000,
            i == 5 ==> micros < 100_000,
            i == 6 ==> micros < 1_000_000,
        decreases 6 - i,
    {
        let d: i128 = if i < end - from {
            chars[from + i] as u8 as i128 - 48
        } else {
            0
        };
        proof {
            assert(six.take(i + 1).drop_last() =~= six.take(i as int));
            assert(six.take(i + 1).last() == six[i as int]);
            assert(is_digit(six[i as int]));
            if i < end - from {
                assert(six[i as int] == chars@[from + i]);
            }
        }
        micros = micros * 10 + d;
        i = i + 1;
    }
    assert(six.take(6) =~= six);
    let carry: i128 = if end - from > 6 && chars[from + 6] >= '5' {
        1
    } else {
        0
    };
    assert(end - from > 6 ==> fraction[6] == chars@[from + 6]);
    match digits_value(&chars, start, point) {
        None => None,
        Some(v) => {
            let value: i128 = v * UNIT + micros + carry;
            if value > MONEY_MAX {
                None
            } else if negative {
                Some(-value)
            } else {
                Some(value)
            }
        },
    }
}

proof fn lemma_point_bounds(s: Seq<char>)
    ensures
        0 <= point_of(s) <= s.len(),
        point_of(s) < s.len() ==> s[point_of(s)] == '.',
    decreases s.len(),
{
    if s.len() > 0 && s[0] != '.' {
        lemma_point_bounds(s.drop_first());
    }
}

/// The largest exponent, either way.
pub const EXPONENT_MAX: i64 = 400;

/// The position of the first `e`, small or capital, or the length where there is none.
pub open spec fn exponent_at(s: Seq<char>) -> int
    decreases s.len(),
{
    if s.len() == 0 || s[0] == 'e' || s[0] == 'E' {
        0
    } else {
        1 + exponent_at(s.drop_first())
    }
}

pub open spec fn zeros(n: int) -> Seq<char> {
    Seq::new(
        (if n > 0 {
            n
        } else {
            0
        }) as nat,
        |i: int| '0',
    )
}

/// The digits of a text of an optional sign, digits and an optional fraction.
pub open spec fn digits_of(s: Seq<char>) -> Seq<char> {
    let body = unsigned(s);
    let point = point_of(body);
    body.take(point) + if point < body.len() {
        body.skip(point + 1)
    } else {
        Seq::empty()
    }
}

/// A text of an optional sign, digits and an optional fraction with its point moved to the
/// right, or to the left where `x` is negative.
pub open spec fn moved(s: Seq<char>, x: int) -> Seq<char> {
    let body = unsigned(s);
    let digits = digits_of(s);
    let p = point_of(body) + x;
    let cut = if p < 0 {
        0
    } else if p > digits.len() {
        digits.len() as int
    } else {
        p
    };
    s.take(s.len() - body.len()) + digits.take(cut) + zeros(p - digits.len()) + seq!['.'] + zeros(
        -p,
    ) + digits.skip(cut)
}

/// What a text of a decimal stands for, in millionths: one in plain notation, or one that an
/// `e` and the power of ten follow.
pub open spec fn decimal_of(s: Seq<char>) -> Option<int> {
    let k = exponent_at(s);
    if k == s.len() {
        plain_decimal_of(s)
    } else {
        match i64_of(s.skip(k + 1)) {
            Some(x) => if -EXPONENT_MAX <= x <= EXPONENT_MAX && digits_of(s.take(k)).len() > 0 {
                plain_decimal_of(moved(s.take(k), x as int))
            } else {
                None
            },
            None => None,
        }
    }
}

fn exponent_index(chars: &Vec<char>) -> (r: usize)
    ensures
        r == exponent_at(chars@),
        r <= chars@.len(),
{
    let n: usize = chars.len();
    let mut i: usize = 0;
    assert(chars@.skip(0) =~= chars@);
    while i < n && chars[i] != 'e' && chars[i] != 'E'
        invariant
            n == chars@.len(),
            i <= n,
            exponent_at(chars@) == i + exponent_at(chars@.skip(i as int)),
        decreases n - i,
    {
        assert(chars@.skip(i as int)[0] == chars@[i as int]);
        assert(chars@.skip(i as int).drop_first() =~= chars@.skip(i + 1));
        i = i + 1;
    }
    if i < n {
        assert(chars@.skip(i as int)[0] == chars@[i as int]);
    }
    i
}

fn point_index(chars: &Vec<char>, from: usize, to: usize) -> (r: usize)
    requires
        from <= to <= chars@.len(),
    ensures
        from <= r <= to,
        r - from == point_of(chars@.subrange(from as int, to as int)),
{
    let ghost body = chars@.subrange(from as int, to as int);
    let mut i: usize = from;
    while i < to && chars[i] != '.'
        invariant
            from <= i <= to <= chars@.len(),
            body == chars@.subrange(from as int, to as int),
            forall|j: int| 0 <= j < i - from ==> #[trigger] body[j] != '.',
        decreases to - i,
    {
        assert(body[i - from] == chars@[i as int]);
        i = i + 1;
    }
    if i < to {
        assert(body[i - from] == chars@[i as int]);
    }
    proof {
        lemma_point(body, i - from);
    }
    i
}

fn push_zeros(out: &mut String, n: i128)
    ensures
        final(out)@ == old(out)@ + zeros(n as int),
{
    let ghost before = out@;
    let mut i: i128 = 0;
    assert(before + zeros(0) =~= before);
    while i < n
        invariant
            0 <= i,
            i == 0 || i <= n,
            out@ == before + zeros(i as int),
        decreases n - i,
    {
        out.push('0');
        i = i + 1;
        assert(out@ =~= before + zeros(i as int));
    }
    if n <= 0 {
        assert(zeros(n as int) =~= zeros(0));
    }
}

/// The digits on both sides of the point, and how many stand before it.
fn split_digits(chars: &Vec<char>, start: usize, end: usize) -> (r: (Vec<char>, usize))
    requires
        start <= end <= chars@.len(),
    ensures
        ({
            let body = chars@.subrange(start as int, end as int);
            let point = point_of(body);
            &&& r.1 == point
            &&& r.1 <= r.0@.len()
            &&& r.0@ == body.take(point) + if point < body.len() {
                body.skip(point + 1)
            } else {
                Seq::empty()
            }
        }),
{
    let ghost body = chars@.subrange(start as int, end as int);
    let point = point_index(chars, start, end);
    let mut digits: Vec<char> = Vec::new();
    for i in start..point
        invariant
            start <= point <= end <= chars@.len(),
            digits@ == chars@.subrange(start as int, i as int),
    {
        digits.push(chars[i]);
        assert(chars@.subrange(start as int, i + 1) =~= chars@.subrange(
            start as int,
            i as int,
        ).push(chars@[i as int]));
    }
    let ghost whole = digits@;
    assert(whole =~= body.take(point - start));
    let from: usize = if point < end {
        point + 1
    } else {
        end
    };
    assert(whole + chars@.subrange(from as int, from as int) =~= whole);
    for i in from..end
        invariant
            from <= end <= chars@.len(),
            digits@ == whole + chars@.subrange(from as int, i as int),
    {
        digits.push(chars[i]);
        assert(whole + chars@.subrange(from as int, i + 1) =~= (whole + chars@.subrange(
            from as int,
            i as int,
        )).push(chars@[i as int]));
    }
    let ghost rest = if point - start < body.len() {
        body.skip(point - start + 1)
    } else {
        Seq::empty()
    };
    assert(rest =~= chars@.subrange(from as int, end as int));
    (digits, point - start)
}

/// A text with its point moved; `chars` up to `end` are the text.
fn move_point(chars: &Vec<char>, end: usize, x: i64) -> (r: Option<String>)
    requires
        end <= chars@.len(),
        -EXPONENT_MAX <= x <= EXPONENT_MAX,
    ensures
        match r {
            Some(t) => digits_of(chars@.take(end as int)).len() > 0 && t@ == moved(
                chars@.take(end as int),
                x as int,
            ),
            None => digits_of(chars@.take(end as int)).len() == 0,
        },
{
    let ghost s = chars@.take(end as int);
    let start: usize = if end > 0 && (chars[0] == '-' || chars[0] == '+') {
        1
    } else {
        0
    };
    let ghost body = unsigned(s);
    assert(body =~= chars@.subrange(start as int, end as int));
    let (digits, point) = split_digits(chars, start, end);
    assert(digits@ == digits_of(s));
    let n: usize = digits.len();
    if n == 0 {
        return None;
    }
    let p: i128 = point as i128 + x as i128;
    let cut: usize = if p < 0 {
        0
    } else if p > n as i128 {
        n
    } else {
        p as usize
    };
    let mut out = String::new();
    if start == 1 {
        out.push(chars[0]);
    }
    let ghost sign = s.take(s.len() - body.len());
    assert(out@ =~= sign);
    let head = string_of(&digits, 0, cut);
    assert(head@ =~= digits@.take(cut as int));
    out.append(head.as_str());
    push_zeros(&mut out, p - n as i128);
    let ghost left = sign + digits@.take(cut as int) + zeros(p - n);
    assert(out@ == left);
    out.push('.');
    assert(out@ =~= left + seq!['.']);
    push_zeros(&mut out, -p);
    let tail = string_of(&digits, cut, n);
    assert(tail@ =~= digits@.skip(cut as int));
    out.append(tail.as_str());
    assert(out@ == left + seq!['.'] + zeros(-p) + digits@.skip(cut as int));
    Some(out)
}

/// Reads a decimal, in plain notation or with a power of ten.
pub fn parse_decimal(s: &str) -> (r: Option<Decimal>)
    ensures
        match decimal_of(s@) {
            Some(d) => r == Some(d as Decimal) && -MONEY_MAX <= d <= MONEY_MAX,
            None => r is None,
        },
{
    let chars = chars_of(s);
    let n: usize = chars.len();
    let k = exponent_index(&chars);
    if k == n {
        return parse_plain(s);
    }
    let power = string_of(&chars, k + 1, n);
    assert(power@ =~= s@.skip(k + 1));
    match parse_i64(power.as_str()) {
        Some(x) => if -EXPONENT_MAX <= x && x <= EXPONENT_MAX {
            match move_point(&chars, k, x) {
                Some(t) => parse_plain(t.as_str()),
                None => None,
            }
        } else {
            None
        },
        None => None,
    }
}

/// A decimal in plain notation, without zeros at the end of its fraction.
pub open spec fn plain_text(d: int) -> Seq<char> {
    let m = if d < 0 {
        -d
    } else {
        d
    };
    let sign = if d < 0 {
        seq!['-']
    } else {
        Seq::empty()
    };
    let f = m % (UNIT as int);
    sign + text::digits(m / (UNIT as int)) + if f == 0 {
        Seq::empty()
    } else {
        seq!['.'] + text::without_trailing(text::digits_wide(f, 6), '0')
    }
}

/// A decimal in plain notation.
pub fn decimal_string(d: Decimal) -> (r: String)
    requires
        -MONEY_MAX <= d <= MONEY_MAX,
    ensures
        r@ == plain_text(d as int),
{
    let mut out = String::new();
    let m: i128 = if d < 0 {
        out.push('-');
        -d
    } else {
        d
    };
    push_digits(&mut out, m / UNIT);
    let f: i128 = m % UNIT;
    if f != 0 {
        out.push('.');
        let tail = text::wide_digits(f, 6);
        let stripped = text::strip_trailing(tail.as_str(), '0');
        out.append(stripped.as_str());
    }
    assert(out@ =~= plain_text(d as int));
    out
}

proof fn lemma_wide_six(f: int)
    requires
        0 <= f < UNIT,
    ensures
        text::digits_wide(f, 6).len() == 6,
        all_digits(text::digits_wide(f, 6)),
        number(text::digits_wide(f, 6)) == f,
{
    reveal_with_fuel(text::digits_wide, 7);
    let s = text::digits_wide(f, 6);
    assert(s =~= seq![
        text::digit(f / 10 / 10 / 10 / 10 / 10 % 10),
        text::digit(f / 10 / 10 / 10 / 10 % 10),
        text::digit(f / 10 / 10 / 10 % 10),
        text::digit(f / 10 / 10 % 10),
        text::digit(f / 10 % 10),
        text::digit(f % 10),
    ]);
    lemma_six(s);
}

proof fn lemma_stripped(s: Seq<char>, c: char)
    ensures
        ({
            let t = text::without_trailing(s, c);
            &&& t.len() <= s.len()
            &&& forall|i: int| 0 <= i < t.len() ==> #[trigger] t[i] == s[i]
            &&& forall|i: int| t.len() <= i < s.len() ==> #[trigger] s[i] == c
        }),
    decreases s.len(),
{
    if s.len() > 0 && s.last() == c {
        lemma_stripped(s.drop_last(), c);
        let t = text::without_trailing(s, c);
        assert forall|i: int| t.len() <= i < s.len() implies #[trigger] s[i] == c by {
            if i < s.len() - 1 {
                assert(s.drop_last()[i] == s[i]);
            }
        }
    }
}

proof fn lemma_no_exponent(s: Seq<char>)
    requires
        forall|i: int| 0 <= i < s.len() ==> #[trigger] s[i] != 'e' && s[i] != 'E',
    ensures
        exponent_at(s) == s.len(),
    decreases s.len(),
{
    if s.len() > 0 {
        let t = s.drop_first();
        assert forall|i: int| 0 <= i < t.len() implies #[trigger] t[i] != 'e' && t[i] != 'E' by {
            assert(t[i] == s[i + 1]);
        }
        lemma_no_exponent(t);
        assert(s[0] != 'e' && s[0] != 'E');
    }
}

/// A written decimal is read back.
pub proof fn written_decimals_are_read_back(d: int)
    requires
        -MONEY_MAX <= d <= MONEY_MAX,
    ensures
        decimal_of(plain_text(d)) == Some(d),
{
    let s = plain_text(d);
    let m = if d < 0 {
        -d
    } else {
        d
    };
    let whole = text::digits(m / (UNIT as int));
    let f = m % (UNIT as int);
    lemma_digits(m / (UNIT as int));
    let wide = text::digits_wide(f, 6);
    lemma_wide_six(f);
    lemma_stripped(wide, '0');
    let tail = text::without_trailing(wide, '0');
    let body = unsigned(s);
    assert(is_digit(whole[0]));
    if d < 0 {
        assert(s[0] == '-');
    } else {
        assert(s[0] == whole[0]);
    }
    let rest = if f == 0 {
        Seq::empty()
    } else {
        seq!['.'] + tail
    };
    assert(body =~= whole + rest);
    assert forall|i: int| 0 <= i < s.len() implies #[trigger] s[i] != 'e' && s[i] != 'E' by {
        let j = i - (s.len() - body.len());
        if j >= 0 {
            assert(s[i] == body[j]);
            if j < whole.len() {
                assert(is_digit(whole[j]));
            } else if j > whole.len() {
                assert(body[j] == tail[j - whole.len() - 1]);
                assert(is_digit(wide[j - whole.len() - 1]));
            }
        }
    }
    lemma_no_exponent(s);
    assert forall|i: int| 0 <= i < whole.len() implies #[trigger] body[i] != '.' by {
        assert(is_digit(whole[i]));
    }
    lemma_point(body, whole.len() as int);
    assert(body.take(whole.len() as int) =~= whole);
    let fraction = if whole.len() < body.len() {
        body.skip(whole.len() as int + 1)
    } else {
        Seq::empty()
    };
    if f == 0 {
        assert(fraction =~= Seq::<char>::empty());
        let six = six_digits(fraction);
        lemma_six(six);
    } else {
        assert(fraction =~= tail);
        assert(six_digits(fraction) =~= wide);
        assert forall|i: int| 0 <= i < tail.len() implies is_digit(#[trigger] tail[i]) by {
            assert(is_digit(wide[i]));
        }
    }
}

} // verus!
