//! Laws of the exchange: price limits, fees, sessions, lots, boards and codes, in numbers.

use vstd::prelude::*;

use crate::decimal;
use crate::decimal::{Decimal, CENT};
use crate::number;
use crate::rules;
use crate::text;

verus! {

/// Whether `c` is `num / den` in whole cents, half a cent rounded up.
pub open spec fn in_cents(c: int, num: int, den: int) -> bool {
    &&& c % 10_000 == 0
    &&& 2 * (c * den - num) <= den * 10_000
    &&& 2 * (num - c * den) < den * 10_000
}

/// Rounding to cents gives the nearest whole number of cents, the higher one of two that are
/// equally near.
pub proof fn cents_are_the_nearest(num: int, den: int)
    requires
        num >= 0,
        den > 0,
    ensures
        in_cents(rules::to_cents(num, den), num, den),
{
    let d = den * CENT;
    let q = decimal::div_round(num, d);
    assert(d > 0) by (nonlinear_arith)
        requires
            den > 0,
            d == den * CENT,
    ;
    vstd::arithmetic::div_mod::lemma_fundamental_div_mod(2 * num + d, 2 * d);
    vstd::arithmetic::div_mod::lemma_mod_bound(2 * num + d, 2 * d);
    assert((2 * d) * q == 2 * ((q * CENT) * den)) by (nonlinear_arith)
        requires
            d == den * CENT,
    ;
    assert((q * CENT) % 10_000 == 0);
}

/// No two numbers of cents are nearest to the same value: what is rounded is determined.
pub proof fn nearest_cents_are_unique(a: int, b: int, num: int, den: int)
    requires
        den > 0,
        in_cents(a, num, den),
        in_cents(b, num, den),
    ensures
        a == b,
{
    assert((a - b) * den < 10_000 * den && (b - a) * den < 10_000 * den) by (nonlinear_arith)
        requires
            2 * (a * den - num) <= den * 10_000,
            2 * (num - b * den) < den * 10_000,
            2 * (b * den - num) <= den * 10_000,
            2 * (num - a * den) < den * 10_000,
    ;
    assert(-10_000 < a - b < 10_000) by (nonlinear_arith)
        requires
            (a - b) * den < 10_000 * den,
            (b - a) * den < 10_000 * den,
            den > 0,
    ;
}

/// How far the price of a stock may move in a day, in percent: 20 on the STAR market and
/// ChiNext, 30 on the Beijing exchange, 5 under special treatment, and 10 elsewhere.
pub open spec fn percent_limit(code: Seq<char>, name: Seq<char>) -> int {
    if is_star(code) || is_chinext(code) {
        20
    } else if is_beijing(code) {
        30
    } else if exists|i: int| 0 <= i < name.len() - 1 && name[i] == 'S' && #[trigger] name[i + 1] == 'T' {
        5
    } else {
        10
    }
}

pub open spec fn is_star(code: Seq<char>) -> bool {
    code.len() >= 3 && code[0] == '6' && code[1] == '8' && (code[2] == '8' || code[2] == '9')
}

pub open spec fn is_chinext(code: Seq<char>) -> bool {
    code.len() >= 3 && code[0] == '3' && code[1] == '0' && (code[2] == '0' || code[2] == '1'
        || code[2] == '2')
}

pub open spec fn is_beijing(code: Seq<char>) -> bool {
    ||| code.len() >= 2 && code[0] == '4' && code[1] == '3'
    ||| code.len() >= 2 && code[0] == '8' && (code[1] == '3' || code[1] == '7' || code[1] == '8')
    ||| code.len() >= 3 && code[0] == '9' && code[1] == '2' && code[2] == '0'
}

/// The boards go by the first digits of the code.
pub proof fn boards_go_by_the_first_digits(code: Seq<char>)
    ensures
        rules::on_star_board(code) == is_star(code),
        rules::on_gem_board(code) == is_chinext(code),
        rules::on_bj_board(code) == is_beijing(code),
{
    reveal_strlit("688");
    reveal_strlit("689");
    reveal_strlit("300");
    reveal_strlit("301");
    reveal_strlit("302");
    reveal_strlit("43");
    reveal_strlit("83");
    reveal_strlit("87");
    reveal_strlit("88");
    reveal_strlit("920");
    lemma_prefix3("688"@, code);
    lemma_prefix3("689"@, code);
    lemma_prefix3("300"@, code);
    lemma_prefix3("301"@, code);
    lemma_prefix3("302"@, code);
    lemma_prefix2("43"@, code);
    lemma_prefix2("83"@, code);
    lemma_prefix2("87"@, code);
    lemma_prefix2("88"@, code);
    lemma_prefix3("920"@, code);
}

proof fn lemma_prefix2(part: Seq<char>, s: Seq<char>)
    requires
        part.len() == 2,
    ensures
        part.is_prefix_of(s) <==> s.len() >= 2 && s[0] == part[0] && s[1] == part[1],
{
    if s.len() >= 2 && s[0] == part[0] && s[1] == part[1] {
        assert(part =~= s.subrange(0, 2));
    }
}

proof fn lemma_prefix3(part: Seq<char>, s: Seq<char>)
    requires
        part.len() == 3,
    ensures
        part.is_prefix_of(s) <==> s.len() >= 3 && s[0] == part[0] && s[1] == part[1] && s[2]
            == part[2],
{
    if s.len() >= 3 && s[0] == part[0] && s[1] == part[1] && s[2] == part[2] {
        assert(part =~= s.subrange(0, 3));
    }
}

/// The price limits of a day are the close of the day before plus and minus the percentage of
/// the stock, in the nearest whole cents.
pub proof fn limits_are_a_percentage_of_the_close(prev_close: int, code: Seq<char>, name: Seq<char>)
    requires
        prev_close >= 0,
    ensures
        ({
            let percent = percent_limit(code, name);
            &&& in_cents(rules::limit_up(prev_close, code, name), prev_close * (100 + percent), 100)
            &&& in_cents(
                rules::limit_down(prev_close, code, name),
                prev_close * (100 - percent),
                100,
            )
        }),
{
    boards_go_by_the_first_digits(code);
    reveal_strlit("ST");
    let special = exists|i: int|
        0 <= i < name.len() - 1 && name[i] == 'S' && #[trigger] name[i + 1] == 'T';
    assert(special == text::contains_part(name, "ST"@)) by {
        if special {
            let i = choose|i: int|
                0 <= i < name.len() - 1 && name[i] == 'S' && #[trigger] name[i + 1] == 'T';
            assert(name.subrange(i, i + 2) =~= "ST"@);
            assert(text::occurs_at(name, "ST"@, i));
        }
        if text::contains_part(name, "ST"@) {
            let i = choose|i: int| #[trigger] text::occurs_at(name, "ST"@, i);
            assert(name.subrange(i, i + 2)[0] == name[i]);
            assert(name.subrange(i, i + 2)[1] == name[i + 1]);
        }
    }
    let percent = percent_limit(code, name);
    let l = rules::price_limit(code, name);
    assert(l == percent * 10_000);
    let up = prev_close * (1_000_000 + l);
    let down = prev_close * (1_000_000 - l);
    assert(up == prev_close * (100 + percent) * 10_000) by (nonlinear_arith)
        requires
            up == prev_close * (1_000_000 + l),
            l == percent * 10_000,
    ;
    assert(down == prev_close * (100 - percent) * 10_000) by (nonlinear_arith)
        requires
            down == prev_close * (1_000_000 - l),
            l == percent * 10_000,
    ;
    assert(up >= 0 && down >= 0) by (nonlinear_arith)
        requires
            prev_close >= 0,
            5 <= percent <= 30,
            up == prev_close * (100 + percent) * 10_000,
            down == prev_close * (100 - percent) * 10_000,
    ;
    cents_are_the_nearest(up, 1_000_000);
    cents_are_the_nearest(down, 1_000_000);
}

/// The fee of a trade in the nearest cents: 0.025% of the amount but 5 yuan at least, 0.001%
/// of the amount, and 0.05% of it on a sale.
pub proof fn fees_are_shares_of_the_amount(amount: int, selling: bool)
    requires
        amount >= 0,
    ensures
        ({
            let commission = if amount * 25 > 500_000_000_000 {
                amount * 25
            } else {
                500_000_000_000
            };
            let stamp = if selling {
                amount * 50
            } else {
                0
            };
            in_cents(rules::trade_fee(amount, selling), commission + stamp + amount, 100_000)
        }),
{
    let exact = decimal::max(amount * 250, 5_000_000_000_000) + (if selling {
        amount * 500
    } else {
        0
    }) + amount * 10;
    cents_are_the_nearest(exact, 1_000_000);
}

/// Trading is on from 9:30 to 11:30 and from 13:00 to 15:00, from Monday to Friday.
pub proof fn sessions_are_on_workdays(weekday_iso: u32, hour: u32, minute: u32)
    requires
        1 <= weekday_iso <= 7,
        hour < 24,
        minute < 60,
    ensures
        rules::in_session(weekday_iso, (hour * 60 + minute) as u32) <==> {
            &&& weekday_iso <= 5
            &&& (hour == 9 && minute >= 30) || hour == 10 || (hour == 11 && minute < 30) || hour
                == 13 || hour == 14
        },
{
}

/// Lots: a purchase on the STAR market takes 200 shares or more and elsewhere a multiple of
/// 100; a sale takes the same or the whole holding.
pub proof fn orders_are_in_lots(code: Seq<char>, quantity: u32, holding: u32)
    ensures
        rules::buy_quantity_ok(code, quantity) <==> if is_star(code) {
            quantity >= 200
        } else {
            quantity > 0 && quantity % 100 == 0
        },
        rules::sell_quantity_ok(code, quantity, holding) <==> {
            &&& 0 < quantity <= holding
            &&& quantity == holding || (if is_star(code) {
                quantity >= 200
            } else {
                quantity % 100 == 0
            })
        },
{
    boards_go_by_the_first_digits(code);
}

/// The STAR market and the Beijing exchange take an initial capital of 500,000 yuan, ChiNext
/// one of 100,000, and the main board none.
pub proof fn boards_take_capital(initial_capital: Decimal, code: Seq<char>)
    ensures
        rules::may_trade(initial_capital, code) <==> {
            &&& is_star(code) || is_beijing(code) ==> initial_capital >= 500_000 * 1_000_000
            &&& is_chinext(code) ==> initial_capital >= 100_000 * 1_000_000
        },
{
    boards_go_by_the_first_digits(code);
}

/// A bare code of six digits gets the exchange that its first digits belong to; any other
/// code stays.
pub proof fn codes_get_their_exchange(s: Seq<char>)
    ensures
        ({
            let bare = s.len() == 6 && forall|i: int|
                0 <= i < 6 ==> '0' <= #[trigger] s[i] <= '9';
            let full = rules::with_exchange(s);
            &&& !bare ==> full == s
            &&& bare ==> full.len() == 9 && full.take(6) == s && full[6] == '.'
            &&& bare ==> {
                let shanghai = s[0] == '9' || s[0] == '6' && (s[1] == '0' || s[1] == '8');
                let beijing = s[0] == '4' || s[0] == '8';
                &&& shanghai ==> full[7] == 'S' && full[8] == 'H'
                &&& beijing ==> full[7] == 'B' && full[8] == 'J'
                &&& !shanghai && !beijing ==> full[7] == 'S' && full[8] == 'Z'
            }
        }),
{
    reveal_strlit(".SH");
    reveal_strlit(".BJ");
    reveal_strlit(".SZ");
    reveal_strlit("60");
    reveal_strlit("68");
    reveal_strlit("9");
    reveal_strlit("4");
    reveal_strlit("8");
    let bare = s.len() == 6 && forall|i: int| 0 <= i < 6 ==> '0' <= #[trigger] s[i] <= '9';
    if bare {
        assert forall|i: int| 0 <= i < s.len() implies number::is_digit(#[trigger] s[i]) by {
            assert('0' <= s[i] <= '9');
        }
        assert(!s.contains('.'));
        lemma_prefix2("60"@, s);
        lemma_prefix2("68"@, s);
        lemma_prefix1("9"@, s);
        lemma_prefix1("4"@, s);
        lemma_prefix1("8"@, s);
        assert(rules::with_exchange(s).take(6) =~= s);
    } else if s.len() == 6 && number::all_digits(s) {
        assert forall|i: int| 0 <= i < 6 implies '0' <= #[trigger] s[i] <= '9' by {
            assert(number::is_digit(s[i]));
        }
    }
}

proof fn lemma_prefix1(part: Seq<char>, s: Seq<char>)
    requires
        part.len() == 1,
    ensures
        part.is_prefix_of(s) <==> s.len() >= 1 && s[0] == part[0],
{
    if s.len() >= 1 && s[0] == part[0] {
        assert(part =~= s.subrange(0, 1));
    }
}

} // verus!
