//! Laws of what the model is told: the numbers in words, the signs of gains, and which lines
//! there are.

use vstd::prelude::*;

use crate::account::PositionView;
use crate::context;
use crate::context::{CandidateItemView, MarketEnv, RecentBar, WatchView};
use crate::decimal;
use crate::ledger;
use crate::ledger::LedgerView;
use crate::order;
use crate::order::Fraction;
use crate::risk::MarketView;
use crate::text;

verus! {

/// A quotient in words has the sign of the quotient and the nearest number of its last digit,
/// the even one of two that are equally near.
pub proof fn written_quotients_are_the_nearest(num: int, den: int, places: nat, plus: bool)
    requires
        den > 0,
    ensures
        exists|q: int|
            q >= 0 && text::quotient_text(num, den, places, plus) == text::sign_text(num < 0, plus)
                + #[trigger] text::places_text(q, places) && {
                let exact = decimal::abs(num) * decimal::pow10(places);
                &&& -den <= 2 * (q * den - exact) <= den
                &&& (2 * (q * den - exact) == den || 2 * (exact - q * den) == den) ==> q % 2 == 0
            },
{
    let exact = decimal::abs(num) * decimal::pow10(places);
    lemma_pow10(places);
    assert(exact >= 0) by (nonlinear_arith)
        requires
            exact == decimal::abs(num) * decimal::pow10(places),
            decimal::abs(num) >= 0,
            decimal::pow10(places) >= 0,
    ;
    let q = decimal::div_round_even(exact, den);
    let low = exact / den;
    vstd::arithmetic::div_mod::lemma_fundamental_div_mod(exact, den);
    vstd::arithmetic::div_mod::lemma_mod_bound(exact, den);
    vstd::arithmetic::div_mod::lemma_div_pos_is_pos(exact, den);
    assert(low * den == den * low && (low + 1) * den == den * low + den) by (nonlinear_arith);
    assert(text::quotient_text(num, den, places, plus) == text::sign_text(num < 0, plus)
        + text::places_text(q, places));
}

proof fn lemma_pow10(places: nat)
    ensures
        decimal::pow10(places) > 0,
    decreases places,
{
    if places > 0 {
        lemma_pow10((places - 1) as nat);
    }
}

/// The gain on a position in words begins with a minus exactly where its price is below its
/// cost.
pub proof fn losses_are_told_with_a_minus(price: int, cost: int)
    requires
        price > 0,
        cost > 0,
    ensures
        context::gain_text(price, cost).len() > 0,
        context::gain_text(price, cost)[0] == '-' <==> price < cost,
{
    let t = text::quotient_text((price - cost) * 100, cost, 2, false);
    let q = decimal::div_round_even(
        decimal::abs((price - cost) * 100) * decimal::pow10(2),
        decimal::abs(cost),
    );
    lemma_natural_quotient(decimal::abs((price - cost) * 100), cost, 2);
    lemma_first_digit(q, 2);
    assert(context::gain_text(price, cost)[0] == t[0]);
    if price < cost {
        assert(t[0] == '-');
    } else {
        assert(t =~= text::places_text(q, 2));
    }
}

proof fn lemma_natural_quotient(num: int, den: int, places: nat)
    requires
        num >= 0,
        den > 0,
    ensures
        decimal::div_round_even(num * decimal::pow10(places), den) >= 0,
{
    lemma_pow10(places);
    let exact = num * decimal::pow10(places);
    assert(exact >= 0) by (nonlinear_arith)
        requires
            exact == num * decimal::pow10(places),
            num >= 0,
            decimal::pow10(places) > 0,
    ;
    vstd::arithmetic::div_mod::lemma_div_pos_is_pos(exact, den);
}

proof fn lemma_first_digit(q: int, places: nat)
    requires
        q >= 0,
    ensures
        text::places_text(q, places).len() > 0,
        '0' <= text::places_text(q, places)[0] <= '9',
{
    lemma_pow10(places);
    lemma_digits(q);
    vstd::arithmetic::div_mod::lemma_div_pos_is_pos(q, decimal::pow10(places));
    lemma_digits(q / decimal::pow10(places));
}

proof fn lemma_digits(n: int)
    requires
        n >= 0,
    ensures
        text::digits(n).len() > 0,
        '0' <= text::digits(n)[0] <= '9',
    decreases n,
{
    if n >= 10 {
        lemma_digits(n / 10);
    }
}

/// The change over twenty days in words, behind the four characters that name it, begins with a
/// minus where the last close is below the one twenty-one days before it, and with a plus
/// otherwise.
pub proof fn falls_are_told_with_a_minus(bars: Seq<RecentBar>)
    requires
        bars.len() >= 22,
        bars[bars.len() - 22].close > 0,
    ensures
        context::trend_text(bars).len() > 4,
        context::trend_text(bars)[4] == if bars.last().close < bars[bars.len() - 22].close {
            '-'
        } else {
            '+'
        },
{
    reveal_strlit("近20日");
    let n = bars.len() as int;
    let base = bars[n - 22].close as int;
    let change = text::quotient_text((bars.last().close - base) * 100, base, 1, true);
    assert("近20日"@.len() == 4);
    assert(change.len() > 0);
    assert(change[0] == if bars.last().close < base { '-' } else { '+' });
}

/// The averages and the range that the model is told of are those of the closes, highs and lows
/// of the bars: a further bar adds its close and widens the range where it leaves it.
pub proof fn told_ranges_hold_all_bars(bars: Seq<RecentBar>, b: RecentBar)
    ensures
        context::close_sum(Seq::empty()) == 0,
        context::close_sum(bars.push(b)) == context::close_sum(bars) + b.close,
        bars.len() > 0 ==> {
            &&& context::top_high(bars.push(b)) >= b.high
            &&& context::top_high(bars.push(b)) >= context::top_high(bars)
            &&& context::top_high(bars.push(b)) == b.high || context::top_high(bars.push(b))
                == context::top_high(bars)
            &&& context::bottom_low(bars.push(b)) <= b.low
            &&& context::bottom_low(bars.push(b)) <= context::bottom_low(bars)
            &&& context::bottom_low(bars.push(b)) == b.low || context::bottom_low(bars.push(b))
                == context::bottom_low(bars)
        },
        bars.len() == 0 ==> context::top_high(bars.push(b)) == b.high && context::bottom_low(
            bars.push(b),
        ) == b.low,
{
    assert(bars.push(b).drop_last() =~= bars);
}

/// The model is told of every position, every stock of the watch list, every candidate and the
/// five latest reviews: after six lines on the account and the market there is one line for
/// each, and two of heading above each list but the first; without positions one line says so.
pub proof fn the_model_is_told_of_everything(
    books: LedgerView,
    market: MarketView,
    env: MarketEnv,
    watch: Seq<WatchView>,
    candidates: Seq<CandidateItemView>,
)
    ensures
        ({
            let lines = context::context_lines(books, market, env, watch, candidates);
            let held = if books.positions.len() == 0 {
                1int
            } else {
                books.positions.len() as int
            };
            let watched = if watch.len() == 0 {
                0int
            } else {
                watch.len() as int + 2
            };
            let picked = if candidates.len() == 0 {
                0int
            } else {
                candidates.len() as int + 2
            };
            let reviewed = if books.reviews.len() == 0 {
                0int
            } else if books.reviews.len() < 5 {
                books.reviews.len() as int + 2
            } else {
                7int
            };
            &&& lines.len() == 6 + held + watched + picked + reviewed
            &&& forall|i: int|
                0 <= i < books.positions.len() ==> #[trigger] lines[6 + i]
                    == context::position_line(books.positions[i], market)
            &&& forall|i: int|
                0 <= i < watch.len() ==> #[trigger] lines[6 + held + 2 + i] == context::watch_line(
                    watch[i],
                )
            &&& forall|i: int|
                0 <= i < candidates.len() ==> #[trigger] lines[6 + held + watched + 2 + i]
                    == context::candidate_line(candidates[i])
        }),
{
    let keys = Seq::new(
        books.reviews.len(),
        |i: int| Fraction::whole((-(books.reviews[i].ts_ms as i128)) as i128),
    );
    order::lemma_arranged_in_range(keys, books.reviews.len());
    let latest = ledger::review_rows(ledger::latest_reviews(books.reviews, 5));
    assert(latest.len() == if books.reviews.len() < 5 { books.reviews.len() } else { 5 });
}

/// The line of a position begins with its code.
pub proof fn position_lines_begin_with_the_code(p: PositionView, market: MarketView)
    ensures
        context::position_line(p, market).len() > p.thscode.len(),
        context::position_line(p, market).take(p.thscode.len() as int) == p.thscode,
{
    reveal_strlit(" ");
    assert(context::position_line(p, market).take(p.thscode.len() as int) =~= p.thscode);
}

/// The pieces of a text that is split at a character do not hold it, and joined by it they are
/// the text again.
pub proof fn split_texts_join_again(s: Seq<char>, sep: char)
    ensures
        ({
            let pieces = text::split_at_char(s, sep);
            &&& pieces.len() > 0
            &&& text::joined(pieces, seq![sep]) == s
            &&& forall|i: int| 0 <= i < pieces.len() ==> !(#[trigger] pieces[i]).contains(sep)
        }),
    decreases s.len(),
{
    let pieces = text::split_at_char(s, sep);
    if s.len() == 0 {
        assert(text::joined(pieces, seq![sep]) =~= s);
    } else {
        let short = s.drop_last();
        let c = s.last();
        split_texts_join_again(short, sep);
        let before = text::split_at_char(short, sep);
        let n = before.len() - 1;
        if c == sep {
            assert(pieces.drop_last() =~= before);
            assert(text::joined(pieces, seq![sep]) =~= s);
            assert forall|i: int| 0 <= i < pieces.len() implies !(
            #[trigger] pieces[i]).contains(sep) by {
                if i < before.len() {
                    assert(pieces[i] == before[i]);
                }
            }
        } else {
            assert(pieces.drop_last() =~= before.drop_last());
            if before.len() == 1 {
                assert(text::joined(pieces, seq![sep]) =~= s);
            } else {
                let head = text::joined(before.drop_last(), seq![sep]);
                assert(short == head + seq![sep] + before.last());
                assert(pieces.last() == before.last().push(c));
                assert(text::joined(pieces, seq![sep]) == head + seq![sep] + pieces.last());
                assert(head + seq![sep] + before.last().push(c) =~= (head + seq![sep]
                    + before.last()).push(c));
                assert(short.push(c) =~= s);
            }
            assert forall|i: int| 0 <= i < pieces.len() implies !(
            #[trigger] pieces[i]).contains(sep) by {
                if i < n {
                    assert(pieces[i] == before[i]);
                } else {
                    assert(!before[n].contains(sep));
                    assert(pieces[n] == before[n].push(c));
                    if pieces[n].contains(sep) {
                        let k = choose|k: int| 0 <= k < pieces[n].len() && pieces[n][k] == sep;
                        assert(before[n][k] == sep);
                    }
                }
            }
        }
    }
}

/// A text without the white space around it has none at its ends, and is a part of the text.
pub proof fn trimmed_texts_have_no_blanks_around_them(s: Seq<char>)
    ensures
        ({
            let t = text::trimmed(s);
            &&& t.len() > 0 ==> !text::is_white(t[0]) && !text::is_white(t.last())
            &&& exists|i: int|
                0 <= i <= s.len() - t.len() && t == #[trigger] s.subrange(i, i + t.len())
        }),
{
    let u = text::trimmed_start(s);
    lemma_start(s);
    lemma_end(u);
    let t = text::trimmed(s);
    let i = s.len() - u.len();
    assert(s.subrange(i, i + t.len()) =~= t);
}

proof fn lemma_start(s: Seq<char>)
    ensures
        ({
            let u = text::trimmed_start(s);
            &&& u.len() <= s.len()
            &&& u == s.skip(s.len() - u.len())
            &&& u.len() > 0 ==> !text::is_white(u[0])
        }),
    decreases s.len(),
{
    if s.len() > 0 && text::is_white(s[0]) {
        lemma_start(s.drop_first());
        let u = text::trimmed_start(s);
        assert(u =~= s.skip(s.len() - u.len()));
    } else {
        assert(s.skip(0) =~= s);
    }
}

proof fn lemma_end(s: Seq<char>)
    ensures
        ({
            let t = text::trimmed_end(s);
            &&& t.len() <= s.len()
            &&& t == s.take(t.len() as int)
            &&& t.len() > 0 ==> !text::is_white(t.last())
        }),
    decreases s.len(),
{
    if s.len() > 0 && text::is_white(s.last()) {
        lemma_end(s.drop_last());
        let t = text::trimmed_end(s);
        assert(t =~= s.take(t.len() as int));
    } else {
        assert(s.take(s.len() as int) =~= s);
    }
}

/// The average over the last days is that of as many bars as asked for, or of all, up to the
/// last one.
pub proof fn the_last_bars_are_averaged(bars: Seq<RecentBar>, n: int)
    requires
        n >= 0,
    ensures
        ({
            let last = context::last_bars(bars, n);
            &&& last.len() == if n < bars.len() { n } else { bars.len() as int }
            &&& forall|i: int|
                0 <= i < last.len() ==> #[trigger] last[i] == bars[bars.len() - last.len() + i]
        }),
{
}

} // verus!
