//! Laws of corporate actions: what a dividend pays, what bonus shares do to a holding, and
//! which actions are applied.

use vstd::prelude::*;

use crate::adjustment;
use crate::adjustment::{AdjustmentEvent, StockEventsView};
use crate::decimal;
use crate::decimal::UNIT;
use crate::laws::books;
use crate::laws::exchange;
use crate::ledger;
use crate::ledger::LedgerView;
use crate::rules;
use crate::sim::CASH_MAX;

verus! {

/// Whether trade `t` is the first purchase of a stock on record.
pub open spec fn first_bought(books: LedgerView, code: Seq<char>, t: int) -> bool {
    &&& 0 <= t < books.trades.len()
    &&& books::buys(books.trades[t], code)
    &&& forall|j: int|
        0 <= j < books.trades.len() && books::buys(#[trigger] books.trades[j], code)
            ==> books.trades[t].ts_ms <= books.trades[j].ts_ms
}

/// Whether nothing of a stock was bought on record.
pub open spec fn never_bought(books: LedgerView, code: Seq<char>) -> bool {
    forall|j: int| 0 <= j < books.trades.len() ==> !books::buys(#[trigger] books.trades[j], code)
}

/// How much of a dividend is paid out, in percent, on a stock bought at `bought_ms`: all of it
/// where the purchase is 365 days or more before the ex-date, 90 where it is 30 days or more,
/// and 80 otherwise.
pub open spec fn paid_percent(bought_ms: i64, ex_date_ms: i64) -> int {
    if bought_ms + 365 * 86_400_000 <= ex_date_ms {
        100
    } else if bought_ms + 30 * 86_400_000 <= ex_date_ms {
        90
    } else {
        80
    }
}

/// A due dividend on a stock that is held adds the dividend on the shares to the cash, in
/// whole cents: all of it, 90% or 80% by the time from the first purchase on record to the
/// ex-date, and 80% where no purchase is on record. The shares are those after the bonus
/// shares of the same action.
pub proof fn dividends_are_taxed_by_the_time_held(
    books: LedgerView,
    code: Seq<char>,
    e: AdjustmentEvent,
    now_ms: i64,
    t: int,
)
    requires
        ledger::ascending(books.positions),
        ledger::held(books.positions, code) is Some,
        books.account matches Some(a) && -CASH_MAX <= a.cash <= CASH_MAX,
        e.ok(),
        e.dividend > 0,
        first_bought(books, code, t) || never_bought(books, code),
    ensures
        ({
            let after = adjustment::with_event(books, code, e, now_ms);
            let shares = ledger::held(after.positions, code)->0.quantity;
            let percent = if first_bought(books, code, t) {
                paid_percent(books.trades[t].ts_ms, e.ex_date_ms)
            } else {
                80
            };
            &&& ledger::held(after.positions, code) is Some
            &&& after.account is Some
            &&& exchange::in_cents(
                after.account->0.cash - books.account->0.cash,
                e.dividend * shares * percent,
                100,
            )
        }),
{
    let p = ledger::held(books.positions, code)->0;
    let after = adjustment::with_event(books, code, e, now_ms);
    ledger::positions_are_found(books.positions, code);
    let q = adjustment::position_after(p, e.bonus as int);
    ledger::written_positions_are_read_back(books.positions, q, code);
    lemma_shares(p.quantity, e.bonus as int);
    let shares = ledger::held(after.positions, code)->0.quantity;
    assert(shares == adjustment::quantity_after(p.quantity, e.bonus as int));
    books::first_purchases_are_the_earliest(books.trades, code);
    let percent = if first_bought(books, code, t) {
        paid_percent(books.trades[t].ts_ms, e.ex_date_ms)
    } else {
        80
    };
    let held_ms = adjustment::held_for(books, code, e.ex_date_ms);
    let gross = e.dividend * shares;
    assert(UNIT - adjustment::tax_rate(held_ms) == percent * 10_000);
    assert(0 <= gross <= decimal::PRICE_MAX * u32::MAX) by (nonlinear_arith)
        requires
            0 <= e.dividend <= decimal::PRICE_MAX,
            0 <= shares <= u32::MAX,
            gross == e.dividend * shares,
    ;
    assert(gross * (UNIT - adjustment::tax_rate(held_ms)) == gross * percent * 10_000)
        by (nonlinear_arith)
        requires
            UNIT - adjustment::tax_rate(held_ms) == percent * 10_000,
    ;
    assert(0 <= gross * percent <= gross * 100) by (nonlinear_arith)
        requires
            0 <= gross,
            0 <= percent <= 100,
    ;
    let net = rules::to_cents(gross * percent * 10_000, UNIT as int);
    assert(adjustment::net_dividend(e.dividend as int, shares as int, held_ms) == net);
    exchange::cents_are_the_nearest(gross * percent * 10_000, UNIT as int);
    assert(exchange::in_cents(net, gross * percent, 100));
    assert(0 <= net <= 2 * decimal::PRICE_MAX * u32::MAX);
}

proof fn lemma_shares(quantity: u32, bonus: int)
    ensures
        0 <= adjustment::quantity_after(quantity, bonus) <= u32::MAX,
{
    if bonus > 0 {
        let n = quantity * (UNIT + bonus);
        assert(n >= 0) by (nonlinear_arith)
            requires
                n == quantity * (UNIT + bonus),
                quantity >= 0,
                bonus > 0,
                UNIT > 0,
        ;
    }
}

/// Bonus shares multiply the holding by one plus their ratio, in the nearest whole shares, and
/// divide its cost by the same, to the nearest thousandth; the holding stays otherwise, and so
/// do the other holdings.
pub proof fn bonus_shares_split_the_holding(
    books: LedgerView,
    code: Seq<char>,
    e: AdjustmentEvent,
    now_ms: i64,
    other: Seq<char>,
)
    requires
        ledger::ascending(books.positions),
        ledger::held(books.positions, code) is Some,
        0 < e.bonus <= decimal::PRICE_MAX,
        0 <= ledger::held(books.positions, code)->0.avg_cost <= decimal::PRICE_MAX,
        2 * ledger::held(books.positions, code)->0.quantity * (UNIT + e.bonus) < 2 * u32::MAX * UNIT,
        ledger::held(books.positions, code)->0.avg_cost * e.bonus * 1000 > UNIT + e.bonus,
    ensures
        ({
            let p = ledger::held(books.positions, code)->0;
            let after = adjustment::with_event(books, code, e, now_ms);
            let q = ledger::held(after.positions, code)->0;
            let factor = UNIT + e.bonus;
            &&& ledger::held(after.positions, code) is Some
            &&& -UNIT < 2 * (q.quantity * UNIT - p.quantity * factor) <= UNIT
            &&& q.avg_cost % 1000 == 0
            &&& -(factor * 1000) < 2 * (q.avg_cost * factor - p.avg_cost * UNIT) <= factor * 1000
            &&& q.name == p.name
            &&& other != code ==> ledger::held(after.positions, other) == ledger::held(
                books.positions,
                other,
            )
        }),
{
    let p = ledger::held(books.positions, code)->0;
    let bonus = e.bonus as int;
    let factor = UNIT + bonus;
    ledger::positions_are_found(books.positions, code);
    let q = adjustment::position_after(p, bonus);
    ledger::written_positions_are_read_back(books.positions, q, other);
    let n = p.quantity * factor;
    assert(n >= 0) by (nonlinear_arith)
        requires
            n == p.quantity * factor,
            p.quantity >= 0,
            factor > 0,
    ;
    lemma_half_up(n, UNIT as int);
    let whole = decimal::div_round(n, UNIT as int);
    assert(2 * n == 2 * p.quantity * factor) by (nonlinear_arith)
        requires
            n == p.quantity * factor,
    ;
    assert(whole <= u32::MAX);
    let d = factor * 1000;
    let m = p.avg_cost * UNIT;
    lemma_half_up(m, d);
    let cost = decimal::div_round(m, d);
    assert(cost * d == (cost * 1000) * factor) by (nonlinear_arith)
        requires
            d == factor * 1000,
    ;
    assert(0 <= cost * 1000 <= m + 1000) by (nonlinear_arith)
        requires
            cost >= 0,
            2 * (cost * d - m) <= d,
            m >= 0,
            d >= 1000,
    ;
    assert((cost * 1000) % 1000 == 0);
    assert(p.avg_cost * bonus >= 0) by (nonlinear_arith)
        requires
            p.avg_cost >= 0,
            bonus > 0,
    ;
    assert(adjustment::is_changed(p, bonus));
}

proof fn lemma_half_up(n: int, d: int)
    requires
        n >= 0,
        d > 0,
    ensures
        -d < 2 * (decimal::div_round(n, d) * d - n) <= d,
        decimal::div_round(n, d) >= 0,
{
    let q = decimal::div_round(n, d);
    vstd::arithmetic::div_mod::lemma_fundamental_div_mod(2 * n + d, 2 * d);
    vstd::arithmetic::div_mod::lemma_mod_bound(2 * n + d, 2 * d);
    vstd::arithmetic::div_mod::lemma_div_pos_is_pos(2 * n + d, 2 * d);
    assert((2 * d) * q == 2 * (q * d)) by (nonlinear_arith);
}

/// An action is applied exactly where its ex-date has come and it has not been applied; it is
/// then marked, and counted. One that is not due leaves the books as they are.
pub proof fn due_actions_are_applied(
    books: LedgerView,
    code: Seq<char>,
    events: Seq<AdjustmentEvent>,
    e: AdjustmentEvent,
    today_ms: i64,
    now_ms: i64,
)
    ensures
        ({
            let (before, n) = adjustment::after_events(books, code, events, today_ms, now_ms);
            let (after, m) = adjustment::after_events(
                books,
                code,
                events.push(e),
                today_ms,
                now_ms,
            );
            if e.ex_date_ms <= today_ms && !before.processed.dom().contains((code, e.ex_date_ms)) {
                &&& m == n + 1
                &&& after.processed == before.processed.insert((code, e.ex_date_ms), now_ms)
                &&& after == adjustment::with_event(before, code, e, now_ms)
            } else {
                m == n && after == before
            }
        }),
{
    assert(events.push(e).drop_last() =~= events);
}

/// An action without a dividend pays nothing, and one without bonus shares leaves the holdings
/// as they are; no action adds a trade.
pub proof fn empty_actions_change_nothing(
    books: LedgerView,
    code: Seq<char>,
    e: AdjustmentEvent,
    now_ms: i64,
)
    ensures
        ({
            let after = adjustment::with_event(books, code, e, now_ms);
            &&& e.dividend <= 0 ==> after.account == books.account
            &&& e.bonus <= 0 ==> after.positions == books.positions
            &&& after.trades == books.trades
        }),
{
}

/// A run over all holdings pays a due dividend on the one stock that has an action, by the
/// same percentages.
pub proof fn a_run_pays_the_dividend(
    books: LedgerView,
    list: Seq<StockEventsView>,
    i: int,
    e: AdjustmentEvent,
    today_ms: i64,
    now_ms: i64,
    t: int,
)
    requires
        ledger::ascending(books.positions),
        0 <= i < books.positions.len(),
        adjustment::events_of(list, books.positions[i].thscode) == seq![e],
        forall|j: int|
            0 <= j < books.positions.len() && j != i ==> adjustment::events_of(
                list,
                (#[trigger] books.positions[j]).thscode,
            ).len() == 0,
        books.account matches Some(a) && -CASH_MAX <= a.cash <= CASH_MAX,
        e.ok(),
        e.dividend > 0,
        e.bonus <= 0,
        e.ex_date_ms <= today_ms,
        !books.processed.dom().contains((books.positions[i].thscode, e.ex_date_ms)),
        first_bought(books, books.positions[i].thscode, t) || never_bought(
            books,
            books.positions[i].thscode,
        ),
    ensures
        ({
            let p = books.positions[i];
            let (after, n) = adjustment::after_adjustments(
                books,
                books.positions,
                list,
                today_ms,
                now_ms,
            );
            let percent = if first_bought(books, p.thscode, t) {
                paid_percent(books.trades[t].ts_ms, e.ex_date_ms)
            } else {
                80
            };
            &&& n == 1
            &&& after.positions == books.positions
            &&& after.account is Some
            &&& exchange::in_cents(
                after.account->0.cash - books.account->0.cash,
                e.dividend * p.quantity * percent,
                100,
            )
        }),
{
    let ps = books.positions;
    let code = ps[i].thscode;
    ledger::positions_are_found(ps, code);
    dividends_are_taxed_by_the_time_held(books, code, e, now_ms, t);
    due_actions_are_applied(books, code, Seq::empty(), e, today_ms, now_ms);
    assert(Seq::<AdjustmentEvent>::empty().push(e) =~= seq![e]);
    lemma_run(books, list, i, today_ms, now_ms, ps.len() as int);
    assert(ps.take(ps.len() as int) =~= ps);
}

proof fn lemma_run(
    books: LedgerView,
    list: Seq<StockEventsView>,
    i: int,
    today_ms: i64,
    now_ms: i64,
    n: int,
)
    requires
        0 <= n <= books.positions.len(),
        0 <= i < books.positions.len(),
        forall|j: int|
            0 <= j < books.positions.len() && j != i ==> adjustment::events_of(
                list,
                (#[trigger] books.positions[j]).thscode,
            ).len() == 0,
    ensures
        adjustment::after_adjustments(books, books.positions.take(n), list, today_ms, now_ms)
            == if n <= i {
            (books, 0int)
        } else {
            let code = books.positions[i].thscode;
            adjustment::after_events(
                books,
                code,
                adjustment::events_of(list, code),
                today_ms,
                now_ms,
            )
        },
    decreases n,
{
    if n > 0 {
        lemma_run(books, list, i, today_ms, now_ms, n - 1);
        assert(books.positions.take(n).drop_last() =~= books.positions.take(n - 1));
        assert(books.positions.take(n).last() == books.positions[n - 1]);
    }
}

/// The actions of a stock are those of the first entry with its code.
pub proof fn actions_are_found(list: Seq<StockEventsView>, code: Seq<char>, k: int)
    requires
        0 <= k < list.len(),
        list[k].thscode == code,
        forall|j: int| 0 <= j < k ==> (#[trigger] list[j]).thscode != code,
    ensures
        adjustment::events_of(list, code) == list[k].events,
    decreases list.len(),
{
    if k > 0 {
        let rest = list.drop_first();
        assert(list[0].thscode != code);
        assert forall|j: int| 0 <= j < k - 1 implies (#[trigger] rest[j]).thscode != code by {
            assert(rest[j] == list[j + 1]);
        }
        actions_are_found(rest, code, k - 1);
    }
}

/// Bonus shares that leave the number of shares as it is, and would move the cost by no more than
/// a thousand-millionth, leave the holding as it is.
pub proof fn tiny_bonuses_leave_the_holding(
    books: LedgerView,
    code: Seq<char>,
    e: AdjustmentEvent,
    now_ms: i64,
)
    requires
        ledger::held(books.positions, code) is Some,
        e.bonus > 0,
        2 * ledger::held(books.positions, code)->0.quantity * e.bonus < UNIT,
        0 <= ledger::held(books.positions, code)->0.avg_cost,
        ledger::held(books.positions, code)->0.avg_cost * e.bonus * 1000 <= UNIT + e.bonus,
    ensures
        adjustment::with_event(books, code, e, now_ms).positions == books.positions,
{
    let p = ledger::held(books.positions, code)->0;
    let n = p.quantity * (UNIT + e.bonus);
    assert(n == p.quantity * UNIT + p.quantity * e.bonus && n >= 0 && p.quantity * e.bonus >= 0)
        by (nonlinear_arith)
        requires
            n == p.quantity * (UNIT + e.bonus),
            p.quantity >= 0,
            e.bonus > 0,
            UNIT > 0,
    ;
    assert(2 * p.quantity * e.bonus == 2 * (p.quantity * e.bonus)) by (nonlinear_arith);
    lemma_half_up(n, UNIT as int);
    assert(p.avg_cost * e.bonus >= 0) by (nonlinear_arith)
        requires
            p.avg_cost >= 0,
            e.bonus > 0,
    ;
}

} // verus!
