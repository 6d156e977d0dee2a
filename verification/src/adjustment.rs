//! Corporate actions on the positions: bonus shares and cash dividends.
//!
//! - Bonus shares raise the quantity and lower the cost in the same ratio.
//! - Dividends are paid into cash, less a tax that depends on how long the stock was held:
//!   20% under a month, 10% under a year, none from then on.
//! - Rights issues are passed over.

use vstd::prelude::*;

use crate::account;
use crate::account::{Position, PositionView};
use crate::decimal;
use crate::decimal::{decimal_min, is_price, rounded_div, Decimal, MONEY_MAX, PRICE_MAX, UNIT};
use crate::ledger;
use crate::ledger::{AccountDb, LedgerView, MAX_ROWS};
use crate::rules;
use crate::rules::round_to_cents;
use crate::sim::CASH_MAX;
use crate::text::text_eq;

verus! {

/// A corporate action, per share.
#[derive(Debug, Clone, Copy, PartialEq, Eq, Structural)]
pub struct AdjustmentEvent {
    pub ex_date_ms: i64,
    /// Cash dividend.
    pub dividend: Decimal,
    /// Bonus shares.
    pub bonus: Decimal,
    /// Rights.
    pub allot_ratio: Option<Decimal>,
}

impl AdjustmentEvent {
    pub open spec fn ok(self) -> bool {
        decimal::price_ok(self.dividend as int) && decimal::price_ok(self.bonus as int)
    }
}

/// The corporate actions of a stock, by date.
#[derive(Debug)]
pub struct StockEvents {
    pub thscode: String,
    pub events: Vec<AdjustmentEvent>,
}

#[verifier::ext_equal]
pub struct StockEventsView {
    pub thscode: Seq<char>,
    pub events: Seq<AdjustmentEvent>,
}

impl View for StockEvents {
    type V = StockEventsView;

    open spec fn view(&self) -> StockEventsView {
        StockEventsView { thscode: self.thscode@, events: self.events@ }
    }
}

pub open spec fn event_views(list: Seq<StockEvents>) -> Seq<StockEventsView> {
    Seq::new(list.len(), |i: int| list[i]@)
}

/// The corporate actions of a stock; those of the first entry where there are several.
pub open spec fn events_of(list: Seq<StockEventsView>, code: Seq<char>) -> Seq<AdjustmentEvent>
    decreases list.len(),
{
    if list.len() == 0 {
        Seq::empty()
    } else if list[0].thscode == code {
        list[0].events
    } else {
        events_of(list.drop_first(), code)
    }
}

/// A month of 30 days and a year of 365 days, in milliseconds.
pub const MONTH_MS: i64 = 2_592_000_000;

pub const YEAR_MS: i64 = 31_536_000_000;

/// The tax on a dividend after holding for some time.
pub open spec fn tax_rate(hold_ms: int) -> int {
    if hold_ms >= YEAR_MS {
        0
    } else if hold_ms >= MONTH_MS {
        100_000
    } else {
        200_000
    }
}

/// The tax on a dividend after holding for some time.
pub fn dividend_tax_rate(hold_ms: i64) -> (r: Decimal)
    ensures
        r == tax_rate(hold_ms as int),
{
    tax_after(hold_ms as i128)
}

fn tax_after(hold_ms: i128) -> (r: Decimal)
    ensures
        r == tax_rate(hold_ms as int),
{
    if hold_ms >= YEAR_MS as i128 {
        0
    } else if hold_ms >= MONTH_MS as i128 {
        100_000
    } else {
        200_000
    }
}

/// Holding longer is taxed no higher.
pub proof fn longer_holding_is_taxed_less(a: int, b: int)
    requires
        a <= b,
    ensures
        tax_rate(b) <= tax_rate(a),
{
}

/// The quantity after bonus shares, in whole shares.
pub open spec fn quantity_after(quantity: u32, bonus: int) -> int {
    if bonus > 0 {
        decimal::min(decimal::div_round(quantity * (UNIT + bonus), UNIT as int), u32::MAX as int)
    } else {
        quantity as int
    }
}

/// The cost after bonus shares, to three digits.
pub open spec fn cost_after(avg_cost: int, bonus: int) -> int {
    decimal::div_round(avg_cost * UNIT, (UNIT + bonus) * 1000) * 1000
}

/// Whether bonus shares change a position by more than a thousand-millionth.
pub open spec fn is_changed(p: PositionView, bonus: int) -> bool {
    quantity_after(p.quantity, bonus) != p.quantity || (bonus > 0 && decimal::abs(
        p.avg_cost * bonus,
    ) * 1000 > UNIT + bonus)
}

/// How long a stock has been held at an ex-date: since it was first bought.
pub open spec fn held_for(books: LedgerView, code: Seq<char>, ex_date_ms: i64) -> int {
    match ledger::first_buy(books.trades, code) {
        Some(bought) => ex_date_ms - bought,
        None => 0,
    }
}

/// The dividend on a position after tax, in whole cents.
pub open spec fn net_dividend(dividend: int, quantity: int, hold_ms: int) -> int {
    rules::to_cents(dividend * quantity * (UNIT - tax_rate(hold_ms)), UNIT as int)
}

/// Whether a corporate action is due: its date has come, and it has not been applied.
pub open spec fn is_due(books: LedgerView, code: Seq<char>, e: AdjustmentEvent, today_ms: i64) -> bool {
    e.ex_date_ms <= today_ms && !books.is_processed(code, e.ex_date_ms)
}

/// A position after bonus shares.
pub open spec fn position_after(p: PositionView, bonus: int) -> PositionView {
    PositionView {
        quantity: quantity_after(p.quantity, bonus) as u32,
        avg_cost: if bonus > 0 {
            cost_after(p.avg_cost as int, bonus) as Decimal
        } else {
            p.avg_cost
        },
        ..p
    }
}

/// The books with a corporate action applied to the position in a stock that is held.
pub open spec fn with_event(
    books: LedgerView,
    code: Seq<char>,
    e: AdjustmentEvent,
    now_ms: i64,
) -> LedgerView {
    let p = ledger::held(books.positions, code)->0;
    let quantity = quantity_after(p.quantity, e.bonus as int);
    let split = if is_changed(p, e.bonus as int) {
        books.with_position(position_after(p, e.bonus as int))
    } else {
        books
    };
    let paid = if e.dividend > 0 {
        match split.account {
            Some(a) => split.with_cash(
                a.cash + net_dividend(
                    e.dividend as int,
                    quantity,
                    held_for(books, code, e.ex_date_ms),
                ),
            ),
            None => split,
        }
    } else {
        split
    };
    paid.with_processed(code, e.ex_date_ms, now_ms)
}

/// The books after the corporate actions of one stock, and how many were applied. Each one
/// works on the position that the one before it left.
pub open spec fn after_events(
    books: LedgerView,
    code: Seq<char>,
    events: Seq<AdjustmentEvent>,
    today_ms: i64,
    now_ms: i64,
) -> (LedgerView, int)
    decreases events.len(),
{
    if events.len() == 0 {
        (books, 0)
    } else {
        let (before, n) = after_events(books, code, events.drop_last(), today_ms, now_ms);
        let e = events.last();
        if is_due(before, code, e, today_ms) {
            (with_event(before, code, e, now_ms), n + 1)
        } else {
            (before, n)
        }
    }
}

/// The books after the corporate actions of all positions, and how many were applied.
pub open spec fn after_adjustments(
    books: LedgerView,
    positions: Seq<PositionView>,
    list: Seq<StockEventsView>,
    today_ms: i64,
    now_ms: i64,
) -> (LedgerView, int)
    decreases positions.len(),
{
    if positions.len() == 0 {
        (books, 0)
    } else {
        let (before, n) = after_adjustments(
            books,
            positions.drop_last(),
            list,
            today_ms,
            now_ms,
        );
        let code = positions.last().thscode;
        let (after, m) = after_events(before, code, events_of(list, code), today_ms, now_ms);
        (after, n + m)
    }
}

/// The largest dividend on one position.
pub open spec fn payout_max() -> int {
    PRICE_MAX * u32::MAX
}

pub open spec fn events_ok(list: Seq<StockEventsView>) -> bool {
    forall|i: int, j: int|
        0 <= i < list.len() && 0 <= j < list[i].events.len() ==> (
        #[trigger] list[i].events[j]).ok()
}

/// How many corporate actions there are of the positions.
pub open spec fn event_count(positions: Seq<PositionView>, list: Seq<StockEventsView>) -> int
    decreases positions.len(),
{
    if positions.len() == 0 {
        0
    } else {
        event_count(positions.drop_last(), list) + events_of(list, positions.last().thscode).len()
    }
}

proof fn lemma_event_count(positions: Seq<PositionView>, list: Seq<StockEventsView>, n: int)
    requires
        0 <= n <= positions.len(),
    ensures
        0 <= event_count(positions.take(n), list) <= event_count(positions, list),
    decreases positions.len() - n,
{
    lemma_event_count_natural(positions.take(n), list);
    if n == positions.len() {
        assert(positions.take(n) =~= positions);
    } else {
        lemma_event_count(positions, list, n + 1);
        assert(positions.take(n + 1).drop_last() =~= positions.take(n));
    }
}

proof fn lemma_event_count_natural(positions: Seq<PositionView>, list: Seq<StockEventsView>)
    ensures
        0 <= event_count(positions, list),
    decreases positions.len(),
{
    if positions.len() > 0 {
        lemma_event_count_natural(positions.drop_last(), list);
    }
}

/// The same stocks are held, in the same order.
pub open spec fn same_codes(a: Seq<PositionView>, b: Seq<PositionView>) -> bool {
    a.len() == b.len() && forall|i: int|
        0 <= i < a.len() ==> (#[trigger] a[i]).thscode == b[i].thscode
}

/// The cash of the books, 0 where the account is not open.
pub open spec fn cash(books: LedgerView) -> int {
    match books.account {
        Some(a) => a.cash as int,
        None => 0,
    }
}

proof fn lemma_cost_after(avg_cost: int, bonus: int)
    requires
        decimal::price_ok(avg_cost),
        0 < bonus <= PRICE_MAX,
    ensures
        decimal::price_ok(cost_after(avg_cost, bonus)),
        -PRICE_MAX * UNIT <= avg_cost * UNIT <= PRICE_MAX * UNIT,
{
    let d = (UNIT + bonus) * 1000;
    let top = 1_000_000_000_000;
    decimal::lemma_div_round_exact(top, d);
    decimal::lemma_div_round_exact(-top, d);
    assert(-top * d <= avg_cost * UNIT <= top * d) by (nonlinear_arith)
        requires
            top == 1_000_000_000_000,
            d == (UNIT + bonus) * 1000,
            bonus > 0,
            UNIT == 1_000_000,
            -1_000_000_000_000_000 <= avg_cost <= 1_000_000_000_000_000,
    ;
    decimal::lemma_div_round_monotone(-top * d, avg_cost * UNIT, d);
    decimal::lemma_div_round_monotone(avg_cost * UNIT, top * d, d);
}

proof fn lemma_quantity_after(quantity: u32, bonus: int)
    requires
        decimal::price_ok(bonus),
    ensures
        0 <= quantity_after(quantity, bonus) <= u32::MAX,
        bonus > 0 ==> 0 <= quantity * (UNIT + bonus) <= u32::MAX * (UNIT + PRICE_MAX),
{
    if bonus > 0 {
        assert(0 <= quantity * (UNIT + bonus) <= u32::MAX * (UNIT + PRICE_MAX))
            by (nonlinear_arith)
            requires
                0 < bonus <= PRICE_MAX,
                0 <= quantity <= u32::MAX,
                UNIT > 0,
        ;
        decimal::lemma_div_round_nearest(quantity * (UNIT + bonus), UNIT as int);
    }
}

proof fn lemma_net(dividend: int, quantity: int, hold_ms: int)
    requires
        0 < dividend <= PRICE_MAX,
        0 <= quantity <= u32::MAX,
    ensures
        0 <= dividend * quantity <= payout_max(),
        0 <= dividend * quantity * (UNIT - tax_rate(hold_ms)) <= payout_max() * UNIT,
        0 <= net_dividend(dividend, quantity, hold_ms) <= payout_max(),
{
    let gross = dividend * quantity;
    assert(0 <= gross <= payout_max()) by (nonlinear_arith)
        requires
            0 < dividend <= PRICE_MAX,
            0 <= quantity <= u32::MAX,
            gross == dividend * quantity,
            payout_max() == PRICE_MAX * u32::MAX,
    ;
    let f = UNIT - tax_rate(hold_ms);
    assert(0 <= gross * f <= payout_max() * UNIT) by (nonlinear_arith)
        requires
            0 <= gross <= payout_max(),
            0 <= f <= UNIT,
    ;
    rules::lemma_cents_monotone(0, gross * f, UNIT as int);
    rules::lemma_cents_monotone(gross * f, payout_max() * UNIT, UNIT as int);
    rules::lemma_cents_exact(0, UNIT as int);
    assert(payout_max() % (decimal::CENT as int) == 0);
    rules::lemma_cents_exact(payout_max(), UNIT as int);
}

/// Writing the position of a stock that is held keeps the stocks and their order.
proof fn lemma_same_codes(positions: Seq<PositionView>, p: PositionView)
    requires
        ledger::ascending(positions),
        ledger::held(positions, p.thscode) is Some,
    ensures
        same_codes(ledger::upserted(positions, p), positions),
{
    ledger::positions_are_found(positions, p.thscode);
    let after = ledger::upserted(positions, p);
    ledger::written_positions_are_read_back(positions, p, p.thscode);
    let k = ledger::rank(positions, p.thscode);
    assert forall|i: int| 0 <= i < after.len() implies (#[trigger] after[i]).thscode
        == positions[i].thscode by {
        assert(after == positions.update(k, p));
    }
}

proof fn lemma_codes_transitive(a: Seq<PositionView>, b: Seq<PositionView>, c: Seq<PositionView>)
    requires
        same_codes(a, b),
        same_codes(b, c),
    ensures
        same_codes(a, c),
{
    assert forall|i: int| 0 <= i < a.len() implies (#[trigger] a[i]).thscode == c[i].thscode by {
        assert(b[i].thscode == c[i].thscode);
    }
}

proof fn lemma_held(positions: Seq<PositionView>, start: Seq<PositionView>, k: int)
    requires
        ledger::ascending(positions),
        same_codes(positions, start),
        0 <= k < start.len(),
    ensures
        ledger::held(positions, start[k].thscode) is Some,
{
    ledger::positions_are_found(positions, start[k].thscode);
    assert(positions[k].thscode == start[k].thscode);
}

/// Applies one corporate action that is due to a position.
fn apply_event(acct: &mut AccountDb, p: &Position, e: &AdjustmentEvent, now_ms: i64)
    requires
        old(acct).wf(),
        e.ok(),
        decimal::price_ok(p.avg_cost as int),
        ledger::held(old(acct)@.positions, p.thscode@) == Some(p@),
        -MONEY_MAX <= cash(old(acct)@) <= MONEY_MAX - payout_max(),
    ensures
        final(acct).wf(),
        final(acct)@ == with_event(old(acct)@, p.thscode@, *e, now_ms),
        same_codes(final(acct)@.positions, old(acct)@.positions),
        cash(old(acct)@) <= cash(final(acct)@) <= cash(old(acct)@) + payout_max(),
{
    let ghost start = acct@;
    proof {
        lemma_quantity_after(p.quantity, e.bonus as int);
        assert(same_codes(start.positions, start.positions));
    }
    let mut quantity: u32 = p.quantity;
    let mut avg_cost: Decimal = p.avg_cost;
    let mut moved = false;
    if e.bonus > 0 {
        proof {
            lemma_cost_after(p.avg_cost as int, e.bonus as int);
            assert(-PRICE_MAX * PRICE_MAX <= p.avg_cost * e.bonus <= PRICE_MAX * PRICE_MAX)
                by (nonlinear_arith)
                requires
                    -PRICE_MAX <= p.avg_cost <= PRICE_MAX,
                    0 < e.bonus <= PRICE_MAX,
            ;
        }
        let raw = rounded_div(p.quantity as i128 * (UNIT + e.bonus), UNIT);
        quantity = decimal_min(raw, 4_294_967_295) as u32;
        avg_cost = rounded_div(p.avg_cost * UNIT, (UNIT + e.bonus) * 1000) * 1000;
        let product: i128 = p.avg_cost * e.bonus;
        let size: i128 = if product < 0 {
            -product
        } else {
            product
        };
        moved = size * 1000 > UNIT + e.bonus;
    }
    if quantity != p.quantity || moved {
        proof {
            lemma_same_codes(
                start.positions,
                PositionView { thscode: p.thscode@, name: p.name@, quantity, avg_cost },
            );
        }
        acct.upsert_position(
            &Position {
                thscode: p.thscode.clone(),
                name: p.name.clone(),
                quantity,
                avg_cost,
            },
        );
    }
    if e.dividend > 0 {
        let hold_ms: i128 = match acct.first_buy_ms(p.thscode.as_str()) {
            Some(bought) => e.ex_date_ms as i128 - bought as i128,
            None => 0,
        };
        let tax = tax_after(hold_ms);
        proof {
            lemma_net(e.dividend as int, quantity as int, hold_ms as int);
        }
        let net = round_to_cents(e.dividend * quantity as i128 * (UNIT - tax), UNIT);
        acct.add_cash(net);
    }
    acct.mark_adjustment_processed(p.thscode.as_str(), e.ex_date_ms, now_ms);
}

fn find_events<'a>(list: &'a Vec<StockEvents>, thscode: &str) -> (r: Option<&'a StockEvents>)
    ensures
        match r {
            Some(s) => s.events@ == events_of(event_views(list@), thscode@) && event_views(
                list@,
            ).contains(s@),
            None => events_of(event_views(list@), thscode@) == Seq::<AdjustmentEvent>::empty(),
        },
{
    let ghost all = event_views(list@);
    assert(all.skip(0) =~= all);
    for i in 0..list.len()
        invariant
            all == event_views(list@),
            events_of(all, thscode@) == events_of(all.skip(i as int), thscode@),
    {
        proof {
            assert(all.skip(i as int)[0] == list@[i as int]@);
            assert(all.skip(i as int).drop_first() =~= all.skip(i + 1));
            assert(all[i as int] == list@[i as int]@);
        }
        if text_eq(list[i].thscode.as_str(), thscode) {
            return Some(&list[i]);
        }
    }
    None
}

/// Applies the corporate actions that are due to the positions, and returns how many were.
pub fn apply_pending_adjustments(
    acct: &mut AccountDb,
    list: &Vec<StockEvents>,
    today_ms: i64,
    now_ms: i64,
) -> (r: u32)
    requires
        old(acct).wf(),
        can_apply(old(acct)@, event_views(list@)),
    ensures
        final(acct).wf(),
        (final(acct)@, r as int) == after_adjustments(
            old(acct)@,
            old(acct)@.positions,
            event_views(list@),
            today_ms,
            now_ms,
        ),
{
    let ghost start = acct@;
    let ghost all = event_views(list@);
    let positions = acct.positions();
    let ghost ps = start.positions;
    let mut applied: u32 = 0;
    assert(ps.take(0) =~= Seq::empty());
    assert(same_codes(ps, ps));
    for i in 0..positions.len()
        invariant
            acct.wf(),
            all == event_views(list@),
            events_ok(all),
            start.ok(),
            ps == start.positions,
            event_count(ps, all) <= MAX_ROWS,
            account::position_views(positions@) == ps,
            (acct@, applied as int) == after_adjustments(
                start,
                ps.take(i as int),
                all,
                today_ms,
                now_ms,
            ),
            applied <= event_count(ps.take(i as int), all),
            same_codes(acct@.positions, ps),
            -CASH_MAX <= cash(acct@) <= CASH_MAX + event_count(ps.take(i as int), all)
                * payout_max(),
    {
        let ghost past = event_count(ps.take(i as int), all);
        let p = &positions[i];
        proof {
            assert(account::position_views(positions@)[i as int] == ps[i as int]);
            assert(ps.take(i + 1).drop_last() =~= ps.take(i as int));
            assert(ps.take(i + 1).last() == p@);
            assert(decimal::price_ok(ps[i as int].avg_cost as int));
            lemma_event_count(ps, all, i as int);
            lemma_event_count(ps, all, i + 1);
        }
        let ghost before = acct@;
        let ghost done = applied;
        if let Some(stock) = find_events(list, p.thscode.as_str()) {
            let ghost events = stock.events@;
            proof {
                let k = choose|k: int| 0 <= k < all.len() && all[k] == stock@;
                assert(all[k].events == events);
                assert(events.take(0) =~= Seq::empty());
            }
            for j in 0..stock.events.len()
                invariant
                    acct.wf(),
                    start.ok(),
                    ps == start.positions,
                    i < ps.len(),
                    p@ == ps[i as int],
                    events == stock.events@,
                    0 <= past,
                    past + events.len() <= MAX_ROWS,
                    forall|k: int| 0 <= k < events.len() ==> (#[trigger] events[k]).ok(),
                    same_codes(acct@.positions, ps),
                    done <= past,
                    done <= applied <= done + j,
                    (acct@, applied - done) == after_events(
                        before,
                        p.thscode@,
                        events.take(j as int),
                        today_ms,
                        now_ms,
                    ),
                    -CASH_MAX <= cash(before) <= CASH_MAX + past * payout_max(),
                    cash(before) <= cash(acct@) <= cash(before) + j * payout_max(),
            {
                let e = &stock.events[j];
                proof {
                    assert(events.take(j + 1).drop_last() =~= events.take(j as int));
                    assert(events.take(j + 1).last() == *e);
                    assert(events[j as int].ok());
                    lemma_held(acct@.positions, ps, i as int);
                    assert((j + 1) * payout_max() == j * payout_max() + payout_max())
                        by (nonlinear_arith);
                    assert(past * payout_max() + (j + 1) * payout_max() <= 100_000 * payout_max())
                        by (nonlinear_arith)
                        requires
                            past + (j + 1) <= 100_000,
                            payout_max() >= 0,
                    ;
                }
                let ghost now = acct@;
                assert(cash(now) <= MONEY_MAX - payout_max()) by {
                    assert(payout_max() == 4_294_967_295_000_000_000_000_000);
                    assert(cash(now) + payout_max() <= CASH_MAX + past * payout_max() + (j + 1)
                        * payout_max());
                }
                if e.ex_date_ms <= today_ms && !acct.is_adjustment_processed(
                    p.thscode.as_str(),
                    e.ex_date_ms,
                ) {
                    if let Some(q) = acct.position(p.thscode.as_str()) {
                        proof {
                            ledger::positions_are_found(now.positions, p.thscode@);
                        }
                        apply_event(acct, &q, e, now_ms);
                        applied = applied + 1;
                        proof {
                            lemma_codes_transitive(acct@.positions, now.positions, ps);
                        }
                    }
                }
            }
            proof {
                assert(events.take(events.len() as int) =~= events);
                let m = events.len() as int;
                assert((past + m) * payout_max() == past * payout_max() + m * payout_max())
                    by (nonlinear_arith);
            }
        }
    }
    assert(ps.take(ps.len() as int) =~= ps);
    applied
}


/// What applying corporate actions takes: numbers in range.
pub open spec fn can_apply(books: LedgerView, list: Seq<StockEventsView>) -> bool {
    &&& events_ok(list)
    &&& event_count(books.positions, list) <= MAX_ROWS
    &&& -CASH_MAX <= cash(books) <= CASH_MAX
}

fn are_events_ok(list: &Vec<StockEvents>) -> (r: bool)
    ensures
        r == events_ok(event_views(list@)),
{
    let ghost all = event_views(list@);
    for i in 0..list.len()
        invariant
            all == event_views(list@),
            forall|k: int, j: int|
                0 <= k < i && 0 <= j < all[k].events.len() ==> (
                #[trigger] all[k].events[j]).ok(),
    {
        let events = &list[i].events;
        assert(all[i as int].events == events@);
        for j in 0..events.len()
            invariant
                all == event_views(list@),
                i < all.len(),
                all[i as int].events == events@,
                forall|k: int| 0 <= k < j ==> (#[trigger] all[i as int].events[k]).ok(),
        {
            if !is_price(events[j].dividend) || !is_price(events[j].bonus) {
                assert(!all[i as int].events[j as int].ok());
                return false;
            }
        }
    }
    true
}

fn are_events_few(positions: &Vec<Position>, list: &Vec<StockEvents>) -> (r: bool)
    ensures
        r == (event_count(account::position_views(positions@), event_views(list@)) <= MAX_ROWS),
{
    let ghost ps = account::position_views(positions@);
    let ghost all = event_views(list@);
    let mut count: usize = 0;
    assert(ps.take(0) =~= Seq::empty());
    for i in 0..positions.len()
        invariant
            ps == account::position_views(positions@),
            all == event_views(list@),
            count == event_count(ps.take(i as int), all),
            count <= MAX_ROWS,
    {
        proof {
            assert(ps.take(i + 1).drop_last() =~= ps.take(i as int));
            assert(ps.take(i + 1).last() == positions@[i as int]@);
            lemma_event_count(ps, all, i + 1);
        }
        if let Some(stock) = find_events(list, positions[i].thscode.as_str()) {
            if stock.events.len() > MAX_ROWS - count {
                return false;
            }
            count = count + stock.events.len();
        }
    }
    assert(ps.take(ps.len() as int) =~= ps);
    true
}

/// Applies the corporate actions that are due to the positions, and returns how many were;
/// where a number is out of range, nothing is done.
pub fn apply_pending_any(
    acct: &mut AccountDb,
    list: &Vec<StockEvents>,
    today_ms: i64,
    now_ms: i64,
) -> (r: Option<u32>)
    requires
        old(acct).wf(),
    ensures
        final(acct).wf(),
        match r {
            Some(n) => can_apply(old(acct)@, event_views(list@)) && (final(acct)@, n as int)
                == after_adjustments(
                old(acct)@,
                old(acct)@.positions,
                event_views(list@),
                today_ms,
                now_ms,
            ),
            None => !can_apply(old(acct)@, event_views(list@)) && final(acct)@ == old(acct)@,
        },
{
    let cash_now: Decimal = match &acct.account {
        Some(a) => a.cash,
        None => 0,
    };
    if cash_now < -CASH_MAX || cash_now > CASH_MAX || !are_events_ok(list) || !are_events_few(
        &acct.positions,
        list,
    ) {
        return None;
    }
    Some(apply_pending_adjustments(acct, list, today_ms, now_ms))
}

/// Every corporate action of the positions whose date has come is marked as applied.
pub open spec fn all_applied(
    books: LedgerView,
    positions: Seq<PositionView>,
    list: Seq<StockEventsView>,
    today_ms: i64,
) -> bool {
    forall|i: int, j: int|
        #![trigger positions[i], events_of(list, positions[i].thscode)[j]]
        0 <= i < positions.len() && 0 <= j < events_of(list, positions[i].thscode).len()
            && events_of(list, positions[i].thscode)[j].ex_date_ms <= today_ms
            ==> books.is_processed(
            positions[i].thscode,
            events_of(list, positions[i].thscode)[j].ex_date_ms,
        )
}

proof fn lemma_events_processed(
    books: LedgerView,
    code: Seq<char>,
    events: Seq<AdjustmentEvent>,
    today_ms: i64,
    now_ms: i64,
)
    ensures
        ({
            let after = after_events(books, code, events, today_ms, now_ms).0;
            &&& forall|c: Seq<char>, ex: i64|
                books.is_processed(c, ex) ==> #[trigger] after.is_processed(c, ex)
            &&& forall|j: int|
                0 <= j < events.len() && (#[trigger] events[j]).ex_date_ms <= today_ms
                    ==> after.is_processed(code, events[j].ex_date_ms)
        }),
    decreases events.len(),
{
    if events.len() > 0 {
        let short = events.drop_last();
        lemma_events_processed(books, code, short, today_ms, now_ms);
        let before = after_events(books, code, short, today_ms, now_ms).0;
        let after = after_events(books, code, events, today_ms, now_ms).0;
        assert forall|c: Seq<char>, ex: i64| books.is_processed(
            c,
            ex,
        ) implies #[trigger] after.is_processed(c, ex) by {
            assert(before.is_processed(c, ex));
        }
        assert forall|j: int|
            0 <= j < events.len() && (#[trigger] events[j]).ex_date_ms <= today_ms implies after.is_processed(
        code, events[j].ex_date_ms) by {
            if j < short.len() {
                assert(short[j] == events[j]);
            }
        }
    }
}

proof fn lemma_adjustments_processed(
    books: LedgerView,
    positions: Seq<PositionView>,
    list: Seq<StockEventsView>,
    today_ms: i64,
    now_ms: i64,
)
    ensures
        ({
            let after = after_adjustments(books, positions, list, today_ms, now_ms).0;
            &&& forall|code: Seq<char>, ex: i64|
                books.is_processed(code, ex) ==> #[trigger] after.is_processed(code, ex)
            &&& all_applied(after, positions, list, today_ms)
        }),
    decreases positions.len(),
{
    if positions.len() > 0 {
        let short = positions.drop_last();
        let p = positions.last();
        lemma_adjustments_processed(books, short, list, today_ms, now_ms);
        let before = after_adjustments(books, short, list, today_ms, now_ms).0;
        let events = events_of(list, p.thscode);
        lemma_events_processed(before, p.thscode, events, today_ms, now_ms);
        let after = after_adjustments(books, positions, list, today_ms, now_ms).0;
        assert forall|i: int, j: int|
            #![trigger positions[i], events_of(list, positions[i].thscode)[j]]
            0 <= i < positions.len() && 0 <= j < events_of(list, positions[i].thscode).len()
                && events_of(list, positions[i].thscode)[j].ex_date_ms <= today_ms implies after.is_processed(
        positions[i].thscode, events_of(list, positions[i].thscode)[j].ex_date_ms) by {
            if i < short.len() {
                assert(short[i] == positions[i]);
                let e = events_of(list, short[i].thscode)[j];
                assert(before.is_processed(short[i].thscode, e.ex_date_ms));
            } else {
                assert(events[j].ex_date_ms <= today_ms);
            }
        }
    }
}

proof fn lemma_no_events_due(
    books: LedgerView,
    code: Seq<char>,
    events: Seq<AdjustmentEvent>,
    today_ms: i64,
    now_ms: i64,
)
    requires
        forall|j: int|
            0 <= j < events.len() && (#[trigger] events[j]).ex_date_ms <= today_ms
                ==> books.is_processed(code, events[j].ex_date_ms),
    ensures
        after_events(books, code, events, today_ms, now_ms) == (books, 0int),
    decreases events.len(),
{
    if events.len() > 0 {
        let short = events.drop_last();
        assert forall|j: int|
            0 <= j < short.len() && (#[trigger] short[j]).ex_date_ms <= today_ms implies books.is_processed(
        code, short[j].ex_date_ms) by {
            assert(short[j] == events[j]);
        }
        lemma_no_events_due(books, code, short, today_ms, now_ms);
        assert(events[events.len() - 1] == events.last());
    }
}

proof fn lemma_nothing_due(
    books: LedgerView,
    positions: Seq<PositionView>,
    list: Seq<StockEventsView>,
    today_ms: i64,
    now_ms: i64,
)
    requires
        all_applied(books, positions, list, today_ms),
    ensures
        after_adjustments(books, positions, list, today_ms, now_ms) == (books, 0int),
    decreases positions.len(),
{
    if positions.len() > 0 {
        let short = positions.drop_last();
        assert forall|i: int, j: int|
            #![trigger short[i], events_of(list, short[i].thscode)[j]]
            0 <= i < short.len() && 0 <= j < events_of(list, short[i].thscode).len() && events_of(
                list,
                short[i].thscode,
            )[j].ex_date_ms <= today_ms implies books.is_processed(
            short[i].thscode,
            events_of(list, short[i].thscode)[j].ex_date_ms,
        ) by {
            assert(short[i] == positions[i]);
            let e = events_of(list, positions[i].thscode)[j];
        }
        lemma_nothing_due(books, short, list, today_ms, now_ms);
        let p = positions.last();
        let events = events_of(list, p.thscode);
        assert forall|j: int|
            0 <= j < events.len() && (#[trigger] events[j]).ex_date_ms <= today_ms implies books.is_processed(
        p.thscode, events[j].ex_date_ms) by {
            assert(positions[positions.len() - 1] == p);
            assert(events_of(list, positions[positions.len() - 1].thscode)[j] == events[j]);
        }
        lemma_no_events_due(books, p.thscode, events, today_ms, now_ms);
    }
}

proof fn lemma_events_keep_codes(
    books: LedgerView,
    start: Seq<PositionView>,
    k: int,
    events: Seq<AdjustmentEvent>,
    today_ms: i64,
    now_ms: i64,
)
    requires
        ledger::ascending(books.positions),
        same_codes(books.positions, start),
        0 <= k < start.len(),
    ensures
        ledger::ascending(after_events(books, start[k].thscode, events, today_ms, now_ms).0.positions),
        same_codes(after_events(books, start[k].thscode, events, today_ms, now_ms).0.positions, start),
    decreases events.len(),
{
    if events.len() > 0 {
        lemma_events_keep_codes(books, start, k, events.drop_last(), today_ms, now_ms);
        let before = after_events(books, start[k].thscode, events.drop_last(), today_ms, now_ms).0;
        let code = start[k].thscode;
        lemma_held(before.positions, start, k);
        ledger::positions_are_found(before.positions, code);
        let q = position_after(
            ledger::held(before.positions, code)->0,
            events.last().bonus as int,
        );
        lemma_same_codes(before.positions, q);
        ledger::written_positions_are_read_back(before.positions, q, q.thscode);
        lemma_codes_transitive(ledger::upserted(before.positions, q), before.positions, start);
    }
}

proof fn lemma_adjustments_keep_codes(
    books: LedgerView,
    start: Seq<PositionView>,
    n: int,
    list: Seq<StockEventsView>,
    today_ms: i64,
    now_ms: i64,
)
    requires
        ledger::ascending(books.positions),
        same_codes(books.positions, start),
        0 <= n <= start.len(),
    ensures
        ledger::ascending(
            after_adjustments(books, start.take(n), list, today_ms, now_ms).0.positions,
        ),
        same_codes(
            after_adjustments(books, start.take(n), list, today_ms, now_ms).0.positions,
            start,
        ),
    decreases n,
{
    if n > 0 {
        lemma_adjustments_keep_codes(books, start, n - 1, list, today_ms, now_ms);
        assert(start.take(n).drop_last() =~= start.take(n - 1));
        let before = after_adjustments(books, start.take(n - 1), list, today_ms, now_ms).0;
        lemma_events_keep_codes(
            before,
            start,
            n - 1,
            events_of(list, start[n - 1].thscode),
            today_ms,
            now_ms,
        );
    }
}

/// A corporate action is applied once: a second run on the same day applies nothing and
/// leaves the books as they are.
pub proof fn corporate_actions_apply_once(
    books: LedgerView,
    list: Seq<StockEventsView>,
    today_ms: i64,
    now_ms: i64,
    later_ms: i64,
)
    requires
        ledger::ascending(books.positions),
    ensures
        ({
            let after = after_adjustments(books, books.positions, list, today_ms, now_ms).0;
            after_adjustments(after, after.positions, list, today_ms, later_ms) == (after, 0int)
        }),
{
    let ps = books.positions;
    let after = after_adjustments(books, ps, list, today_ms, now_ms).0;
    lemma_adjustments_processed(books, ps, list, today_ms, now_ms);
    assert(ps.take(ps.len() as int) =~= ps);
    assert(same_codes(ps, ps));
    lemma_adjustments_keep_codes(books, ps, ps.len() as int, list, today_ms, now_ms);
    let qs = after.positions;
    assert forall|i: int, j: int|
        #![trigger qs[i], events_of(list, qs[i].thscode)[j]]
        0 <= i < qs.len() && 0 <= j < events_of(list, qs[i].thscode).len() && events_of(
            list,
            qs[i].thscode,
        )[j].ex_date_ms <= today_ms implies after.is_processed(
        qs[i].thscode,
        events_of(list, qs[i].thscode)[j].ex_date_ms,
    ) by {
        assert(qs[i].thscode == ps[i].thscode);
        let e = events_of(list, ps[i].thscode)[j];
    }
    lemma_nothing_due(after, qs, list, today_ms, later_ms);
}

} // verus!
