//! Laws of the simulated broker: which orders are filled, at what price, and what a fill does
//! to cash, holdings and the record of trades.

use vstd::prelude::*;

use crate::account::{PositionView, TradeView};
use crate::decimal;
use crate::decimal::{Decimal, UNIT};
use crate::intent::{ExecutionView, IntentView, OrderSide, RejectView};
use crate::laws::books;
use crate::laws::exchange;
use crate::ledger;
use crate::ledger::LedgerView;
use crate::rules;
use crate::sim;
use crate::sim::{Clock, Quote};

verus! {

/// From the fifth day of a stock on, purchases are filled below the limit-up price only and
/// sales above the limit-down price only; before that no price limit refuses an order.
pub proof fn fills_stay_within_the_limits(
    books: LedgerView,
    order: IntentView,
    quote: Quote,
    initial_capital: Decimal,
    clock: Clock,
)
    ensures
        ({
            let r = sim::after_submit(books, order, quote, initial_capital, clock).1;
            let young = quote.days_since_first_bar matches Some(d) && d < 5;
            &&& young ==> !(r matches Err(e) && (e is LimitUp || e is LimitDown))
            &&& !young && r is Ok && order.side == OrderSide::Buy ==> (
            quote.prev_close matches Some(prev) ==> r->Ok_0.price < rules::limit_up(
                prev as int,
                order.thscode,
                order.name,
            ))
            &&& !young && r is Ok && order.side == OrderSide::Sell ==> (
            quote.prev_close matches Some(prev) ==> r->Ok_0.price > rules::limit_down(
                prev as int,
                order.thscode,
                ledger::held(books.positions, order.thscode)->0.name,
            ))
        }),
{
}

/// The same of orders with numbers of any size.
pub proof fn fills_of_any_order_stay_within_the_limits(
    books: LedgerView,
    order: IntentView,
    quote: Quote,
    initial_capital: Decimal,
    clock: Clock,
)
    ensures
        ({
            let r = sim::after_submit_any(books, order, quote, initial_capital, clock).1;
            let young = quote.days_since_first_bar matches Some(d) && d < 5;
            &&& young ==> !(r matches Err(e) && (e is LimitUp || e is LimitDown))
            &&& !young && r is Ok && order.side == OrderSide::Buy ==> (
            quote.prev_close matches Some(prev) ==> r->Ok_0.price < rules::limit_up(
                prev as int,
                order.thscode,
                order.name,
            ))
            &&& !young && r is Ok && order.side == OrderSide::Sell ==> (
            quote.prev_close matches Some(prev) ==> r->Ok_0.price > rules::limit_down(
                prev as int,
                order.thscode,
                ledger::held(books.positions, order.thscode)->0.name,
            ))
        }),
{
    fills_stay_within_the_limits(books, order, quote, initial_capital, clock);
}

/// Whether a price limit stands in the way of an order at a price.
pub open spec fn limited(quote: Quote, order: IntentView, name: Seq<char>, price: int) -> bool {
    &&& quote.prev_close is Some
    &&& quote.days_since_first_bar is None || quote.days_since_first_bar->0 >= 5
    &&& match order.side {
        OrderSide::Buy => price >= rules::limit_up(
            quote.prev_close->0 as int,
            order.thscode,
            name,
        ),
        OrderSide::Sell => price <= rules::limit_down(
            quote.prev_close->0 as int,
            order.thscode,
            name,
        ),
    }
}

/// Whether `price` is what an order is filled at: the price of the snapshot, or the last close
/// where there is no snapshot.
pub open spec fn priced(quote: Quote, price: int) -> bool {
    &&& price > 0
    &&& quote.snapshot_price matches Some(v) ==> v == price
    &&& quote.snapshot_price is None ==> (quote.prev_close matches Some(v) && v == price)
}

/// An order for a stock without a price above zero is refused, whatever else it says.
pub proof fn orders_without_a_price_are_refused(
    books: LedgerView,
    order: IntentView,
    quote: Quote,
    initial_capital: Decimal,
    clock: Clock,
)
    requires
        forall|price: int| !priced(quote, price),
    ensures
        sim::after_submit(books, order, quote, initial_capital, clock) == (
            books,
            Err::<ExecutionView, _>(RejectView::NoPrice(order.thscode)),
        ),
{
    if let Some(p) = quote.fill_price() {
        assert(priced(quote, p as int));
    }
}

/// A purchase is filled exactly where it is made in session, in lots, on a board that the
/// capital allows and below the price limit; where cash covers the amount and the fee; where
/// the stock is worth no more than 20% of the total assets at cost afterwards; and where the
/// stock is held or fewer than three are.
pub proof fn a_purchase_is_filled_when_nothing_forbids_it(
    books: LedgerView,
    order: IntentView,
    quote: Quote,
    initial_capital: Decimal,
    clock: Clock,
    price: int,
    cash: int,
    amount: int,
    fee: int,
    held: int,
)
    requires
        order.side == OrderSide::Buy,
        books.account matches Some(a) && a.cash == cash,
        priced(quote, price),
        exchange::in_cents(amount, price * order.quantity, 1),
        fee == rules::trade_fee(amount, false),
        held == match ledger::held(books.positions, order.thscode) {
            Some(p) => p.quantity as int,
            None => 0,
        },
    ensures
        sim::after_submit(books, order, quote, initial_capital, clock).1 is Ok <==> {
            &&& rules::in_session(clock.weekday_iso, clock.minute_of_day)
            &&& rules::buy_quantity_ok(order.thscode, order.quantity)
            &&& rules::may_trade(initial_capital, order.thscode)
            &&& !limited(quote, order, order.name, price)
            &&& amount + fee <= cash
            &&& 5 * (held * price + amount) <= cash + ledger::cost_value(books.positions)
            &&& ledger::held(books.positions, order.thscode) is Some || books.positions.len() < 3
        },
{
    lemma_fill(price, order.quantity, amount);
    assert(quote.fill_price() == Some(price as Decimal));
    assert(held * price == price * held) by (nonlinear_arith);
    let account = books.account->0;
    assert(sim::trade_amount(price as Decimal, order.quantity) == amount);
    let worth = held * price + amount;
    let all = cash + ledger::cost_value(books.positions);
    assert(worth * UNIT > all * sim::MAX_POSITION_PCT <==> 5 * worth > all);
    assert(sim::value_after_buy(books.positions, order, price as Decimal) == worth);
    assert(books.asset_at_cost(account) == all);
}

proof fn lemma_fill(price: int, quantity: u32, amount: int)
    requires
        price > 0,
        exchange::in_cents(amount, price * quantity, 1),
    ensures
        price * quantity >= 0,
        rules::price_rounded(price * quantity) == amount,
{
    assert(price * quantity >= 0) by (nonlinear_arith)
        requires
            price > 0,
            quantity >= 0,
    ;
    exchange::cents_are_the_nearest(price * quantity, 1);
    exchange::nearest_cents_are_unique(
        rules::to_cents(price * quantity, 1),
        amount,
        price * quantity,
        1,
    );
}

/// A filled purchase takes the amount and the fee out of the cash, adds the shares to the
/// holding, and is recorded with its price, amount, fee, time and decision. The cost of an
/// added holding is the average over all shares in the nearest cents, that of a new one the
/// price. Other holdings stay.
pub proof fn a_filled_purchase_is_booked(
    books: LedgerView,
    order: IntentView,
    quote: Quote,
    initial_capital: Decimal,
    clock: Clock,
    price: int,
    amount: int,
    other: Seq<char>,
)
    requires
        books.ok(),
        order.side == OrderSide::Buy,
        books.account is Some,
        books.account->0.cash % 10_000 == 0,
        priced(quote, price),
        exchange::in_cents(amount, price * order.quantity, 1),
        sim::can_submit(books, order, quote, initial_capital, clock),
        sim::after_submit(books, order, quote, initial_capital, clock).1 is Ok,
    ensures
        ({
            let (after, r) = sim::after_submit(books, order, quote, initial_capital, clock);
            let fee = rules::trade_fee(amount, false);
            let cash = books.account->0.cash - amount - fee;
            let now = ledger::held(after.positions, order.thscode);
            &&& r->Ok_0.intent == order
            &&& r->Ok_0.price == price
            &&& r->Ok_0.amount == amount
            &&& r->Ok_0.fee == fee
            &&& r->Ok_0.cash_after == Some(cash as Decimal)
            &&& after.account is Some
            &&& after.account->0.cash == cash
            &&& after.account->0.initial_capital == books.account->0.initial_capital
            &&& now is Some
            &&& match ledger::held(books.positions, order.thscode) {
                Some(p) => {
                    let shares = p.quantity + order.quantity;
                    &&& now->0.quantity == shares
                    &&& now->0.name == p.name
                    &&& p.avg_cost >= 0 && shares > 0 ==> exchange::in_cents(
                        now->0.avg_cost as int,
                        p.avg_cost * p.quantity + amount,
                        shares,
                    )
                },
                None => now->0.quantity == order.quantity && now->0.avg_cost == price,
            }
            &&& other != order.thscode ==> ledger::held(after.positions, other) == ledger::held(
                books.positions,
                other,
            )
            &&& after.trades == books.trades.push(
                TradeView {
                    thscode: order.thscode,
                    name: order.name,
                    side: OrderSide::Buy,
                    price: price as Decimal,
                    quantity: order.quantity,
                    amount: amount as Decimal,
                    fee: fee as Decimal,
                    ts_ms: clock.now_ms,
                    decision_id: order.decision_id,
                },
            )
        }),
{
    lemma_fill(price, order.quantity, amount);
    assert(quote.fill_price() == Some(price as Decimal));
    sim::lemma_amount(price as Decimal, order.quantity);
    let fee = rules::trade_fee(amount, false);
    sim::lemma_fee_in_cents(amount, false);
    let cash = books.account->0.cash - amount - fee;
    rules::lemma_cents_exact(cash, 1);
    let p = sim::position_after_buy(books.positions, order, price as Decimal);
    ledger::positions_are_found(books.positions, order.thscode);
    ledger::written_positions_are_read_back(books.positions, p, other);
    if let Some(old) = ledger::held(books.positions, order.thscode) {
        let shares = old.quantity + order.quantity;
        if old.avg_cost >= 0 && shares > 0 {
            assert(old.avg_cost * old.quantity >= 0) by (nonlinear_arith)
                requires
                    old.avg_cost >= 0,
                    old.quantity >= 0,
            ;
            assert(old.avg_cost * old.quantity <= decimal::PRICE_MAX * u32::MAX) by (nonlinear_arith)
                requires
                    0 <= old.avg_cost <= decimal::PRICE_MAX,
                    0 <= old.quantity <= u32::MAX,
            ;
            rules::lemma_cents_bound(old.avg_cost * old.quantity + amount, shares);
            exchange::cents_are_the_nearest(old.avg_cost * old.quantity + amount, shares);
        }
    }
}

/// A sale is filled exactly where it is made in session, out of a holding that is large
/// enough, in lots or as a whole, without the shares that were bought today, and above the
/// price limit.
pub proof fn a_sale_is_filled_when_nothing_forbids_it(
    books: LedgerView,
    order: IntentView,
    quote: Quote,
    initial_capital: Decimal,
    clock: Clock,
    price: int,
)
    requires
        order.side == OrderSide::Sell,
        priced(quote, price),
        clock.day_start_ms <= i64::MAX - 86_400_000,
        price <= decimal::PRICE_MAX,
    ensures
        sim::after_submit(books, order, quote, initial_capital, clock).1 is Ok <==> {
            &&& rules::in_session(clock.weekday_iso, clock.minute_of_day)
            &&& ledger::held(books.positions, order.thscode) matches Some(p) && {
                &&& rules::sell_quantity_ok(order.thscode, order.quantity, p.quantity)
                &&& order.quantity + ledger::bought_sum(
                    books.trades,
                    p.thscode,
                    clock.day_start_ms,
                    (clock.day_start_ms + 86_400_000) as i64,
                ) <= p.quantity
                &&& !limited(quote, order, p.name, price)
            }
        },
{
    assert(quote.fill_price() == Some(price as Decimal));
    if let Some(p) = ledger::held(books.positions, order.thscode) {
        sim::lemma_bought_natural(
            books.trades,
            p.thscode,
            clock.day_start_ms,
            (clock.day_start_ms + 86_400_000) as i64,
        );
    }
}

/// What was bought of a stock in a time: a purchase of it within the time counts in full, any
/// other trade counts nothing.
pub proof fn purchases_of_a_day_add_up(
    trades: Seq<TradeView>,
    t: TradeView,
    code: Seq<char>,
    start: i64,
    end: i64,
)
    ensures
        ledger::bought_sum(Seq::empty(), code, start, end) == 0,
        books::buys(t, code) && start <= t.ts_ms && t.ts_ms < end ==> ledger::bought_sum(
            trades.push(t),
            code,
            start,
            end,
        ) == ledger::bought_sum(trades, code, start, end) + t.quantity,
        !books::buys(t, code) || t.ts_ms < start || t.ts_ms >= end ==> ledger::bought_sum(
            trades.push(t),
            code,
            start,
            end,
        ) == ledger::bought_sum(trades, code, start, end),
{
    assert(trades.push(t).drop_last() =~= trades);
}

/// A filled sale adds the amount less the fee to the cash, takes the shares out of the holding
/// at the same cost, and the whole holding where none is left, and is recorded. Other holdings
/// stay.
pub proof fn a_filled_sale_is_booked(
    books: LedgerView,
    order: IntentView,
    quote: Quote,
    initial_capital: Decimal,
    clock: Clock,
    price: int,
    amount: int,
    other: Seq<char>,
)
    requires
        books.ok(),
        order.side == OrderSide::Sell,
        books.account is Some,
        books.account->0.cash % 10_000 == 0,
        priced(quote, price),
        exchange::in_cents(amount, price * order.quantity, 1),
        sim::can_submit(books, order, quote, initial_capital, clock),
        sim::after_submit(books, order, quote, initial_capital, clock).1 is Ok,
    ensures
        ({
            let (after, r) = sim::after_submit(books, order, quote, initial_capital, clock);
            let fee = rules::trade_fee(amount, true);
            let cash = books.account->0.cash + amount - fee;
            let before = ledger::held(books.positions, order.thscode);
            let now = ledger::held(after.positions, order.thscode);
            &&& r->Ok_0.intent == order
            &&& r->Ok_0.price == price
            &&& r->Ok_0.amount == amount
            &&& r->Ok_0.fee == fee
            &&& r->Ok_0.cash_after == Some(cash as Decimal)
            &&& after.account is Some
            &&& after.account->0.cash == cash
            &&& after.account->0.initial_capital == books.account->0.initial_capital
            &&& before is Some
            &&& before->0.quantity == order.quantity <==> now is None
            &&& now is Some ==> {
                &&& now->0.quantity == before->0.quantity - order.quantity
                &&& now->0.avg_cost == before->0.avg_cost
                &&& now->0.name == before->0.name
            }
            &&& other != order.thscode ==> ledger::held(after.positions, other) == ledger::held(
                books.positions,
                other,
            )
            &&& after.trades == books.trades.push(
                TradeView {
                    thscode: order.thscode,
                    name: order.name,
                    side: OrderSide::Sell,
                    price: price as Decimal,
                    quantity: order.quantity,
                    amount: amount as Decimal,
                    fee: fee as Decimal,
                    ts_ms: clock.now_ms,
                    decision_id: order.decision_id,
                },
            )
        }),
{
    lemma_fill(price, order.quantity, amount);
    assert(quote.fill_price() == Some(price as Decimal));
    sim::lemma_amount(price as Decimal, order.quantity);
    let fee = rules::trade_fee(amount, true);
    sim::lemma_fee_in_cents(amount, true);
    let cash = books.account->0.cash + amount - fee;
    rules::lemma_cents_exact(cash, 1);
    ledger::positions_are_found(books.positions, order.thscode);
    if let Some(p) = ledger::held(books.positions, order.thscode) {
        let less = PositionView {
            quantity: (p.quantity - order.quantity) as u32,
            ..p
        };
        ledger::written_positions_are_read_back(books.positions, less, other);
        ledger::deleted_positions_are_gone(books.positions, order.thscode, other);
    }
}

/// A refusal names what is wrong with the order.
pub proof fn refusals_name_their_reason(
    books: LedgerView,
    order: IntentView,
    quote: Quote,
    initial_capital: Decimal,
    clock: Clock,
    price: int,
)
    requires
        priced(quote, price),
        price <= decimal::PRICE_MAX,
    ensures
        ({
            let r = sim::after_submit(books, order, quote, initial_capital, clock).1;
            let held = ledger::held(books.positions, order.thscode);
            let name = if order.side == OrderSide::Buy {
                order.name
            } else {
                held->0.name
            };
            &&& !rules::in_session(clock.weekday_iso, clock.minute_of_day) <==> r == Err::<
                ExecutionView,
                _,
            >(RejectView::NotTradingTime)
            &&& r matches Err(e) ==> {
                &&& e is LotSize ==> if order.side == OrderSide::Buy {
                    !rules::buy_quantity_ok(order.thscode, order.quantity)
                } else {
                    held is Some && !rules::sell_quantity_ok(
                        order.thscode,
                        order.quantity,
                        held->0.quantity,
                    )
                }
                &&& e is BoardNotAllowed ==> order.side == OrderSide::Buy && !rules::may_trade(
                    initial_capital,
                    order.thscode,
                )
                &&& e is LimitUp || e is LimitDown ==> limited(quote, order, name, price)
                &&& e is LimitUp ==> order.side == OrderSide::Buy
                &&& e is LimitDown ==> order.side == OrderSide::Sell
                &&& e is InsufficientPosition ==> order.side == OrderSide::Sell && (held is None
                    || held->0.quantity < order.quantity)
                &&& e is TPlusOne ==> order.side == OrderSide::Sell && held is Some
                &&& e is InsufficientFunds || e is PositionLimit || e is MaxPositions ==> order.side
                    == OrderSide::Buy
                &&& e is MaxPositions ==> held is None && books.positions.len() >= 3
                &&& !(e is NoPrice || e is PriceAboveLimitUp || e is PriceBelowLimitDown
                    || e is Other)
            }
        }),
{
    assert(quote.fill_price() == Some(price as Decimal));
}

} // verus!
