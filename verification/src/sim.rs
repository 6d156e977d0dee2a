//! The simulated broker: market prices, play money, the rules of the A-share market.

use vstd::prelude::*;

use crate::account;
use crate::account::{Account, Position, PositionView, Trade, TradeView};
use crate::decimal;
use crate::decimal::{Decimal, MONEY_MAX, PRICE_MAX, UNIT};
use crate::intent;
use crate::intent::{
    Execution, ExecutionView, IntentView, OrderIntent, OrderSide, RejectReason, RejectView,
};
use crate::ledger;
use crate::ledger::{AccountDb, LedgerView, DAY_MS, MAX_ROWS};
use crate::rules;
use crate::rules::{
    board_allowed, is_trading_time, is_valid_buy_quantity, is_valid_sell_quantity,
    limit_down_price, limit_up_price, round_price, round_to_cents, trade_fees,
};

verus! {

/// The largest share of the total assets that one stock may take: 20%.
pub const MAX_POSITION_PCT: Decimal = 200_000;

/// The same limit in percent.
pub const MAX_POSITION_PERCENT: Decimal = 20_000_000;

/// The most stocks that may be held.
pub const MAX_POSITIONS: usize = 3;

/// The largest magnitude of the cash of an account that trades: half of what an amount may be.
pub const CASH_MAX: Decimal = 500_000_000_000_000_000_000_000_000_000;

/// The local time of a trade.
#[derive(Debug, Clone, Copy, PartialEq, Eq, Structural)]
pub struct Clock {
    /// ISO weekday: 1 is Monday, 7 is Sunday.
    pub weekday_iso: u32,
    pub minute_of_day: u32,
    pub now_ms: i64,
    /// The last midnight.
    pub day_start_ms: i64,
}

/// What the market data says of a stock.
#[derive(Debug, Clone, Copy, PartialEq, Eq, Structural)]
pub struct Quote {
    /// The price of the latest snapshot.
    pub snapshot_price: Option<Decimal>,
    /// The close of the latest daily bar.
    pub prev_close: Option<Decimal>,
    /// Trading days since the first daily bar.
    pub days_since_first_bar: Option<i64>,
}

impl Quote {
    pub open spec fn ok(self) -> bool {
        &&& self.snapshot_price matches Some(p) ==> decimal::price_ok(p as int)
        &&& self.prev_close matches Some(p) ==> decimal::price_ok(p as int)
    }

    /// The price at which an order is filled: the latest snapshot, or else the last close.
    pub open spec fn fill_price(self) -> Option<Decimal> {
        let price = if self.snapshot_price is Some {
            self.snapshot_price
        } else {
            self.prev_close
        };
        match price {
            Some(p) => if p > 0 {
                Some(p)
            } else {
                None
            },
            None => None,
        }
    }

    /// The close that the price limits go by; a stock in its first five days has no limits.
    pub open spec fn limit_base(self) -> Option<Decimal> {
        if self.days_since_first_bar matches Some(d) && d < 5 {
            None
        } else {
            self.prev_close
        }
    }
}

/// What came of an order.
pub open spec fn outcome(r: Result<Execution, RejectReason>) -> Result<ExecutionView, RejectView> {
    match r {
        Ok(e) => Ok(e@),
        Err(e) => Err(e@),
    }
}

/// Refuses an order outside the trading sessions.
pub fn check_trading_time(clock: &Clock) -> (r: Result<(), RejectReason>)
    ensures
        r is Ok <==> rules::in_session(clock.weekday_iso, clock.minute_of_day),
        r matches Err(e) ==> e@ == RejectView::NotTradingTime,
{
    if is_trading_time(clock.weekday_iso, clock.minute_of_day) {
        Ok(())
    } else {
        Err(RejectReason::NotTradingTime)
    }
}

/// The price at which an order is filled.
pub fn market_price(quote: &Quote, thscode: &str) -> (r: Result<Decimal, RejectReason>)
    ensures
        match quote.fill_price() {
            Some(p) => r == Ok::<Decimal, RejectReason>(p),
            None => r matches Err(e) && e@ == RejectView::NoPrice(thscode@),
        },
{
    let price = match quote.snapshot_price {
        Some(p) => Some(p),
        None => quote.prev_close,
    };
    match price {
        Some(p) => if p > 0 {
            Ok(p)
        } else {
            Err(RejectReason::NoPrice(thscode.to_owned()))
        },
        None => Err(RejectReason::NoPrice(thscode.to_owned())),
    }
}

/// The fee of a trade.
pub fn fees(amount: Decimal, side: OrderSide) -> (r: Decimal)
    requires
        decimal::money_ok(amount as int),
    ensures
        r == rules::trade_fee(amount as int, side == OrderSide::Sell),
{
    trade_fees(amount, side == OrderSide::Sell)
}

/// The amount of a trade, in whole cents.
pub open spec fn trade_amount(price: Decimal, quantity: u32) -> int {
    rules::price_rounded(price * quantity)
}

/// What refuses a purchase whatever the books say.
pub open spec fn rules_refuse_buy(
    order: IntentView,
    price: Decimal,
    prev_close: Option<Decimal>,
    initial_capital: Decimal,
    clock: Clock,
) -> Option<RejectView> {
    if !rules::in_session(clock.weekday_iso, clock.minute_of_day) {
        Some(RejectView::NotTradingTime)
    } else if !rules::buy_quantity_ok(order.thscode, order.quantity) {
        Some(RejectView::LotSize(order.quantity))
    } else if !rules::may_trade(initial_capital, order.thscode) {
        Some(RejectView::BoardNotAllowed(order.thscode))
    } else if prev_close matches Some(prev) && price >= rules::limit_up(
        prev as int,
        order.thscode,
        order.name,
    ) {
        Some(RejectView::LimitUp(order.thscode))
    } else {
        None
    }
}

/// The market value of a stock after a purchase.
pub open spec fn value_after_buy(
    positions: Seq<PositionView>,
    order: IntentView,
    price: Decimal,
) -> int {
    (match ledger::held(positions, order.thscode) {
        Some(p) => p.quantity * price,
        None => 0,
    }) + trade_amount(price, order.quantity)
}

/// What refuses a purchase by the books of an open account: too little cash, too much of one
/// stock, or too many stocks.
pub open spec fn books_refuse_buy(
    books: LedgerView,
    account: Account,
    order: IntentView,
    price: Decimal,
) -> Option<RejectView> {
    let amount = trade_amount(price, order.quantity);
    let cost = amount + rules::trade_fee(amount, false);
    if cost > account.cash {
        Some(RejectView::InsufficientFunds(cost as Decimal, account.cash))
    } else if value_after_buy(books.positions, order, price) * UNIT > books.asset_at_cost(account)
        * MAX_POSITION_PCT {
        Some(RejectView::PositionLimit(MAX_POSITION_PERCENT))
    } else if ledger::held(books.positions, order.thscode) is None && books.positions.len()
        >= MAX_POSITIONS {
        Some(RejectView::MaxPositions(MAX_POSITIONS))
    } else {
        None
    }
}

/// The position after a purchase: the average cost over all shares, in whole cents.
pub open spec fn position_after_buy(
    positions: Seq<PositionView>,
    order: IntentView,
    price: Decimal,
) -> PositionView {
    match ledger::held(positions, order.thscode) {
        Some(p) => {
            let quantity = p.quantity + order.quantity;
            PositionView {
                thscode: p.thscode,
                name: p.name,
                quantity: quantity as u32,
                avg_cost: rules::to_cents(
                    p.avg_cost * p.quantity + trade_amount(price, order.quantity),
                    quantity,
                ) as Decimal,
            }
        },
        None => PositionView {
            thscode: order.thscode,
            name: if order.name.len() == 0 {
                order.thscode
            } else {
                order.name
            },
            quantity: order.quantity,
            avg_cost: price,
        },
    }
}

/// The record of a trade.
pub open spec fn trade_record(order: IntentView, side: OrderSide, price: Decimal, now_ms: i64) -> TradeView {
    let amount = trade_amount(price, order.quantity);
    TradeView {
        thscode: order.thscode,
        name: order.name,
        side,
        price,
        quantity: order.quantity,
        amount: amount as Decimal,
        fee: rules::trade_fee(amount, side == OrderSide::Sell) as Decimal,
        ts_ms: now_ms,
        decision_id: order.decision_id,
    }
}

/// Cash after a purchase.
pub open spec fn cash_after_buy(account: Account, order: IntentView, price: Decimal) -> int {
    let amount = trade_amount(price, order.quantity);
    rules::price_rounded(account.cash - amount - rules::trade_fee(amount, false))
}

/// Cash after a sale.
pub open spec fn cash_after_sell(account: Account, order: IntentView, price: Decimal) -> int {
    let amount = trade_amount(price, order.quantity);
    rules::price_rounded(account.cash + amount - rules::trade_fee(amount, true))
}

/// What is reported of a trade.
pub open spec fn execution(
    order: IntentView,
    side: OrderSide,
    price: Decimal,
    cash: int,
) -> ExecutionView {
    let amount = trade_amount(price, order.quantity);
    ExecutionView {
        intent: order,
        price,
        amount: amount as Decimal,
        fee: rules::trade_fee(amount, side == OrderSide::Sell) as Decimal,
        cash_after: Some(cash as Decimal),
    }
}

/// The books after a purchase was tried, and what came of it. A purchase that only the books
/// refuse leaves the account opened.
pub open spec fn after_buy(
    books: LedgerView,
    order: IntentView,
    price: Decimal,
    prev_close: Option<Decimal>,
    initial_capital: Decimal,
    clock: Clock,
) -> (LedgerView, Result<ExecutionView, RejectView>) {
    match rules_refuse_buy(order, price, prev_close, initial_capital, clock) {
        Some(e) => (books, Err(e)),
        None => {
            let opened = books.opened(initial_capital);
            let account = opened.account->0;
            match books_refuse_buy(opened, account, order, price) {
                Some(e) => (opened, Err(e)),
                None => {
                    let cash = cash_after_buy(account, order, price);
                    (
                        opened.with_cash(cash).with_position(
                            position_after_buy(opened.positions, order, price),
                        ).with_trade(trade_record(order, OrderSide::Buy, price, clock.now_ms)),
                        Ok(execution(order, OrderSide::Buy, price, cash)),
                    )
                },
            }
        },
    }
}

/// The shares of a position that may be sold today: those bought today stay.
pub open spec fn sellable(books: LedgerView, p: PositionView, clock: Clock) -> u32 {
    let bought = ledger::bought_sum(
        books.trades,
        p.thscode,
        clock.day_start_ms,
        (clock.day_start_ms + DAY_MS) as i64,
    );
    if p.quantity >= bought {
        (p.quantity - bought) as u32
    } else {
        0
    }
}

/// What refuses a sale.
pub open spec fn refuse_sell(
    books: LedgerView,
    order: IntentView,
    price: Decimal,
    prev_close: Option<Decimal>,
    clock: Clock,
) -> Option<RejectView> {
    if !rules::in_session(clock.weekday_iso, clock.minute_of_day) {
        Some(RejectView::NotTradingTime)
    } else {
        match ledger::held(books.positions, order.thscode) {
            None => Some(RejectView::InsufficientPosition(order.thscode, 0)),
            Some(p) => if p.quantity < order.quantity {
                Some(RejectView::InsufficientPosition(order.thscode, p.quantity))
            } else if !rules::sell_quantity_ok(order.thscode, order.quantity, p.quantity) {
                Some(RejectView::LotSize(order.quantity))
            } else if order.quantity > sellable(books, p, clock) {
                Some(RejectView::TPlusOne(order.thscode, sellable(books, p, clock)))
            } else if prev_close matches Some(prev) && price <= rules::limit_down(
                prev as int,
                order.thscode,
                p.name,
            ) {
                Some(RejectView::LimitDown(order.thscode))
            } else {
                None
            },
        }
    }
}

/// The books after a sale was tried, and what came of it.
pub open spec fn after_sell(
    books: LedgerView,
    order: IntentView,
    price: Decimal,
    prev_close: Option<Decimal>,
    initial_capital: Decimal,
    clock: Clock,
) -> (LedgerView, Result<ExecutionView, RejectView>) {
    match refuse_sell(books, order, price, prev_close, clock) {
        Some(e) => (books, Err(e)),
        None => {
            let opened = books.opened(initial_capital);
            let cash = cash_after_sell(opened.account->0, order, price);
            let p = ledger::held(books.positions, order.thscode)->0;
            let paid = opened.with_cash(cash);
            let left = if p.quantity == order.quantity {
                paid.without_position(order.thscode)
            } else {
                paid.with_position(
                    PositionView { quantity: (p.quantity - order.quantity) as u32, ..p },
                )
            };
            (
                left.with_trade(trade_record(order, OrderSide::Sell, price, clock.now_ms)),
                Ok(execution(order, OrderSide::Sell, price, cash)),
            )
        },
    }
}

/// The cash of the account, opened or about to be.
pub open spec fn cash_of(books: LedgerView, initial_capital: Decimal) -> Decimal {
    match books.account {
        Some(a) => a.cash,
        None => initial_capital,
    }
}

/// What the arithmetic of a trade takes: amounts in range, and numbers left for the record.
pub open spec fn can_trade(
    books: LedgerView,
    order: IntentView,
    price: Decimal,
    prev_close: Option<Decimal>,
    initial_capital: Decimal,
    clock: Clock,
) -> bool {
    &&& 0 < price <= PRICE_MAX
    &&& prev_close matches Some(p) ==> decimal::price_ok(p as int)
    &&& -CASH_MAX <= cash_of(books, initial_capital) <= CASH_MAX
    &&& decimal::money_ok(initial_capital as int)
    &&& books.last_trade_id < i64::MAX
    &&& clock.day_start_ms <= i64::MAX - DAY_MS
    &&& books.positions.len() < MAX_ROWS
    &&& order.side == OrderSide::Buy ==> (ledger::held(books.positions, order.thscode) matches Some(
        p,
    ) ==> p.quantity + order.quantity <= u32::MAX)
}

/// Amounts and fees of trades are in range, and amounts are whole cents.
pub proof fn lemma_amount(price: Decimal, quantity: u32)
    requires
        0 < price <= PRICE_MAX,
    ensures
        0 <= price * quantity <= PRICE_MAX * quantity,
        PRICE_MAX * quantity <= PRICE_MAX * u32::MAX,
        0 <= trade_amount(price, quantity) <= PRICE_MAX * quantity,
        trade_amount(price, quantity) % (decimal::CENT as int) == 0,
        0 <= rules::trade_fee(trade_amount(price, quantity), false) <= PRICE_MAX * u32::MAX,
        0 <= rules::trade_fee(trade_amount(price, quantity), true) <= PRICE_MAX * u32::MAX,
{
    assert(0 <= price * quantity <= PRICE_MAX * quantity) by (nonlinear_arith)
        requires
            0 < price <= PRICE_MAX,
            quantity >= 0,
    ;
    assert(PRICE_MAX * quantity <= PRICE_MAX * u32::MAX) by (nonlinear_arith)
        requires
            quantity <= u32::MAX,
            PRICE_MAX >= 0,
    ;
    let amount = trade_amount(price, quantity);
    rules::lemma_cents_close(price * quantity, 1);
    rules::lemma_cents_monotone(price * quantity, PRICE_MAX * quantity, 1);
    assert((PRICE_MAX * quantity) % (decimal::CENT as int) == 0) by {
        assert(PRICE_MAX * quantity == (100_000_000_000 * quantity) * 10_000);
        vstd::arithmetic::div_mod::lemma_mod_multiples_basic(100_000_000_000 * quantity, 10_000);
    }
    rules::lemma_cents_exact(PRICE_MAX * quantity, 1);
    rules::fees_grow_with_the_amount(amount, amount);
    let top = decimal::max(amount * rules::COMMISSION_RATE, rules::COMMISSION_MIN * UNIT) + amount
        * rules::STAMP_RATE + amount * rules::TRANSFER_RATE;
    rules::lemma_cents_bound(top, UNIT as int);
    rules::lemma_cents_close(top, UNIT as int);
}

proof fn lemma_cash_rounds(cash: int)
    requires
        decimal::money_ok(cash),
    ensures
        decimal::money_ok(rules::price_rounded(cash)),
        cash >= 0 ==> rules::price_rounded(cash) >= 0,
{
    rules::lemma_cents_close(cash, 1);
    rules::lemma_cents_exact(MONEY_MAX as int, 1);
    rules::lemma_cents_exact(-MONEY_MAX, 1);
    rules::lemma_cents_monotone(cash, MONEY_MAX as int, 1);
    rules::lemma_cents_monotone(-MONEY_MAX, cash, 1);
}

proof fn lemma_average(avg_cost: Decimal, quantity: u32, amount: int, more: u32)
    requires
        decimal::price_ok(avg_cost as int),
        0 <= amount <= PRICE_MAX * more,
        more > 0,
    ensures
        -PRICE_MAX * u32::MAX <= avg_cost * quantity <= PRICE_MAX * u32::MAX,
        decimal::price_ok(rules::to_cents(avg_cost * quantity + amount, quantity + more)),
{
    let n = quantity + more;
    let sum = avg_cost * quantity + amount;
    assert(-PRICE_MAX * quantity <= avg_cost * quantity <= PRICE_MAX * quantity)
        by (nonlinear_arith)
        requires
            -PRICE_MAX <= avg_cost <= PRICE_MAX,
            quantity >= 0,
    ;
    assert(-PRICE_MAX * n == -PRICE_MAX * quantity - PRICE_MAX * more) by (nonlinear_arith)
        requires
            n == quantity + more,
    ;
    assert(PRICE_MAX * n == PRICE_MAX * quantity + PRICE_MAX * more) by (nonlinear_arith)
        requires
            n == quantity + more,
    ;
    rules::lemma_cents_exact(PRICE_MAX as int, n);
    rules::lemma_cents_exact(-PRICE_MAX, n);
    rules::lemma_cents_monotone(-PRICE_MAX * n, sum, n);
    rules::lemma_cents_monotone(sum, PRICE_MAX * n, n);
}

/// Buys at a price.
pub fn buy(
    acct: &mut AccountDb,
    order: &OrderIntent,
    price: Decimal,
    prev_close: Option<Decimal>,
    initial_capital: Decimal,
    clock: &Clock,
) -> (r: Result<Execution, RejectReason>)
    requires
        old(acct).wf(),
        order.side == OrderSide::Buy,
        can_trade(old(acct)@, order@, price, prev_close, initial_capital, *clock),
    ensures
        final(acct).wf(),
        (final(acct)@, outcome(r)) == after_buy(
            old(acct)@,
            order@,
            price,
            prev_close,
            initial_capital,
            *clock,
        ),
{
    if let Err(e) = check_trading_time(clock) {
        return Err(e);
    }
    if !is_valid_buy_quantity(order.thscode.as_str(), order.quantity) {
        return Err(RejectReason::LotSize(order.quantity));
    }
    if !board_allowed(initial_capital, order.thscode.as_str()) {
        return Err(RejectReason::BoardNotAllowed(order.thscode.clone()));
    }
    if let Some(prev) = prev_close {
        let limit_up = limit_up_price(prev, order.thscode.as_str(), order.name.as_str());
        if price >= limit_up {
            return Err(RejectReason::LimitUp(order.thscode.clone()));
        }
    }
    proof {
        lemma_amount(price, order.quantity);
    }
    let amount = round_price(price * order.quantity as i128);
    let fee = fees(amount, OrderSide::Buy);
    let account = acct.get_or_init_account(initial_capital);
    if amount + fee > account.cash {
        return Err(RejectReason::InsufficientFunds(amount + fee, account.cash));
    }
    let total = acct.total_asset_estimate(&account);
    let position = acct.position(order.thscode.as_str());
    let ghost opened = acct@;
    let held_value: i128 = match &position {
        Some(p) => {
            proof {
                lemma_amount(price, p.quantity);
                assert(p.quantity * price == price * p.quantity) by (nonlinear_arith);
            }
            p.quantity as i128 * price
        },
        None => 0,
    };
    if (held_value + amount) * UNIT > total * MAX_POSITION_PCT {
        return Err(RejectReason::PositionLimit(MAX_POSITION_PERCENT));
    }
    if position.is_none() {
        let held = acct.positions().len();
        if held >= MAX_POSITIONS {
            return Err(RejectReason::MaxPositions(MAX_POSITIONS));
        }
    }
    proof {
        lemma_cash_rounds(account.cash - amount - fee);
    }
    let cash_after = round_price(account.cash - amount - fee);
    acct.set_account_cash(cash_after);
    match position {
        Some(p) => {
            let quantity: u32 = p.quantity + order.quantity;
            proof {
                lemma_average(p.avg_cost, p.quantity, amount as int, order.quantity);
            }
            let avg_cost = round_to_cents(p.avg_cost * p.quantity as i128 + amount, quantity as i128);
            acct.upsert_position(
                &Position { thscode: p.thscode, name: p.name, quantity, avg_cost },
            );
        },
        None => {
            let name = if order.name.as_str().unicode_len() == 0 {
                order.thscode.clone()
            } else {
                order.name.clone()
            };
            acct.upsert_position(
                &Position {
                    thscode: order.thscode.clone(),
                    name,
                    quantity: order.quantity,
                    avg_cost: price,
                },
            );
        },
    }
    let trade = Trade {
        thscode: order.thscode.clone(),
        name: order.name.clone(),
        side: OrderSide::Buy,
        price,
        quantity: order.quantity,
        amount,
        fee,
        decision_id: order.decision_id,
    };
    let _id = acct.insert_trade(trade, clock.now_ms);
    Ok(Execution { intent: order.clone(), price, amount, fee, cash_after: Some(cash_after) })
}


/// Sells at a price.
pub fn sell(
    acct: &mut AccountDb,
    order: &OrderIntent,
    price: Decimal,
    prev_close: Option<Decimal>,
    initial_capital: Decimal,
    clock: &Clock,
) -> (r: Result<Execution, RejectReason>)
    requires
        old(acct).wf(),
        order.side == OrderSide::Sell,
        can_trade(old(acct)@, order@, price, prev_close, initial_capital, *clock),
    ensures
        final(acct).wf(),
        (final(acct)@, outcome(r)) == after_sell(
            old(acct)@,
            order@,
            price,
            prev_close,
            initial_capital,
            *clock,
        ),
{
    if let Err(e) = check_trading_time(clock) {
        return Err(e);
    }
    let ghost books = acct@;
    let position = match acct.position(order.thscode.as_str()) {
        Some(p) => p,
        None => return Err(RejectReason::InsufficientPosition(order.thscode.clone(), 0)),
    };
    proof {
        ledger::positions_are_found(books.positions, order.thscode@);
    }
    if position.quantity < order.quantity {
        return Err(
            RejectReason::InsufficientPosition(order.thscode.clone(), position.quantity),
        );
    }
    if !is_valid_sell_quantity(order.thscode.as_str(), order.quantity, position.quantity) {
        return Err(RejectReason::LotSize(order.quantity));
    }
    let bought = acct.bought_between(
        order.thscode.as_str(),
        clock.day_start_ms,
        clock.day_start_ms + DAY_MS,
    );
    let can_sell: u32 = if position.quantity >= bought {
        position.quantity - bought
    } else {
        0
    };
    if order.quantity > can_sell {
        return Err(RejectReason::TPlusOne(order.thscode.clone(), can_sell));
    }
    if let Some(prev) = prev_close {
        let limit_down = limit_down_price(prev, order.thscode.as_str(), position.name.as_str());
        if price <= limit_down {
            return Err(RejectReason::LimitDown(order.thscode.clone()));
        }
    }
    proof {
        lemma_amount(price, order.quantity);
    }
    let amount = round_price(price * order.quantity as i128);
    let fee = fees(amount, OrderSide::Sell);
    let account = acct.get_or_init_account(initial_capital);
    proof {
        lemma_cash_rounds(account.cash + amount - fee);
    }
    let cash_after = round_price(account.cash + amount - fee);
    acct.set_account_cash(cash_after);
    let left: u32 = position.quantity - order.quantity;
    if left == 0 {
        acct.delete_position(order.thscode.as_str());
    } else {
        acct.upsert_position(
            &Position {
                thscode: position.thscode,
                name: position.name,
                quantity: left,
                avg_cost: position.avg_cost,
            },
        );
    }
    let trade = Trade {
        thscode: order.thscode.clone(),
        name: order.name.clone(),
        side: OrderSide::Sell,
        price,
        quantity: order.quantity,
        amount,
        fee,
        decision_id: order.decision_id,
    };
    let _id = acct.insert_trade(trade, clock.now_ms);
    Ok(Execution { intent: order.clone(), price, amount, fee, cash_after: Some(cash_after) })
}

/// The simulated broker of one account.
#[derive(Debug)]
pub struct SimBroker {
    pub initial_capital: Decimal,
}

/// The books after an order was submitted, and what came of it.
pub open spec fn after_submit(
    books: LedgerView,
    order: IntentView,
    quote: Quote,
    initial_capital: Decimal,
    clock: Clock,
) -> (LedgerView, Result<ExecutionView, RejectView>) {
    match quote.fill_price() {
        None => (books, Err(RejectView::NoPrice(order.thscode))),
        Some(price) => match order.side {
            OrderSide::Buy => after_buy(
                books,
                order,
                price,
                quote.limit_base(),
                initial_capital,
                clock,
            ),
            OrderSide::Sell => after_sell(
                books,
                order,
                price,
                quote.limit_base(),
                initial_capital,
                clock,
            ),
        },
    }
}

/// Whether the numbers of an order are in the range of the arithmetic.
pub open spec fn can_submit(
    books: LedgerView,
    order: IntentView,
    quote: Quote,
    initial_capital: Decimal,
    clock: Clock,
) -> bool {
    quote.ok() && (quote.fill_price() matches Some(price) ==> can_trade(
        books,
        order,
        price,
        quote.limit_base(),
        initial_capital,
        clock,
    ))
}

/// The books after an order was submitted, and what came of it; an order with a number out
/// of range is refused.
pub open spec fn after_submit_any(
    books: LedgerView,
    order: IntentView,
    quote: Quote,
    initial_capital: Decimal,
    clock: Clock,
) -> (LedgerView, Result<ExecutionView, RejectView>) {
    if can_submit(books, order, quote, initial_capital, clock) {
        after_submit(books, order, quote, initial_capital, clock)
    } else {
        (books, Err(RejectView::Other("数值超出可处理范围"@)))
    }
}

proof fn lemma_refusals_fit(
    books: LedgerView,
    order: IntentView,
    quote: Quote,
    initial_capital: Decimal,
    clock: Clock,
)
    requires
        can_submit(books, order, quote, initial_capital, clock),
    ensures
        after_submit(books, order, quote, initial_capital, clock).1 matches Err(e) ==> e.fits(),
{
    if let Some(price) = quote.fill_price() {
        lemma_amount(price, order.quantity);
    }
}

impl SimBroker {
    pub fn new(initial_capital: Decimal) -> (r: Self)
        ensures
            r.initial_capital == initial_capital,
    {
        SimBroker { initial_capital }
    }

    /// Fills an order at the market price, or refuses it.
    pub fn submit(
        &self,
        acct: &mut AccountDb,
        order: &OrderIntent,
        quote: &Quote,
        clock: &Clock,
    ) -> (r: Result<Execution, RejectReason>)
        requires
            old(acct).wf(),
            quote.ok(),
            quote.fill_price() matches Some(price) ==> can_trade(
                old(acct)@,
                order@,
                price,
                quote.limit_base(),
                self.initial_capital,
                *clock,
            ),
        ensures
            final(acct).wf(),
            (final(acct)@, outcome(r)) == after_submit(
                old(acct)@,
                order@,
                *quote,
                self.initial_capital,
                *clock,
            ),
    {
        let price = match market_price(quote, order.thscode.as_str()) {
            Ok(p) => p,
            Err(e) => return Err(e),
        };
        let is_new = match quote.days_since_first_bar {
            Some(d) => d < 5,
            None => false,
        };
        let prev = if is_new {
            None
        } else {
            quote.prev_close
        };
        match order.side {
            OrderSide::Buy => buy(acct, order, price, prev, self.initial_capital, clock),
            OrderSide::Sell => sell(acct, order, price, prev, self.initial_capital, clock),
        }
    }

    /// Fills an order at the market price, or refuses it; refuses it too where a number is
    /// out of the range of the arithmetic.
    pub fn submit_any(
        &self,
        acct: &mut AccountDb,
        order: &OrderIntent,
        quote: &Quote,
        clock: &Clock,
    ) -> (r: Result<Execution, RejectReason>)
        requires
            old(acct).wf(),
        ensures
            final(acct).wf(),
            (final(acct)@, outcome(r)) == after_submit_any(
                old(acct)@,
                order@,
                *quote,
                self.initial_capital,
                *clock,
            ),
            r matches Err(e) ==> e.fits(),
    {
        if !self.in_range(acct, order, quote, clock) {
            return Err(RejectReason::Other("数值超出可处理范围".to_owned()));
        }
        proof {
            lemma_refusals_fit(
                old(acct)@,
                order@,
                *quote,
                self.initial_capital,
                *clock,
            );
        }
        self.submit(acct, order, quote, clock)
    }

    fn in_range(&self, acct: &AccountDb, order: &OrderIntent, quote: &Quote, clock: &Clock) -> (r:
        bool)
        requires
            acct.wf(),
        ensures
            r == can_submit(acct@, order@, *quote, self.initial_capital, *clock),
    {
        let base_ok = match quote.prev_close {
            Some(p) => -PRICE_MAX <= p && p <= PRICE_MAX,
            None => true,
        };
        let last_ok = match quote.snapshot_price {
            Some(p) => -PRICE_MAX <= p && p <= PRICE_MAX,
            None => true,
        };
        if !base_ok || !last_ok {
            return false;
        }
        if market_price(quote, order.thscode.as_str()).is_err() {
            return true;
        }
        let cash = match acct.account {
            Some(a) => a.cash,
            None => self.initial_capital,
        };
        let fits = match acct.position(order.thscode.as_str()) {
            Some(p) => p.quantity as u64 + order.quantity as u64 <= 4_294_967_295,
            None => true,
        };
        -CASH_MAX <= cash && cash <= CASH_MAX && -MONEY_MAX <= self.initial_capital
            && self.initial_capital <= MONEY_MAX && acct.last_trade_id < i64::MAX
            && clock.day_start_ms <= i64::MAX - DAY_MS && acct.positions.len() < MAX_ROWS && (
        order.side == OrderSide::Sell || fits)
    }

    /// The cash account.
    pub fn account(&self, acct: &mut AccountDb) -> (r: Account)
        requires
            old(acct).wf(),
            decimal::money_ok(self.initial_capital as int),
        ensures
            final(acct).wf(),
            final(acct)@ == old(acct)@.opened(self.initial_capital),
            final(acct)@.account == Some(r),
    {
        acct.get_or_init_account(self.initial_capital)
    }

    /// The positions, by code.
    pub fn positions(&self, acct: &AccountDb) -> (r: Vec<Position>)
        ensures
            account::position_views(r@) == acct@.positions,
    {
        acct.positions()
    }
}

/// A refused order changes nothing but that the account may be open afterwards.
pub proof fn refused_orders_change_nothing(
    books: LedgerView,
    order: IntentView,
    quote: Quote,
    initial_capital: Decimal,
    clock: Clock,
)
    ensures
        ({
            let (after, r) = after_submit(books, order, quote, initial_capital, clock);
            r is Err ==> after == books || after == books.opened(initial_capital)
        }),
{
}

/// A purchase that goes through leaves the cash at zero or above, one stock at a fifth of the
/// total assets at most, no more than three stocks unless more were held before, and is made
/// in session, in a valid quantity, on a permitted board and below the limit-up price.
pub proof fn purchases_keep_the_guards(
    books: LedgerView,
    order: IntentView,
    price: Decimal,
    prev_close: Option<Decimal>,
    initial_capital: Decimal,
    clock: Clock,
)
    requires
        books.ok(),
        order.side == OrderSide::Buy,
        can_trade(books, order, price, prev_close, initial_capital, clock),
    ensures
        ({
            let (after, r) = after_buy(books, order, price, prev_close, initial_capital, clock);
            let before = books.opened(initial_capital);
            r is Ok ==> {
                &&& after.account matches Some(a) && a.cash >= 0 && a.cash
                    <= before.account->0.cash
                &&& value_after_buy(books.positions, order, price) * UNIT <= before.asset_at_cost(
                    before.account->0,
                ) * MAX_POSITION_PCT
                &&& after.positions.len() <= decimal::max(
                    MAX_POSITIONS as int,
                    books.positions.len() as int,
                )
                &&& rules::in_session(clock.weekday_iso, clock.minute_of_day)
                &&& rules::buy_quantity_ok(order.thscode, order.quantity)
                &&& rules::may_trade(initial_capital, order.thscode)
                &&& prev_close matches Some(prev) ==> price < rules::limit_up(
                    prev as int,
                    order.thscode,
                    order.name,
                )
            }
        }),
{
    let (after, r) = after_buy(books, order, price, prev_close, initial_capital, clock);
    if r is Ok {
        lemma_amount(price, order.quantity);
        let cash = books.opened(initial_capital).account->0.cash;
        let amount = trade_amount(price, order.quantity);
        let fee = rules::trade_fee(amount, false);
        lemma_cash_rounds(cash - amount - fee);
        rules::lemma_cents_close(cash - amount - fee, 1);
        rules::fees_grow_with_the_amount(amount, amount);
        let p = position_after_buy(books.positions, order, price);
        ledger::positions_are_found(books.positions, order.thscode);
        ledger::written_positions_are_read_back(books.positions, p, p.thscode);
    }
}

/// A sale that goes through sells shares that are held and were not bought today, takes them
/// out of the position, and is made in session and above the limit-down price.
pub proof fn sales_respect_t_plus_one(
    books: LedgerView,
    order: IntentView,
    price: Decimal,
    prev_close: Option<Decimal>,
    initial_capital: Decimal,
    clock: Clock,
)
    requires
        books.ok(),
    ensures
        ({
            let (after, r) = after_sell(books, order, price, prev_close, initial_capital, clock);
            r is Ok ==> {
                &&& ledger::held(books.positions, order.thscode) matches Some(p) && {
                    &&& order.quantity + ledger::bought_sum(
                        books.trades,
                        order.thscode,
                        clock.day_start_ms,
                        (clock.day_start_ms + DAY_MS) as i64,
                    ) <= p.quantity
                    &&& match ledger::held(after.positions, order.thscode) {
                        Some(q) => q.quantity == p.quantity - order.quantity && q.avg_cost
                            == p.avg_cost,
                        None => order.quantity == p.quantity,
                    }
                    &&& prev_close matches Some(prev) ==> price > rules::limit_down(
                        prev as int,
                        order.thscode,
                        p.name,
                    )
                }
                &&& rules::in_session(clock.weekday_iso, clock.minute_of_day)
            }
        }),
{
    ledger::positions_are_found(books.positions, order.thscode);
    lemma_bought_natural(
        books.trades,
        order.thscode,
        clock.day_start_ms,
        (clock.day_start_ms + DAY_MS) as i64,
    );
    if let Some(p) = ledger::held(books.positions, order.thscode) {
        ledger::deleted_positions_are_gone(books.positions, order.thscode, order.thscode);
        ledger::written_positions_are_read_back(
            books.positions,
            PositionView { quantity: (p.quantity - order.quantity) as u32, ..p },
            order.thscode,
        );
    }
}

/// What was bought is not negative.
pub proof fn lemma_bought_natural(trades: Seq<TradeView>, code: Seq<char>, start: i64, end: i64)
    ensures
        ledger::bought_sum(trades, code, start, end) >= 0,
    decreases trades.len(),
{
    if trades.len() > 0 {
        lemma_bought_natural(trades.drop_last(), code, start, end);
    }
}

/// A stock that is bought for the first time cannot be sold again on the same day.
pub proof fn todays_purchase_cannot_be_sold_today(
    books: LedgerView,
    order: IntentView,
    price: Decimal,
    prev_close: Option<Decimal>,
    initial_capital: Decimal,
    clock: Clock,
    sale: IntentView,
    later: Clock,
    later_price: Decimal,
    later_close: Option<Decimal>,
)
    requires
        books.ok(),
        ledger::held(books.positions, order.thscode) is None,
        clock.day_start_ms <= clock.now_ms < clock.day_start_ms + DAY_MS <= i64::MAX,
        later.day_start_ms == clock.day_start_ms,
        sale.thscode == order.thscode,
        after_buy(books, order, price, prev_close, initial_capital, clock).1 is Ok,
    ensures
        after_sell(
            after_buy(books, order, price, prev_close, initial_capital, clock).0,
            sale,
            later_price,
            later_close,
            initial_capital,
            later,
        ).1 is Err,
{
    let after = after_buy(books, order, price, prev_close, initial_capital, clock).0;
    let p = position_after_buy(books.positions, order, price);
    ledger::written_positions_are_read_back(books.positions, p, order.thscode);
    assert(after.trades.drop_last() =~= books.trades);
    lemma_bought_natural(
        books.trades,
        order.thscode,
        clock.day_start_ms,
        (clock.day_start_ms + DAY_MS) as i64,
    );
}

/// Buying and selling again at the same price only costs the fees: cash in whole cents is
/// lower afterwards.
pub proof fn round_trips_cost_money(account: Account, order: IntentView, price: Decimal)
    requires
        0 < price <= PRICE_MAX,
        account.cash % decimal::CENT == 0,
        -CASH_MAX <= account.cash <= CASH_MAX,
    ensures
        ({
            let cash = cash_after_buy(account, order, price);
            cash_after_sell(
                Account { cash: cash as Decimal, initial_capital: account.initial_capital },
                order,
                price,
            ) <= account.cash - 2 * rules::COMMISSION_MIN
        }),
{
    lemma_amount(price, order.quantity);
    let amount = trade_amount(price, order.quantity);
    let buy_fee = rules::trade_fee(amount, false);
    let sell_fee = rules::trade_fee(amount, true);
    assert(buy_fee >= rules::COMMISSION_MIN && sell_fee >= rules::COMMISSION_MIN) by {
        rules::fees_grow_with_the_amount(amount, amount);
    }
    assert(amount % (decimal::CENT as int) == 0) by {
        rules::lemma_cents_close(price * order.quantity, 1);
    }
    lemma_fee_in_cents(amount, false);
    lemma_fee_in_cents(amount, true);
    let first = account.cash - amount - buy_fee;
    assert(rules::price_rounded(first) == first) by {
        rules::lemma_cents_exact(first, 1);
    }
    let last = first + amount - sell_fee;
    assert(rules::price_rounded(last) == last) by {
        rules::lemma_cents_exact(last, 1);
    }
}

/// Fees are whole cents.
pub proof fn lemma_fee_in_cents(amount: int, selling: bool)
    ensures
        rules::trade_fee(amount, selling) % (decimal::CENT as int) == 0,
{
    rules::lemma_cents_close(
        decimal::max(amount * rules::COMMISSION_RATE, rules::COMMISSION_MIN * UNIT) + (if selling {
            amount * rules::STAMP_RATE
        } else {
            0
        }) + amount * rules::TRANSFER_RATE,
        UNIT as int,
    );
}

} // verus!
