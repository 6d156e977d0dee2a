//! Laws of the risk control: when a position is sold, how much of it, and when buying stops.

use vstd::prelude::*;

use crate::account::PositionView;
use crate::decimal;
use crate::decimal::UNIT;
use crate::intent::{IntentView, OrderSide};
use crate::laws::books;
use crate::ledger;
use crate::ledger::LedgerView;
use crate::number;
use crate::order::Fraction;
use crate::risk;
use crate::risk::{MarketView, PriceView, RiskConfig, RiskManager};
use crate::sim::Clock;
use crate::text;

verus! {

/// Whether row `k` is the one that quotes a stock: the first row with its code.
pub open spec fn quotes(market: MarketView, code: Seq<char>, k: int) -> bool {
    &&& 0 <= k < market.prices.len()
    &&& market.prices[k].thscode == code
    &&& forall|j: int| 0 <= j < k ==> (#[trigger] market.prices[j]).thscode != code
}

/// The latest price and the close of a stock are those of the row that quotes it; a stock in
/// no row has neither.
pub proof fn quotes_are_found(market: MarketView, code: Seq<char>)
    ensures
        forall|k: int| #[trigger]
            quotes(market, code, k) ==> market.last_price(code) == market.prices[k].last_price
                && market.raw_close(code) == market.prices[k].raw_close,
        (forall|k: int| 0 <= k < market.prices.len() ==> (#[trigger] market.prices[k]).thscode != code)
            ==> market.last_price(code) is None && market.raw_close(code) is None,
{
    assert forall|k: int| #[trigger] quotes(market, code, k) implies market.last_price(code)
        == market.prices[k].last_price && market.raw_close(code)
        == market.prices[k].raw_close by {
        lemma_row(market.prices, code, k);
    }
    lemma_no_row(market.prices, code);
}

proof fn lemma_row(prices: Seq<PriceView>, code: Seq<char>, k: int)
    requires
        0 <= k < prices.len(),
        prices[k].thscode == code,
        forall|j: int| 0 <= j < k ==> (#[trigger] prices[j]).thscode != code,
    ensures
        risk::price_row(prices, code) == Some(prices[k]),
    decreases prices.len(),
{
    if k > 0 {
        let rest = prices.drop_first();
        assert forall|j: int| 0 <= j < k - 1 implies (#[trigger] rest[j]).thscode != code by {
            assert(rest[j] == prices[j + 1]);
        }
        lemma_row(rest, code, k - 1);
    }
}

proof fn lemma_no_row(prices: Seq<PriceView>, code: Seq<char>)
    ensures
        (forall|k: int| 0 <= k < prices.len() ==> (#[trigger] prices[k]).thscode != code)
            ==> risk::price_row(prices, code) is None,
    decreases prices.len(),
{
    if prices.len() > 0 && (forall|k: int|
        0 <= k < prices.len() ==> (#[trigger] prices[k]).thscode != code) {
        let rest = prices.drop_first();
        assert forall|j: int| 0 <= j < rest.len() implies (#[trigger] rest[j]).thscode != code by {
            assert(rest[j] == prices[j + 1]);
        }
        lemma_no_row(rest, code);
    }
}

/// Whether a list of orders holds a sale of so many shares of a position.
pub open spec fn sells(orders: Seq<IntentView>, p: PositionView, quantity: u32) -> bool {
    exists|i: int|
        0 <= i < orders.len() && {
            &&& (#[trigger] orders[i]).side == OrderSide::Sell
            &&& orders[i].thscode == p.thscode
            &&& orders[i].quantity == quantity
        }
}

/// A price at or below the cost less the share of the hard stop sells the whole position,
/// whatever the latest close is: when it is checked alone, and in a round of risk control.
pub proof fn a_hard_stop_sells_the_position(
    manager: RiskManager,
    books: LedgerView,
    market: MarketView,
    clock: Clock,
    i: int,
    k: int,
    price: int,
)
    requires
        0 <= i < books.positions.len(),
        quotes(market, books.positions[i].thscode, k),
        market.prices[k].last_price matches Some(v) && v == price,
        price > 0,
        books.positions[i].avg_cost > 0,
        price * UNIT <= books.positions[i].avg_cost * (UNIT - manager.config.hard_stop_loss_pct),
    ensures
        ({
            let p = books.positions[i];
            &&& risk::after_check(p, books, market, manager.config, clock.now_ms).1 matches Some(o)
                && o.thscode == p.thscode && o.side == OrderSide::Sell && o.quantity == p.quantity
            &&& sells(
                risk::assessed(manager, books, market, clock).2.forced_sells,
                p,
                p.quantity,
            )
        }),
{
    let p = books.positions[i];
    quotes_are_found(market, p.thscode);
    lemma_stop(price, p.avg_cost as int, manager.config.hard_stop_loss_pct as int);
    lemma_round_sells(manager, books, market, clock, i);
}

proof fn lemma_stop(price: int, cost: int, ratio: int)
    ensures
        price * UNIT <= cost * (UNIT - ratio) <==> (price - cost) * UNIT <= -ratio * cost,
        price * UNIT >= cost * (UNIT + ratio) <==> (price - cost) * UNIT >= ratio * cost,
{
    assert(cost * (UNIT - ratio) == cost * UNIT + -ratio * cost) by (nonlinear_arith);
    assert(cost * (UNIT + ratio) == cost * UNIT + ratio * cost) by (nonlinear_arith);
    assert((price - cost) * UNIT == price * UNIT - cost * UNIT) by (nonlinear_arith);
}

/// What the check of a position sells whatever is marked in the books, a round sells.
proof fn lemma_round_sells(
    manager: RiskManager,
    books: LedgerView,
    market: MarketView,
    clock: Clock,
    i: int,
)
    requires
        0 <= i < books.positions.len(),
        forall|b: LedgerView|
            b.trades == books.trades ==> #[trigger] risk::verdict(
                books.positions[i],
                b,
                market,
                manager.config,
                clock.now_ms,
            ) == risk::Verdict::SellOut,
    ensures
        sells(
            risk::assessed(manager, books, market, clock).2.forced_sells,
            books.positions[i],
            books.positions[i].quantity,
        ),
{
    let cfg = manager.config;
    let p = books.positions[i];
    let opened = books.opened(0);
    let total = risk::asset_of(opened, market);
    let (with_peak, peak) = risk::after_peak(opened, manager.peak_cache as int, total);
    let (with_fuse, _, _) = risk::after_fuse(with_peak, peak, total, cfg, clock.now_ms);
    let (after, sold) = risk::after_checks(books.positions, with_fuse, market, cfg, clock.now_ms);
    lemma_checks_sell(books.positions, with_fuse, market, cfg, clock.now_ms, i);
    let all = risk::assessed(manager, books, market, clock).2.forced_sells;
    let j = choose|j: int|
        0 <= j < sold.len() && {
            &&& (#[trigger] sold[j]).side == OrderSide::Sell
            &&& sold[j].thscode == p.thscode
            &&& sold[j].quantity == p.quantity
        };
    assert(all[j] == sold[j]);
}

proof fn lemma_checks_sell(
    positions: Seq<PositionView>,
    books: LedgerView,
    market: MarketView,
    cfg: RiskConfig,
    now_ms: i64,
    i: int,
)
    requires
        0 <= i < positions.len(),
        forall|b: LedgerView|
            b.trades == books.trades ==> #[trigger] risk::verdict(
                positions[i],
                b,
                market,
                cfg,
                now_ms,
            ) == risk::Verdict::SellOut,
    ensures
        sells(
            risk::after_checks(positions, books, market, cfg, now_ms).1,
            positions[i],
            positions[i].quantity,
        ),
        risk::after_checks(positions, books, market, cfg, now_ms).0.trades == books.trades,
    decreases positions.len(),
{
    let p = positions[i];
    let rest = positions.drop_last();
    let (before, sold) = risk::after_checks(rest, books, market, cfg, now_ms);
    let all = risk::after_checks(positions, books, market, cfg, now_ms).1;
    lemma_checks_keep_trades(rest, books, market, cfg, now_ms);
    if i == rest.len() {
        assert(risk::verdict(p, before, market, cfg, now_ms) == risk::Verdict::SellOut);
        assert(all.last() == risk::sale(p, p.quantity));
    } else {
        assert(rest[i] == p);
        lemma_checks_sell(rest, books, market, cfg, now_ms, i);
        let j = choose|j: int|
            0 <= j < sold.len() && {
                &&& (#[trigger] sold[j]).side == OrderSide::Sell
                &&& sold[j].thscode == p.thscode
                &&& sold[j].quantity == p.quantity
            };
        assert(all[j] == sold[j]);
    }
}

/// Checks add no trade.
pub proof fn lemma_checks_keep_trades(
    positions: Seq<PositionView>,
    books: LedgerView,
    market: MarketView,
    cfg: RiskConfig,
    now_ms: i64,
)
    ensures
        risk::after_checks(positions, books, market, cfg, now_ms).0.trades == books.trades,
    decreases positions.len(),
{
    if positions.len() > 0 {
        lemma_checks_keep_trades(positions.drop_last(), books, market, cfg, now_ms);
    }
}

/// A latest close at or below the cost less the share of the stop loss sells the whole
/// position, whatever the price of now is.
pub proof fn a_low_close_sells_the_position(
    manager: RiskManager,
    books: LedgerView,
    market: MarketView,
    clock: Clock,
    i: int,
    k: int,
    close: int,
)
    requires
        0 <= i < books.positions.len(),
        quotes(market, books.positions[i].thscode, k),
        market.prices[k].raw_close matches Some(v) && v == close,
        close > 0,
        books.positions[i].avg_cost > 0,
        close * UNIT <= books.positions[i].avg_cost * (UNIT - manager.config.stop_loss_pct),
    ensures
        ({
            let p = books.positions[i];
            &&& risk::after_check(p, books, market, manager.config, clock.now_ms).1 matches Some(o)
                && o.thscode == p.thscode && o.side == OrderSide::Sell && o.quantity == p.quantity
            &&& sells(
                risk::assessed(manager, books, market, clock).2.forced_sells,
                p,
                p.quantity,
            )
        }),
{
    let p = books.positions[i];
    quotes_are_found(market, p.thscode);
    lemma_stop(close, p.avg_cost as int, manager.config.stop_loss_pct as int);
    lemma_round_sells(manager, books, market, clock, i);
}

/// Whether a position is worth more than its stops: the price of now is above the hard stop
/// and the close above the stop loss.
pub open spec fn above_the_stops(p: PositionView, price: int, close: int, cfg: RiskConfig) -> bool {
    &&& price * UNIT > p.avg_cost * (UNIT - cfg.hard_stop_loss_pct)
    &&& close * UNIT > p.avg_cost * (UNIT - cfg.stop_loss_pct)
}

/// A position below its cost whose stock was last bought the longest time ago that is
/// allowed, or longer, is sold as a whole.
pub proof fn a_loss_held_too_long_is_sold(
    manager: RiskManager,
    books: LedgerView,
    market: MarketView,
    clock: Clock,
    i: int,
    k: int,
    price: int,
    close: int,
    bought: int,
)
    requires
        0 <= i < books.positions.len(),
        quotes(market, books.positions[i].thscode, k),
        market.prices[k].last_price matches Some(v) && v == price,
        market.prices[k].raw_close matches Some(v) && v == close,
        price > 0,
        0 < close < books.positions[i].avg_cost,
        price * UNIT < books.positions[i].avg_cost * (UNIT + manager.config.take_profit_pct),
        price * UNIT < books.positions[i].avg_cost * (UNIT + manager.config.take_profit_pct2),
        0 <= bought < books.trades.len(),
        books::buys(books.trades[bought], books.positions[i].thscode),
        forall|j: int|
            0 <= j < books.trades.len() && books::buys(
                #[trigger] books.trades[j],
                books.positions[i].thscode,
            ) ==> clock.now_ms - books.trades[j].ts_ms >= manager.config.max_holding_days
                * 86_400_000,
    ensures
        ({
            let p = books.positions[i];
            &&& risk::after_check(p, books, market, manager.config, clock.now_ms).1 matches Some(o)
                && o.thscode == p.thscode && o.side == OrderSide::Sell && o.quantity == p.quantity
            &&& sells(
                risk::assessed(manager, books, market, clock).2.forced_sells,
                p,
                p.quantity,
            )
        }),
{
    let p = books.positions[i];
    let cfg = manager.config;
    quotes_are_found(market, p.thscode);
    books::last_purchases_are_the_latest(books.trades, p.thscode);
    lemma_stop(price, p.avg_cost as int, cfg.take_profit_pct as int);
    lemma_stop(price, p.avg_cost as int, cfg.take_profit_pct2 as int);
    let last = ledger::last_buy(books.trades, p.thscode)->0;
    lemma_days(clock.now_ms - last, cfg.max_holding_days as int);
    lemma_round_sells(manager, books, market, clock, i);
}

proof fn lemma_days(span: int, days: int)
    ensures
        days >= 0 ==> (span >= days * 86_400_000 <==> span >= 0 && span / 86_400_000 >= days),
{
    if days >= 0 {
        assert(span >= days * 86_400_000 <==> span >= 0 && span / 86_400_000 >= days)
            by (nonlinear_arith)
            requires
                days >= 0,
        ;
    }
}

/// The mark in the books for a level of profit taking of a stock.
pub open spec fn level_mark(level: char, code: Seq<char>) -> Seq<char> {
    seq!['t', 'p', level, ':'] + code
}

proof fn lemma_level_marks(code: Seq<char>)
    ensures
        risk::level_key(1, code) == level_mark('1', code),
        risk::level_key(2, code) == level_mark('2', code),
{
    reveal_strlit("tp");
    reveal_strlit(":");
    reveal_with_fuel(text::digits, 2);
    assert(text::int_text(1) =~= seq!['1']);
    assert(text::int_text(2) =~= seq!['2']);
    assert(risk::level_key(1, code) =~= level_mark('1', code));
    assert(risk::level_key(2, code) =~= level_mark('2', code));
}

/// Whether `sold` is what a level of profit taking sells of a holding: the trimmed share in
/// whole lots, or all of a holding of fewer than 300 shares or whose share is not a lot.
pub open spec fn is_profit_share(sold: u32, holding: u32, cfg: RiskConfig) -> bool {
    if holding < 300 || holding * cfg.trim_ratio.num < 100 * cfg.trim_ratio.den {
        sold == holding
    } else {
        &&& sold % 100 == 0
        &&& sold * cfg.trim_ratio.den <= holding * cfg.trim_ratio.num
        &&& holding * cfg.trim_ratio.num < (sold + 100) * cfg.trim_ratio.den
    }
}

proof fn lemma_profit_share(holding: u32, ratio: Fraction)
    requires
        0 <= ratio.num <= ratio.den,
        ratio.den > 0,
        holding >= 300,
    ensures
        ({
            let q = risk::trim_quantity(holding, ratio);
            &&& 0 <= q <= holding
            &&& q % 100 == 0
            &&& q * ratio.den <= holding * ratio.num
            &&& holding * ratio.num < (q + 100) * ratio.den
            &&& q < 100 <==> holding * ratio.num < 100 * ratio.den
        }),
{
    let n = holding * ratio.num;
    let d = ratio.den as int;
    assert(0 <= n <= holding * d) by (nonlinear_arith)
        requires
            n == holding * ratio.num,
            0 <= ratio.num <= d,
            holding >= 0,
    ;
    let raw = n / d;
    vstd::arithmetic::div_mod::lemma_fundamental_div_mod(n, d);
    vstd::arithmetic::div_mod::lemma_mod_bound(n, d);
    assert(0 <= raw <= holding) by (nonlinear_arith)
        requires
            n == d * raw + n % d,
            0 <= n % d < d,
            0 <= n <= holding * d,
            d > 0,
    ;
    let q = raw / 100 * 100;
    assert(q <= raw < q + 100);
    assert(q * d <= d * raw) by (nonlinear_arith)
        requires
            q <= raw,
            d > 0,
    ;
    assert(d * raw + d <= (q + 100) * d) by (nonlinear_arith)
        requires
            raw + 1 <= q + 100,
            d > 0,
    ;
    if q < 100 {
        assert(q == 0);
    } else {
        assert(100 * d <= q * d) by (nonlinear_arith)
            requires
                100 <= q,
                d > 0,
        ;
    }
}

/// A gain at or above the second level takes profit once: the share is sold and the level is
/// marked with the time, unless the whole of a small holding goes.
pub proof fn a_high_gain_takes_profit(
    p: PositionView,
    books: LedgerView,
    market: MarketView,
    cfg: RiskConfig,
    now_ms: i64,
    price: int,
    close: int,
)
    requires
        0 <= cfg.trim_ratio.num <= cfg.trim_ratio.den,
        cfg.trim_ratio.den > 0,
        market.last_price(p.thscode) matches Some(v) && v == price,
        market.raw_close(p.thscode) matches Some(v) && v == close,
        price > 0,
        close > 0,
        p.avg_cost > 0,
        above_the_stops(p, price, close, cfg),
        price * UNIT >= p.avg_cost * (UNIT + cfg.take_profit_pct2),
        !books.meta.dom().contains(level_mark('2', p.thscode)),
    ensures
        ({
            let (after, order) = risk::after_check(p, books, market, cfg, now_ms);
            &&& order is Some
            &&& order->0.thscode == p.thscode
            &&& order->0.side == OrderSide::Sell
            &&& is_profit_share(order->0.quantity, p.quantity, cfg)
            &&& p.quantity >= 300 && order->0.quantity < p.quantity ==> after.meta
                == books.meta.insert(level_mark('2', p.thscode), text::int_text(now_ms as int))
        }),
{
    lemma_level_marks(p.thscode);
    lemma_stop(price, p.avg_cost as int, cfg.hard_stop_loss_pct as int);
    lemma_stop(close, p.avg_cost as int, cfg.stop_loss_pct as int);
    lemma_stop(price, p.avg_cost as int, cfg.take_profit_pct2 as int);
    if p.quantity >= 300 {
        lemma_profit_share(p.quantity, cfg.trim_ratio);
    }
}

/// A gain at or above the first level, and not at the second or with the second used up,
/// takes profit once at the first level.
pub proof fn a_gain_takes_profit(
    p: PositionView,
    books: LedgerView,
    market: MarketView,
    cfg: RiskConfig,
    now_ms: i64,
    price: int,
    close: int,
)
    requires
        0 <= cfg.trim_ratio.num <= cfg.trim_ratio.den,
        cfg.trim_ratio.den > 0,
        market.last_price(p.thscode) matches Some(v) && v == price,
        market.raw_close(p.thscode) matches Some(v) && v == close,
        price > 0,
        close > 0,
        p.avg_cost > 0,
        above_the_stops(p, price, close, cfg),
        price * UNIT >= p.avg_cost * (UNIT + cfg.take_profit_pct),
        price * UNIT < p.avg_cost * (UNIT + cfg.take_profit_pct2) || books.meta.dom().contains(
            level_mark('2', p.thscode),
        ),
        !books.meta.dom().contains(level_mark('1', p.thscode)),
    ensures
        ({
            let (after, order) = risk::after_check(p, books, market, cfg, now_ms);
            &&& order is Some
            &&& order->0.thscode == p.thscode
            &&& order->0.side == OrderSide::Sell
            &&& is_profit_share(order->0.quantity, p.quantity, cfg)
            &&& p.quantity >= 300 && order->0.quantity < p.quantity ==> after.meta
                == books.meta.insert(level_mark('1', p.thscode), text::int_text(now_ms as int))
        }),
{
    lemma_level_marks(p.thscode);
    lemma_stop(price, p.avg_cost as int, cfg.hard_stop_loss_pct as int);
    lemma_stop(close, p.avg_cost as int, cfg.stop_loss_pct as int);
    lemma_stop(price, p.avg_cost as int, cfg.take_profit_pct2 as int);
    lemma_stop(price, p.avg_cost as int, cfg.take_profit_pct as int);
    if p.quantity >= 300 {
        lemma_profit_share(p.quantity, cfg.trim_ratio);
    }
}

/// A position between its stops and its levels of profit taking, not below its cost at the
/// close or bought too recently to be sold for its age, is left alone.
pub proof fn a_quiet_position_is_kept(
    p: PositionView,
    books: LedgerView,
    market: MarketView,
    cfg: RiskConfig,
    now_ms: i64,
    price: int,
    close: int,
)
    requires
        market.last_price(p.thscode) matches Some(v) && v == price,
        market.raw_close(p.thscode) matches Some(v) && v == close,
        price > 0,
        close > 0,
        p.avg_cost > 0,
        above_the_stops(p, price, close, cfg),
        price * UNIT < p.avg_cost * (UNIT + cfg.take_profit_pct) || books.meta.dom().contains(
            level_mark('1', p.thscode),
        ),
        price * UNIT < p.avg_cost * (UNIT + cfg.take_profit_pct2) || books.meta.dom().contains(
            level_mark('2', p.thscode),
        ),
        close >= p.avg_cost || (forall|j: int|
            0 <= j < books.trades.len() ==> !books::buys(#[trigger] books.trades[j], p.thscode))
            || (exists|j: int|
            0 <= j < books.trades.len() && books::buys(#[trigger] books.trades[j], p.thscode)
                && now_ms - books.trades[j].ts_ms < cfg.max_holding_days * 86_400_000),
        cfg.max_holding_days > 0,
    ensures
        risk::after_check(p, books, market, cfg, now_ms) == (books, None::<IntentView>),
{
    lemma_level_marks(p.thscode);
    books::last_purchases_are_the_latest(books.trades, p.thscode);
    lemma_stop(price, p.avg_cost as int, cfg.hard_stop_loss_pct as int);
    lemma_stop(close, p.avg_cost as int, cfg.stop_loss_pct as int);
    lemma_stop(price, p.avg_cost as int, cfg.take_profit_pct2 as int);
    lemma_stop(price, p.avg_cost as int, cfg.take_profit_pct as int);
    if let Some(last) = ledger::last_buy(books.trades, p.thscode) {
        lemma_days(now_ms - last, cfg.max_holding_days as int);
    }
}

/// A position without a quote is checked against its own cost, at which it has neither a
/// gain nor a loss: it is left alone.
pub proof fn a_position_without_a_quote_is_kept(
    p: PositionView,
    books: LedgerView,
    market: MarketView,
    cfg: RiskConfig,
    now_ms: i64,
)
    requires
        forall|k: int|
            0 <= k < market.prices.len() ==> (#[trigger] market.prices[k]).thscode != p.thscode,
        cfg.hard_stop_loss_pct > 0,
        cfg.stop_loss_pct > 0,
        cfg.take_profit_pct > 0,
        cfg.take_profit_pct2 > 0,
    ensures
        risk::after_check(p, books, market, cfg, now_ms) == (books, None::<IntentView>),
{
    quotes_are_found(market, p.thscode);
    if p.avg_cost > 0 {
        assert(-cfg.hard_stop_loss_pct * p.avg_cost < 0) by (nonlinear_arith)
            requires
                cfg.hard_stop_loss_pct > 0,
                p.avg_cost > 0,
        ;
        assert(-cfg.stop_loss_pct * p.avg_cost < 0) by (nonlinear_arith)
            requires
                cfg.stop_loss_pct > 0,
                p.avg_cost > 0,
        ;
        assert(cfg.take_profit_pct * p.avg_cost > 0) by (nonlinear_arith)
            requires
                cfg.take_profit_pct > 0,
                p.avg_cost > 0,
        ;
        assert(cfg.take_profit_pct2 * p.avg_cost > 0) by (nonlinear_arith)
            requires
                cfg.take_profit_pct2 > 0,
                p.avg_cost > 0,
        ;
    }
}

/// A further position adds its latest price times its quantity to the total assets, its cost
/// in place of the price where it has no quote; without positions they are the cash.
pub proof fn total_assets_are_cash_and_holdings(
    books: LedgerView,
    market: MarketView,
    p: PositionView,
)
    requires
        books.account is Some,
    ensures
        risk::asset_of(LedgerView { positions: Seq::empty(), ..books }, market)
            == books.account->0.cash,
        risk::asset_of(LedgerView { positions: books.positions.push(p), ..books }, market)
            == risk::asset_of(books, market) + p.quantity * match market.last_price(p.thscode) {
            Some(v) => v as int,
            None => p.avg_cost as int,
        },
{
    assert(books.positions.push(p).drop_last() =~= books.positions);
    let v = market.value_price(p);
    assert(v * p.quantity == p.quantity * v) by (nonlinear_arith);
}

/// A market in which at least six stocks out of ten are up is risk-on, one with at least four
/// is neutral, and one with fewer is risk-off. While buying is allowed and the target is not
/// reached, the first two allow positions of 75% and 55%.
pub proof fn the_breadth_sets_the_regime(
    manager: RiskManager,
    books: LedgerView,
    market: MarketView,
    clock: Clock,
)
    requires
        market.total > 0,
    ensures
        ({
            let report = risk::assessed(manager, books, market, clock).2;
            let free = report.can_buy && !report.profit_reached;
            &&& market.up * 10 >= market.total * 6 ==> report.regime == "risk-on"@ && (free
                ==> report.max_total_pct == 750_000)
            &&& market.total * 4 <= market.up * 10 < market.total * 6 ==> report.regime
                == "neutral"@ && (free ==> report.max_total_pct == 550_000)
            &&& market.up * 10 < market.total * 4 ==> report.regime == "risk-off"@
                && report.max_total_pct <= 300_000
            &&& market.up * 10 < market.total * 4 && !report.profit_reached
                && manager.config.fuse_target_position >= 300_000 ==> report.max_total_pct
                == 300_000
        }),
{
    reveal_strlit("risk-on");
    reveal_strlit("neutral");
    reveal_strlit("risk-off");
    assert("risk-on"@.len() != "risk-off"@.len());
    assert("neutral"@[0] != "risk-off"@[0]);
    assert("neutral"@.len() != "risk-off"@.len());
}

/// Buying stops exactly while a stop on record has not passed, or where the total assets are
/// below their peak by the drawdown of the fuse or more; a new stop is recorded for its days.
/// The peak is the highest total seen so far.
pub proof fn a_drawdown_stops_buying(
    manager: RiskManager,
    books: LedgerView,
    market: MarketView,
    clock: Clock,
    total: int,
    peak: int,
)
    requires
        books.account is Some,
        total == risk::asset_of(books, market),
        manager.peak_cache > 0,
        manager.peak_cache <= decimal::MONEY_MAX,
        -decimal::MONEY_MAX <= total <= decimal::MONEY_MAX,
        peak == if total > manager.peak_cache { total } else { manager.peak_cache as int },
        clock.now_ms >= 0,
    ensures
        ({
            let (after, next, report) = risk::assessed(manager, books, market, clock);
            let fallen = (peak - total) * UNIT >= manager.config.fuse_drawdown_pct * peak;
            let stopped = books.setting("fuse_until_ms"@) matches Some(s)
                && number::i64_of(s) matches Some(t) && t > clock.now_ms;
            &&& next.peak_cache == peak
            &&& report.can_buy == (!stopped && !fallen)
            &&& fallen && !stopped ==> after.setting("fuse_until_ms"@) == Some(
                text::int_text(clock.now_ms + manager.config.fuse_days * 86_400_000),
            )
            &&& total > manager.peak_cache ==> after.setting("peak_asset"@) == Some(
                number::plain_text(total),
            )
            &&& total <= manager.peak_cache ==> after.setting("peak_asset"@) == books.setting(
                "peak_asset"@,
            )
        }),
{
    let cfg = manager.config;
    let (with_peak, _) = risk::after_peak(books, manager.peak_cache as int, total);
    let (with_fuse, _, _) = risk::after_fuse(with_peak, peak, total, cfg, clock.now_ms);
    reveal_strlit("fuse_until_ms");
    reveal_strlit("peak_asset");
    assert("fuse_until_ms"@.len() != "peak_asset"@.len());
    risk::lemma_checks_keep_settings(
        books.positions,
        with_fuse,
        market,
        cfg,
        clock.now_ms,
        "fuse_until_ms"@,
    );
    risk::lemma_checks_keep_settings(
        books.positions,
        with_fuse,
        market,
        cfg,
        clock.now_ms,
        "peak_asset"@,
    );
}

/// The target is reached exactly where the total assets are above the initial capital by its
/// share or more; the total position is then at most the one that locks the profit in.
pub proof fn a_reached_target_lowers_the_position(
    manager: RiskManager,
    books: LedgerView,
    market: MarketView,
    clock: Clock,
    total: int,
    initial: int,
)
    requires
        manager.config.ok(),
        books.account matches Some(a) && a.initial_capital == initial,
        initial > 0,
        total == risk::asset_of(books, market),
    ensures
        ({
            let report = risk::assessed(manager, books, market, clock).2;
            &&& report.profit_reached <==> total * UNIT >= initial * (UNIT
                + manager.config.profit_target_pct)
            &&& report.profit_reached ==> report.max_total_pct
                <= manager.config.profit_target_position
        }),
{
    lemma_stop(total, initial, manager.config.profit_target_pct as int);
}

/// With the settings that the system starts with, a price 8% or more below the cost, or a close
/// 5% or more below it, sells the whole position; a gain of less than 6% on a position at or
/// above its cost at the close is left alone.
pub proof fn the_standard_settings_limit_losses(
    p: PositionView,
    books: LedgerView,
    market: MarketView,
    now_ms: i64,
    price: int,
    close: int,
)
    requires
        market.last_price(p.thscode) matches Some(v) && v == price,
        market.raw_close(p.thscode) matches Some(v) && v == close,
        price > 0,
        close > 0,
        p.avg_cost > 0,
    ensures
        ({
            let order = risk::after_check(p, books, market, RiskConfig::standard(), now_ms).1;
            &&& price * 100 <= p.avg_cost * 92 || close * 100 <= p.avg_cost * 95 ==> order is Some
                && order->0.quantity == p.quantity && order->0.side == OrderSide::Sell
            &&& price * 100 > p.avg_cost * 92 && price * 100 < p.avg_cost * 106 && close
                >= p.avg_cost ==> order is None
            &&& price * 100 > p.avg_cost * 92 && close * 100 > p.avg_cost * 95 && price * 100
                >= p.avg_cost * 110 && !books.meta.dom().contains(level_mark('2', p.thscode))
                ==> order is Some
            &&& price * 100 > p.avg_cost * 92 && close * 100 > p.avg_cost * 95 && price * 100
                >= p.avg_cost * 106 && !books.meta.dom().contains(level_mark('1', p.thscode))
                ==> order is Some
        }),
{
    lemma_level_marks(p.thscode);
    let cfg = RiskConfig::standard();
    let cost = p.avg_cost as int;
    assert(-cfg.hard_stop_loss_pct * cost == -80_000 * cost);
    assert(-cfg.stop_loss_pct * cost == -50_000 * cost);
    assert(cfg.take_profit_pct * cost == 60_000 * cost);
    assert(cfg.take_profit_pct2 * cost == 100_000 * cost);
}

/// The total position that is allowed is the least of what the state of the market allows, what
/// locks in a target that was reached, and what holds while buying is stopped or the market is
/// weak.
pub proof fn the_least_position_is_allowed(
    manager: RiskManager,
    books: LedgerView,
    market: MarketView,
    clock: Clock,
)
    requires
        manager.config.ok(),
        market.total > 0,
    ensures
        ({
            let report = risk::assessed(manager, books, market, clock).2;
            let most = report.max_total_pct as int;
            let allowed = if market.up * 10 >= market.total * 6 {
                750_000int
            } else if market.up * 10 >= market.total * 4 {
                550_000int
            } else {
                300_000int
            };
            let weak = market.up * 10 < market.total * 4 || !report.can_buy;
            let locked = manager.config.profit_target_position as int;
            let fused = manager.config.fuse_target_position as int;
            &&& most <= allowed
            &&& report.profit_reached ==> most <= locked
            &&& weak ==> most <= fused
            &&& most == allowed || (report.profit_reached && most == locked) || (weak && most
                == fused)
        }),
{
    the_breadth_sets_the_regime(manager, books, market, clock);
    reveal_strlit("risk-on");
    reveal_strlit("neutral");
    reveal_strlit("risk-off");
    assert("risk-on"@.len() != "risk-off"@.len());
    assert("neutral"@.len() != "risk-off"@.len());
}

/// After a restart the peak is the one on record, unless the total assets are above it.
pub proof fn the_peak_is_read_from_the_books(
    manager: RiskManager,
    books: LedgerView,
    market: MarketView,
    clock: Clock,
    total: int,
    recorded: int,
)
    requires
        books.account is Some,
        total == risk::asset_of(books, market),
        manager.peak_cache == 0,
        books.setting("peak_asset"@) matches Some(s) && number::decimal_of(s) == Some(recorded),
        0 <= recorded <= decimal::MONEY_MAX,
        -decimal::MONEY_MAX <= total <= decimal::MONEY_MAX,
    ensures
        risk::assessed(manager, books, market, clock).1.peak_cache == if total > recorded {
            total
        } else {
            recorded
        },
{
}

/// With the settings that the system starts with, a loss is sold once its stock was not bought
/// for twenty days, and not before; a level of profit taking sells a third, in whole lots.
pub proof fn the_standard_settings_limit_time(
    p: PositionView,
    books: LedgerView,
    market: MarketView,
    now_ms: i64,
    price: int,
    close: int,
    bought: int,
)
    requires
        market.last_price(p.thscode) matches Some(v) && v == price,
        market.raw_close(p.thscode) matches Some(v) && v == close,
        p.avg_cost > 0,
        p.avg_cost * 92 < price * 100 < p.avg_cost * 106,
        p.avg_cost * 95 < close * 100 < p.avg_cost * 100,
        0 <= bought < books.trades.len(),
        books::buys(books.trades[bought], p.thscode),
        forall|j: int|
            0 <= j < books.trades.len() && books::buys(#[trigger] books.trades[j], p.thscode)
                ==> books.trades[j].ts_ms <= books.trades[bought].ts_ms,
    ensures
        ({
            let order = risk::after_check(p, books, market, RiskConfig::standard(), now_ms).1;
            &&& order is Some <==> now_ms - books.trades[bought].ts_ms >= 20 * 86_400_000
            &&& order is Some ==> order->0.quantity == p.quantity
        }),
{
    books::last_purchases_are_the_latest(books.trades, p.thscode);
    let cfg = RiskConfig::standard();
    let cost = p.avg_cost as int;
    assert(-cfg.hard_stop_loss_pct * cost == -80_000 * cost);
    assert(-cfg.stop_loss_pct * cost == -50_000 * cost);
    assert(cfg.take_profit_pct * cost == 60_000 * cost);
    assert(cfg.take_profit_pct2 * cost == 100_000 * cost);
    lemma_days(now_ms - books.trades[bought].ts_ms, 20);
}

/// With the settings that the system starts with, total assets of 95% of their peak or less stop
/// buying, for five days, and 105% of the initial capital or more reach the target; the position
/// is then 40% at most, and 30% at most while buying is stopped. A position of 300 shares or
/// more that takes profit sells a third of it, in whole lots.
pub proof fn the_standard_settings_limit_the_account(
    manager: RiskManager,
    books: LedgerView,
    market: MarketView,
    clock: Clock,
    total: int,
    peak: int,
)
    requires
        manager.config == RiskConfig::standard(),
        books.account is Some,
        books.account->0.initial_capital > 0,
        books.setting("fuse_until_ms"@) is None,
        total == risk::asset_of(books, market),
        0 < manager.peak_cache <= decimal::MONEY_MAX,
        -decimal::MONEY_MAX <= total <= decimal::MONEY_MAX,
        peak == if total > manager.peak_cache { total } else { manager.peak_cache as int },
        clock.now_ms >= 0,
    ensures
        ({
            let (after, next, report) = risk::assessed(manager, books, market, clock);
            &&& report.can_buy <==> total * 100 > peak * 95
            &&& !report.can_buy ==> after.setting("fuse_until_ms"@) == Some(
                text::int_text(clock.now_ms + 5 * 86_400_000),
            ) && report.max_total_pct <= 300_000
            &&& report.profit_reached <==> total * 100 >= books.account->0.initial_capital * 105
            &&& report.profit_reached ==> report.max_total_pct <= 400_000
        }),
        forall|holding: u32, sold: u32|
            holding >= 300 && #[trigger] is_profit_share(sold, holding, RiskConfig::standard())
                ==> sold % 100 == 0 && sold * 3 <= holding < (sold + 100) * 3,
{
    a_drawdown_stops_buying(manager, books, market, clock, total, peak);
    let cfg = RiskConfig::standard();
    let initial = books.account->0.initial_capital as int;
    assert(cfg.fuse_drawdown_pct * peak == 50_000 * peak);
    assert(cfg.profit_target_pct * initial == 50_000 * initial);
    a_reached_target_lowers_the_position(manager, books, market, clock, total, initial);
    risk::a_blown_fuse_lowers_the_position(manager, books, market, clock);
    assert forall|holding: u32, sold: u32|
        holding >= 300 && #[trigger] is_profit_share(sold, holding, cfg) implies sold % 100 == 0
        && sold * 3 <= holding < (sold + 100) * 3 by {
        assert(holding * cfg.trim_ratio.num == holding * 1);
        assert(sold * cfg.trim_ratio.den == sold * 3);
        assert((sold + 100) * cfg.trim_ratio.den == (sold + 100) * 3);
    }
}

/// Where no stock is quoted the market counts as neutral.
pub proof fn an_unknown_market_is_neutral(
    manager: RiskManager,
    books: LedgerView,
    market: MarketView,
    clock: Clock,
)
    requires
        market.total == 0,
    ensures
        risk::assessed(manager, books, market, clock).2.regime == "neutral"@,
{
}

/// A quote or a close of zero is none: a position without a price above zero is checked against
/// its cost, and one without a close above zero by its price.
pub proof fn prices_of_zero_are_none(
    p: PositionView,
    books: LedgerView,
    market: MarketView,
    cfg: RiskConfig,
    now_ms: i64,
)
    requires
        market.last_price(p.thscode) matches Some(v) && v <= 0,
        market.raw_close(p.thscode) matches Some(v) && v <= 0,
        cfg.hard_stop_loss_pct > 0,
        cfg.stop_loss_pct > 0,
        cfg.take_profit_pct > 0,
        cfg.take_profit_pct2 > 0,
    ensures
        risk::after_check(p, books, market, cfg, now_ms) == (books, None::<IntentView>),
{
    if p.avg_cost > 0 {
        assert(-cfg.hard_stop_loss_pct * p.avg_cost < 0) by (nonlinear_arith)
            requires
                cfg.hard_stop_loss_pct > 0,
                p.avg_cost > 0,
        ;
        assert(-cfg.stop_loss_pct * p.avg_cost < 0) by (nonlinear_arith)
            requires
                cfg.stop_loss_pct > 0,
                p.avg_cost > 0,
        ;
        assert(cfg.take_profit_pct * p.avg_cost > 0) by (nonlinear_arith)
            requires
                cfg.take_profit_pct > 0,
                p.avg_cost > 0,
        ;
        assert(cfg.take_profit_pct2 * p.avg_cost > 0) by (nonlinear_arith)
            requires
                cfg.take_profit_pct2 > 0,
                p.avg_cost > 0,
        ;
    }
}

/// Without a peak above zero there is no drawdown.
pub proof fn nothing_falls_from_no_peak(
    manager: RiskManager,
    books: LedgerView,
    market: MarketView,
    clock: Clock,
)
    requires
        books.account is Some,
        manager.peak_cache == 0,
        books.setting("peak_asset"@) is None,
        books.setting("fuse_until_ms"@) is None,
        risk::asset_of(books, market) <= 0,
        clock.now_ms >= 0,
    ensures
        risk::assessed(manager, books, market, clock).2.can_buy,
{
}

} // verus!
