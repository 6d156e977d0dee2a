//! Risk control. It does not ask the model and cannot be bypassed.
//!
//! - Stop loss: a close 5% below cost sells the position; an intraday dip does not, unless it
//!   is deeper than the hard stop.
//! - Take profit: a third at 6%, another third at 10%.
//! - A position that is old and below cost is sold.
//! - A drawdown of the account of 5% stops buying for some days.
//! - A weak market, the fuse and a reached target lower the total position, once they have
//!   been confirmed three times in a row.

use vstd::prelude::*;

use crate::account;
use crate::account::{Position, PositionView};
use crate::decimal;
use crate::decimal::{
    ceil_div, decimal_min, is_money, is_price_or_none, Decimal, MONEY_MAX, PRICE_MAX, UNIT,
};
use crate::intent;
use crate::intent::{IntentView, OrderIntent, OrderSide};
use crate::ledger;
use crate::ledger::{AccountDb, LedgerView, DAY_MS, MAX_ROWS};
use crate::number;
use crate::number::{decimal_string, parse_decimal, parse_i64};
use crate::order;
use crate::order::{stable_order, Fraction};
use crate::rules;
use crate::sim::{Clock, CASH_MAX};
use crate::text;
use crate::text::{int_string, push_int, push_quotient, text_eq};

verus! {

/// The parameters of the risk control.
#[derive(Debug, Clone, Copy, PartialEq, Eq, Structural)]
pub struct RiskConfig {
    /// Loss at the close that sells a position.
    pub stop_loss_pct: Decimal,
    /// Intraday loss that sells a position at once.
    pub hard_stop_loss_pct: Decimal,
    /// First level of profit taking.
    pub take_profit_pct: Decimal,
    /// Second level of profit taking.
    pub take_profit_pct2: Decimal,
    /// The share of a position that a level of profit taking sells.
    pub trim_ratio: Fraction,
    /// Days after which a position below cost is sold.
    pub max_holding_days: u32,
    /// Drawdown of the account that stops buying.
    pub fuse_drawdown_pct: Decimal,
    /// Days for which buying stops.
    pub fuse_days: u32,
    /// Total position once the fuse is blown, and under a weak market.
    pub fuse_target_position: Decimal,
    /// Return of the account that is the target.
    pub profit_target_pct: Decimal,
    /// Total position once the target is reached.
    pub profit_target_position: Decimal,
}

/// The largest ratio in the parameters: ten times.
pub const RATIO_MAX: Decimal = 10_000_000;

pub open spec fn ratio_ok(r: Decimal) -> bool {
    -RATIO_MAX <= r <= RATIO_MAX
}

fn is_ratio(r: Decimal) -> (b: bool)
    ensures
        b == ratio_ok(r),
{
    -RATIO_MAX <= r && r <= RATIO_MAX
}

impl RiskConfig {
    pub open spec fn ok(self) -> bool {
        &&& ratio_ok(self.stop_loss_pct)
        &&& ratio_ok(self.hard_stop_loss_pct)
        &&& ratio_ok(self.take_profit_pct)
        &&& ratio_ok(self.take_profit_pct2)
        &&& 0 <= self.trim_ratio.num <= 1_000_000_000
        &&& 0 < self.trim_ratio.den <= 1_000_000_000
        &&& ratio_ok(self.fuse_drawdown_pct)
        &&& ratio_ok(self.fuse_target_position)
        &&& ratio_ok(self.profit_target_pct)
        &&& ratio_ok(self.profit_target_position)
    }

    /// Whether the parameters are in range.
    pub fn is_ok(&self) -> (r: bool)
        ensures
            r == self.ok(),
    {
        is_ratio(self.stop_loss_pct) && is_ratio(self.hard_stop_loss_pct) && is_ratio(
            self.take_profit_pct,
        ) && is_ratio(self.take_profit_pct2) && 0 <= self.trim_ratio.num && self.trim_ratio.num
            <= 1_000_000_000 && 0 < self.trim_ratio.den && self.trim_ratio.den <= 1_000_000_000
            && is_ratio(self.fuse_drawdown_pct) && is_ratio(self.fuse_target_position) && is_ratio(
            self.profit_target_pct,
        ) && is_ratio(self.profit_target_position)
    }

    /// The parameters that the system starts with.
    pub open spec fn standard() -> RiskConfig {
        RiskConfig {
            stop_loss_pct: 50_000,
            hard_stop_loss_pct: 80_000,
            take_profit_pct: 60_000,
            take_profit_pct2: 100_000,
            trim_ratio: Fraction { num: 1, den: 3 },
            max_holding_days: 20,
            fuse_drawdown_pct: 50_000,
            fuse_days: 5,
            fuse_target_position: 300_000,
            profit_target_pct: 50_000,
            profit_target_position: 400_000,
        }
    }
}

impl Default for RiskConfig {
    fn default() -> (r: Self)
        ensures
            r == RiskConfig::standard(),
    {
        RiskConfig {
            stop_loss_pct: 50_000,
            hard_stop_loss_pct: 80_000,
            take_profit_pct: 60_000,
            take_profit_pct2: 100_000,
            trim_ratio: Fraction { num: 1, den: 3 },
            max_holding_days: 20,
            fuse_drawdown_pct: 50_000,
            fuse_days: 5,
            fuse_target_position: 300_000,
            profit_target_pct: 50_000,
            profit_target_position: 400_000,
        }
    }
}

/// What the market data says of a stock.
#[derive(Debug)]
pub struct PriceRow {
    pub thscode: String,
    /// The price of the latest snapshot.
    pub last_price: Option<Decimal>,
    /// The latest close, not adjusted.
    pub raw_close: Option<Decimal>,
}

#[verifier::ext_equal]
pub struct PriceView {
    pub thscode: Seq<char>,
    pub last_price: Option<Decimal>,
    pub raw_close: Option<Decimal>,
}

impl View for PriceRow {
    type V = PriceView;

    open spec fn view(&self) -> PriceView {
        PriceView {
            thscode: self.thscode@,
            last_price: self.last_price,
            raw_close: self.raw_close,
        }
    }
}

/// What the risk control reads of the market.
#[derive(Debug)]
pub struct MarketState {
    /// Stocks that are up.
    pub up: u32,
    /// Stocks that are quoted.
    pub total: u32,
    pub prices: Vec<PriceRow>,
}

#[verifier::ext_equal]
pub struct MarketView {
    pub up: u32,
    pub total: u32,
    pub prices: Seq<PriceView>,
}

impl View for MarketState {
    type V = MarketView;

    open spec fn view(&self) -> MarketView {
        MarketView {
            up: self.up,
            total: self.total,
            prices: Seq::new(self.prices@.len(), |i: int| self.prices@[i]@),
        }
    }
}

/// The row of a stock; the first one where there are several.
pub open spec fn price_row(prices: Seq<PriceView>, code: Seq<char>) -> Option<PriceView>
    decreases prices.len(),
{
    if prices.len() == 0 {
        None
    } else if prices[0].thscode == code {
        Some(prices[0])
    } else {
        price_row(prices.drop_first(), code)
    }
}

impl MarketView {
    pub open spec fn ok(self) -> bool {
        forall|i: int|
            0 <= i < self.prices.len() ==> {
                &&& (#[trigger] self.prices[i]).last_price matches Some(p) ==> decimal::price_ok(
                    p as int,
                )
                &&& self.prices[i].raw_close matches Some(p) ==> decimal::price_ok(p as int)
            }
    }

    /// The price of the latest snapshot of a stock.
    pub open spec fn last_price(self, code: Seq<char>) -> Option<Decimal> {
        match price_row(self.prices, code) {
            Some(row) => row.last_price,
            None => None,
        }
    }

    /// The latest close of a stock.
    pub open spec fn raw_close(self, code: Seq<char>) -> Option<Decimal> {
        match price_row(self.prices, code) {
            Some(row) => row.raw_close,
            None => None,
        }
    }

    /// The price at which a position is valued: the latest, or else its cost.
    pub open spec fn value_price(self, p: PositionView) -> int {
        match self.last_price(p.thscode) {
            Some(price) => price as int,
            None => p.avg_cost as int,
        }
    }
}

impl MarketState {
    fn row(&self, thscode: &str) -> (r: Option<&PriceRow>)
        ensures
            match r {
                Some(row) => price_row(self@.prices, thscode@) == Some(row@),
                None => price_row(self@.prices, thscode@) is None,
            },
            self@.ok() ==> (r matches Some(row) ==> {
                &&& row.last_price matches Some(p) ==> decimal::price_ok(p as int)
                &&& row.raw_close matches Some(p) ==> decimal::price_ok(p as int)
            }),
    {
        let ghost all = self@.prices;
        assert(all.skip(0) =~= all);
        for i in 0..self.prices.len()
            invariant
                all == self@.prices,
                price_row(all, thscode@) == price_row(all.skip(i as int), thscode@),
        {
            proof {
                assert(all.skip(i as int)[0] == self.prices@[i as int]@);
                assert(all.skip(i as int).drop_first() =~= all.skip(i + 1));
                assert(all[i as int] == self.prices@[i as int]@);
            }
            if text_eq(self.prices[i].thscode.as_str(), thscode) {
                return Some(&self.prices[i]);
            }
        }
        None
    }

    /// Whether all prices are in range.
    pub fn is_ok(&self) -> (r: bool)
        ensures
            r == self@.ok(),
    {
        for i in 0..self.prices.len()
            invariant
                forall|j: int|
                    0 <= j < i ==> {
                        &&& (#[trigger] self@.prices[j]).last_price matches Some(p)
                            ==> decimal::price_ok(p as int)
                        &&& self@.prices[j].raw_close matches Some(p) ==> decimal::price_ok(p as int)
                    },
        {
            let row = &self.prices[i];
            assert(self@.prices[i as int] == row@);
            if !is_price_or_none(row.last_price) || !is_price_or_none(row.raw_close) {
                return false;
            }
        }
        true
    }

    /// The price of the latest snapshot of a stock.
    pub fn latest_snapshot_price(&self, thscode: &str) -> (r: Option<Decimal>)
        ensures
            r == self@.last_price(thscode@),
            self@.ok() ==> (r matches Some(p) ==> decimal::price_ok(p as int)),
    {
        match self.row(thscode) {
            Some(row) => row.last_price,
            None => None,
        }
    }

    /// The latest close of a stock.
    pub fn latest_raw_close(&self, thscode: &str) -> (r: Option<Decimal>)
        ensures
            r == self@.raw_close(thscode@),
            self@.ok() ==> (r matches Some(p) ==> decimal::price_ok(p as int)),
    {
        match self.row(thscode) {
            Some(row) => row.raw_close,
            None => None,
        }
    }
}

/// What a round of risk control found.
#[derive(Debug)]
pub struct RiskReport {
    /// Sales to be made at once.
    pub forced_sells: Vec<OrderIntent>,
    /// Whether buying is allowed.
    pub can_buy: bool,
    /// The largest total position, as a share of the total assets.
    pub max_total_pct: Decimal,
    /// The state of the market: risk-on, neutral or risk-off.
    pub regime: String,
    /// Whether the return of the account has reached its target.
    pub profit_reached: bool,
    pub note: String,
}

#[verifier::ext_equal]
pub struct ReportView {
    pub forced_sells: Seq<IntentView>,
    pub can_buy: bool,
    pub max_total_pct: Decimal,
    pub regime: Seq<char>,
    pub profit_reached: bool,
    pub note: Seq<char>,
}

impl View for RiskReport {
    type V = ReportView;

    open spec fn view(&self) -> ReportView {
        ReportView {
            forced_sells: intent::intents(self.forced_sells@),
            can_buy: self.can_buy,
            max_total_pct: self.max_total_pct,
            regime: self.regime@,
            profit_reached: self.profit_reached,
            note: self.note@,
        }
    }
}

/// The state of the market by the share of stocks that are up, and the total position that
/// it allows.
pub open spec fn regime_of(breadth: Fraction) -> (Seq<char>, Decimal) {
    if 10 * breadth.num >= 6 * breadth.den {
        ("risk-on"@, 750_000)
    } else if 10 * breadth.num >= 4 * breadth.den {
        ("neutral"@, 550_000)
    } else {
        ("risk-off"@, 300_000)
    }
}

/// The state of the market and the total position that it allows.
pub fn regime_max_total(breadth: Fraction) -> (r: (&'static str, Decimal))
    requires
        breadth.ok(),
    ensures
        (r.0@, r.1) == regime_of(breadth),
{
    if 10 * breadth.num >= 6 * breadth.den {
        ("risk-on", 750_000)
    } else if 10 * breadth.num >= 4 * breadth.den {
        ("neutral", 550_000)
    } else {
        ("risk-off", 300_000)
    }
}

/// The share of stocks that are up; a half where none is quoted.
pub open spec fn breadth_of(market: MarketView) -> Fraction {
    if market.total > 0 {
        Fraction { num: market.up as i128, den: market.total as i128 }
    } else {
        Fraction { num: 1, den: 2 }
    }
}

/// The value of the positions.
pub open spec fn market_value(positions: Seq<PositionView>, market: MarketView) -> int
    decreases positions.len(),
{
    if positions.len() == 0 {
        0
    } else {
        market_value(positions.drop_last(), market) + market.value_price(positions.last())
            * positions.last().quantity
    }
}

/// Cash and positions of an open account.
pub open spec fn asset_of(books: LedgerView, market: MarketView) -> int {
    books.account->0.cash + market_value(books.positions, market)
}

pub open spec fn value_max() -> int {
    PRICE_MAX * u32::MAX
}

/// The value of a holding is in range.
pub proof fn lemma_product(price: int, quantity: int)
    requires
        decimal::price_ok(price),
        0 <= quantity <= u32::MAX,
    ensures
        -value_max() <= price * quantity <= value_max(),
{
    assert(-PRICE_MAX * u32::MAX <= price * quantity <= PRICE_MAX * u32::MAX) by (nonlinear_arith)
        requires
            -PRICE_MAX <= price <= PRICE_MAX,
            0 <= quantity <= u32::MAX,
    ;
}

proof fn lemma_value_price(market: MarketView, p: PositionView)
    requires
        market.ok(),
        decimal::price_ok(p.avg_cost as int),
    ensures
        decimal::price_ok(market.value_price(p)),
        -value_max() <= market.value_price(p) * p.quantity <= value_max(),
{
    lemma_price_row(market.prices, p.thscode);
    lemma_product(market.value_price(p), p.quantity as int);
}

/// The latest price of a stock is in range.
pub proof fn lemma_last_price_ok(market: MarketView, code: Seq<char>)
    requires
        market.ok(),
    ensures
        market.last_price(code) matches Some(p) ==> decimal::price_ok(p as int),
{
    lemma_price_row(market.prices, code);
}

proof fn lemma_price_row(prices: Seq<PriceView>, code: Seq<char>)
    ensures
        price_row(prices, code) matches Some(row) ==> prices.contains(row) && row.thscode == code,
    decreases prices.len(),
{
    if prices.len() > 0 {
        if prices[0].thscode == code {
            assert(prices.contains(prices[0]));
        } else {
            let rest = prices.drop_first();
            lemma_price_row(rest, code);
            if let Some(row) = price_row(rest, code) {
                let i = choose|i: int| 0 <= i < rest.len() && rest[i] == row;
                assert(prices[i + 1] == row);
            }
        }
    }
}

/// The value of positions is in range.
pub proof fn lemma_market_value(positions: Seq<PositionView>, market: MarketView, n: int)
    requires
        0 <= n <= positions.len(),
        market.ok(),
        forall|i: int|
            0 <= i < positions.len() ==> decimal::price_ok(#[trigger] positions[i].avg_cost as int),
    ensures
        -n * value_max() <= market_value(positions.take(n), market) <= n * value_max(),
    decreases n,
{
    if n > 0 {
        lemma_market_value(positions, market, n - 1);
        assert(positions.take(n).drop_last() =~= positions.take(n - 1));
        assert(decimal::price_ok(positions[n - 1].avg_cost as int));
        lemma_value_price(market, positions[n - 1]);
        assert(-n * value_max() == -(n - 1) * value_max() - value_max()) by (nonlinear_arith);
        assert(n * value_max() == (n - 1) * value_max() + value_max()) by (nonlinear_arith);
    }
}

proof fn lemma_total_value(n: int)
    requires
        0 <= n <= MAX_ROWS,
    ensures
        -MONEY_MAX <= -n * value_max(),
        n * value_max() <= MONEY_MAX,
{
    assert(-MONEY_MAX <= -n * value_max() && n * value_max() <= MONEY_MAX) by (nonlinear_arith)
        requires
            0 <= n <= 100_000,
            value_max() == 4_294_967_295_000_000_000_000_000,
            MONEY_MAX == 1_000_000_000_000_000_000_000_000_000_000,
    ;
}

/// The value of the positions.
pub fn position_value(positions: &Vec<Position>, market: &MarketState) -> (r: Decimal)
    requires
        positions@.len() <= MAX_ROWS,
        market@.ok(),
        forall|i: int|
            0 <= i < positions@.len() ==> decimal::price_ok(
                #[trigger] positions@[i].avg_cost as int,
            ),
    ensures
        r == market_value(account::position_views(positions@), market@),
        -MONEY_MAX <= r <= MONEY_MAX,
{
    let ghost ps = account::position_views(positions@);
    let mut sum: i128 = 0;
    assert(ps.take(0) =~= Seq::empty());
    assert forall|i: int| 0 <= i < ps.len() implies decimal::price_ok(
        #[trigger] ps[i].avg_cost as int,
    ) by {
        assert(decimal::price_ok(positions@[i].avg_cost as int));
    }
    for i in 0..positions.len()
        invariant
            positions@.len() <= MAX_ROWS,
            market@.ok(),
            ps == account::position_views(positions@),
            forall|j: int|
                0 <= j < ps.len() ==> decimal::price_ok(#[trigger] ps[j].avg_cost as int),
            sum == market_value(ps.take(i as int), market@),
    {
        let p = &positions[i];
        proof {
            assert(ps.take(i + 1).drop_last() =~= ps.take(i as int));
            assert(ps.take(i + 1).last() == p@);
            assert(decimal::price_ok(ps[i as int].avg_cost as int));
            lemma_market_value(ps, market@, i as int);
            lemma_market_value(ps, market@, i + 1);
            lemma_total_value(i as int);
            lemma_total_value(i + 1);
            lemma_value_price(market@, p@);
        }
        let price = match market.latest_snapshot_price(p.thscode.as_str()) {
            Some(v) => v,
            None => p.avg_cost,
        };
        sum = sum + price * p.quantity as i128;
    }
    proof {
        assert(ps.take(ps.len() as int) =~= ps);
        lemma_market_value(ps, market@, ps.len() as int);
        lemma_total_value(ps.len() as int);
    }
    sum
}


/// What the risk control wants done with a position.
pub enum Verdict {
    Keep,
    SellOut,
    /// Sell so many shares at a level of profit taking.
    TakeProfit(u8, u32),
}

/// The shares that a level of profit taking sells, in whole lots; none of a small position.
pub open spec fn trim_quantity(quantity: u32, ratio: Fraction) -> int {
    if quantity < 300 {
        0
    } else {
        decimal::min((quantity * ratio.num) / (ratio.den as int), u32::MAX as int) / 100 * 100
    }
}

/// The price of now: the latest snapshot, or else the cost.
pub open spec fn realtime_price(p: PositionView, market: MarketView) -> int {
    match market.last_price(p.thscode) {
        Some(v) => if v > 0 {
            v as int
        } else {
            p.avg_cost as int
        },
        None => p.avg_cost as int,
    }
}

/// The latest close, or else the price of now.
pub open spec fn close_price(p: PositionView, market: MarketView) -> int {
    match market.raw_close(p.thscode) {
        Some(v) => if v > 0 {
            v as int
        } else {
            realtime_price(p, market)
        },
        None => realtime_price(p, market),
    }
}

/// The gain from `cost` to `price` is not above `ratio`.
pub open spec fn gain_at_most(price: int, cost: int, ratio: int) -> bool {
    (price - cost) * UNIT <= ratio * cost
}

/// The gain from `cost` to `price` is not below `ratio`.
pub open spec fn gain_at_least(price: int, cost: int, ratio: int) -> bool {
    (price - cost) * UNIT >= ratio * cost
}

/// The setting that marks a level of profit taking as done.
pub open spec fn level_key(level: u8, code: Seq<char>) -> Seq<char> {
    "tp"@ + text::int_text(level as int) + ":"@ + code
}

/// Whole days between two times, towards zero.
pub open spec fn days_between(from_ms: i64, to_ms: i64) -> int {
    if to_ms >= from_ms {
        (to_ms - from_ms) / (DAY_MS as int)
    } else {
        -((from_ms - to_ms) / (DAY_MS as int))
    }
}

/// Take the profit of a level, or sell out where the position is too small.
pub open spec fn take_profit(p: PositionView, level: u8, ratio: Fraction) -> Verdict {
    let q = trim_quantity(p.quantity, ratio);
    if q < 100 {
        Verdict::SellOut
    } else {
        Verdict::TakeProfit(level, q as u32)
    }
}

/// What is to be done with a position: hard stop, stop loss at the close, the second and the
/// first level of profit taking, and age, in this order.
pub open spec fn verdict(
    p: PositionView,
    books: LedgerView,
    market: MarketView,
    cfg: RiskConfig,
    now_ms: i64,
) -> Verdict {
    let cost = p.avg_cost as int;
    let now = realtime_price(p, market);
    let close = close_price(p, market);
    if cost <= 0 {
        Verdict::Keep
    } else if gain_at_most(now, cost, -cfg.hard_stop_loss_pct) {
        Verdict::SellOut
    } else if gain_at_most(close, cost, -cfg.stop_loss_pct) {
        Verdict::SellOut
    } else if gain_at_least(now, cost, cfg.take_profit_pct2 as int) && books.setting(
        level_key(2, p.thscode),
    ) is None {
        take_profit(p, 2, cfg.trim_ratio)
    } else if gain_at_least(now, cost, cfg.take_profit_pct as int) && books.setting(
        level_key(1, p.thscode),
    ) is None {
        take_profit(p, 1, cfg.trim_ratio)
    } else if close < cost && (ledger::last_buy(books.trades, p.thscode) matches Some(bought)
        && days_between(bought, now_ms) >= cfg.max_holding_days) {
        Verdict::SellOut
    } else {
        Verdict::Keep
    }
}

/// A sale of shares of a position.
pub open spec fn sale(p: PositionView, quantity: u32) -> IntentView {
    IntentView {
        thscode: p.thscode,
        name: p.name,
        side: OrderSide::Sell,
        quantity,
        decision_id: None,
    }
}

/// The books and the sale after a position was checked: a level of profit taking is marked.
pub open spec fn after_check(
    p: PositionView,
    books: LedgerView,
    market: MarketView,
    cfg: RiskConfig,
    now_ms: i64,
) -> (LedgerView, Option<IntentView>) {
    match verdict(p, books, market, cfg, now_ms) {
        Verdict::Keep => (books, None),
        Verdict::SellOut => (books, Some(sale(p, p.quantity))),
        Verdict::TakeProfit(level, quantity) => (
            books.with_meta(level_key(level, p.thscode), text::int_text(now_ms as int)),
            Some(sale(p, quantity)),
        ),
    }
}

/// The books and the sales after the positions were checked one by one.
pub open spec fn after_checks(
    positions: Seq<PositionView>,
    books: LedgerView,
    market: MarketView,
    cfg: RiskConfig,
    now_ms: i64,
) -> (LedgerView, Seq<IntentView>)
    decreases positions.len(),
{
    if positions.len() == 0 {
        (books, Seq::empty())
    } else {
        let (before, sales) = after_checks(positions.drop_last(), books, market, cfg, now_ms);
        let (after, last) = after_check(positions.last(), before, market, cfg, now_ms);
        (
            after,
            match last {
                Some(order) => sales.push(order),
                None => sales,
            },
        )
    }
}

fn level_key_string(level: u8, thscode: &str) -> (r: String)
    ensures
        r@ == level_key(level, thscode@),
{
    let mut out = String::new();
    out.append("tp");
    push_int(&mut out, level as i128);
    out.append(":");
    out.append(thscode);
    assert(out@ =~= level_key(level, thscode@));
    out
}

fn sell_intent(p: &Position, quantity: u32) -> (r: OrderIntent)
    ensures
        r@ == sale(p@, quantity),
{
    OrderIntent {
        thscode: p.thscode.clone(),
        name: p.name.clone(),
        side: OrderSide::Sell,
        quantity,
        decision_id: None,
    }
}

fn is_gain_at_most(price: Decimal, cost: Decimal, ratio: Decimal) -> (r: bool)
    requires
        decimal::price_ok(price as int),
        decimal::price_ok(cost as int),
        ratio_ok(ratio),
    ensures
        r == gain_at_most(price as int, cost as int, ratio as int),
{
    proof {
        lemma_ratio_product(ratio as int, cost as int);
    }
    (price - cost) * UNIT <= ratio * cost
}

fn is_gain_at_least(price: Decimal, cost: Decimal, ratio: Decimal) -> (r: bool)
    requires
        decimal::price_ok(price as int),
        decimal::price_ok(cost as int),
        ratio_ok(ratio),
    ensures
        r == gain_at_least(price as int, cost as int, ratio as int),
{
    proof {
        lemma_ratio_product(ratio as int, cost as int);
    }
    (price - cost) * UNIT >= ratio * cost
}

proof fn lemma_ratio_product(ratio: int, amount: int)
    requires
        -RATIO_MAX <= ratio <= RATIO_MAX,
        -2 * MONEY_MAX <= amount <= 2 * MONEY_MAX,
    ensures
        -RATIO_MAX * (2 * MONEY_MAX) <= ratio * amount <= RATIO_MAX * (2 * MONEY_MAX),
{
    assert(-RATIO_MAX * (2 * MONEY_MAX) <= ratio * amount <= RATIO_MAX * (2 * MONEY_MAX))
        by (nonlinear_arith)
        requires
            -RATIO_MAX <= ratio <= RATIO_MAX,
            -2 * MONEY_MAX <= amount <= 2 * MONEY_MAX,
            RATIO_MAX == 10_000_000,
            MONEY_MAX == 1_000_000_000_000_000_000_000_000_000_000,
    ;
}

fn trim_shares(quantity: u32, ratio: Fraction) -> (r: u32)
    requires
        0 <= ratio.num <= 1_000_000_000,
        0 < ratio.den <= 1_000_000_000,
    ensures
        r == trim_quantity(quantity, ratio),
{
    if quantity < 300 {
        return 0;
    }
    proof {
        assert(0 <= quantity * ratio.num <= u32::MAX * 1_000_000_000) by (nonlinear_arith)
            requires
                0 <= quantity <= u32::MAX,
                0 <= ratio.num <= 1_000_000_000,
        ;
        vstd::arithmetic::div_mod::lemma_div_pos_is_pos(quantity * ratio.num, ratio.den as int);
    }
    let raw: i128 = (quantity as i128 * ratio.num) / ratio.den;
    let capped = decimal_min(raw, 4_294_967_295);
    (capped / 100 * 100) as u32
}

/// Whole days between two times.
pub fn whole_days(from_ms: i64, to_ms: i64) -> (r: i128)
    ensures
        r == days_between(from_ms, to_ms),
{
    let diff: i128 = to_ms as i128 - from_ms as i128;
    if diff >= 0 {
        diff / DAY_MS as i128
    } else {
        -((-diff) / DAY_MS as i128)
    }
}

/// Checks one position; marks a level of profit taking that it uses up.
pub fn check_position(
    p: &Position,
    acct: &mut AccountDb,
    market: &MarketState,
    cfg: &RiskConfig,
    now_ms: i64,
) -> (r: Option<OrderIntent>)
    requires
        old(acct).wf(),
        market@.ok(),
        cfg.ok(),
        decimal::price_ok(p.avg_cost as int),
    ensures
        final(acct).wf(),
        (
            final(acct)@,
            match r {
                Some(order) => Some(order@),
                None => None,
            },
        ) == after_check(p@, old(acct)@, market@, *cfg, now_ms),
{
    let rt = match market.latest_snapshot_price(p.thscode.as_str()) {
        Some(v) => if v > 0 {
            v
        } else {
            p.avg_cost
        },
        None => p.avg_cost,
    };
    let close = match market.latest_raw_close(p.thscode.as_str()) {
        Some(v) => if v > 0 {
            v
        } else {
            rt
        },
        None => rt,
    };
    if p.avg_cost <= 0 {
        return None;
    }
    if is_gain_at_most(rt, p.avg_cost, -cfg.hard_stop_loss_pct) {
        return Some(sell_intent(p, p.quantity));
    }
    if is_gain_at_most(close, p.avg_cost, -cfg.stop_loss_pct) {
        return Some(sell_intent(p, p.quantity));
    }
    if is_gain_at_least(rt, p.avg_cost, cfg.take_profit_pct2) {
        let key = level_key_string(2, p.thscode.as_str());
        if acct.meta_get(key.as_str()).is_none() {
            let q = trim_shares(p.quantity, cfg.trim_ratio);
            if q < 100 {
                return Some(sell_intent(p, p.quantity));
            }
            let stamp = int_string(now_ms as i128);
            acct.meta_set(key.as_str(), stamp.as_str());
            return Some(sell_intent(p, q));
        }
    }
    if is_gain_at_least(rt, p.avg_cost, cfg.take_profit_pct) {
        let key = level_key_string(1, p.thscode.as_str());
        if acct.meta_get(key.as_str()).is_none() {
            let q = trim_shares(p.quantity, cfg.trim_ratio);
            if q < 100 {
                return Some(sell_intent(p, p.quantity));
            }
            let stamp = int_string(now_ms as i128);
            acct.meta_set(key.as_str(), stamp.as_str());
            return Some(sell_intent(p, q));
        }
    }
    if close < p.avg_cost {
        if let Some(bought_ms) = acct.position_bought_at(p.thscode.as_str()) {
            let days = whole_days(bought_ms, now_ms);
            if days >= cfg.max_holding_days as i128 {
                return Some(sell_intent(p, p.quantity));
            }
        }
    }
    None
}

/// Checks the positions one by one.
fn check_positions(
    positions: &Vec<Position>,
    acct: &mut AccountDb,
    market: &MarketState,
    cfg: &RiskConfig,
    now_ms: i64,
) -> (r: Vec<OrderIntent>)
    requires
        old(acct).wf(),
        market@.ok(),
        cfg.ok(),
        forall|i: int|
            0 <= i < positions@.len() ==> decimal::price_ok(
                #[trigger] positions@[i].avg_cost as int,
            ),
    ensures
        final(acct).wf(),
        (final(acct)@, intent::intents(r@)) == after_checks(
            account::position_views(positions@),
            old(acct)@,
            market@,
            *cfg,
            now_ms,
        ),
        r@.len() <= positions@.len(),
{
    let ghost ps = account::position_views(positions@);
    let ghost books = acct@;
    let mut out: Vec<OrderIntent> = Vec::new();
    assert(ps.take(0) =~= Seq::empty());
    assert(intent::intents(out@) =~= Seq::empty());
    for i in 0..positions.len()
        invariant
            acct.wf(),
            market@.ok(),
            cfg.ok(),
            ps == account::position_views(positions@),
            forall|j: int|
                0 <= j < positions@.len() ==> decimal::price_ok(
                    #[trigger] positions@[j].avg_cost as int,
                ),
            (acct@, intent::intents(out@)) == after_checks(
                ps.take(i as int),
                books,
                market@,
                *cfg,
                now_ms,
            ),
            out@.len() <= i,
    {
        proof {
            assert(ps.take(i + 1).drop_last() =~= ps.take(i as int));
            assert(ps.take(i + 1).last() == positions@[i as int]@);
        }
        let ghost before = intent::intents(out@);
        if let Some(order) = check_position(&positions[i], acct, market, cfg, now_ms) {
            let ghost view = order@;
            out.push(order);
            assert(intent::intents(out@) =~= before.push(view));
        }
    }
    assert(ps.take(ps.len() as int) =~= ps);
    out
}


/// Whether one of the orders is for a stock.
pub open spec fn ordered(orders: Seq<IntentView>, code: Seq<char>) -> bool {
    exists|i: int| 0 <= i < orders.len() && (#[trigger] orders[i]).thscode == code
}

/// Whether a stock was bought since the day began.
pub open spec fn bought_since(books: LedgerView, code: Seq<char>, day_start_ms: i64) -> bool {
    ledger::last_buy(books.trades, code) matches Some(t) && t >= day_start_ms
}

/// The positions that may be cut: not on sale already, and not bought today.
pub open spec fn trimmable(
    positions: Seq<PositionView>,
    orders: Seq<IntentView>,
    books: LedgerView,
    day_start_ms: i64,
) -> Seq<PositionView>
    decreases positions.len(),
{
    if positions.len() == 0 {
        Seq::empty()
    } else {
        let p = positions.last();
        let before = trimmable(positions.drop_last(), orders, books, day_start_ms);
        if ordered(orders, p.thscode) || bought_since(books, p.thscode, day_start_ms) {
            before
        } else {
            before.push(p)
        }
    }
}

/// The gain on a position; none where its cost is not positive.
pub open spec fn gain_of(p: PositionView, market: MarketView) -> Fraction {
    if p.avg_cost > 0 {
        Fraction { num: (market.value_price(p) - p.avg_cost) as i128, den: p.avg_cost }
    } else {
        Fraction { num: 0, den: 1 }
    }
}

/// The positions with the largest loss first.
pub open spec fn worst_first(rows: Seq<PositionView>, market: MarketView) -> Seq<PositionView> {
    order::picked(
        rows,
        order::arranged(Seq::new(rows.len(), |i: int| gain_of(rows[i], market))),
        rows.len() as int,
    )
}

/// How many shares of a position to sell for an amount: whole lots, rounded up, and all of
/// it where less than a lot would be left. Amounts are in millionths of a [`Decimal`].
pub open spec fn cut_size(quantity: u32, price: int, amount: int) -> int {
    let want = decimal::min(amount, price * quantity * UNIT);
    let q = decimal::div_ceil(want, price * UNIT * 100) * 100;
    if q >= quantity || quantity - q < 100 {
        quantity as int
    } else {
        q
    }
}

/// The sales, position by position, until `need` is raised, of which `sold` is.
pub open spec fn cuts(
    rows: Seq<PositionView>,
    market: MarketView,
    need: int,
    sold: int,
) -> Seq<IntentView>
    decreases rows.len(),
{
    if rows.len() == 0 || sold >= need {
        Seq::empty()
    } else {
        let p = rows[0];
        let price = market.value_price(p);
        if p.quantity == 0 || price <= 0 {
            cuts(rows.drop_first(), market, need, sold)
        } else {
            let q = cut_size(p.quantity, price, need - sold);
            seq![sale(p, q as u32)] + cuts(
                rows.drop_first(),
                market,
                need,
                sold + price * q * UNIT,
            )
        }
    }
}

/// The sales that bring the total position down to a share of the total assets.
pub open spec fn trims_to(
    positions: Seq<PositionView>,
    orders: Seq<IntentView>,
    books: LedgerView,
    market: MarketView,
    total_asset: int,
    target_pct: int,
    day_start_ms: i64,
) -> Seq<IntentView> {
    let need = market_value(positions, market) * UNIT - target_pct * total_asset;
    if total_asset <= 0 || need <= 0 {
        Seq::empty()
    } else {
        cuts(
            worst_first(trimmable(positions, orders, books, day_start_ms), market),
            market,
            need,
            0,
        )
    }
}

/// A cut of a position with a price sells some of it, and not more than there is.
pub proof fn lemma_cut_size(quantity: u32, price: int, amount: int)
    requires
        quantity > 0,
        price > 0,
        amount > 0,
    ensures
        0 < cut_size(quantity, price, amount) <= quantity,
        0 < price * quantity * UNIT,
        0 < price * UNIT * 100,
{
    let d = price * UNIT * 100;
    let full = price * quantity * UNIT;
    assert(d > 0 && full > 0) by (nonlinear_arith)
        requires
            price > 0,
            quantity > 0,
            UNIT > 0,
            d == price * UNIT * 100,
            full == price * quantity * UNIT,
    ;
    let want = decimal::min(amount, full);
    vstd::arithmetic::div_mod::lemma_div_non_zero(want + d - 1, d);
}

fn find_order(orders: &Vec<OrderIntent>, thscode: &str) -> (r: bool)
    ensures
        r == ordered(intent::intents(orders@), thscode@),
{
    for i in 0..orders.len()
        invariant
            forall|j: int| 0 <= j < i ==> (#[trigger] orders@[j]).thscode@ != thscode@,
    {
        if text_eq(orders[i].thscode.as_str(), thscode) {
            assert(intent::intents(orders@)[i as int].thscode == thscode@);
            return true;
        }
    }
    assert forall|j: int| 0 <= j < orders@.len() implies (#[trigger] intent::intents(
        orders@,
    )[j]).thscode != thscode@ by {
        assert(orders@[j].thscode@ != thscode@);
    }
    false
}

/// The price at which a position is valued.
pub fn price_of(p: &Position, market: &MarketState) -> (r: Decimal)
    requires
        market@.ok(),
        decimal::price_ok(p.avg_cost as int),
    ensures
        r == market@.value_price(p@),
        decimal::price_ok(r as int),
{
    match market.latest_snapshot_price(p.thscode.as_str()) {
        Some(v) => v,
        None => p.avg_cost,
    }
}

/// The positions that may be cut, the largest loss first.
fn cut_candidates(
    positions: &Vec<Position>,
    orders: &Vec<OrderIntent>,
    acct: &AccountDb,
    market: &MarketState,
    day_start_ms: i64,
) -> (r: Vec<Position>)
    requires
        market@.ok(),
        forall|i: int|
            0 <= i < positions@.len() ==> decimal::price_ok(
                #[trigger] positions@[i].avg_cost as int,
            ),
    ensures
        account::position_views(r@) == worst_first(
            trimmable(
                account::position_views(positions@),
                intent::intents(orders@),
                acct@,
                day_start_ms,
            ),
            market@,
        ),
        forall|i: int|
            0 <= i < r@.len() ==> decimal::price_ok(#[trigger] r@[i].avg_cost as int),
{
    let ghost ps = account::position_views(positions@);
    let mut rows: Vec<Position> = Vec::new();
    let mut keys: Vec<Fraction> = Vec::new();
    assert(ps.take(0) =~= Seq::empty());
    assert(account::position_views(rows@) =~= Seq::empty());
    for i in 0..positions.len()
        invariant
            market@.ok(),
            ps == account::position_views(positions@),
            forall|j: int|
                0 <= j < positions@.len() ==> decimal::price_ok(
                    #[trigger] positions@[j].avg_cost as int,
                ),
            account::position_views(rows@) == trimmable(
                ps.take(i as int),
                intent::intents(orders@),
                acct@,
                day_start_ms,
            ),
            keys@.len() == rows@.len(),
            forall|j: int|
                0 <= j < rows@.len() ==> decimal::price_ok(#[trigger] rows@[j].avg_cost as int),
            forall|j: int|
                0 <= j < rows@.len() ==> #[trigger] keys@[j] == gain_of(rows@[j]@, market@)
                    && keys@[j].ok(),
    {
        let p = &positions[i];
        proof {
            assert(ps.take(i + 1).drop_last() =~= ps.take(i as int));
            assert(ps.take(i + 1).last() == p@);
        }
        let today = match acct.position_bought_at(p.thscode.as_str()) {
            Some(t) => t >= day_start_ms,
            None => false,
        };
        if !find_order(orders, p.thscode.as_str()) && !today {
            let ghost before = account::position_views(rows@);
            let price = price_of(p, market);
            let key = if p.avg_cost > 0 {
                Fraction { num: price - p.avg_cost, den: p.avg_cost }
            } else {
                Fraction { num: 0, den: 1 }
            };
            keys.push(key);
            rows.push(p.clone());
            assert(account::position_views(rows@) =~= before.push(p@));
        }
    }
    assert(ps.take(ps.len() as int) =~= ps);
    let ghost views = account::position_views(rows@);
    assert(keys@ =~= Seq::new(views.len(), |j: int| gain_of(views[j], market@)));
    let idx = stable_order(&keys);
    let mut out: Vec<Position> = Vec::new();
    for i in 0..idx.len()
        invariant
            idx@.len() == rows@.len(),
            out@.len() == i,
            order::is_stable_order(keys@, order::ints(idx@), rows@.len()),
            views == account::position_views(rows@),
            forall|j: int|
                0 <= j < rows@.len() ==> decimal::price_ok(#[trigger] rows@[j].avg_cost as int),
            forall|j: int|
                0 <= j < i ==> decimal::price_ok(#[trigger] out@[j].avg_cost as int),
            forall|j: int|
                0 <= j < i ==> account::position_views(out@)[j] == views[#[trigger] order::ints(
                    idx@,
                )[j]],
    {
        assert(0 <= order::ints(idx@)[i as int] < rows@.len());
        let ghost before = account::position_views(out@);
        let row = rows[idx[i]].clone();
        out.push(row);
        assert(account::position_views(out@) =~= before.push(views[idx@[i as int] as int]));
    }
    assert(account::position_views(out@) =~= worst_first(views, market@));
    out
}

/// The sales that bring the total position down to a share of the total assets: the largest
/// loss first, nothing that was bought today, and whole lots.
pub fn trim_to_target(
    positions: &Vec<Position>,
    existing: &Vec<OrderIntent>,
    acct: &AccountDb,
    market: &MarketState,
    total_asset: Decimal,
    target_pct: Decimal,
    day_start_ms: i64,
) -> (r: Vec<OrderIntent>)
    requires
        positions@.len() <= MAX_ROWS,
        market@.ok(),
        -MONEY_MAX <= total_asset <= MONEY_MAX,
        ratio_ok(target_pct),
        forall|i: int|
            0 <= i < positions@.len() ==> decimal::price_ok(
                #[trigger] positions@[i].avg_cost as int,
            ),
    ensures
        intent::intents(r@) == trims_to(
            account::position_views(positions@),
            intent::intents(existing@),
            acct@,
            market@,
            total_asset as int,
            target_pct as int,
            day_start_ms,
        ),
{
    let mut out: Vec<OrderIntent> = Vec::new();
    assert(intent::intents(out@) =~= Seq::empty());
    if total_asset <= 0 {
        return out;
    }
    proof {
        lemma_ratio_product(target_pct as int, total_asset as int);
    }
    let need: i128 = position_value(positions, market) * UNIT - target_pct * total_asset;
    if need <= 0 {
        return out;
    }
    let rows = cut_candidates(positions, existing, acct, market, day_start_ms);
    let ghost all = account::position_views(rows@);
    let mut sold: i128 = 0;
    assert(all.skip(0) =~= all);
    assert(intent::intents(out@) + cuts(all.skip(0), market@, need as int, 0) =~= cuts(
        all,
        market@,
        need as int,
        0,
    ));
    for i in 0..rows.len()
        invariant
            market@.ok(),
            all == account::position_views(rows@),
            0 < need <= 30_000_000_000_000_000_000_000_000_000_000_000_000,
            0 <= sold <= need + value_max() * UNIT,
            forall|j: int|
                0 <= j < rows@.len() ==> decimal::price_ok(#[trigger] rows@[j].avg_cost as int),
            intent::intents(out@) + cuts(all.skip(i as int), market@, need as int, sold as int)
                == cuts(all, market@, need as int, 0),
    {
        let ghost rest = all.skip(i as int);
        proof {
            assert(rest[0] == rows@[i as int]@);
            assert(rest.drop_first() =~= all.skip(i + 1));
            assert(all.skip(i + 1).len() == all.len() - i - 1);
        }
        if sold < need {
            let p = &rows[i];
            let price = price_of(p, market);
            if p.quantity > 0 && price > 0 {
                proof {
                    lemma_cut_size(p.quantity, price as int, need - sold);
                    lemma_product(price as int, p.quantity as int);
                    assert(price * p.quantity * UNIT <= value_max() * UNIT);
                }
                let want = decimal_min(need - sold, price * p.quantity as i128 * UNIT);
                let lots = ceil_div(want, price * UNIT * 100);
                proof {
                    assert(lots <= u32::MAX) by {
                        lemma_lots(p.quantity as int, price as int, want as int);
                    }
                }
                let raw: i128 = lots * 100;
                let q: u32 = if raw >= p.quantity as i128 || p.quantity as i128 - raw < 100 {
                    p.quantity
                } else {
                    raw as u32
                };
                let ghost before = intent::intents(out@);
                let order = sell_intent(p, q);
                out.push(order);
                proof {
                    lemma_product(price as int, q as int);
                    assert(q == cut_size(p.quantity, price as int, need - sold));
                    assert(intent::intents(out@) =~= before.push(sale(p@, q)));
                    assert(0 <= price * q) by (nonlinear_arith)
                        requires
                            price > 0,
                            q >= 0,
                    ;
                    let next = cuts(
                        all.skip(i + 1),
                        market@,
                        need as int,
                        sold + price * q * UNIT,
                    );
                    assert(before + (seq![sale(p@, q)] + next) =~= before.push(sale(p@, q)) + next);
                }
                sold = sold + price * q as i128 * UNIT;
            }
        }
        proof {
            if sold >= need && rest.len() > 0 {
                assert(cuts(all.skip(i + 1), market@, need as int, sold as int) =~= Seq::empty());
            }
        }
    }
    assert(all.skip(all.len() as int) =~= Seq::empty());
    assert(intent::intents(out@) + Seq::empty() =~= intent::intents(out@));
    out
}

proof fn lemma_lots(quantity: int, price: int, want: int)
    requires
        0 < quantity <= u32::MAX,
        price > 0,
        0 < want <= price * quantity * UNIT,
    ensures
        decimal::div_ceil(want, price * UNIT * 100) <= u32::MAX,
{
    let d = price * UNIT * 100;
    assert(d > 0) by (nonlinear_arith)
        requires
            price > 0,
            d == price * UNIT * 100,
            UNIT > 0,
    ;
    assert(want <= d * quantity) by (nonlinear_arith)
        requires
            want <= price * quantity * UNIT,
            price > 0,
            quantity > 0,
            UNIT > 0,
            d == price * UNIT * 100,
    ;
    assert(want + d - 1 < d * (quantity + 1)) by (nonlinear_arith)
        requires
            want <= d * quantity,
            d > 0,
    ;
    vstd::arithmetic::div_mod::lemma_multiply_divide_lt(want + d - 1, d, quantity + 1);
}


/// The risk control of one account.
#[derive(Debug, Clone, Copy, PartialEq, Eq, Structural)]
pub struct RiskManager {
    pub config: RiskConfig,
    /// The peak of the total assets, as far as it is known; 0 where it has not been read.
    pub peak_cache: Decimal,
    /// How many rounds in a row have called for a lower position.
    pub trim_streak: u32,
}

/// Rounds in a row that it takes before positions are cut.
pub const TRIM_CONFIRM_EVALS: u32 = 3;

/// The peak of the total assets in the books.
pub open spec fn stored_peak(books: LedgerView) -> int {
    match books.setting("peak_asset"@) {
        Some(s) => match number::decimal_of(s) {
            Some(d) => d,
            None => 0,
        },
        None => 0,
    }
}

/// Until when buying is stopped, by the books.
pub open spec fn stored_fuse(books: LedgerView) -> i64 {
    match books.setting("fuse_until_ms"@) {
        Some(s) => match number::i64_of(s) {
            Some(t) => t,
            None => 0,
        },
        None => 0,
    }
}

/// The peak before a round.
pub open spec fn known_peak(cache: int, books: LedgerView) -> int {
    if cache != 0 {
        cache
    } else {
        stored_peak(books)
    }
}

/// The books and the peak once the total assets are known: a new peak is recorded.
pub open spec fn after_peak(books: LedgerView, cache: int, total: int) -> (LedgerView, int) {
    let peak = known_peak(cache, books);
    if total > peak {
        (books.with_meta("peak_asset"@, number::plain_text(total)), total)
    } else {
        (books, peak)
    }
}

/// Whether the total assets have fallen from their peak by the drawdown of the fuse.
pub open spec fn drawn_down(peak: int, total: int, cfg: RiskConfig) -> bool {
    peak > 0 && (peak - total) * UNIT >= cfg.fuse_drawdown_pct * peak
}

/// A ratio in percent.
pub open spec fn percent_text(ratio: int, places: nat) -> Seq<char> {
    text::quotient_text(ratio * 100, UNIT as int, places, false)
}

/// The books, whether buying is allowed, and the note, by the fuse. A drawdown stops buying
/// for some days; a stop that is on lasts to its end.
pub open spec fn after_fuse(
    books: LedgerView,
    peak: int,
    total: int,
    cfg: RiskConfig,
    now_ms: i64,
) -> (LedgerView, bool, Seq<char>) {
    let until = stored_fuse(books);
    if until > now_ms {
        (
            books,
            false,
            "账户回撤 "@ + percent_text(cfg.fuse_drawdown_pct as int, 1) + "% 熔断中，剩余约 "@
                + text::int_text((until - now_ms) / 60_000) + " 分钟"@,
        )
    } else if drawn_down(peak, total, cfg) {
        (
            books.with_meta(
                "fuse_until_ms"@,
                text::int_text(now_ms + cfg.fuse_days * DAY_MS),
            ),
            false,
            "触发熔断：回撤 "@ + percent_text(cfg.fuse_drawdown_pct as int, 1) + "%，停止买入 "@
                + text::int_text(cfg.fuse_days as int) + " 天"@,
        )
    } else {
        (books, true, Seq::empty())
    }
}

/// Whether the return on the initial capital has reached the target.
pub open spec fn target_reached(total: int, initial: int, cfg: RiskConfig) -> bool {
    initial > 0 && (total - initial) * UNIT >= cfg.profit_target_pct * initial
}

/// What is noted when the target is reached, after the note so far.
pub open spec fn target_note(note: Seq<char>, total: int, initial: int, cfg: RiskConfig) -> Seq<
    char,
> {
    note + separator(note) + "已达收益目标 "@ + percent_text(cfg.profit_target_pct as int, 1)
        + "%（当前 "@ + text::quotient_text((total - initial) * 100, initial, 1, true)
        + "%），仓位上限降至 "@ + percent_text(cfg.profit_target_position as int, 0) + "% 锁利"@
}

/// What stands between a note and an addition to it.
pub open spec fn separator(note: Seq<char>) -> Seq<char> {
    if note.len() == 0 {
        ""@
    } else {
        "；"@
    }
}

/// One round of risk control: the books and the state afterwards, and the report.
pub open spec fn assessed(
    manager: RiskManager,
    books: LedgerView,
    market: MarketView,
    clock: Clock,
) -> (LedgerView, RiskManager, ReportView) {
    let cfg = manager.config;
    let (regime, allowed) = regime_of(breadth_of(market));
    let opened = books.opened(0);
    let total = asset_of(opened, market);
    let (with_peak, peak) = after_peak(opened, manager.peak_cache as int, total);
    let (with_fuse, can_buy, fuse_note) = after_fuse(with_peak, peak, total, cfg, clock.now_ms);
    let initial = opened.account->0.initial_capital as int;
    let reached = target_reached(total, initial, cfg);
    let lowered = if reached {
        decimal::min(allowed as int, cfg.profit_target_position as int)
    } else {
        allowed as int
    };
    let note = if reached {
        target_note(fuse_note, total, initial, cfg)
    } else {
        fuse_note
    };
    let (after, sells) = after_checks(books.positions, with_fuse, market, cfg, clock.now_ms);
    let weak = regime == "risk-off"@;
    let need_trim = weak || !can_buy || reached;
    let streak = if need_trim {
        manager.trim_streak + 1
    } else {
        0
    };
    let target = if need_trim && (weak || !can_buy) {
        decimal::min(lowered, cfg.fuse_target_position as int)
    } else {
        lowered
    };
    let trims = if need_trim && streak >= TRIM_CONFIRM_EVALS {
        trims_to(books.positions, sells, after, market, total, target, clock.day_start_ms)
    } else {
        Seq::empty()
    };
    let final_note = if need_trim && streak < TRIM_CONFIRM_EVALS {
        note + separator(note) + "待确认减仓（"@ + text::int_text(streak) + "/"@
            + text::int_text(TRIM_CONFIRM_EVALS as int) + "），本轮不动手"@
    } else if trims.len() > 0 {
        note + separator(note) + "减仓至 "@ + percent_text(target, 0) + "%（"@ + text::int_text(
            trims.len() as int,
        ) + " 笔）"@
    } else {
        note
    };
    (
        after,
        RiskManager { config: cfg, peak_cache: peak as Decimal, trim_streak: streak as u32 },
        ReportView {
            forced_sells: sells + trims,
            can_buy,
            max_total_pct: target as Decimal,
            regime,
            profit_reached: reached,
            note: final_note,
        },
    )
}

/// What the arithmetic of a round takes.
pub open spec fn can_assess(manager: RiskManager, books: LedgerView, market: MarketView, clock: Clock) -> bool {
    &&& manager.config.ok()
    &&& market.ok()
    &&& decimal::money_ok(manager.peak_cache as int)
    &&& manager.trim_streak < u32::MAX
    &&& books.account matches Some(a) ==> -CASH_MAX <= a.cash <= CASH_MAX
    &&& clock.now_ms + manager.config.fuse_days * DAY_MS <= i64::MAX
}

impl RiskManager {
    pub fn new(config: RiskConfig) -> (r: Self)
        ensures
            r == (RiskManager { config, peak_cache: 0, trim_streak: 0 }),
    {
        RiskManager { config, peak_cache: 0, trim_streak: 0 }
    }

    /// Sets the parameters.
    pub fn set_config(&mut self, cfg: RiskConfig)
        ensures
            *final(self) == (RiskManager { config: cfg, ..*old(self) }),
    {
        self.config = cfg;
    }

    /// The parameters.
    pub fn config(&self) -> (r: RiskConfig)
        ensures
            r == self.config,
    {
        self.config
    }

    fn current_peak(&self, acct: &AccountDb) -> (r: Decimal)
        requires
            acct.wf(),
            decimal::money_ok(self.peak_cache as int),
        ensures
            r == known_peak(self.peak_cache as int, acct@),
            decimal::money_ok(r as int),
    {
        if self.peak_cache != 0 {
            return self.peak_cache;
        }
        match acct.meta_get("peak_asset") {
            Some(s) => match parse_decimal(s.as_str()) {
                Some(d) => d,
                None => 0,
            },
            None => 0,
        }
    }

    /// Whether the numbers that a round of risk control works on are in range.
    pub fn can_evaluate(&self, acct: &AccountDb, market: &MarketState, clock: &Clock) -> (r: bool)
        ensures
            r == can_assess(*self, acct@, market@, *clock),
    {
        let cash_ok = match &acct.account {
            Some(a) => -CASH_MAX <= a.cash && a.cash <= CASH_MAX,
            None => true,
        };
        let days: i128 = self.config.fuse_days as i128;
        let day_ms: i128 = DAY_MS as i128;
        assert(0 <= days * day_ms <= u32::MAX * 86_400_000) by (nonlinear_arith)
            requires
                0 <= days <= u32::MAX,
                day_ms == 86_400_000,
        ;
        let fuse_end: i128 = clock.now_ms as i128 + days * day_ms;
        cash_ok && self.config.is_ok() && market.is_ok() && is_money(self.peak_cache)
            && self.trim_streak < u32::MAX && fuse_end <= i64::MAX as i128
    }

    /// Runs one round of risk control; where a number is out of range, nothing is done.
    pub fn evaluate_any(&mut self, acct: &mut AccountDb, market: &MarketState, clock: &Clock) -> (r:
        Option<RiskReport>)
        requires
            old(acct).wf(),
        ensures
            final(acct).wf(),
            match r {
                Some(report) => can_assess(*old(self), old(acct)@, market@, *clock) && (
                    final(acct)@,
                    *final(self),
                    report@,
                ) == assessed(*old(self), old(acct)@, market@, *clock),
                None => !can_assess(*old(self), old(acct)@, market@, *clock) && final(acct)@
                    == old(acct)@ && *final(self) == *old(self),
            },
    {
        if self.can_evaluate(acct, market, clock) {
            Some(self.evaluate(acct, market, clock))
        } else {
            None
        }
    }

    /// Runs one round of risk control.
    #[verifier::rlimit(40)]
    pub fn evaluate(&mut self, acct: &mut AccountDb, market: &MarketState, clock: &Clock) -> (r:
        RiskReport)
        requires
            old(acct).wf(),
            can_assess(*old(self), old(acct)@, market@, *clock),
        ensures
            final(acct).wf(),
            (final(acct)@, *final(self), r@) == assessed(
                *old(self),
                old(acct)@,
                market@,
                *clock,
            ),
    {
        let cfg = self.config;
        let breadth = if market.total > 0 {
            Fraction { num: market.up as i128, den: market.total as i128 }
        } else {
            Fraction { num: 1, den: 2 }
        };
        let (regime, allowed) = regime_max_total(breadth);
        let account = acct.get_or_init_account(0);
        let positions = acct.positions();
        let ghost ps = acct@.positions;
        assert forall|i: int| 0 <= i < positions@.len() implies decimal::price_ok(
            #[trigger] positions@[i].avg_cost as int,
        ) by {
            assert(account::position_views(positions@)[i] == ps[i]);
            assert(decimal::price_ok(ps[i].avg_cost as int));
        }
        proof {
            lemma_value_of_books(ps, market@);
        }
        let total = account.cash + position_value(&positions, market);
        let peak_before = self.current_peak(acct);
        let peak = if total > peak_before {
            let peak_text = decimal_string(total);
            acct.meta_set("peak_asset", peak_text.as_str());
            total
        } else {
            peak_before
        };
        self.peak_cache = peak;
        let (can_buy, mut note) = fuse_step(acct, peak, total, &cfg, clock.now_ms);
        let initial = account.initial_capital;
        let reached = is_target_reached(total, initial, &cfg);
        let mut limit = allowed;
        if reached {
            limit = decimal_min(limit, cfg.profit_target_position);
            note = target_reached_note(note.as_str(), total, initial, &cfg);
        }
        let mut sells = check_positions(&positions, acct, market, &cfg, clock.now_ms);
        let weak = text_eq(regime, "risk-off");
        let need_trim = weak || !can_buy || reached;
        let streak: u32 = if need_trim {
            self.trim_streak + 1
        } else {
            0
        };
        self.trim_streak = streak;
        let ghost sales = intent::intents(sells@);
        let ghost base = note@;
        if need_trim {
            if weak || !can_buy {
                limit = decimal_min(limit, cfg.fuse_target_position);
            }
            if streak < TRIM_CONFIRM_EVALS {
                push_separator(&mut note);
                note.append("待确认减仓（");
                push_int(&mut note, streak as i128);
                note.append("/");
                push_int(&mut note, TRIM_CONFIRM_EVALS as i128);
                note.append("），本轮不动手");
                assert(note@ =~= base + separator(base) + "待确认减仓（"@ + text::int_text(
                    streak as int,
                ) + "/"@ + text::int_text(TRIM_CONFIRM_EVALS as int) + "），本轮不动手"@);
            } else {
                let mut trims = trim_to_target(
                    &positions,
                    &sells,
                    acct,
                    market,
                    total,
                    limit,
                    clock.day_start_ms,
                );
                let ghost cut = intent::intents(trims@);
                if trims.len() > 0 {
                    push_separator(&mut note);
                    note.append("减仓至 ");
                    push_percent(&mut note, limit, 0);
                    note.append("%（");
                    push_int(&mut note, trims.len() as i128);
                    note.append(" 笔）");
                    assert(note@ =~= base + separator(base) + "减仓至 "@ + percent_text(
                        limit as int,
                        0,
                    ) + "%（"@ + text::int_text(trims@.len() as int) + " 笔）"@);
                }
                sells.append(&mut trims);
                assert(intent::intents(sells@) =~= sales + cut);
            }
        }
        assert(sales + Seq::empty() =~= sales);
        RiskReport {
            forced_sells: sells,
            can_buy,
            max_total_pct: limit,
            regime: regime.to_owned(),
            profit_reached: reached,
            note,
        }
    }
}

proof fn lemma_value_of_books(positions: Seq<PositionView>, market: MarketView)
    requires
        positions.len() <= MAX_ROWS,
        market.ok(),
        forall|i: int|
            0 <= i < positions.len() ==> decimal::price_ok(#[trigger] positions[i].avg_cost as int),
    ensures
        -CASH_MAX <= market_value(positions, market) <= CASH_MAX,
{
    let n = positions.len() as int;
    assert(positions.take(n) =~= positions);
    lemma_market_value(positions, market, n);
    assert(-CASH_MAX <= -n * value_max() && n * value_max() <= CASH_MAX) by (nonlinear_arith)
        requires
            0 <= n <= 100_000,
            value_max() == 4_294_967_295_000_000_000_000_000,
            CASH_MAX == 500_000_000_000_000_000_000_000_000_000,
    ;
}

fn push_separator(note: &mut String)
    ensures
        final(note)@ == old(note)@ + separator(old(note)@),
{
    if note.as_str().unicode_len() > 0 {
        note.append("；");
    } else {
        proof {
            reveal_strlit("");
        }
        assert(note@ + ""@ =~= note@);
    }
}

fn push_percent(out: &mut String, ratio: Decimal, places: u8)
    requires
        ratio_ok(ratio),
        places <= 3,
    ensures
        final(out)@ == old(out)@ + percent_text(ratio as int, places as nat),
{
    push_quotient(out, ratio * 100, UNIT, places, false);
}

fn fuse_step(
    acct: &mut AccountDb,
    peak: Decimal,
    total: Decimal,
    cfg: &RiskConfig,
    now_ms: i64,
) -> (r: (bool, String))
    requires
        old(acct).wf(),
        decimal::money_ok(peak as int),
        decimal::money_ok(total as int),
        cfg.ok(),
        now_ms + cfg.fuse_days * DAY_MS <= i64::MAX,
    ensures
        final(acct).wf(),
        (final(acct)@, r.0, r.1@) == after_fuse(
            old(acct)@,
            peak as int,
            total as int,
            *cfg,
            now_ms,
        ),
{
    let mut note = String::new();
    let until: i64 = match acct.meta_get("fuse_until_ms") {
        Some(s) => match parse_i64(s.as_str()) {
            Some(t) => t,
            None => 0,
        },
        None => 0,
    };
    proof {
        lemma_ratio_product(cfg.fuse_drawdown_pct as int, peak as int);
    }
    if until > now_ms {
        note.append("账户回撤 ");
        push_percent(&mut note, cfg.fuse_drawdown_pct, 1);
        note.append("% 熔断中，剩余约 ");
        push_int(&mut note, (until as i128 - now_ms as i128) / 60_000);
        note.append(" 分钟");
        assert(note@ =~= "账户回撤 "@ + percent_text(cfg.fuse_drawdown_pct as int, 1)
            + "% 熔断中，剩余约 "@ + text::int_text((until - now_ms) / 60_000) + " 分钟"@);
        (false, note)
    } else if peak > 0 && (peak - total) * UNIT >= cfg.fuse_drawdown_pct * peak {
        let end: i128 = now_ms as i128 + cfg.fuse_days as i128 * DAY_MS as i128;
        let stamp = int_string(end);
        acct.meta_set("fuse_until_ms", stamp.as_str());
        note.append("触发熔断：回撤 ");
        push_percent(&mut note, cfg.fuse_drawdown_pct, 1);
        note.append("%，停止买入 ");
        push_int(&mut note, cfg.fuse_days as i128);
        note.append(" 天");
        assert(note@ =~= "触发熔断：回撤 "@ + percent_text(cfg.fuse_drawdown_pct as int, 1)
            + "%，停止买入 "@ + text::int_text(cfg.fuse_days as int) + " 天"@);
        (false, note)
    } else {
        assert(note@ =~= Seq::empty());
        (true, note)
    }
}

fn is_target_reached(total: Decimal, initial: Decimal, cfg: &RiskConfig) -> (r: bool)
    requires
        decimal::money_ok(total as int),
        decimal::money_ok(initial as int),
        cfg.ok(),
    ensures
        r == target_reached(total as int, initial as int, *cfg),
{
    proof {
        lemma_ratio_product(cfg.profit_target_pct as int, initial as int);
    }
    initial > 0 && (total - initial) * UNIT >= cfg.profit_target_pct * initial
}

fn target_reached_note(note: &str, total: Decimal, initial: Decimal, cfg: &RiskConfig) -> (r: String)
    requires
        decimal::money_ok(total as int),
        decimal::money_ok(initial as int),
        cfg.ok(),
    ensures
        r@ == target_note(note@, total as int, initial as int, *cfg),
{
    let mut out = note.to_owned();
    push_separator(&mut out);
    out.append("已达收益目标 ");
    push_percent(&mut out, cfg.profit_target_pct, 1);
    out.append("%（当前 ");
    push_quotient(&mut out, (total - initial) * 100, initial, 1, true);
    out.append("%），仓位上限降至 ");
    push_percent(&mut out, cfg.profit_target_position, 0);
    out.append("% 锁利");
    assert(out@ =~= target_note(note@, total as int, initial as int, *cfg));
    out
}


/// A reading of the market as neutral, with buying allowed and the target not reached, cuts
/// nothing: the only sales are those of single positions, and the count starts over.
pub proof fn neutral_markets_cut_nothing(
    manager: RiskManager,
    books: LedgerView,
    market: MarketView,
    clock: Clock,
)
    ensures
        ({
            let (after, next, report) = assessed(manager, books, market, clock);
            report.regime != "risk-off"@ && report.can_buy && !report.profit_reached ==> {
                &&& next.trim_streak == 0
                &&& exists|before: LedgerView|
                    after_checks(
                        books.positions,
                        before,
                        market,
                        manager.config,
                        clock.now_ms,
                    ) == (after, report.forced_sells)
            }
        }),
{
    lemma_sales_before_confirmation(manager, books, market, clock);
}

proof fn lemma_sales_before_confirmation(
    manager: RiskManager,
    books: LedgerView,
    market: MarketView,
    clock: Clock,
)
    ensures
        ({
            let (after, next, report) = assessed(manager, books, market, clock);
            (report.regime != "risk-off"@ && report.can_buy && !report.profit_reached)
                || manager.trim_streak + 1 < TRIM_CONFIRM_EVALS ==> exists|before: LedgerView|
                after_checks(
                    books.positions,
                    before,
                    market,
                    manager.config,
                    clock.now_ms,
                ) == (after, report.forced_sells)
        }),
{
    let cfg = manager.config;
    let opened = books.opened(0);
    let total = asset_of(opened, market);
    let (with_peak, peak) = after_peak(opened, manager.peak_cache as int, total);
    let (with_fuse, can_buy, fuse_note) = after_fuse(with_peak, peak, total, cfg, clock.now_ms);
    let (after, sells) = after_checks(books.positions, with_fuse, market, cfg, clock.now_ms);
    assert(sells + Seq::empty() =~= sells);
    assert(after_checks(books.positions, with_fuse, market, cfg, clock.now_ms) == (after, sells));
}

/// Positions are cut only after three rounds in a row that call for it: before that the only
/// sales are those of single positions.
pub proof fn cuts_wait_for_three_rounds(
    manager: RiskManager,
    books: LedgerView,
    market: MarketView,
    clock: Clock,
)
    requires
        manager.trim_streak < TRIM_CONFIRM_EVALS - 1,
    ensures
        ({
            let (after, next, report) = assessed(manager, books, market, clock);
            &&& next.trim_streak <= manager.trim_streak + 1
            &&& exists|before: LedgerView|
                after_checks(
                    books.positions,
                    before,
                    market,
                    manager.config,
                    clock.now_ms,
                ) == (after, report.forced_sells)
        }),
{
    lemma_sales_before_confirmation(manager, books, market, clock);
}

/// A level of profit taking is used once: after it was, the same level is not used again
/// for the stock, whatever the price does.
pub proof fn each_level_takes_profit_once(
    p: PositionView,
    books: LedgerView,
    market: MarketView,
    cfg: RiskConfig,
    now_ms: i64,
    later: PositionView,
    later_market: MarketView,
    later_ms: i64,
)
    requires
        later.thscode == p.thscode,
    ensures
        ({
            let (after, _) = after_check(p, books, market, cfg, now_ms);
            verdict(p, books, market, cfg, now_ms) matches Verdict::TakeProfit(level, _)
                ==> !(verdict(later, after, later_market, cfg, later_ms) matches Verdict::TakeProfit(
                again,
                _,
            ) && again == level)
        }),
{
}

/// A drawdown stops buying, and the stop lasts for the days of the fuse even where the total
/// assets recover, as long as the books keep the mark.
pub proof fn the_fuse_stops_buying_for_its_days(
    manager: RiskManager,
    books: LedgerView,
    market: MarketView,
    clock: Clock,
    later: RiskManager,
    later_books: LedgerView,
    later_market: MarketView,
    later_clock: Clock,
)
    requires
        ({
            let opened = books.opened(0);
            let total = asset_of(opened, market);
            let (with_peak, peak) = after_peak(opened, manager.peak_cache as int, total);
            drawn_down(peak, total, manager.config) && stored_fuse(with_peak) <= clock.now_ms
        }),
        0 <= clock.now_ms,
        clock.now_ms + manager.config.fuse_days * DAY_MS <= i64::MAX,
        later_books.setting("fuse_until_ms"@) == assessed(
            manager,
            books,
            market,
            clock,
        ).0.setting("fuse_until_ms"@),
        later_clock.now_ms < clock.now_ms + manager.config.fuse_days * DAY_MS,
    ensures
        !assessed(manager, books, market, clock).2.can_buy,
        !assessed(later, later_books, later_market, later_clock).2.can_buy,
{
    let cfg = manager.config;
    let opened = books.opened(0);
    let total = asset_of(opened, market);
    let (with_peak, peak) = after_peak(opened, manager.peak_cache as int, total);
    let (with_fuse, can_buy, fuse_note) = after_fuse(with_peak, peak, total, cfg, clock.now_ms);
    let until = clock.now_ms + cfg.fuse_days * DAY_MS;
    reveal_strlit("fuse_until_ms");
    reveal_strlit("peak_asset");
    lemma_checks_keep_settings(
        books.positions,
        with_fuse,
        market,
        cfg,
        clock.now_ms,
        "fuse_until_ms"@,
    );
    number::written_integers_are_read_back(until);
    let later_opened = later_books.opened(0);
    let later_total = asset_of(later_opened, later_market);
    assert("fuse_until_ms"@.len() != "peak_asset"@.len());
    let (later_peak_books, later_peak) = after_peak(
        later_opened,
        later.peak_cache as int,
        later_total,
    );
    assert(later_peak_books.setting("fuse_until_ms"@) == Some(text::int_text(until)));
}

/// Checks write settings of profit taking only.
pub proof fn lemma_checks_keep_settings(
    positions: Seq<PositionView>,
    books: LedgerView,
    market: MarketView,
    cfg: RiskConfig,
    now_ms: i64,
    key: Seq<char>,
)
    requires
        key.len() > 0,
        key[0] != 't',
    ensures
        after_checks(positions, books, market, cfg, now_ms).0.setting(key) == books.setting(key),
    decreases positions.len(),
{
    if positions.len() > 0 {
        lemma_checks_keep_settings(positions.drop_last(), books, market, cfg, now_ms, key);
        let p = positions.last();
        reveal_strlit("tp");
        assert(level_key(1, p.thscode)[0] == 't');
        assert(level_key(2, p.thscode)[0] == 't');
    }
}

/// What the cuts raise in all, with `sold` before them.
pub open spec fn raised(
    rows: Seq<PositionView>,
    market: MarketView,
    need: int,
    sold: int,
) -> int
    decreases rows.len(),
{
    if rows.len() == 0 || sold >= need {
        sold
    } else {
        let p = rows[0];
        let price = market.value_price(p);
        if p.quantity == 0 || price <= 0 {
            raised(rows.drop_first(), market, need, sold)
        } else {
            raised(
                rows.drop_first(),
                market,
                need,
                sold + price * cut_size(p.quantity, price, need - sold) * UNIT,
            )
        }
    }
}

/// What the rows are worth that have a price.
pub open spec fn whole_worth(rows: Seq<PositionView>, market: MarketView) -> int
    decreases rows.len(),
{
    if rows.len() == 0 {
        0
    } else {
        let p = rows[0];
        let price = market.value_price(p);
        whole_worth(rows.drop_first(), market) + if p.quantity == 0 || price <= 0 {
            0
        } else {
            price * p.quantity * UNIT
        }
    }
}

/// The cuts raise what is needed, or everything that can be sold is sold.
pub proof fn cuts_raise_what_is_needed(
    rows: Seq<PositionView>,
    market: MarketView,
    need: int,
    sold: int,
)
    ensures
        raised(rows, market, need, sold) >= need || raised(rows, market, need, sold) == sold
            + whole_worth(rows, market),
    decreases rows.len(),
{
    if rows.len() > 0 && sold < need {
        let p = rows[0];
        let price = market.value_price(p);
        let rest = rows.drop_first();
        if p.quantity == 0 || price <= 0 {
            cuts_raise_what_is_needed(rest, market, need, sold);
        } else {
            let q = cut_size(p.quantity, price, need - sold);
            let next = sold + price * q * UNIT;
            cuts_raise_what_is_needed(rest, market, need, next);
            if q < p.quantity {
                lemma_cut_covers(p.quantity, price, need - sold);
                if rest.len() > 0 {
                    assert(raised(rest, market, need, next) == next);
                }
            }
        }
    }
}

/// A cut that leaves shares raises the amount.
pub proof fn lemma_cut_covers(quantity: u32, price: int, amount: int)
    requires
        price > 0,
        quantity > 0,
        amount > 0,
        cut_size(quantity, price, amount) < quantity,
    ensures
        price * cut_size(quantity, price, amount) * UNIT >= amount,
{
    let d = price * UNIT * 100;
    let full = price * quantity * UNIT;
    let q = cut_size(quantity, price, amount);
    lemma_cut_size(quantity, price, amount);
    let want = decimal::min(amount, full);
    let lots = decimal::div_ceil(want, d);
    vstd::arithmetic::div_mod::lemma_fundamental_div_mod(want + d - 1, d);
    vstd::arithmetic::div_mod::lemma_mod_bound(want + d - 1, d);
    assert(d * lots >= want);
    assert(price * q * UNIT == d * lots) by (nonlinear_arith)
        requires
            q == lots * 100,
            d == price * UNIT * 100,
    ;
    assert(price * q * UNIT < full) by (nonlinear_arith)
        requires
            price > 0,
            q < quantity,
            UNIT > 0,
            full == price * quantity * UNIT,
    ;
}

proof fn lemma_checks_only_sell(
    positions: Seq<PositionView>,
    books: LedgerView,
    market: MarketView,
    cfg: RiskConfig,
    now_ms: i64,
)
    ensures
        ({
            let (after, sells) = after_checks(positions, books, market, cfg, now_ms);
            &&& after.trades == books.trades
            &&& forall|i: int|
                0 <= i < sells.len() ==> (#[trigger] sells[i]).side == OrderSide::Sell
        }),
    decreases positions.len(),
{
    if positions.len() > 0 {
        lemma_checks_only_sell(positions.drop_last(), books, market, cfg, now_ms);
    }
}

proof fn lemma_cuts_only_sell(rows: Seq<PositionView>, market: MarketView, need: int, sold: int)
    ensures
        forall|i: int|
            0 <= i < cuts(rows, market, need, sold).len() ==> (#[trigger] cuts(
                rows,
                market,
                need,
                sold,
            )[i]).side == OrderSide::Sell,
    decreases rows.len(),
{
    if rows.len() > 0 && sold < need {
        let p = rows[0];
        let price = market.value_price(p);
        lemma_cuts_only_sell(rows.drop_first(), market, need, sold);
        if p.quantity > 0 && price > 0 {
            let q = cut_size(p.quantity, price, need - sold);
            let next = cuts(rows.drop_first(), market, need, sold + price * q * UNIT);
            lemma_cuts_only_sell(rows.drop_first(), market, need, sold + price * q * UNIT);
            let all = seq![sale(p, q as u32)] + next;
            assert forall|i: int| 0 <= i < all.len() implies (#[trigger] all[i]).side
                == OrderSide::Sell by {
                if i > 0 {
                    assert(all[i] == next[i - 1]);
                }
            }
        }
    }
}

/// The risk control orders nothing but sales, and trades nothing by itself.
pub proof fn risk_control_orders_only_sales(
    manager: RiskManager,
    books: LedgerView,
    market: MarketView,
    clock: Clock,
)
    ensures
        ({
            let (after, next, report) = assessed(manager, books, market, clock);
            &&& after.trades == books.trades
            &&& forall|i: int|
                0 <= i < report.forced_sells.len() ==> (#[trigger] report.forced_sells[i]).side
                    == OrderSide::Sell
        }),
{
    let cfg = manager.config;
    let opened = books.opened(0);
    let total = asset_of(opened, market);
    let (with_peak, peak) = after_peak(opened, manager.peak_cache as int, total);
    let (with_fuse, can_buy, fuse_note) = after_fuse(with_peak, peak, total, cfg, clock.now_ms);
    let (after, sells) = after_checks(books.positions, with_fuse, market, cfg, clock.now_ms);
    let report = assessed(manager, books, market, clock).2;
    let target = report.max_total_pct as int;
    lemma_checks_only_sell(books.positions, with_fuse, market, cfg, clock.now_ms);
    assert forall|i: int| 0 <= i < report.forced_sells.len() implies (
    #[trigger] report.forced_sells[i]).side == OrderSide::Sell by {
        if i < sells.len() {
            assert(report.forced_sells[i] == sells[i]);
        } else {
            let rows = worst_first(
                trimmable(books.positions, sells, after, clock.day_start_ms),
                market,
            );
            let reached = target_reached(total, opened.account->0.initial_capital as int, cfg);
            let (regime, allowed) = regime_of(breadth_of(market));
            let lowered = if reached {
                decimal::min(allowed as int, cfg.profit_target_position as int)
            } else {
                allowed as int
            };
            let weak = regime == "risk-off"@;
            let aim = if weak || !can_buy {
                decimal::min(lowered, cfg.fuse_target_position as int)
            } else {
                lowered
            };
            let need = market_value(books.positions, market) * UNIT - aim * total;
            lemma_cuts_only_sell(rows, market, need, 0);
            let trims = trims_to(
                books.positions,
                sells,
                after,
                market,
                total,
                aim,
                clock.day_start_ms,
            );
            assert(report.forced_sells == sells + trims);
            assert(report.forced_sells[i] == trims[i - sells.len()]);
        }
    }
}

/// While buying is stopped, and in a weak market, the total position is to fall to that of the
/// fuse.
pub proof fn a_blown_fuse_lowers_the_position(
    manager: RiskManager,
    books: LedgerView,
    market: MarketView,
    clock: Clock,
)
    requires
        manager.config.ok(),
    ensures
        ({
            let report = assessed(manager, books, market, clock).2;
            !report.can_buy || report.regime == "risk-off"@ ==> report.max_total_pct
                <= manager.config.fuse_target_position
        }),
{
}

/// Whether an order sells, out of one of the positions, a number of shares that may be sold.
pub open spec fn sells_from(positions: Seq<PositionView>, order: IntentView) -> bool {
    exists|i: int|
        0 <= i < positions.len() && (#[trigger] positions[i]).thscode == order.thscode
            && order.side == OrderSide::Sell && rules::sell_quantity_ok(
            order.thscode,
            order.quantity,
            positions[i].quantity,
        )
}

/// Whether an order sells, out of one of the positions, whole lots or all of it.
spec fn sells_lots_from(positions: Seq<PositionView>, order: IntentView) -> bool {
    exists|i: int|
        0 <= i < positions.len() && (#[trigger] positions[i]).thscode == order.thscode
            && order.side == OrderSide::Sell && 0 < order.quantity <= positions[i].quantity && (
        order.quantity == positions[i].quantity || order.quantity % 100 == 0)
}

/// Whether an order asks for a single lot out of a larger position on the STAR market, which
/// is less than the smallest order there.
pub open spec fn is_too_small(positions: Seq<PositionView>, order: IntentView) -> bool {
    rules::on_star_board(order.thscode) && order.quantity == 100 && exists|i: int|
        0 <= i < positions.len() && (#[trigger] positions[i]).thscode == order.thscode
            && positions[i].quantity > 100
}

/// Every forced sale is of a position and of a quantity that may be sold out of it. Single
/// lots out of larger positions on the STAR market are left out.
pub proof fn forced_sales_are_valid(
    manager: RiskManager,
    books: LedgerView,
    market: MarketView,
    clock: Clock,
    k: int,
)
    requires
        manager.config.trim_ratio.num <= manager.config.trim_ratio.den,
        manager.config.ok(),
        forall|i: int|
            0 <= i < books.positions.len() ==> (#[trigger] books.positions[i]).quantity > 0,
        0 <= k < assessed(manager, books, market, clock).2.forced_sells.len(),
        !is_too_small(
            books.positions,
            assessed(manager, books, market, clock).2.forced_sells[k],
        ),
    ensures
        sells_from(
            books.positions,
            assessed(manager, books, market, clock).2.forced_sells[k],
        ),
{
    let cfg = manager.config;
    let (regime, allowed) = regime_of(breadth_of(market));
    let opened = books.opened(0);
    let total = asset_of(opened, market);
    let (with_peak, peak) = after_peak(opened, manager.peak_cache as int, total);
    let (with_fuse, can_buy, fuse_note) = after_fuse(with_peak, peak, total, cfg, clock.now_ms);
    let (after, sells) = after_checks(books.positions, with_fuse, market, cfg, clock.now_ms);
    let report = assessed(manager, books, market, clock).2;
    if k < sells.len() {
        lemma_checks_valid(books.positions, books.positions, with_fuse, market, cfg, clock.now_ms, k);
    } else {
        let target = report.max_total_pct as int;
        let rows = trimmable(books.positions, sells, after, clock.day_start_ms);
        lemma_trimmable_from(books.positions, books.positions, sells, after, clock.day_start_ms);
        let reached = target_reached(total, opened.account->0.initial_capital as int, cfg);
        let lowered = if reached {
            decimal::min(allowed as int, cfg.profit_target_position as int)
        } else {
            allowed as int
        };
        let goal = if regime == "risk-off"@ || !can_buy {
            decimal::min(lowered, cfg.fuse_target_position as int)
        } else {
            lowered
        };
        let need = market_value(books.positions, market) * UNIT - goal * total;
        let sorted = worst_first(rows, market);
        assert forall|i: int| 0 <= i < sorted.len() implies books.positions.contains(
            #[trigger] sorted[i],
        ) by {
            lemma_sorted_from(rows, market, i);
        }
        lemma_cuts_valid(books.positions, sorted, market, need, 0, k - sells.len());
    }
    let order = report.forced_sells[k];
    let i = choose|i: int|
        0 <= i < books.positions.len() && (#[trigger] books.positions[i]).thscode == order.thscode
            && order.side == OrderSide::Sell && 0 < order.quantity <= books.positions[i].quantity
            && (order.quantity == books.positions[i].quantity || order.quantity % 100 == 0);
    assert(rules::sell_quantity_ok(order.thscode, order.quantity, books.positions[i].quantity));
}

proof fn lemma_checks_valid(
    all: Seq<PositionView>,
    positions: Seq<PositionView>,
    books: LedgerView,
    market: MarketView,
    cfg: RiskConfig,
    now_ms: i64,
    k: int,
)
    requires
        cfg.ok(),
        cfg.trim_ratio.num <= cfg.trim_ratio.den,
        positions.is_prefix_of(all),
        forall|i: int|
            0 <= i < all.len() ==> (#[trigger] all[i]).quantity > 0,
        0 <= k < after_checks(positions, books, market, cfg, now_ms).1.len(),
    ensures
        sells_lots_from(all, after_checks(positions, books, market, cfg, now_ms).1[k]),
    decreases positions.len(),
{
    if positions.len() > 0 {
        let rest = positions.drop_last();
        let (before, sales) = after_checks(rest, books, market, cfg, now_ms);
        if k < sales.len() {
            assert(rest =~= all.subrange(0, rest.len() as int));
            lemma_checks_valid(all, rest, books, market, cfg, now_ms, k);
        } else {
            let p = positions.last();
            let i = positions.len() - 1;
            assert(all[i] == p);
            let (_, last) = after_check(p, before, market, cfg, now_ms);
            lemma_trim_quantity(p.quantity, cfg.trim_ratio);
            assert(sells_lots_from(all, last->0)) by {
                assert(all[i].thscode == last->0.thscode);
            }
        }
    }
}

proof fn lemma_trim_quantity(quantity: u32, ratio: Fraction)
    requires
        0 <= ratio.num <= ratio.den,
        ratio.den > 0,
    ensures
        0 <= trim_quantity(quantity, ratio) <= quantity,
        trim_quantity(quantity, ratio) % 100 == 0,
{
    if quantity >= 300 {
        assert(0 <= quantity * ratio.num <= quantity * ratio.den) by (nonlinear_arith)
            requires
                0 <= ratio.num <= ratio.den,
                quantity >= 0,
        ;
        vstd::arithmetic::div_mod::lemma_div_is_ordered(
            quantity * ratio.num,
            quantity * ratio.den,
            ratio.den as int,
        );
        vstd::arithmetic::div_mod::lemma_div_by_multiple(quantity as int, ratio.den as int);
        vstd::arithmetic::div_mod::lemma_div_pos_is_pos(quantity * ratio.num, ratio.den as int);
    }
}

proof fn lemma_trimmable_from(
    all: Seq<PositionView>,
    positions: Seq<PositionView>,
    orders: Seq<IntentView>,
    books: LedgerView,
    day_start_ms: i64,
)
    requires
        positions.is_prefix_of(all),
    ensures
        forall|i: int|
            0 <= i < trimmable(positions, orders, books, day_start_ms).len() ==> all.contains(
                #[trigger] trimmable(positions, orders, books, day_start_ms)[i],
            ) && !ordered(
                orders,
                trimmable(positions, orders, books, day_start_ms)[i].thscode,
            ) && !bought_since(
                books,
                trimmable(positions, orders, books, day_start_ms)[i].thscode,
                day_start_ms,
            ),
    decreases positions.len(),
{
    if positions.len() > 0 {
        let rest = positions.drop_last();
        assert(rest =~= all.subrange(0, rest.len() as int));
        lemma_trimmable_from(all, rest, orders, books, day_start_ms);
        let p = positions.last();
        assert(all[positions.len() - 1] == p);
        let before = trimmable(rest, orders, books, day_start_ms);
        let list = trimmable(positions, orders, books, day_start_ms);
        assert forall|i: int| 0 <= i < list.len() implies all.contains(#[trigger] list[i])
            && !ordered(orders, list[i].thscode) && !bought_since(
            books,
            list[i].thscode,
            day_start_ms,
        ) by {
            if i < before.len() {
                assert(list[i] == before[i]);
            } else {
                assert(list[i] == p);
            }
        }
    }
}

proof fn lemma_sorted_from(rows: Seq<PositionView>, market: MarketView, i: int)
    requires
        0 <= i < worst_first(rows, market).len(),
    ensures
        rows.contains(worst_first(rows, market)[i]),
{
    let keys = Seq::new(rows.len(), |j: int| gain_of(rows[j], market));
    order::lemma_arranged_in_range(keys, rows.len());
    let o = order::arranged(keys);
    assert(0 <= o[i] < rows.len());
    assert(rows[o[i]] == worst_first(rows, market)[i]);
}

proof fn lemma_cuts_valid(
    all: Seq<PositionView>,
    rows: Seq<PositionView>,
    market: MarketView,
    need: int,
    sold: int,
    k: int,
)
    requires
        forall|i: int| 0 <= i < rows.len() ==> all.contains(#[trigger] rows[i]),
        forall|i: int|
            0 <= i < all.len() ==> (#[trigger] all[i]).quantity > 0,
        0 <= k < cuts(rows, market, need, sold).len(),
    ensures
        sells_lots_from(all, cuts(rows, market, need, sold)[k]),
    decreases rows.len(),
{
    if rows.len() > 0 && sold < need {
        let p = rows[0];
        let price = market.value_price(p);
        let rest = rows.drop_first();
        assert forall|i: int| 0 <= i < rest.len() implies all.contains(#[trigger] rest[i]) by {
            assert(rest[i] == rows[i + 1]);
        }
        if p.quantity == 0 || price <= 0 {
            lemma_cuts_valid(all, rest, market, need, sold, k);
        } else {
            let q = cut_size(p.quantity, price, need - sold);
            if k == 0 {
                lemma_cut_size(p.quantity, price, need - sold);
                assert(all.contains(rows[0]));
                let i = choose|i: int| 0 <= i < all.len() && all[i] == p;
                assert(all[i].thscode == p.thscode);
            } else {
                lemma_cuts_valid(all, rest, market, need, sold + price * q * UNIT, k - 1);
            }
        }
    }
}

} // verus!
