//! The account, its positions and its trades.

use vstd::prelude::*;

use crate::decimal::Decimal;
use crate::intent::OrderSide;

verus! {

/// The cash account.
#[derive(Debug, Clone, Copy, PartialEq, Eq, Structural)]
pub struct Account {
    pub cash: Decimal,
    pub initial_capital: Decimal,
}

/// What is held of one stock.
#[derive(Debug)]
pub struct Position {
    pub thscode: String,
    pub name: String,
    pub quantity: u32,
    pub avg_cost: Decimal,
}

#[verifier::ext_equal]
pub struct PositionView {
    pub thscode: Seq<char>,
    pub name: Seq<char>,
    pub quantity: u32,
    pub avg_cost: Decimal,
}

impl View for Position {
    type V = PositionView;

    open spec fn view(&self) -> PositionView {
        PositionView {
            thscode: self.thscode@,
            name: self.name@,
            quantity: self.quantity,
            avg_cost: self.avg_cost,
        }
    }
}

impl Clone for Position {
    fn clone(&self) -> (r: Self)
        ensures
            r@ == self@,
    {
        Position {
            thscode: self.thscode.clone(),
            name: self.name.clone(),
            quantity: self.quantity,
            avg_cost: self.avg_cost,
        }
    }
}

/// The views of a list of positions.
pub open spec fn position_views(list: Seq<Position>) -> Seq<PositionView> {
    Seq::new(list.len(), |i: int| list[i]@)
}

/// A trade to be recorded. The price is a market price.
#[derive(Debug)]
pub struct Trade {
    pub thscode: String,
    pub name: String,
    pub side: OrderSide,
    pub price: Decimal,
    pub quantity: u32,
    pub amount: Decimal,
    pub fee: Decimal,
    /// The decision that the trade comes from; none for a trade of the risk control.
    pub decision_id: Option<i64>,
}

/// A recorded trade.
#[derive(Debug)]
pub struct RecentTrade {
    pub thscode: String,
    pub name: String,
    pub side: OrderSide,
    pub price: Decimal,
    pub quantity: u32,
    pub amount: Decimal,
    pub fee: Decimal,
    pub ts_ms: i64,
    pub decision_id: Option<i64>,
}

#[verifier::ext_equal]
pub struct TradeView {
    pub thscode: Seq<char>,
    pub name: Seq<char>,
    pub side: OrderSide,
    pub price: Decimal,
    pub quantity: u32,
    pub amount: Decimal,
    pub fee: Decimal,
    pub ts_ms: i64,
    pub decision_id: Option<i64>,
}

impl Trade {
    /// The trade as recorded at a time.
    pub open spec fn at(self, ts_ms: i64) -> TradeView {
        TradeView {
            thscode: self.thscode@,
            name: self.name@,
            side: self.side,
            price: self.price,
            quantity: self.quantity,
            amount: self.amount,
            fee: self.fee,
            ts_ms,
            decision_id: self.decision_id,
        }
    }
}

impl View for RecentTrade {
    type V = TradeView;

    open spec fn view(&self) -> TradeView {
        TradeView {
            thscode: self.thscode@,
            name: self.name@,
            side: self.side,
            price: self.price,
            quantity: self.quantity,
            amount: self.amount,
            fee: self.fee,
            ts_ms: self.ts_ms,
            decision_id: self.decision_id,
        }
    }
}

impl Clone for RecentTrade {
    fn clone(&self) -> (r: Self)
        ensures
            r@ == self@,
    {
        RecentTrade {
            thscode: self.thscode.clone(),
            name: self.name.clone(),
            side: self.side,
            price: self.price,
            quantity: self.quantity,
            amount: self.amount,
            fee: self.fee,
            ts_ms: self.ts_ms,
            decision_id: self.decision_id,
        }
    }
}

/// The views of a list of trades.
pub open spec fn trade_views(list: Seq<RecentTrade>) -> Seq<TradeView> {
    Seq::new(list.len(), |i: int| list[i]@)
}

/// A logged decision of the model.
#[derive(Debug)]
pub struct DecisionLog {
    pub id: i64,
    pub ts_ms: i64,
    pub model: String,
    pub context: String,
    pub raw_response: String,
    pub actions: String,
    pub status: String,
    pub note: String,
}

#[verifier::ext_equal]
pub struct DecisionView {
    pub id: i64,
    pub ts_ms: i64,
    pub model: Seq<char>,
    pub context: Seq<char>,
    pub raw_response: Seq<char>,
    pub actions: Seq<char>,
    pub status: Seq<char>,
    pub note: Seq<char>,
}

impl View for DecisionLog {
    type V = DecisionView;

    open spec fn view(&self) -> DecisionView {
        DecisionView {
            id: self.id,
            ts_ms: self.ts_ms,
            model: self.model@,
            context: self.context@,
            raw_response: self.raw_response@,
            actions: self.actions@,
            status: self.status@,
            note: self.note@,
        }
    }
}

impl Clone for DecisionLog {
    fn clone(&self) -> (r: Self)
        ensures
            r@ == self@,
    {
        DecisionLog {
            id: self.id,
            ts_ms: self.ts_ms,
            model: self.model.clone(),
            context: self.context.clone(),
            raw_response: self.raw_response.clone(),
            actions: self.actions.clone(),
            status: self.status.clone(),
            note: self.note.clone(),
        }
    }
}

/// The views of a list of decisions.
pub open spec fn decision_views(list: Seq<DecisionLog>) -> Seq<DecisionView> {
    Seq::new(list.len(), |i: int| list[i]@)
}

/// The value of the account at a time.
#[derive(Debug, Clone, Copy, PartialEq, Eq, Structural)]
pub struct AccountSnapshot {
    pub id: i64,
    pub ts_ms: i64,
    pub cash: Decimal,
    pub market_value: Decimal,
    pub total_asset: Decimal,
}

/// What became of a decision some days later.
#[derive(Debug)]
pub struct ReviewRow {
    pub decision_id: i64,
    pub days_after: u32,
    pub summary: String,
    pub pnl: Decimal,
}

#[verifier::ext_equal]
pub struct ReviewView {
    pub decision_id: i64,
    pub days_after: u32,
    pub summary: Seq<char>,
    pub pnl: Decimal,
}

impl View for ReviewRow {
    type V = ReviewView;

    open spec fn view(&self) -> ReviewView {
        ReviewView {
            decision_id: self.decision_id,
            days_after: self.days_after,
            summary: self.summary@,
            pnl: self.pnl,
        }
    }
}

impl Clone for ReviewRow {
    fn clone(&self) -> (r: Self)
        ensures
            r@ == self@,
    {
        ReviewRow {
            decision_id: self.decision_id,
            days_after: self.days_after,
            summary: self.summary.clone(),
            pnl: self.pnl,
        }
    }
}

} // verus!
