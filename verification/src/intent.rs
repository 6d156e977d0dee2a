//! Order intents and what becomes of them: the contract between deciding and executing.

use vstd::prelude::*;

use crate::decimal;
use crate::decimal::Decimal;
use crate::text;
use crate::text::{push_decimal, push_int};

verus! {

/// The side of an order.
#[derive(Debug, Clone, Copy, PartialEq, Eq, Structural)]
pub enum OrderSide {
    Buy,
    Sell,
}

impl OrderSide {
    /// The name of the side.
    pub open spec fn text(self) -> Seq<char> {
        match self {
            OrderSide::Buy => "BUY"@,
            OrderSide::Sell => "SELL"@,
        }
    }

    /// The name of the side.
    pub fn as_str(self) -> (r: &'static str)
        ensures
            r@ == self.text(),
    {
        match self {
            OrderSide::Buy => "BUY",
            OrderSide::Sell => "SELL",
        }
    }
}

/// What a decision wants done; nothing of it is executed yet.
#[derive(Debug)]
pub struct OrderIntent {
    pub thscode: String,
    pub name: String,
    pub side: OrderSide,
    /// Number of shares.
    pub quantity: u32,
    /// The decision that the order comes from.
    pub decision_id: Option<i64>,
}

#[verifier::ext_equal]
pub struct IntentView {
    pub thscode: Seq<char>,
    pub name: Seq<char>,
    pub side: OrderSide,
    pub quantity: u32,
    pub decision_id: Option<i64>,
}

impl View for OrderIntent {
    type V = IntentView;

    open spec fn view(&self) -> IntentView {
        IntentView {
            thscode: self.thscode@,
            name: self.name@,
            side: self.side,
            quantity: self.quantity,
            decision_id: self.decision_id,
        }
    }
}

impl Clone for OrderIntent {
    fn clone(&self) -> (r: Self)
        ensures
            r@ == self@,
    {
        OrderIntent {
            thscode: self.thscode.clone(),
            name: self.name.clone(),
            side: self.side,
            quantity: self.quantity,
            decision_id: self.decision_id,
        }
    }
}

/// The views of a list of intents.
pub open spec fn intents(list: Seq<OrderIntent>) -> Seq<IntentView> {
    Seq::new(list.len(), |i: int| list[i]@)
}

/// Why an order was refused.
#[derive(Debug)]
pub enum RejectReason {
    NotTradingTime,
    LotSize(u32),
    BoardNotAllowed(String),
    LimitUp(String),
    LimitDown(String),
    /// What the purchase takes with its fee, and the cash at hand.
    InsufficientFunds(Decimal, Decimal),
    /// The stock, and how much of it is held.
    InsufficientPosition(String, u32),
    /// The stock, and how much of it may be sold today.
    TPlusOne(String, u32),
    /// The limit in percent.
    PositionLimit(Decimal),
    MaxPositions(usize),
    NoPrice(String),
    PriceAboveLimitUp,
    PriceBelowLimitDown,
    Other(String),
}

#[verifier::ext_equal]
pub enum RejectView {
    NotTradingTime,
    LotSize(u32),
    BoardNotAllowed(Seq<char>),
    LimitUp(Seq<char>),
    LimitDown(Seq<char>),
    InsufficientFunds(Decimal, Decimal),
    InsufficientPosition(Seq<char>, u32),
    TPlusOne(Seq<char>, u32),
    PositionLimit(Decimal),
    MaxPositions(usize),
    NoPrice(Seq<char>),
    PriceAboveLimitUp,
    PriceBelowLimitDown,
    Other(Seq<char>),
}

impl View for RejectReason {
    type V = RejectView;

    open spec fn view(&self) -> RejectView {
        match *self {
            RejectReason::NotTradingTime => RejectView::NotTradingTime,
            RejectReason::LotSize(q) => RejectView::LotSize(q),
            RejectReason::BoardNotAllowed(s) => RejectView::BoardNotAllowed(s@),
            RejectReason::LimitUp(s) => RejectView::LimitUp(s@),
            RejectReason::LimitDown(s) => RejectView::LimitDown(s@),
            RejectReason::InsufficientFunds(a, b) => RejectView::InsufficientFunds(a, b),
            RejectReason::InsufficientPosition(s, q) => RejectView::InsufficientPosition(s@, q),
            RejectReason::TPlusOne(s, q) => RejectView::TPlusOne(s@, q),
            RejectReason::PositionLimit(p) => RejectView::PositionLimit(p),
            RejectReason::MaxPositions(n) => RejectView::MaxPositions(n),
            RejectReason::NoPrice(s) => RejectView::NoPrice(s@),
            RejectReason::PriceAboveLimitUp => RejectView::PriceAboveLimitUp,
            RejectReason::PriceBelowLimitDown => RejectView::PriceBelowLimitDown,
            RejectReason::Other(s) => RejectView::Other(s@),
        }
    }
}

impl RejectView {
    /// Whether the amounts are in range.
    pub open spec fn fits(self) -> bool {
        match self {
            RejectView::InsufficientFunds(a, b) => decimal::money_ok(a as int)
                && decimal::money_ok(b as int),
            RejectView::PositionLimit(p) => decimal::money_ok(p as int),
            _ => true,
        }
    }

    /// What the user reads.
    pub open spec fn message(self) -> Seq<char> {
        match self {
            RejectView::NotTradingTime => "非交易时段"@,
            RejectView::LotSize(q) => "数量不符合板块整手规则（主板/创业板100股整手，科创板≥200股起）"@,
            RejectView::BoardNotAllowed(s) => "账户资金不满足该板块权限要求: "@ + s,
            RejectView::LimitUp(s) => s + " 已涨停，禁止买入"@,
            RejectView::LimitDown(s) => s + " 已跌停，禁止卖出"@,
            RejectView::InsufficientFunds(a, b) => "资金不足: 需要 "@ + text::decimal_text(
                a as int,
                2,
                false,
            ) + "(含费), 可用 "@ + text::decimal_text(b as int, 2, false),
            RejectView::InsufficientPosition(s, q) => "持仓不足: "@ + s + " 持有 "@ + text::int_text(
                q as int,
            ) + " 股"@,
            RejectView::TPlusOne(s, q) => "T+1: "@ + s + " 当日买入部分不可卖, 可卖 "@
                + text::int_text(q as int) + " 股"@,
            RejectView::PositionLimit(p) => "单票仓位超限: 上限 "@ + text::decimal_text(
                p as int,
                0,
                false,
            ) + "%"@,
            RejectView::MaxPositions(n) => "持股数量超限: 上限 "@ + text::int_text(n as int)
                + " 只"@,
            RejectView::NoPrice(s) => "无有效行情: "@ + s,
            RejectView::PriceAboveLimitUp => "买入价超出涨停价"@,
            RejectView::PriceBelowLimitDown => "卖出价低于跌停价"@,
            RejectView::Other(s) => "其他: "@ + s,
        }
    }
}

impl RejectReason {
    /// Whether the amounts are in range.
    pub open spec fn fits(&self) -> bool {
        self@.fits()
    }

    /// What the user reads.
    pub fn message(&self) -> (r: String)
        requires
            self.fits(),
        ensures
            r@ == self@.message(),
    {
        let mut out = String::new();
        match self {
            RejectReason::NotTradingTime => out.append("非交易时段"),
            RejectReason::LotSize(q) => out.append(
                "数量不符合板块整手规则（主板/创业板100股整手，科创板≥200股起）",
            ),
            RejectReason::BoardNotAllowed(s) => {
                out.append("账户资金不满足该板块权限要求: ");
                out.append(s.as_str());
            },
            RejectReason::LimitUp(s) => {
                out.append(s.as_str());
                out.append(" 已涨停，禁止买入");
            },
            RejectReason::LimitDown(s) => {
                out.append(s.as_str());
                out.append(" 已跌停，禁止卖出");
            },
            RejectReason::InsufficientFunds(a, b) => {
                out.append("资金不足: 需要 ");
                push_decimal(&mut out, *a, 2, false);
                out.append("(含费), 可用 ");
                push_decimal(&mut out, *b, 2, false);
            },
            RejectReason::InsufficientPosition(s, q) => {
                out.append("持仓不足: ");
                out.append(s.as_str());
                out.append(" 持有 ");
                push_int(&mut out, *q as i128);
                out.append(" 股");
            },
            RejectReason::TPlusOne(s, q) => {
                out.append("T+1: ");
                out.append(s.as_str());
                out.append(" 当日买入部分不可卖, 可卖 ");
                push_int(&mut out, *q as i128);
                out.append(" 股");
            },
            RejectReason::PositionLimit(p) => {
                out.append("单票仓位超限: 上限 ");
                push_decimal(&mut out, *p, 0, false);
                out.append("%");
            },
            RejectReason::MaxPositions(n) => {
                out.append("持股数量超限: 上限 ");
                push_int(&mut out, *n as i128);
                out.append(" 只");
            },
            RejectReason::NoPrice(s) => {
                out.append("无有效行情: ");
                out.append(s.as_str());
            },
            RejectReason::PriceAboveLimitUp => out.append("买入价超出涨停价"),
            RejectReason::PriceBelowLimitDown => out.append("卖出价低于跌停价"),
            RejectReason::Other(s) => {
                out.append("其他: ");
                out.append(s.as_str());
            },
        }
        assert(out@ =~= self@.message());
        out
    }
}

/// What was executed.
#[derive(Debug)]
pub struct Execution {
    pub intent: OrderIntent,
    /// The market price at which the order was filled.
    pub price: Decimal,
    pub amount: Decimal,
    pub fee: Decimal,
    /// Cash after the trade.
    pub cash_after: Option<Decimal>,
}

#[verifier::ext_equal]
pub struct ExecutionView {
    pub intent: IntentView,
    pub price: Decimal,
    pub amount: Decimal,
    pub fee: Decimal,
    pub cash_after: Option<Decimal>,
}

impl View for Execution {
    type V = ExecutionView;

    open spec fn view(&self) -> ExecutionView {
        ExecutionView {
            intent: self.intent@,
            price: self.price,
            amount: self.amount,
            fee: self.fee,
            cash_after: self.cash_after,
        }
    }
}

} // verus!
