use finbox::account::{Position, Trade};
use finbox::adjustment::{
    apply_pending_adjustments, apply_pending_any, dividend_tax_rate, AdjustmentEvent, StockEvents,
};
use finbox::decimal::Decimal;
use finbox::intent::{Execution, OrderIntent, OrderSide, RejectReason};
use finbox::ledger::AccountDb;
use finbox::sim::{buy, check_trading_time, fees, market_price, sell, Clock, Quote, SimBroker};

fn dec(x: f64) -> Decimal {
    (x * 1e6).round() as Decimal
}

fn num(d: Decimal) -> f64 {
    d as f64 / 1e6
}

fn clock() -> Clock {
    Clock {
        weekday_iso: 1,
        minute_of_day: 600,
        now_ms: 1_800_000_000_000,
        day_start_ms: 1_800_000_000_000 - 36_000_000,
    }
}

fn quote() -> Quote {
    Quote { snapshot_price: Some(dec(10.5)), prev_close: Some(dec(10.0)), days_since_first_bar: None }
}

fn order(side: OrderSide, qty: u32) -> OrderIntent {
    OrderIntent {
        thscode: "600519.SH".to_string(),
        name: "贵州茅台".to_string(),
        side,
        quantity: qty,
        decision_id: None,
    }
}

fn holding(code: &str, qty: u32, cost: f64) -> Position {
    Position { thscode: code.to_string(), name: "x".to_string(), quantity: qty, avg_cost: dec(cost) }
}

fn buy_direct(acct: &mut AccountDb, price: f64, qty: u32) -> Result<Execution, RejectReason> {
    buy(acct, &order(OrderSide::Buy, qty), dec(price), Some(dec(10.0)), dec(200_000.0), &clock())
}

fn sell_direct(acct: &mut AccountDb, price: f64, qty: u32) -> Result<Execution, RejectReason> {
    sell(acct, &order(OrderSide::Sell, qty), dec(price), Some(dec(10.0)), dec(200_000.0), &clock())
}

#[test]
fn buy_happy_path() {
    let mut acct = AccountDb::new();
    let e = buy_direct(&mut acct, 10.5, 100).unwrap();
    assert!((num(e.price) - 10.5).abs() < 1e-9);
    assert!((num(e.amount) - 1050.0).abs() < 1e-9);
    assert!((num(e.fee) - 5.01).abs() < 1e-9, "fee={}", e.fee);
    let p = acct.position("600519.SH").unwrap();
    assert_eq!(p.quantity, 100);
}

#[test]
fn buy_rejects_lot_size() {
    let mut acct = AccountDb::new();
    assert!(matches!(buy_direct(&mut acct, 10.5, 150), Err(RejectReason::LotSize(_))));
}

#[test]
fn buy_rejects_limit_up() {
    let mut acct = AccountDb::new();
    assert!(matches!(buy_direct(&mut acct, 11.0, 100), Err(RejectReason::LimitUp(_))));
}

#[test]
fn buy_rejects_insufficient_funds() {
    let mut acct = AccountDb::new();
    let _ = acct.get_or_init_account(dec(200_000.0));
    acct.set_account_cash(dec(500.0));
    assert!(matches!(
        buy_direct(&mut acct, 10.5, 100),
        Err(RejectReason::InsufficientFunds(_, _))
    ));
}

#[test]
fn buy_rejects_max_positions() {
    let mut acct = AccountDb::new();
    for i in 1..=3 {
        acct.upsert_position(&holding(&format!("60000{i}.SH"), 100, 1.0));
    }
    assert!(matches!(buy_direct(&mut acct, 10.5, 100), Err(RejectReason::MaxPositions(_))));
}

#[test]
fn sell_happy_path_and_t1() {
    let mut acct = AccountDb::new();
    buy_direct(&mut acct, 10.5, 100).unwrap();
    assert!(matches!(sell_direct(&mut acct, 10.5, 100), Err(RejectReason::TPlusOne(_, 0))));
    acct.backdate_buys("600519.SH");
    let e = sell_direct(&mut acct, 10.5, 100).unwrap();
    assert!((num(e.fee) - 5.54).abs() < 1e-9, "fee={}", e.fee);
    assert!(acct.position("600519.SH").is_none());
}

#[test]
fn sell_rejects_limit_down() {
    let mut acct = AccountDb::new();
    buy_direct(&mut acct, 10.5, 100).unwrap();
    acct.backdate_buys("600519.SH");
    assert!(matches!(sell_direct(&mut acct, 9.0, 100), Err(RejectReason::LimitDown(_))));
}

#[test]
fn fees_calc() {
    assert!((num(fees(dec(10_000.0), OrderSide::Buy)) - 5.1).abs() < 1e-9);
    assert!((num(fees(dec(100_000.0), OrderSide::Buy)) - 26.0).abs() < 1e-9);
    assert!((num(fees(dec(100_000.0), OrderSide::Sell)) - 76.0).abs() < 1e-9);
}

#[test]
fn account_basic_flow() {
    let mut db = AccountDb::new();
    let acct = db.get_or_init_account(dec(100_000.0));
    assert_eq!(acct.cash, dec(100_000.0));
    db.set_account_cash(dec(80_000.0));
    let acct = db.get_or_init_account(dec(100_000.0));
    assert_eq!(acct.cash, dec(80_000.0));

    db.upsert_position(&Position {
        thscode: "600519.SH".to_string(),
        name: "贵州茅台".to_string(),
        quantity: 100,
        avg_cost: dec(1800.0),
    });
    assert_eq!(db.positions().len(), 1);

    let id = db.insert_trade(
        Trade {
            thscode: "600519.SH".to_string(),
            name: "贵州茅台".to_string(),
            side: OrderSide::Buy,
            price: dec(1800.0),
            quantity: 100,
            amount: dec(180_000.0),
            fee: dec(50.0),
            decision_id: None,
        },
        1,
    );
    assert!(id > 0);
    assert_eq!(db.recent_trades(10).len(), 1);

    db.meta_set("k", "v");
    assert_eq!(db.meta_get("k"), Some("v".to_string()));

    db.reset_account(dec(50_000.0));
    assert_eq!(db.positions().len(), 0);
    assert_eq!(db.recent_trades(10).len(), 0);
    assert_eq!(db.get_or_init_account(0).cash, dec(50_000.0));
}

#[test]
fn dividend_tax_by_holding() {
    assert_eq!(dividend_tax_rate(10 * 86_400_000), dec(0.20));
    assert_eq!(dividend_tax_rate(60 * 86_400_000), dec(0.10));
    assert_eq!(dividend_tax_rate(400 * 86_400_000), dec(0.0));
}

fn events(code: &str, ex_date_ms: i64, dividend: f64, bonus: f64) -> Vec<StockEvents> {
    vec![StockEvents {
        thscode: code.to_string(),
        events: vec![AdjustmentEvent {
            ex_date_ms,
            dividend: dec(dividend),
            bonus: dec(bonus),
            allot_ratio: None,
        }],
    }]
}

#[test]
fn bonus_split_adjusts_position() {
    let mut acct = AccountDb::new();
    acct.get_or_init_account(dec(100_000.0));
    acct.upsert_position(&Position {
        thscode: "600519.SH".to_string(),
        name: "贵州茅台".to_string(),
        quantity: 100,
        avg_cost: dec(1000.0),
    });
    let today = 1_800_000_000_000i64;
    let list = events("600519.SH", today - 86_400_000, 0.0, 0.1);
    let n = apply_pending_adjustments(&mut acct, &list, today, today);
    assert_eq!(n, 1);
    let p = acct.position("600519.SH").unwrap();
    assert_eq!(p.quantity, 110);
    assert!((num(p.avg_cost) - 909.091).abs() < 0.01);
    let n2 = apply_pending_adjustments(&mut acct, &list, today, today);
    assert_eq!(n2, 0);
}

#[test]
fn each_bonus_builds_on_the_one_before() {
    let mut acct = AccountDb::new();
    acct.get_or_init_account(dec(100_000.0));
    acct.upsert_position(&holding("600519.SH", 100, 1000.0));
    let today = 1_800_000_000_000i64;
    let mut list = events("600519.SH", today - 2 * 86_400_000, 0.0, 0.1);
    list[0].events.push(AdjustmentEvent {
        ex_date_ms: today - 86_400_000,
        dividend: dec(1.0),
        bonus: dec(0.1),
        allot_ratio: None,
    });
    assert_eq!(apply_pending_adjustments(&mut acct, &list, today, today), 2);
    let p = acct.position("600519.SH").unwrap();
    assert_eq!(p.quantity, 121);
    assert!((num(p.avg_cost) - 826.446).abs() < 0.01);
    // one a share on the 121 shares, less a fifth
    assert_eq!(acct.get_or_init_account(0).cash, dec(100_096.8));
}

#[test]
fn actions_out_of_range_are_not_applied() {
    let mut acct = AccountDb::new();
    acct.get_or_init_account(dec(100_000.0));
    for i in 0..150 {
        acct.upsert_position(&holding(&format!("60{i:04}.SH"), 100, 10.0));
    }
    let list = events("600149.SH", 1, 0.0, 1.0);
    assert_eq!(apply_pending_any(&mut acct, &list, 1, 1), Some(1));
    assert_eq!(acct.position("600149.SH").unwrap().quantity, 200);
    let wild = events("600149.SH", 2, 2e9, 0.0);
    assert_eq!(apply_pending_any(&mut acct, &wild, 2, 2), None);
    assert_eq!(acct.get_or_init_account(0).cash, dec(100_000.0));
}

#[test]
fn dividends_are_paid_after_tax() {
    let mut acct = AccountDb::new();
    acct.get_or_init_account(dec(100_000.0));
    acct.upsert_position(&holding("600519.SH", 100, 10.0));
    let today = 1_800_000_000_000i64;
    let list = events("600519.SH", today, 1.0, 0.0);
    assert_eq!(apply_pending_adjustments(&mut acct, &list, today, today), 1);
    // no purchase on record: held for no time at all, taxed at a fifth
    assert_eq!(acct.get_or_init_account(0).cash, dec(100_080.0));
    assert_eq!(acct.position("600519.SH").unwrap().quantity, 100);
    // an action of tomorrow waits
    let later = events("600519.SH", today + 1, 1.0, 0.0);
    assert_eq!(apply_pending_adjustments(&mut acct, &later, today, today), 0);
}

#[test]
fn refusals() {
    let mut acct = AccountDb::new();
    let before = acct.get_or_init_account(dec(200_000.0));
    // above the limit for one position: 20% of 200000 is 40000
    assert!(matches!(buy_direct(&mut acct, 10.5, 4_000), Err(RejectReason::PositionLimit(_))));
    assert!(matches!(buy_direct(&mut acct, 11.5, 100), Err(RejectReason::LimitUp(_))));
    assert!(matches!(
        sell_direct(&mut acct, 10.5, 100),
        Err(RejectReason::InsufficientPosition(_, 0))
    ));
    let star = OrderIntent { thscode: "688981.SH".to_string(), ..order(OrderSide::Buy, 200) };
    assert!(matches!(
        buy(&mut acct, &star, dec(10.5), Some(dec(10.0)), dec(200_000.0), &clock()),
        Err(RejectReason::BoardNotAllowed(_))
    ));
    // what is refused changes nothing
    let after = acct.get_or_init_account(0);
    assert_eq!(after.cash, before.cash);
    assert_eq!(acct.recent_trades(10).len(), 0);
    // odd lots are sold only all at once
    acct.upsert_position(&holding("600519.SH", 150, 10.0));
    assert!(matches!(sell_direct(&mut acct, 10.5, 50), Err(RejectReason::LotSize(_))));
    assert!(matches!(
        sell_direct(&mut acct, 10.5, 200),
        Err(RejectReason::InsufficientPosition(_, 150))
    ));
    assert!(sell_direct(&mut acct, 10.5, 150).is_ok());
}

#[test]
fn messages_of_refusals() {
    assert!(!RejectReason::NotTradingTime.message().is_empty());
    assert!(RejectReason::LotSize(150).message().contains("整手"));
    assert!(RejectReason::LimitUp("600519.SH".to_string()).message().contains("600519.SH"));
    assert!(RejectReason::InsufficientFunds(dec(1055.01), dec(500.0)).message().contains("1055.01"));
    assert_eq!(RejectReason::Other("x".to_string()).message(), "其他: x");
}

#[test]
fn orders_wait_for_the_market() {
    let mut shut = clock();
    shut.minute_of_day = 15 * 60;
    assert!(matches!(check_trading_time(&shut), Err(RejectReason::NotTradingTime)));
    assert!(check_trading_time(&clock()).is_ok());
    let broker = SimBroker::new(dec(200_000.0));
    let mut acct = AccountDb::new();
    assert!(matches!(
        broker.submit(&mut acct, &order(OrderSide::Buy, 100), &quote(), &shut),
        Err(RejectReason::NotTradingTime)
    ));
    let none = Quote { snapshot_price: None, prev_close: None, days_since_first_bar: None };
    assert!(matches!(market_price(&none, "600519.SH"), Err(RejectReason::NoPrice(_))));
    assert!(matches!(
        broker.submit_any(&mut acct, &order(OrderSide::Buy, 100), &none, &clock()),
        Err(RejectReason::NoPrice(_))
    ));
    let e = broker.submit_any(&mut acct, &order(OrderSide::Buy, 100), &quote(), &clock()).unwrap();
    assert_eq!(e.price, dec(10.5));
    assert_eq!(e.cash_after, Some(dec(200_000.0 - 1050.0 - 5.01)));
    assert_eq!(broker.account(&mut acct).cash, dec(198_944.99));
    assert_eq!(broker.positions(&acct).len(), 1);
}

#[test]
fn out_of_range_orders_are_refused() {
    let broker = SimBroker::new(dec(200_000.0));
    let mut acct = AccountDb::new();
    let huge = Quote {
        snapshot_price: Some(i128::MAX),
        prev_close: Some(dec(10.0)),
        days_since_first_bar: None,
    };
    assert!(matches!(
        broker.submit_any(&mut acct, &order(OrderSide::Buy, 100), &huge, &clock()),
        Err(RejectReason::Other(_))
    ));
}

#[test]
fn round_trips_cost_money() {
    let mut acct = AccountDb::new();
    buy_direct(&mut acct, 10.5, 100).unwrap();
    acct.backdate_buys("600519.SH");
    sell_direct(&mut acct, 10.5, 100).unwrap();
    // bought for 1055.01, sold for 1044.46
    assert_eq!(acct.get_or_init_account(0).cash, dec(200_000.0 - 5.01 - 5.54));
    assert_eq!(acct.recent_trades(10).len(), 2);
}

#[test]
fn purchases_average_the_cost() {
    let mut acct = AccountDb::new();
    buy_direct(&mut acct, 10.5, 100).unwrap();
    buy_direct(&mut acct, 10.7, 300).unwrap();
    let p = acct.position("600519.SH").unwrap();
    assert_eq!(p.quantity, 400);
    // 1050 and 3210, over 400 shares
    assert_eq!(p.avg_cost, dec(10.65));
}

#[test]
fn ledgers_read_back_what_is_written() {
    let mut db = AccountDb::new();
    db.upsert_position(&holding("600002.SH", 200, 2.0));
    db.upsert_position(&holding("600001.SH", 100, 1.0));
    db.upsert_position(&holding("600002.SH", 300, 3.0));
    let all = db.positions();
    assert_eq!(all.len(), 2);
    assert_eq!(all[0].thscode, "600001.SH");
    assert_eq!(db.position("600002.SH").unwrap().quantity, 300);
    db.delete_position("600002.SH");
    assert!(db.position("600002.SH").is_none());
    assert!(db.position("600001.SH").is_some());
    db.meta_set("a", "1");
    db.meta_set("b", "2");
    db.meta_set("a", "3");
    assert_eq!(db.meta_get("a"), Some("3".to_string()));
    assert_eq!(db.meta_get("b"), Some("2".to_string()));
    assert_eq!(db.meta_get("c"), None);
    assert!(!db.is_adjustment_processed("600001.SH", 5));
    db.mark_adjustment_processed("600001.SH", 5, 6);
    assert!(db.is_adjustment_processed("600001.SH", 5));
    assert!(!db.is_adjustment_processed("600001.SH", 6));
}

fn trade(code: &str, side: OrderSide, qty: u32, decision_id: Option<i64>) -> Trade {
    Trade {
        thscode: code.to_string(),
        name: "x".to_string(),
        side,
        price: dec(10.0),
        quantity: qty,
        amount: dec(10.0) * qty as i128,
        fee: 0,
        decision_id,
    }
}

#[test]
fn trades_are_found_by_time_and_decision() {
    let mut db = AccountDb::new();
    assert_eq!(db.insert_trade(trade("600001.SH", OrderSide::Buy, 100, Some(7)), 1_000), 1);
    assert_eq!(db.insert_trade(trade("600001.SH", OrderSide::Buy, 200, None), 3_000), 2);
    assert_eq!(db.insert_trade(trade("600001.SH", OrderSide::Sell, 100, Some(7)), 2_000), 3);
    assert_eq!(db.bought_between("600001.SH", 0, 3_000), 100);
    assert_eq!(db.bought_between("600001.SH", 0, 3_001), 300);
    assert_eq!(db.position_bought_at("600001.SH"), Some(3_000));
    assert_eq!(db.first_buy_ms("600001.SH"), Some(1_000));
    assert_eq!(db.first_buy_ms("600002.SH"), None);
    let latest = db.recent_trades(2);
    assert_eq!(latest.len(), 2);
    assert_eq!(latest[0].ts_ms, 3_000);
    assert_eq!(latest[1].ts_ms, 2_000);
    let own = db.trades_for_decision(7);
    assert_eq!(own.len(), 2);
    assert_eq!(own[0].ts_ms, 1_000);
    assert_eq!(own[1].ts_ms, 2_000);
}
