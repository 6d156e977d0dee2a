use finbox::account::Position;
use finbox::decimal::Decimal;
use finbox::ledger::AccountDb;
use finbox::market::SnapshotRow;
use finbox::order::Fraction;
use finbox::risk::{
    position_value, regime_max_total, whole_days, MarketState, PriceRow, RiskConfig, RiskManager,
    RiskReport,
};
use finbox::sim::Clock;
use finbox::store::{DailyBarRow, Db};

fn dec(x: f64) -> Decimal {
    (x * 1e6).round() as Decimal
}

const NOW: i64 = 1_800_000_000_000;

fn clock_at(now_ms: i64) -> Clock {
    Clock { weekday_iso: 1, minute_of_day: 600, now_ms, day_start_ms: now_ms - 36_000_000 }
}

fn state(market: &Db, codes: &[&str]) -> MarketState {
    let (up, total) = market.market_breadth();
    let prices = codes
        .iter()
        .map(|c| PriceRow {
            thscode: c.to_string(),
            last_price: market.latest_snapshot_price(c),
            raw_close: market.prev_close(c),
        })
        .collect();
    MarketState { up, total, prices }
}

fn evaluate(rm: &mut RiskManager, acct: &mut AccountDb, market: &Db) -> RiskReport {
    rm.evaluate(acct, &state(market, &["600519.SH"]), &clock_at(NOW))
}

fn setup() -> (Db, AccountDb, RiskManager) {
    (Db::new(), AccountDb::new(), RiskManager::new(RiskConfig::default()))
}

fn put_position_with(acct: &mut AccountDb, cash: f64, qty: u32, cost: f64, initial: f64) {
    acct.get_or_init_account(dec(initial));
    acct.set_account_cash(dec(cash));
    acct.upsert_position(&Position {
        thscode: "600519.SH".to_string(),
        name: "贵州茅台".to_string(),
        quantity: qty,
        avg_cost: dec(cost),
    });
}

fn put_position(acct: &mut AccountDb, cash: f64, qty: u32, cost: f64) {
    put_position_with(acct, cash, qty, cost, 10_000_000.0);
}

fn snapshot(code: &str, price: f64, pct: f64) -> SnapshotRow {
    SnapshotRow {
        thscode: code.to_string(),
        last_price: dec(price),
        price_change: dec(price - 10.0),
        price_change_ratio_pct: dec(pct),
        open_price: dec(10.0),
        high_price: dec(price.max(10.0)),
        low_price: dec(price.min(10.0)),
        prev_price: dec(10.0),
        volume: dec(1000.0),
        turnover: 0,
    }
}

fn put_snapshot(market: &mut Db, price: f64, pct: f64) {
    market.insert_snapshots(1, &vec![snapshot("600519.SH", price, pct)]);
}

#[test]
fn regime_thresholds() {
    assert_eq!(regime_max_total(Fraction { num: 7, den: 10 }), ("risk-on", dec(0.75)));
    assert_eq!(regime_max_total(Fraction { num: 5, den: 10 }), ("neutral", dec(0.55)));
    assert_eq!(regime_max_total(Fraction { num: 2, den: 10 }), ("risk-off", dec(0.30)));
}

#[test]
fn stop_loss_ignores_intraday_wick() {
    let (mut market, mut acct, mut rm) = setup();
    put_position(&mut acct, 100000.0, 100, 10.0);
    market.insert_daily_bars(&vec![DailyBarRow {
        thscode: "600519.SH".to_string(),
        date_ms: 1,
        date: "2026-09-10".to_string(),
        open: dec(10.0),
        high: dec(10.2),
        low: dec(9.3),
        close: dec(10.0),
        volume: 0,
        turnover: 0,
    }]);
    put_snapshot(&mut market, 9.4, -6.0);
    let report = evaluate(&mut rm, &mut acct, &market);
    assert!(report.forced_sells.is_empty(), "盘中插针不应触发止损");
}

#[test]
fn take_profit_trims_third_once_per_level() {
    let (mut market, mut acct, mut rm) = setup();
    put_position(&mut acct, 100000.0, 900, 10.0);
    put_snapshot(&mut market, 10.7, 7.0);
    let report = evaluate(&mut rm, &mut acct, &market);
    assert_eq!(report.forced_sells.len(), 1, "+7% 应触发第一档止盈");
    assert_eq!(report.forced_sells[0].quantity, 300, "减 1/3");
    let report2 = evaluate(&mut rm, &mut acct, &market);
    assert!(report2.forced_sells.is_empty(), "同一档不应重复减仓");
}

#[test]
fn risk_off_trims_to_target_after_confirm() {
    let (mut market, mut acct, mut rm) = setup();
    put_position(&mut acct, 400000.0, 60000, 10.0);
    put_snapshot(&mut market, 10.0, -0.5);
    let r1 = evaluate(&mut rm, &mut acct, &market);
    assert_eq!(r1.regime, "risk-off");
    assert!(r1.forced_sells.is_empty(), "首次 risk-off 不应立即减仓");
    let _ = evaluate(&mut rm, &mut acct, &market);
    let r3 = evaluate(&mut rm, &mut acct, &market);
    assert_eq!(r3.forced_sells.len(), 1, "确认后应减仓");
    assert_eq!(r3.forced_sells[0].quantity, 30000);
}

#[test]
fn neutral_does_not_trim() {
    let (mut market, mut acct, mut rm) = setup();
    put_position(&mut acct, 400000.0, 60000, 10.0);
    put_snapshot(&mut market, 10.5, 1.0);
    market.insert_snapshots(1, &vec![SnapshotRow {
        thscode: "600000.SH".to_string(),
        last_price: dec(9.5),
        price_change: dec(-0.5),
        price_change_ratio_pct: dec(-5.0),
        open_price: dec(10.0),
        high_price: dec(10.0),
        low_price: dec(9.5),
        prev_price: dec(10.0),
        volume: dec(1000.0),
        turnover: 0,
    }]);
    let mut trimmed = false;
    for _ in 0..5 {
        let r = evaluate(&mut rm, &mut acct, &market);
        assert_eq!(r.regime, "neutral");
        if !r.forced_sells.is_empty() {
            trimmed = true;
        }
    }
    assert!(!trimmed, "neutral 不应触发任何减仓");
}

#[test]
fn stop_loss_triggers_forced_sell() {
    let (mut market, mut acct, mut rm) = setup();
    acct.get_or_init_account(dec(100000.0));
    acct.upsert_position(&Position {
        thscode: "600519.SH".to_string(),
        name: "贵州茅台".to_string(),
        quantity: 100,
        avg_cost: dec(10.0),
    });
    market.insert_snapshots(1, &vec![SnapshotRow {
        thscode: "600519.SH".to_string(),
        last_price: dec(9.4),
        price_change: dec(-0.6),
        price_change_ratio_pct: dec(-6.0),
        open_price: dec(9.9),
        high_price: dec(10.0),
        low_price: dec(9.3),
        prev_price: dec(10.0),
        volume: dec(1000.0),
        turnover: dec(9400.0),
    }]);
    let report = evaluate(&mut rm, &mut acct, &market);
    assert_eq!(report.forced_sells.len(), 1, "亏损 6% 应触发止损卖出");
    assert_eq!(report.forced_sells[0].thscode, "600519.SH");
}

#[test]
fn no_stop_loss_when_profit() {
    let (mut market, mut acct, mut rm) = setup();
    acct.get_or_init_account(dec(100000.0));
    acct.upsert_position(&Position {
        thscode: "600519.SH".to_string(),
        name: "贵州茅台".to_string(),
        quantity: 100,
        avg_cost: dec(10.0),
    });
    market.insert_snapshots(1, &vec![SnapshotRow {
        thscode: "600519.SH".to_string(),
        last_price: dec(10.5),
        price_change: dec(0.5),
        price_change_ratio_pct: dec(5.0),
        open_price: dec(10.2),
        high_price: dec(10.6),
        low_price: dec(10.1),
        prev_price: dec(10.0),
        volume: dec(1000.0),
        turnover: dec(10500.0),
    }]);
    let report = evaluate(&mut rm, &mut acct, &market);
    assert!(report.forced_sells.is_empty());
}

#[test]
fn second_level_takes_profit_too() {
    let (mut market, mut acct, mut rm) = setup();
    put_position(&mut acct, 100000.0, 900, 10.0);
    put_snapshot(&mut market, 11.1, 11.0);
    let first = evaluate(&mut rm, &mut acct, &market);
    assert_eq!(first.forced_sells.len(), 1);
    assert_eq!(first.forced_sells[0].quantity, 300);
    // one level in one round
    let second = evaluate(&mut rm, &mut acct, &market);
    let third = evaluate(&mut rm, &mut acct, &market);
    let all = first.forced_sells.len() + second.forced_sells.len() + third.forced_sells.len();
    assert!(all <= 2);
    assert!(third.forced_sells.is_empty());
}

#[test]
fn a_drawdown_blows_the_fuse_for_its_days() {
    let (mut market, mut acct, mut rm) = setup();
    put_position_with(&mut acct, 100_000.0, 100, 10.0, 100_000.0);
    put_snapshot(&mut market, 10.0, 0.5);
    let calm = evaluate(&mut rm, &mut acct, &market);
    assert!(calm.can_buy);
    acct.set_account_cash(dec(50_000.0));
    let hit = evaluate(&mut rm, &mut acct, &market);
    assert!(!hit.can_buy);
    // every stock is up, and still the position is to fall to that of the fuse
    assert_eq!(hit.regime, "risk-on");
    assert_eq!(hit.max_total_pct, rm.config().fuse_target_position);
    // the stop lasts to its end, even where the value is back
    acct.set_account_cash(dec(100_000.0));
    let next_day = rm.evaluate(
        &mut acct,
        &state(&market, &["600519.SH"]),
        &clock_at(NOW + 86_400_000),
    );
    assert!(!next_day.can_buy);
    let days = rm.config().fuse_days as i64;
    let later = rm.evaluate(
        &mut acct,
        &state(&market, &["600519.SH"]),
        &clock_at(NOW + (days + 1) * 86_400_000),
    );
    assert!(later.can_buy);
}

#[test]
fn notes_are_added_to_notes() {
    let (mut market, mut acct, mut rm) = setup();
    put_position_with(&mut acct, 100_000.0, 100, 10.0, 50_000.0);
    put_snapshot(&mut market, 10.0, 0.5);
    let until = (NOW + 86_400_000).to_string();
    acct.meta_set("fuse_until_ms", until.as_str());
    let r = evaluate(&mut rm, &mut acct, &market);
    assert!(r.profit_reached && !r.can_buy);
    assert!(r.note.starts_with("账户回撤 5.0% 熔断中"));
    assert!(r.note.contains("；已达收益目标 5.0%"));
}

#[test]
fn rounds_out_of_range_are_not_run() {
    let (mut market, mut acct, mut rm) = setup();
    put_position(&mut acct, 100_000.0, 100, 10.0);
    put_snapshot(&mut market, 10.0, 0.5);
    let m = state(&market, &["600519.SH"]);
    assert!(rm.evaluate_any(&mut acct, &m, &clock_at(NOW)).is_some());
    let mut cfg = rm.config();
    cfg.stop_loss_pct = dec(11.0);
    assert!(!cfg.is_ok());
    rm.set_config(cfg);
    assert!(rm.evaluate_any(&mut acct, &m, &clock_at(NOW)).is_none());
}

#[test]
fn positions_are_valued_at_the_latest_price() {
    let mut market = Db::new();
    put_snapshot(&mut market, 12.0, 1.0);
    let list = vec![
        Position {
            thscode: "600519.SH".to_string(),
            name: "x".to_string(),
            quantity: 100,
            avg_cost: dec(10.0),
        },
        Position {
            thscode: "600000.SH".to_string(),
            name: "y".to_string(),
            quantity: 10,
            avg_cost: dec(7.0),
        },
    ];
    let m = state(&market, &["600519.SH"]);
    assert_eq!(position_value(&list, &m), dec(1_270.0));
    assert_eq!(whole_days(0, 86_400_000 * 3 - 1), 2);
}
