use finbox::adjust::{rebuild_adj_bars_for, DailyBar};
use finbox::adjustment::AdjustmentEvent;
use finbox::calendar::{missed_trading_days, TradingDay, TradingDaysData};
use finbox::collector::{
    next_page, snapshot_rows, snapshot_time, sync_daily_bars, ticker_rows, trading_day_rows,
    BarSync, PriceSnapshotItem,
};
use finbox::dates::{fmt_bar_date, fmt_date};
use finbox::decimal::Decimal;
use finbox::market::{
    market_breadth, market_distribution, ratio_of, screen_row, LatestQuote, ScreenSource,
    SnapshotRow, TickerRow, TradingDayRow,
};
use finbox::sdk::TickerItem;
use finbox::store::{DailyBarRow, Db, EventRow};

fn dec(x: f64) -> Decimal {
    (x * 1e6).round() as Decimal
}

fn num(d: Decimal) -> f64 {
    d as f64 / 1e6
}

fn calendar(dates: &[&str]) -> TradingDaysData {
    TradingDaysData {
        timestamp: 0,
        item: dates.iter().map(|d| TradingDay { date_ms: 0, date: (*d).to_string() }).collect(),
    }
}

#[test]
fn missed_trading_days_calc() {
    let cal = calendar(&["20250102", "20250103", "20250106", "20250107"]);
    assert_eq!(missed_trading_days("2025-01-03", &cal), 2);
    assert_eq!(missed_trading_days("2025-01-07", &cal), 0);
    assert_eq!(missed_trading_days("2024-12-31", &cal), 4);
}

#[test]
fn contains_and_latest() {
    let d = TradingDaysData {
        timestamp: 0,
        item: vec![
            TradingDay { date_ms: 1, date: "20250102".to_string() },
            TradingDay { date_ms: 2, date: "20250103".to_string() },
            TradingDay { date_ms: 3, date: "20250106".to_string() },
        ],
    };
    assert!(d.contains_date("20250103"));
    assert!(!d.contains_date("20250104"));
    assert_eq!(d.latest_on_or_before("20250104").unwrap().date, "20250103");
    assert!(d.latest_on_or_before("20250101").is_none());
}

fn ticker(thscode: &str, name: &str) -> TickerRow {
    TickerRow {
        thscode: thscode.to_string(),
        ticker: thscode.split('.').next().unwrap().to_string(),
        name: name.to_string(),
        exchange: Some("SH".to_string()),
        asset_type: "a-share".to_string(),
        currency: "CNY".to_string(),
    }
}

fn snapshot(thscode: &str, last: f64) -> SnapshotRow {
    SnapshotRow {
        thscode: thscode.to_string(),
        last_price: dec(last),
        price_change: 0,
        price_change_ratio_pct: 0,
        open_price: dec(last),
        high_price: dec(last),
        low_price: dec(last),
        prev_price: dec(last),
        volume: dec(100.0),
        turnover: dec(100.0 * last),
    }
}

#[test]
fn date_ms_to_date_sql() {
    assert_eq!(fmt_date(1735660800000), "2025-01-01");
}

#[test]
fn upsert_tickers() {
    let mut db = Db::new();
    db.upsert_tickers(&vec![ticker("600519.SH", "贵州茅台")]);
    let mut renamed = ticker("600519.SH", "新名字");
    renamed.name = "贵州茅台".to_string();
    db.upsert_tickers(&vec![renamed]);
    let s = db.stats();
    assert_eq!(s.tickers, 1);
}

#[test]
fn trading_days_and_snapshots() {
    let mut db = Db::new();
    db.upsert_trading_days(&vec![TradingDayRow { date: "20250102".to_string(), date_ms: 1 }]);
    assert_eq!(db.insert_snapshots(100, &vec![snapshot("600519.SH", 1700.0)]), 1);
    assert_eq!(db.insert_snapshots(100, &vec![snapshot("600519.SH", 1700.0)]), 0);
    let s = db.stats();
    assert_eq!(s.trading_days, 1);
    assert_eq!(s.snapshots, 1);
    assert_eq!(s.last_snapshot_ts, Some(100));
    assert_eq!(s.last_bar_date, None);
}

#[test]
fn meta_roundtrip() {
    let mut db = Db::new();
    assert_eq!(db.meta_get("k"), None);
    db.meta_set("k", "v1");
    db.meta_set("k", "v2");
    assert_eq!(db.meta_get("k"), Some("v2".to_string()));
}

fn bar(code: &str, ms: i64, date: &str, close: f64) -> DailyBarRow {
    DailyBarRow {
        thscode: code.to_string(),
        date_ms: ms,
        date: date.to_string(),
        open: dec(close),
        high: dec(close),
        low: dec(close),
        close: dec(close),
        volume: dec(1000.0),
        turnover: dec(10000.0),
    }
}

fn event(code: &str, ex_date_ms: i64, dividend: f64, bonus: f64) -> EventRow {
    EventRow {
        thscode: code.to_string(),
        event: AdjustmentEvent {
            ex_date_ms,
            dividend: dec(dividend),
            bonus: dec(bonus),
            allot_ratio: None,
        },
        allot_price: None,
    }
}

#[test]
fn adj_forward_adjust() {
    let mut m = Db::new();
    let rows: Vec<DailyBarRow> = [(1000i64, 20.0), (2000i64, 21.0), (3000i64, 10.5)]
        .iter()
        .enumerate()
        .map(|(i, (ms, close))| bar("600000.SH", *ms, &format!("2026010{i}"), *close))
        .collect();
    m.insert_daily_bars(&rows);
    m.import_adjustment_factors(&vec![event("600000.SH", 3000, 0.0, 1.0)]);
    let n = m.rebuild_adj_bars_for("600000.SH");
    assert_eq!(n, 3);
    let own: Vec<&DailyBarRow> =
        m.adj_daily_bars.rows.iter().filter(|b| b.thscode == "600000.SH").collect();
    let closes: Vec<f64> = own.iter().map(|b| num(b.close)).collect();
    assert!((closes[0] - 10.0).abs() < 0.01);
    assert!((closes[1] - 10.5).abs() < 0.01);
    assert!((closes[2] - 10.5).abs() < 0.01);
    let vol = own.iter().find(|b| b.date_ms == 1000).map(|b| num(b.volume)).unwrap();
    assert!((vol - 2000.0).abs() < 0.1);
}

#[test]
fn analysis_reads_adjusted_bars() {
    let mut db = Db::new();
    db.insert_daily_bars(&vec![
        bar("600000.SH", 1000, "2026-01-01", 20.0),
        bar("600000.SH", 2000, "2026-01-02", 10.0),
        bar("600001.SH", 2000, "2026-01-02", 7.0),
    ]);
    assert_eq!(db.analysis_bars("600000.SH", 2)[0].close, dec(20.0));
    db.import_adjustment_factors(&vec![event("600000.SH", 2000, 0.0, 1.0)]);
    assert_eq!(db.update_any(2000), Some(3));
    assert_eq!(db.analysis_bars("600000.SH", 2)[0].close, dec(10.0));
    assert_eq!(db.analysis_bars("600001.SH", 2)[0].close, dec(7.0));
    // prices for trading stay as they were
    assert_eq!(db.prev_close("600000.SH"), Some(dec(10.0)));
    assert_eq!(db.recent_bars("600000.SH", 2)[0].close, dec(20.0));
    // a day that is not adjusted yet does not vanish
    db.insert_daily_bars(&vec![bar("600000.SH", 3000, "2026-01-03", 11.0)]);
    let bars = db.analysis_bars("600000.SH", 5);
    assert_eq!(bars.len(), 3);
    assert_eq!(bars[2].close, dec(11.0));
}

#[test]
fn numbers_out_of_range_are_not_adjusted() {
    let mut db = Db::new();
    db.insert_daily_bars(&vec![bar("600000.SH", 1000, "2026-01-01", 20.0)]);
    assert!(db.is_adjustable("600000.SH"));
    db.import_adjustment_factors(&vec![event("600000.SH", 2000, 0.0, -0.5)]);
    assert!(!db.is_adjustable("600000.SH"));
    assert_eq!(db.rebuild_any("600000.SH"), None);
    assert_eq!(db.update_any(2000), None);
    assert!(db.adj_bars_empty());
    assert_eq!(db.rebuild_any("600001.SH"), Some(0));
}

#[test]
fn dividends_lower_earlier_prices() {
    let bars = vec![DailyBar {
        date_ms: 1000,
        date: "2026-01-01".to_string(),
        open: dec(20.0),
        high: dec(21.0),
        low: dec(19.0),
        close: dec(20.5),
        volume: dec(1000.0),
        turnover: dec(20_000.0),
    }];
    let events = vec![AdjustmentEvent {
        ex_date_ms: 2000,
        dividend: dec(0.5),
        bonus: dec(0.25),
        allot_ratio: None,
    }];
    let out = rebuild_adj_bars_for(&bars, &events);
    assert_eq!(out[0].open, dec(15.6));
    assert_eq!(out[0].close, dec(16.0));
    assert_eq!(out[0].volume, dec(1250.0));
    assert_eq!(out[0].turnover, dec(20_000.0));
    // nothing that comes earlier, or on the day, moves a bar
    let past = vec![AdjustmentEvent {
        ex_date_ms: 1000,
        dividend: dec(0.5),
        bonus: dec(0.25),
        allot_ratio: None,
    }];
    assert_eq!(rebuild_adj_bars_for(&bars, &past)[0].close, dec(20.5));
}

#[test]
fn daily_updates_rebuild_or_copy() {
    let mut m = Db::new();
    assert!(m.adj_bars_empty());
    m.insert_daily_bars(&vec![
        bar("600000.SH", 1000, "2026-01-01", 20.0),
        bar("600000.SH", 2000, "2026-01-02", 10.0),
        bar("600001.SH", 1000, "2026-01-01", 5.0),
        bar("600001.SH", 2000, "2026-01-02", 6.0),
    ]);
    m.import_adjustment_factors(&vec![event("600000.SH", 2000, 0.0, 1.0)]);
    // two bars made anew, one copied
    assert_eq!(m.adj_bars_daily_update(2000), 3);
    assert!(!m.adj_bars_empty());
    let closes: Vec<(String, i64, Decimal)> = m
        .adj_daily_bars
        .rows
        .iter()
        .map(|b| (b.thscode.clone(), b.date_ms, b.close))
        .collect();
    assert_eq!(
        closes,
        vec![
            ("600000.SH".to_string(), 1000, dec(10.0)),
            ("600000.SH".to_string(), 2000, dec(10.0)),
            ("600001.SH".to_string(), 2000, dec(6.0)),
        ]
    );
    // a second time: made anew again, nothing copied
    assert_eq!(m.adj_bars_daily_update(2000), 2);
    assert_eq!(m.adj_daily_bars.rows.len(), 3);
    assert_eq!(m.rebuild_adj_bars_for("000000.SZ"), 0);
}

#[test]
fn tables_keep_the_last_row_or_the_first() {
    let mut db = Db::new();
    assert_eq!(db.upsert_tickers(&vec![ticker("600519.SH", "a"), ticker("000001.SZ", "b")]), 2);
    db.upsert_tickers(&vec![ticker("600519.SH", "c")]);
    assert_eq!(db.ticker_name("600519.SH"), Some("c".to_string()));
    assert_eq!(db.ticker_name("000001.SZ"), Some("b".to_string()));
    assert_eq!(db.ticker_name("000002.SZ"), None);
    db.upsert_trading_days(&vec![TradingDayRow { date: "20250102".to_string(), date_ms: 1 }]);
    db.upsert_trading_days(&vec![TradingDayRow { date: "20250102".to_string(), date_ms: 2 }]);
    assert_eq!(db.trading_days.rows[0].date_ms, 2);
    assert_eq!(db.trading_days.rows.len(), 1);
    assert!(db.is_trading_day("20250102"));
    assert!(!db.is_trading_day("20250103"));
    db.insert_snapshots(1, &vec![snapshot("600519.SH", 10.0)]);
    db.insert_snapshots(1, &vec![snapshot("600519.SH", 11.0)]);
    assert_eq!(db.latest_snapshot_price("600519.SH"), Some(dec(10.0)));
    db.insert_snapshots(2, &vec![snapshot("600519.SH", 12.0)]);
    assert_eq!(db.latest_snapshot_price("600519.SH"), Some(dec(12.0)));
    assert_eq!(db.latest_snapshot_full("600519.SH"), Some((dec(12.0), 0, 0, 2)));
    assert_eq!(db.latest_snapshot_full("600000.SH"), None);
    assert_eq!(db.today_snapshot("600519.SH", 3), None);
    assert_eq!(
        db.today_snapshot("600519.SH", 2),
        Some((dec(12.0), dec(12.0), dec(12.0), dec(12.0), dec(100.0)))
    );
}

#[test]
fn searches_take_codes_names_and_tickers() {
    let mut db = Db::new();
    db.upsert_tickers(&vec![
        ticker("600519.SH", "贵州茅台"),
        ticker("000001.SZ", "平安银行"),
        ticker("600000.SH", "浦发银行"),
    ]);
    let banks = db.search_tickers("银行", 20);
    assert_eq!(banks.len(), 2);
    assert_eq!(banks[0].0, "000001.SZ");
    assert_eq!(banks[1].1, "浦发银行");
    assert_eq!(db.search_tickers("600", 1).len(), 1);
    assert_eq!(db.search_tickers("600", 1)[0].2, "600000");
    assert_eq!(db.search_tickers("", 20).len(), 3);
    assert_eq!(db.search_tickers("6_0", 20).len(), 2);
    assert_eq!(db.search_tickers("6%9", 20).len(), 1);
    assert!(db.search_tickers("xyz", 20).is_empty());
}

#[test]
fn bars_are_read_by_date() {
    let mut db = Db::new();
    db.insert_daily_bars(&vec![
        bar("600000.SH", 3000, "2026-01-03", 3.0),
        bar("600000.SH", 1000, "2026-01-01", 1.0),
        bar("600001.SH", 2000, "2026-01-02", 9.0),
        bar("600000.SH", 2000, "2026-01-02", 2.0),
    ]);
    let bars = db.recent_bars("600000.SH", 2);
    assert_eq!(bars.len(), 2);
    assert_eq!(bars[0].close, dec(2.0));
    assert_eq!(bars[1].close, dec(3.0));
    assert_eq!(db.prev_close("600000.SH"), Some(dec(3.0)));
    assert_eq!(db.prev_close("600009.SH"), None);
    assert_eq!(db.last_bar_date(), Some("2026-01-03".to_string()));
    assert!(db.recent_bars("600000.SH", 0).is_empty());
}

fn quoted(code: &str, price: f64, pct: f64) -> SnapshotRow {
    let mut row = snapshot(code, price);
    row.price_change_ratio_pct = dec(pct);
    row
}

#[test]
fn the_market_is_counted_by_its_latest_snapshots() {
    let mut db = Db::new();
    db.insert_snapshots(1, &vec![quoted("600001.SH", 10.0, -3.0), quoted("600002.SH", 10.0, 10.0)]);
    db.insert_snapshots(2, &vec![
        quoted("600001.SH", 10.0, 1.0),
        quoted("600003.SH", 10.0, -0.05),
        quoted("600004.SH", 0.0, 0.0),
        quoted("600005.SH", 10.0, -9.9),
    ]);
    assert_eq!(db.market_breadth(), (2, 4));
    assert_eq!(
        db.market_distribution(),
        vec![
            ("涨停".to_string(), 1),
            ("0~5%".to_string(), 1),
            ("平".to_string(), 1),
            ("跌停".to_string(), 1),
        ]
    );
    let rows = db.latest_snapshots();
    assert_eq!(rows.len(), 4);
    assert_eq!(rows[0].thscode, "600001.SH");
    assert_eq!(rows[0].pct, dec(1.0));
}

#[test]
fn every_change_has_its_bucket() {
    let q = |pct: f64| LatestQuote { last_price: dec(1.0), pct: dec(pct) };
    let quotes = vec![
        q(9.8), q(5.0), q(9.79), q(0.11), q(0.1), q(-0.1), q(-0.11), q(-5.0), q(-9.79), q(-9.8),
    ];
    let d = market_distribution(&quotes);
    let counts: Vec<u32> = d.iter().map(|(_, n)| *n).collect();
    assert_eq!(counts, vec![1, 2, 1, 2, 1, 2, 1]);
    assert_eq!(counts.iter().sum::<u32>(), market_breadth(&quotes).1);
}

#[test]
fn screening_takes_sixty_bars() {
    let mut db = Db::new();
    let rows: Vec<DailyBarRow> = (0..60i64)
        .map(|i| {
            let mut b = bar("600000.SH", i, "2026-01-01", 10.0 + i as f64 * 0.1);
            b.turnover = dec(if i == 59 { 300.0 } else { 100.0 });
            b.low = dec(9.0);
            b.high = dec(20.0);
            b
        })
        .collect();
    db.insert_daily_bars(&rows);
    db.insert_daily_bars(&vec![bar("600001.SH", 0, "2026-01-01", 1.0)]);
    db.insert_snapshots(1, &vec![quoted("600000.SH", 16.0, 2.5)]);
    let out = db.market_screen_rows();
    assert_eq!(out.len(), 1);
    let r = &out[0];
    assert_eq!(r.thscode, "600000.SH");
    // price and turnover are those of the latest snapshot
    assert_eq!(r.price, dec(16.0));
    assert_eq!(r.adj_close, dec(15.9));
    assert_eq!(r.pct, dec(2.5));
    assert_eq!(r.turnover, db.snapshots.rows[0].row.turnover);
    // the closes run from 10.0 to 15.9; the last twenty from 14.0 to 15.9
    assert_eq!(r.ma20, dec(14.95));
    assert_eq!(r.ma60, dec(12.95));
    assert!((num(r.chg5) - (15.9 / 15.4 - 1.0) * 100.0).abs() < 1e-5);
    assert_eq!(r.volume_ratio, Some(dec(3.0)));
    assert!((num(r.position.unwrap()) - 6.9 / 11.0).abs() < 1e-5);
    let ratios = db.market_volume_ratios();
    assert_eq!(ratios.len(), 1);
    assert_eq!(ratios[0].ratio, dec(3.0));
}

#[test]
fn factors_that_cannot_be_had_are_left_out() {
    let source = ScreenSource {
        thscode: "600000.SH".to_string(),
        last_close: Some(dec(10.0)),
        last_turnover: None,
        ma20: None,
        ma60: None,
        min60: Some(dec(5.0)),
        max60: Some(dec(5.0)),
        close6: None,
        avg5_turnover: Some(0),
        price: Some(0),
        pct: None,
        turnover: Some(dec(7.0)),
    };
    let r = screen_row(&source).unwrap();
    assert_eq!(r.chg5, 0);
    // a snapshot without a price says nothing: the last bar stands in
    assert_eq!(r.price, dec(10.0));
    assert_eq!(r.turnover, 0);
    assert!(r.volume_ratio.is_none());
    assert!(r.position.is_none());
    assert!(screen_row(&ScreenSource { last_close: None, ..source }).is_none());
    assert_eq!(ratio_of(1, 3), 333_333);
    assert_eq!(ratio_of(1, 0), 1_000_000_000_000_000);
    assert_eq!(ratio_of(-1, -3), 333_333);
}

#[test]
fn how_much_is_fetched() {
    let days: Vec<String> = (1..=9).map(|i| format!("2025010{i}")).collect();
    let names: Vec<&str> = days.iter().map(|s| s.as_str()).collect();
    let cal = calendar(&names);
    assert_eq!(sync_daily_bars(None, &cal), BarSync::Full);
    assert_eq!(sync_daily_bars(Some("2025-01-01"), &cal), BarSync::Full);
    assert_eq!(sync_daily_bars(Some("2025-01-02"), &cal), BarSync::Increment);
    assert_eq!(next_page(1_000, 1_000, 0), Some(1_000));
    assert_eq!(next_page(999, 1_000, 3_000), None);
    assert_eq!(snapshot_time(Some(1), Some(2), 3), snapshot_time(Some(1), Some(2), 4));
    assert_eq!(snapshot_time(None, None, 3), 3);
    assert_eq!(trading_day_rows(&cal).len(), 9);
    let items = vec![TickerItem {
        thscode: "600519.SH".to_string(),
        ticker: "600519".to_string(),
        name: "贵州茅台".to_string(),
        exchange: None,
        asset_type: "a-share".to_string(),
        currency: "CNY".to_string(),
    }];
    let rows = ticker_rows(&items);
    assert_eq!(rows[0].name, "贵州茅台");
    assert!(rows[0].exchange.is_none());
    let quotes = vec![PriceSnapshotItem {
        thscode: "688001.SH".to_string(),
        ticker: "688001".to_string(),
        last_price: None,
        price_change: None,
        price_change_ratio_pct: None,
        open_price: None,
        high_price: None,
        low_price: None,
        prev_price: Some(dec(1.5)),
        volume: None,
        turnover: None,
    }];
    let rows = snapshot_rows(&quotes);
    assert_eq!(rows[0].last_price, 0);
    assert_eq!(rows[0].prev_price, dec(1.5));
}

#[test]
fn dates_are_those_of_china() {
    // 16:00 UTC is midnight in China
    assert_eq!(fmt_date(1735660800000), "2025-01-01");
    assert_eq!(fmt_date(1735660800000 - 1), "2024-12-31");
    assert_eq!(fmt_bar_date(1735660800000), "01-01");
    assert_eq!(fmt_date(i64::MIN), "");
}
