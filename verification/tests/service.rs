use finbox::api::{
    accounts, benchmark, decision_trades, decisions, equity_points, equity_returns, feed_of, kline,
    market_overview, positions, recent_decisions, resolve_name, risk_status, trades, IndexSource,
    NameRow, TodayQuote,
};
use finbox::account::{DecisionLog, Position, Trade};
use finbox::config::{Config, Variable};
use finbox::context::RecentBar;
use finbox::decimal::Decimal;
use finbox::intent::OrderSide;
use finbox::ledger::AccountDb;
use finbox::like::is_found;
use finbox::number::{decimal_string, parse_decimal, parse_i64, parse_u64};
use finbox::requests::{list_tickers, price_historical, price_snapshot, PoolQuery};
use finbox::risk::{MarketState, PriceRow};
use finbox::sdk::{
    after_attempt, after_download, api_error, backoff_ms, endpoint_url, is_complete, trim_base_url,
    Adjust, DumpKind, Error, FundType, Next, Outcome,
};
use finbox::text::{is_less, split_text, trim_text};
use finbox::web::{esc, mime_of, sql_str};

fn dec(x: f64) -> Decimal {
    (x * 1e6).round() as Decimal
}

#[test]
fn kind_paths() {
    assert!(DumpKind::DailyK.path().contains("daily-k/download-url"));
    assert_eq!(DumpKind::DailyK10d.default_filename(), "daily-k-10d.parquet");
}

#[test]
fn retryable_classification() {
    assert!(api_error(4001, "", "").is_retryable());
    assert!(api_error(5002, "", "").is_retryable());
    assert!(!api_error(1001, "", "").is_retryable());
    assert!(!api_error(2003, "", "").is_retryable());
    assert!(!api_error(3002, "", "").is_retryable());
    assert!(Error::Status { status: 502, url: String::new() }.is_retryable());
    assert!(!Error::Status { status: 404, url: String::new() }.is_retryable());
}

fn envelope(code: i32, has_data: bool) -> Outcome {
    Outcome::Envelope { code, has_data, message: Some("m".to_string()), request_id: None }
}

#[test]
fn retries_are_bounded() {
    assert!(matches!(after_attempt(0, envelope(0, true), "u"), Next::Done));
    assert!(matches!(after_attempt(0, envelope(0, false), "u"), Next::Fail(Error::Parse(_))));
    assert!(matches!(
        after_attempt(0, envelope(3001, false), "u"),
        Next::Fail(Error::Api { code: 3001, .. })
    ));
    assert!(matches!(after_attempt(0, Outcome::Unsent("x".to_string()), "u"), Next::Retry(500)));
    assert!(matches!(after_attempt(0, Outcome::Unreceived("x".to_string()), "u"), Next::Retry(500)));
    assert!(matches!(
        after_attempt(3, Outcome::Unreceived("x".to_string()), "u"),
        Next::Fail(Error::Http(_))
    ));
    assert!(matches!(after_attempt(1, Outcome::Refused(503), "u"), Next::Retry(1_000)));
    assert!(matches!(after_attempt(2, envelope(5001, false), "u"), Next::Retry(2_000)));
    assert!(matches!(
        after_attempt(3, Outcome::Refused(503), "u"),
        Next::Fail(Error::Status { status: 503, .. })
    ));
    assert!(matches!(
        after_attempt(0, Outcome::Unreadable("x".to_string()), "u"),
        Next::Fail(Error::Parse(_))
    ));
    assert_eq!(backoff_ms(0), 0);
    assert!(after_download(9, &Error::Stalled(30)).is_none());
    assert!(after_download(0, &Error::Io("x".to_string())).is_none());
    assert!(after_download(0, &Error::Stalled(30)).is_some());
    assert!(!is_complete(5, None));
    assert!(is_complete(5, Some(5)));
    assert!(!is_complete(4, Some(5)));
}

#[test]
fn errors_say_what_happened() {
    assert_eq!(api_error(3001, "标的不存在", "r2").api_code(), Some(3001));
    assert_eq!(Error::MissingApiKey.api_code(), None);
    assert_eq!(
        api_error(3001, "标的不存在", "r2").message(),
        "API 错误 code=3001: 标的不存在 (request_id=r2)"
    );
    assert!(Error::Http("x".to_string()).message().contains("x"));
    assert!(Error::Parse("x".to_string()).message().contains("x"));
    assert!(Error::Io("x".to_string()).message().contains("x"));
    assert!(Error::Stalled(30).message().contains("30"));
    assert!(Error::MissingApiKey.message().contains("HITHINK_FINANCE_API_KEY"));
    assert!(Error::Status { status: 404, url: "u".to_string() }.message().contains("404"));
}

#[test]
fn requests_name_their_parameters() {
    let r = list_tickers(None, Some("a-share"), 10, 20);
    assert_eq!(r.path, "/api/meta/tickers/list");
    assert!(r.query.contains(&("limit".to_string(), "10".to_string())));
    assert!(r.query.contains(&("offset".to_string(), "20".to_string())));
    assert!(r.query.contains(&("asset_type".to_string(), "a-share".to_string())));
    let p = price_snapshot(&vec!["600519.SH".to_string(), "000001.SZ".to_string()], None, None);
    assert!(p.query.iter().any(|(_, v)| v == "600519.SH,000001.SZ"));
    let h = price_historical("600519.SH", 1, 2, Adjust::Forward, None);
    assert!(h.query.contains(&("adjust".to_string(), Adjust::Forward.as_str().to_string())));
    let pool = PoolQuery {
        date_ms: Some(-5),
        page: Some(2),
        size: None,
        sort_field: Some("x"),
        sort_dir: None,
    };
    assert_eq!(
        pool.pairs(),
        vec![
            ("date_ms".to_string(), "-5".to_string()),
            ("page".to_string(), "2".to_string()),
            ("sort_field".to_string(), "x".to_string()),
        ]
    );
    assert!(PoolQuery::default().pairs().is_empty());
    assert_ne!(FundType::Otc.as_str(), FundType::Reits.as_str());
    assert_eq!(trim_base_url("https://x//"), "https://x");
    assert_eq!(endpoint_url("https://x", "/a"), "https://x/a");
}

#[test]
fn pages_escape_what_they_show() {
    assert_eq!(esc("<a href='x'>&</a>"), "&lt;a href='x'&gt;&amp;&lt;/a&gt;");
    assert_eq!(sql_str("a'b"), "'a''b'");
    assert_eq!(mime_of("x.css"), mime_of("y.css"));
    assert_ne!(mime_of("x.css"), mime_of("x.js"));
}

#[test]
fn numbers_are_read_back() {
    for d in [0i128, 1, -1, 10_500_000, -123_456_789, 200_000_000_000] {
        assert_eq!(parse_decimal(decimal_string(d).as_str()), Some(d));
    }
    assert_eq!(parse_decimal("1.0000005"), Some(1_000_001));
    assert_eq!(parse_decimal(".5"), Some(500_000));
    assert_eq!(parse_decimal("-"), None);
    assert_eq!(parse_decimal("1.2.3"), None);
    assert_eq!(parse_decimal("2e5"), Some(200_000_000_000));
    assert_eq!(parse_decimal("-1.25E+2"), Some(-125_000_000));
    assert_eq!(parse_decimal("125.5e-1"), Some(12_550_000));
    assert_eq!(parse_decimal("5e-7"), Some(1));
    assert_eq!(parse_decimal("e5"), None);
    assert_eq!(parse_decimal("1e"), None);
    assert_eq!(parse_decimal("1.2.3e1"), None);
    assert_eq!(parse_i64("-9223372036854775808"), Some(i64::MIN));
    assert_eq!(parse_i64("9223372036854775808"), None);
    assert_eq!(parse_u64("+7"), Some(7));
    assert_eq!(parse_u64("-7"), None);
    assert_eq!(parse_u64(""), None);
}

#[test]
fn texts() {
    assert_eq!(trim_text("\u{3000} a b \n"), "a b");
    assert_eq!(trim_text(trim_text(" x ").as_str()), "x");
    assert_eq!(split_text("a,,b", ','), vec!["a", "", "b"]);
    assert!(is_less("20250102", "20250103"));
    assert!(is_less("2025", "20250103"));
    assert!(!is_less("b", "a"));
    assert!(is_found("贵州茅台", "茅"));
    assert!(!is_found("贵州茅台", "x"));
}

#[test]
fn configurations_have_defaults() {
    let d = Config::default();
    assert_eq!(d.data_dir, "data");
    assert_eq!(d.initial_capital, dec(200_000.0));
    assert_eq!(d.candidate_count, 5);
    assert_eq!(d.llm_model, "deepseek-chat");
    let var = |n: &str, v: &str| Variable { name: n.to_string(), value: v.to_string() };
    let c = Config::from_env(&vec![
        var("INITIAL_CAPITAL", "500000"),
        var("WATCHLIST", "600519.SH, 000001.SZ,"),
        var("CANDIDATE_COUNT", "x"),
        var("COLLECT_INTERVAL_SECONDS", "30"),
    ]);
    assert_eq!(c.initial_capital, dec(500_000.0));
    assert_eq!(c.watchlist.len(), 2);
    assert_eq!(c.candidate_count, 5);
    assert_eq!(c.collect_interval_seconds, 30);
}

fn state(price: f64) -> MarketState {
    MarketState {
        up: 1,
        total: 2,
        prices: vec![PriceRow {
            thscode: "600519.SH".to_string(),
            last_price: Some(dec(price)),
            raw_close: None,
        }],
    }
}

fn names() -> Vec<NameRow> {
    vec![NameRow { thscode: "600519.SH".to_string(), name: "贵州茅台".to_string() }]
}

fn opened() -> AccountDb {
    let mut acct = AccountDb::new();
    acct.get_or_init_account(dec(100_000.0));
    acct.set_account_cash(dec(99_000.0));
    acct.upsert_position(&Position {
        thscode: "600519.SH".to_string(),
        name: "".to_string(),
        quantity: 100,
        avg_cost: dec(10.0),
    });
    acct
}

#[test]
fn charts_average_their_closes() {
    let bars: Vec<RecentBar> = (0..6)
        .map(|i| RecentBar {
            date_ms: 1735660800000 + i * 86_400_000,
            open: dec(1.0),
            high: dec(9.0),
            low: dec(0.5),
            close: dec(i as f64),
            volume: dec(7.0),
        })
        .collect();
    let points = kline(&bars, None, "2025-01-07");
    assert_eq!(points.len(), 6);
    assert_eq!(points[0].date, "2025-01-01");
    assert_eq!(points[3].ma5, 0);
    assert_eq!(points[4].ma5, dec(2.0));
    assert_eq!(points[5].ma5, dec(3.0));
    assert_eq!(points[5].ma10, 0);
    assert_eq!(points[5].ohlc, vec![dec(1.0), dec(5.0), dec(0.5), dec(9.0)]);
    let q = TodayQuote {
        price: dec(8.0),
        open: dec(7.0),
        high: dec(8.5),
        low: dec(6.5),
        volume: dec(3.0),
    };
    let more = kline(&bars, Some(q), "2025-01-07");
    assert_eq!(more.len(), 7);
    assert_eq!(more[6].ohlc, vec![dec(7.0), dec(8.0), dec(6.5), dec(8.5)]);
    assert_eq!(more[6].ma5, 0);
    let merged = kline(&bars, Some(q), "2025-01-06");
    assert_eq!(merged.len(), 6);
    assert_eq!(merged[5].volume, dec(3.0));
    assert_eq!(merged[5].ma5, dec(3.0));
    assert!(kline(&Vec::new(), Some(q), "2025-01-06").is_empty());
}

#[test]
fn accounts_are_shown_at_market_value() {
    let mut acct = opened();
    acct.insert_account_snapshot(1, dec(99_000.0), dec(1_000.0), dec(100_000.0));
    let a = accounts("a", &mut acct, &state(12.0), dec(100_000.0));
    assert_eq!(a.market_value, dec(1_200.0));
    assert_eq!(a.total, dec(100_200.0));
    assert_eq!(a.return_pct, dec(0.2));
    assert_eq!(a.today_pnl, dec(200.0));
    assert_eq!(a.position_count, 1);
    assert_eq!(a.sparkline, vec![dec(100_000.0)]);
    let rows = positions(&acct, &state(12.0), &names());
    assert_eq!(rows[0].name, "贵州茅台");
    assert_eq!(rows[0].pnl, dec(200.0));
    assert_eq!(rows[0].pnl_pct, dec(20.0));
    acct.meta_set("peak_asset", "125250");
    acct.meta_set("fuse_until_ms", "50");
    let r = risk_status(&mut acct, &state(12.0), &names(), dec(100_000.0), 49);
    assert!(r.fuse_active);
    assert_eq!(r.drawdown_pct, dec(20.0));
    assert!((r.position_pct as f64 / 1e6 - 1_200.0 / 100_200.0 * 100.0).abs() < 1e-5);
    // 12 is above 9.5 and above 11.5
    assert!((r.positions[0].to_stop_pct as f64 / 1e6 - (12.0 / 9.5 - 1.0) * 100.0).abs() < 1e-5);
    assert!((r.positions[0].to_profit_pct as f64 / 1e6 - (12.0 / 11.5 - 1.0) * 100.0).abs() < 1e-5);
    assert!(!risk_status(&mut acct, &state(12.0), &names(), dec(100_000.0), 50).fuse_active);
}

fn log(ts_ms: i64) -> DecisionLog {
    DecisionLog {
        id: 0,
        ts_ms,
        model: "m".to_string(),
        context: "c".to_string(),
        raw_response: "r".to_string(),
        actions: "[]".to_string(),
        status: "s".to_string(),
        note: format!("n{ts_ms}"),
    }
}

#[test]
fn decisions_and_trades_are_shown() {
    let mut acct = opened();
    let first = acct.insert_decision_log(&log(10));
    let second = acct.insert_decision_log(&log(20));
    acct.insert_review(first, 5, "ok", dec(3.0), 30);
    acct.insert_trade(
        Trade {
            thscode: "600519.SH".to_string(),
            name: "600519.SH".to_string(),
            side: OrderSide::Buy,
            price: dec(10.0),
            quantity: 100,
            amount: dec(1_000.0),
            fee: dec(5.01),
            decision_id: Some(second),
        },
        25,
    );
    let ds = decisions(&acct);
    assert_eq!(ds.len(), 2);
    assert_eq!(ds[0].id, second);
    assert_eq!(ds[1].reviews.len(), 1);
    assert_eq!(ds[1].reviews[0].days_after, 5);
    let ts = trades(&acct, &names());
    assert_eq!(ts[0].name, "贵州茅台");
    assert_eq!(ts[0].side, "BUY");
    assert_eq!(decision_trades(&acct, second).len(), 1);
    assert!(decision_trades(&acct, first).is_empty());
    let mut all = feed_of("a", &acct);
    all.extend(feed_of("b", &acct));
    let feed = recent_decisions(&all);
    assert_eq!(feed.len(), 4);
    assert_eq!(feed[0].ts_ms, 20);
    assert_eq!(feed[0].account, "a");
    assert_eq!(feed[1].account, "b");
    assert_eq!(feed[3].ts_ms, 10);
}

#[test]
fn curves_start_from_the_capital() {
    let mut acct = opened();
    acct.insert_account_snapshot(86_400_000 * 2, 0, 0, dec(110_000.0));
    acct.insert_account_snapshot(86_400_000, 0, 0, dec(100_000.0));
    let points = equity_points(&acct);
    assert_eq!(points[0].ts, 86_400_000);
    assert_eq!(points[1].total, dec(110_000.0));
    let returns = equity_returns(&acct, dec(100_000.0));
    assert_eq!(returns[1].total, dec(10.0));
    assert!(equity_returns(&acct, 0).is_empty());
    let bars: Vec<RecentBar> = (0..3)
        .map(|i| RecentBar {
            date_ms: 86_400_000 * i,
            open: 0,
            high: 0,
            low: 0,
            close: dec(3_000.0 + 300.0 * i as f64),
            volume: 0,
        })
        .collect();
    let b = benchmark(&bars, 86_400_000, dec(100_000.0));
    assert_eq!(b.len(), 3);
    // the day of the first snapshot stands for the capital
    assert_eq!(b[1].ts, 86_400_000);
    assert_eq!(b[1].total, dec(100_000.0));
    assert!((b[0].total - dec(100_000.0 * 3_000.0 / 3_300.0)).abs() <= 1);
    assert!((b[2].total - dec(100_000.0 * 3_600.0 / 3_300.0)).abs() <= 1);
    assert_eq!(benchmark(&bars, 86_400_001, dec(100_000.0))[0].total, dec(100_000.0));
    // all bars are later: the first one is the base
    assert_eq!(benchmark(&bars, -1, dec(100_000.0))[0].total, dec(100_000.0));
    assert!(benchmark(&Vec::new(), 0, dec(1.0)).is_empty());
}

#[test]
fn overviews_and_names() {
    let sources = vec![
        IndexSource {
            thscode: "000001.SH".to_string(),
            name: "上证".to_string(),
            snapshot: Some((dec(3_000.0), dec(1.0), 77)),
            last_close: Some(dec(1.0)),
        },
        IndexSource {
            thscode: "399001.SZ".to_string(),
            name: "深证".to_string(),
            snapshot: None,
            last_close: Some(dec(9_000.0)),
        },
        IndexSource {
            thscode: "399006.SZ".to_string(),
            name: "创业板".to_string(),
            snapshot: None,
            last_close: None,
        },
    ];
    let o = market_overview(&sources, 6, 10);
    assert_eq!(o.indexes.len(), 2);
    assert_eq!(o.indexes[0].price, dec(3_000.0));
    assert_eq!(o.indexes[1].pct, 0);
    assert_eq!(o.regime, "risk-on");
    assert_eq!(o.ts_ms, 77);
    assert_eq!(market_overview(&Vec::new(), 0, 0).regime, "neutral");
    assert_eq!(resolve_name(Some("t"), "c", ""), "t");
    assert_eq!(resolve_name(Some("t"), "c", "c"), "t");
    assert_eq!(resolve_name(None, "c", "c"), "c");
    assert_eq!(resolve_name(Some("t"), "c", "n"), "n");
}
