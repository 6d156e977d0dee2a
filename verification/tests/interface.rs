use finbox::account::Position;
use finbox::decimal::Decimal;
use finbox::decision::DecisionResult;
use finbox::extension::{extension_dir, extension_url, platform, version_number};
use finbox::intent::{OrderIntent, OrderSide};
use finbox::ledger::AccountDb;
use finbox::market::TradingDayRow;
use finbox::pages::{
    account_page, account_settings_page, home_page, layout, market_page, missing_account_page,
    new_account_page, settings_page,
};
use finbox::scheduler::{finish_round, QuoteRow};
use finbox::sim::{Clock, Quote};
use finbox::table::Table;
use finbox::web::admin_ok;

fn dec(x: f64) -> Decimal {
    (x * 1e6).round() as Decimal
}

#[test]
fn pages_mark_where_they_are() {
    let page = layout("t", "market", "<b>x</b>");
    assert!(page.starts_with("<!doctype html>"));
    assert!(page.contains("<title>t · finbox</title>"));
    assert!(page.contains("<a class='active' href='/market'>行情</a>"));
    assert!(page.contains("<a class='' href='/settings'>设置</a>"));
    assert!(page.contains("<main class=\"content\"><b>x</b></main>"));
    assert!(home_page().contains("<a class='active' href='/'>模拟</a>"));
    assert!(market_page().contains("kline-chart"));
    assert!(new_account_page().contains("新建模拟账户"));
}

#[test]
fn pages_show_their_values_escaped() {
    let page = account_page("a<b");
    assert!(page.contains("账户「a&lt;b」"));
    assert!(missing_account_page("x&y").contains("账户「x&amp;y」不存在"));
    let form = account_settings_page("a", "200000", "600519.SH", "30", "5");
    assert!(form.contains("name=initial_capital value=\"200000\""));
    assert!(form.contains("name=watchlist value=\"600519.SH\""));
    let settings = settings_page("k1", "k2", "https://x", "m", 5, 60);
    assert!(settings.contains("name=llm_model value=\"m\""));
    assert!(settings.contains("name=candidate_count value=\"5\""));
    assert!(settings.contains("name=collect_interval_seconds value=\"60\""));
}

#[test]
fn changes_take_the_key_where_there_is_one() {
    assert!(admin_ok("", None));
    assert!(admin_ok("k", Some("k")));
    assert!(!admin_ok("k", Some("K")));
    assert!(!admin_ok("k", None));
}

#[test]
fn extensions_are_found_by_platform() {
    assert_eq!(platform("linux", "x86_64").unwrap(), "linux_amd64");
    assert_eq!(platform("linux", "aarch64").unwrap(), "linux_arm64");
    assert_eq!(platform("macos", "aarch64").unwrap(), "osx_arm64");
    assert_eq!(platform("macos", "x86_64").unwrap(), "osx_amd64");
    assert_eq!(platform("windows", "x86_64").unwrap(), "windows_amd64");
    assert_eq!(platform("plan9", "mips").unwrap_err(), "不支持的平台 plan9/mips");
    assert_eq!(version_number(" v1.2.0\n"), "1.2.0");
    assert_eq!(version_number("1.2.0"), "1.2.0");
    assert_eq!(extension_dir("/h", "1.2.0", "p"), "/h/.duckdb/extensions/v1.2.0/p");
    assert_eq!(
        extension_url("1.2.0", "p"),
        "https://extensions.duckdb.org/v1.2.0/p/parquet.duckdb_extension.gz"
    );
}

fn day(date: &str, date_ms: i64) -> TradingDayRow {
    TradingDayRow { date: date.to_string(), date_ms }
}

#[test]
fn tables_stay_in_order() {
    let mut t: Table<TradingDayRow> = Table::new();
    t.write(day("b", 2));
    t.write(day("c", 3));
    t.write(day("a", 1));
    t.write(day("b", 4));
    let dates: Vec<&str> = t.rows.iter().map(|r| r.date.as_str()).collect();
    assert_eq!(dates, vec!["a", "b", "c"]);
    assert_eq!(t.get("b", 0).unwrap().date_ms, 4);
    assert!(t.get("d", 0).is_none());
    // a row that is there stays, however often it is added
    assert!(!t.add(day("b", 9)));
    assert!(t.add(day("d", 9)));
    assert!(!t.add(day("d", 9)));
    assert_eq!(t.get("b", 0).unwrap().date_ms, 4);
    assert_eq!(t.rows.len(), 4);
    t.remove_code("a");
    assert!(t.get("a", 0).is_none());
    assert_eq!(t.rows.len(), 3);
}

#[test]
fn outcomes_are_written_back() {
    let clock =
        Clock { weekday_iso: 1, minute_of_day: 600, now_ms: 1_800_000_000_000, day_start_ms: 1_799_964_000_000 };
    let mut acct = AccountDb::new();
    acct.get_or_init_account(dec(200_000.0));
    acct.upsert_position(&Position {
        thscode: "600000.SH".to_string(),
        name: "x".to_string(),
        quantity: 100,
        avg_cost: dec(10.0),
    });
    let log = finbox::account::DecisionLog {
        id: 0,
        ts_ms: 1,
        model: "m".to_string(),
        context: "".to_string(),
        raw_response: "".to_string(),
        actions: "[]".to_string(),
        status: "executed".to_string(),
        note: "n".to_string(),
    };
    let id = acct.insert_decision_log(&log);
    let order = |code: &str, side: OrderSide| OrderIntent {
        thscode: code.to_string(),
        name: "".to_string(),
        side,
        quantity: 100,
        decision_id: Some(id),
    };
    let result = DecisionResult {
        intents: vec![order("600000.SH", OrderSide::Sell), order("600001.SH", OrderSide::Buy)],
        status: "executed".to_string(),
        note: "n".to_string(),
        log_id: id,
        raw_response: "".to_string(),
    };
    let quotes = vec![QuoteRow {
        thscode: "600000.SH".to_string(),
        quote: Quote {
            snapshot_price: Some(dec(10.5)),
            prev_close: Some(dec(10.0)),
            days_since_first_bar: None,
        },
    }];
    finish_round(&mut acct, &result, &quotes, dec(0.75), dec(200_000.0), &clock);
    // one sold, one without a price
    let own = acct.trades_for_decision(id);
    assert_eq!(own.len(), 1);
    assert_eq!(own[0].decision_id, Some(id));
    let logs = acct.recent_decision_logs(1);
    assert_eq!(logs[0].status, "rejected");
    assert_eq!(logs[0].note, "n [执行] 成交1笔 拒单1笔: 600001.SH 仓位不足一手");
}
