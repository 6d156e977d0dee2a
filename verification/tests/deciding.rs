use finbox::account::{DecisionLog, Position};
use finbox::accounts::{
    account_db_path, accounts_root, create_account, join_path, list_accounts, missing_account,
    sanitize_name,
};
use finbox::context::{
    build_context, market_env_summary, recent_days_detail, system_prompt, trend_summary,
    CandidateItem, IndexQuote, MarketEnv, RecentBar, WatchItem,
};
use finbox::decimal::Decimal;
use finbox::decision::{
    chat_url, first_choice, json_text, to_intents, Action, DecisionEngine, DecisionError, LlmConfig,
    ModelReply, ParsedOutput, Step,
};
use finbox::intent::{OrderIntent, OrderSide};
use finbox::ledger::AccountDb;
use finbox::order::Fraction;
use finbox::risk::{MarketState, PriceRow, RiskConfig, RiskManager};
use finbox::scheduler::{
    account_supervisor, decision_interval, execute_buy, execute_sells, finish_round, intraday_risk,
    parse_watchlist, periodic_decision, position_size, read_acct_conf, refresh_collector_key,
    review_old_decisions, snapshot_account, AccountState, CollectorState, QuoteRow, RoundStart,
};
use finbox::screen::{
    peak, ramp, score_momentum, score_pullback, screen, screen_any, Kind, Listing, ScreenRow,
    SCORE_ONE,
};
use finbox::sim::{Clock, Quote, SimBroker};
use serde_json::Value;

fn dec(x: f64) -> Decimal {
    (x * 1e6).round() as Decimal
}

fn score(s: i128) -> f64 {
    s as f64 / SCORE_ONE as f64
}

/// The reply that a text of a model holds.
fn parse(raw: &str) -> ParsedOutput {
    let v: Value = serde_json::from_str(json_text(raw).as_str()).unwrap();
    let actions: Vec<Action> = match v.get("actions").and_then(|a| a.as_array()) {
        Some(list) => list
            .iter()
            .map(|a| Action {
                action: a.get("action").and_then(|x| x.as_str()).unwrap().to_string(),
                symbol: a.get("symbol").and_then(|x| x.as_str()).unwrap().to_string(),
                quantity: a.get("quantity").and_then(|x| x.as_u64()).map(|q| q as u32),
                reason: a.get("reason").and_then(|x| x.as_str()).map(|s| s.to_string()),
            })
            .collect(),
        None => Vec::new(),
    };
    let comment = v.get("comment").and_then(|c| c.as_str()).unwrap_or("").to_string();
    ParsedOutput { actions, actions_json: "[]".to_string(), comment }
}

#[test]
fn parse_json() {
    let raw = r#"{"actions":[{"action":"buy","symbol":"600519.SH","quantity":100,"reason":"x"},{"action":"hold","symbol":"000001.SZ","quantity":0}],"comment":"观望"}"#;
    let p = parse(raw);
    assert_eq!(p.actions.len(), 2);
    assert_eq!(p.comment, "观望");
    let intents = to_intents(&p.actions);
    assert_eq!(intents.len(), 1);
    assert_eq!(intents[0].thscode, "600519.SH");
    assert_eq!(intents[0].side, OrderSide::Buy);
    assert_eq!(intents[0].quantity, 100);
}

#[test]
fn parse_with_code_fence() {
    let raw = "```json\n{\"actions\": [], \"comment\": \"空仓等待\"}\n```";
    let p = parse(raw);
    assert!(p.actions.is_empty());
}

#[test]
fn fences_are_taken_off() {
    assert_eq!(json_text("  {}  "), "{}");
    assert_eq!(json_text("```\n{}\n```"), "{}");
    assert_eq!(json_text("```json\n{}"), "{}");
    assert_eq!(json_text("json {}"), "{}");
    // only fences at the ends
    assert_eq!(json_text("{\"a\": \"```\"}"), "{\"a\": \"```\"}");
    // wide blanks are blanks
    assert_eq!(json_text("\u{3000}{}\u{3000}"), "{}");
}

fn action(kind: &str, quantity: Option<u32>) -> Action {
    Action {
        action: kind.to_string(),
        symbol: "600519.SH".to_string(),
        quantity,
        reason: None,
    }
}

#[test]
fn only_orders_with_a_quantity_count() {
    let list = vec![
        action("buy", None),
        action("buy", Some(0)),
        action("sell", Some(200)),
        action("hold", Some(100)),
        action("BUY", Some(100)),
    ];
    let out = to_intents(&list);
    assert_eq!(out.len(), 1);
    assert_eq!(out[0].side, OrderSide::Sell);
    assert_eq!(out[0].quantity, 200);
}

fn row(pct: f64, chg5: f64, vr: Option<f64>, price: f64, ma20: f64, ma60: f64, pos: f64) -> ScreenRow {
    ScreenRow {
        thscode: "600519.SH".to_string(),
        price: dec(price),
        pct: dec(pct),
        turnover: dec(100_000_000.0),
        ma20: dec(ma20),
        ma60: dec(ma60),
        chg5: dec(chg5),
        volume_ratio: vr.map(dec),
        position: Some(dec(pos)),
        adj_close: dec(price),
    }
}

#[test]
fn momentum_scores_high_for_ideal() {
    let s = row(2.0, 5.0, Some(1.8), 15.0, 14.0, 13.5, 0.5);
    let sc = score(score_momentum(&s).unwrap());
    assert!(sc > 0.8, "理想强势票应高分，实际 {sc}");
}

#[test]
fn momentum_rejects_non_uptrend() {
    let s = row(-3.0, -10.0, None, 10.0, 11.0, 12.0, 0.1);
    assert!(score_momentum(&s).is_none());
    assert!(score_pullback(&s).is_none());
}

#[test]
fn hot_stock_scores_lower_than_calm() {
    let good = row(2.0, 5.0, Some(1.8), 15.0, 14.0, 13.5, 0.5);
    let hot = row(9.0, 20.0, Some(8.0), 15.0, 14.0, 13.5, 0.9);
    assert!(score_momentum(&hot).unwrap() < score_momentum(&good).unwrap());
}

#[test]
fn pullback_picks_shrinking_dip() {
    let s = row(-1.0, -3.0, Some(0.8), 13.95, 14.0, 13.5, 0.4);
    let sc = score(score_pullback(&s).unwrap());
    assert!(sc > 0.8, "回踩 MA20 的缩量票应高分，实际 {sc}");
    assert!(score_momentum(&s).is_none());
}

#[test]
fn pullback_rejects_broken_trend() {
    let s = row(-3.0, -8.0, Some(0.6), 13.3, 14.0, 13.5, 0.2);
    assert!(score_pullback(&s).is_none());
}

#[test]
fn ramps_and_peaks() {
    let whole = |x: f64| Fraction { num: dec(x), den: 1_000_000 };
    let one = ramp(whole(10.0), dec(0.0), dec(1.0));
    assert_eq!(ramp(whole(-1.0), dec(0.0), dec(1.0)), 0);
    assert_eq!(ramp(whole(0.5), dec(0.0), dec(1.0)) * 2, one);
    assert_eq!(peak(whole(2.0), dec(2.0), dec(3.0)), one);
    assert_eq!(peak(whole(5.0), dec(2.0), dec(3.0)), 0);
}

fn listing(code: &str, price: f64, industry: &str) -> Listing {
    let mut r = row(2.0, 5.0, Some(1.8), price, 14.0, 13.5, 0.5);
    r.thscode = code.to_string();
    Listing { row: r, name: format!("名{code}"), industry: Some(industry.to_string()) }
}

#[test]
fn the_short_list_is_short_and_varied() {
    let list = vec![
        listing("600001.SH", 15.0, "酒"),
        listing("600002.SH", 15.1, "酒"),
        listing("600003.SH", 15.2, "酒"),
        listing("600004.SH", 15.3, "银行"),
        listing("688001.SH", 15.0, "芯片"),
    ];
    let out = screen(&list, 5);
    assert!(out.len() <= 5);
    let wine = out.iter().filter(|c| ["600001.SH", "600002.SH", "600003.SH"].contains(&c.thscode.as_str())).count();
    assert!(wine <= 2);
    assert!(out.iter().any(|c| c.thscode == "600004.SH"));
    assert!(out.windows(2).all(|w| w[0].score >= w[1].score) || out.len() < 2);
    assert_eq!(screen(&list, 1).len(), 1);
    assert!(screen(&Vec::new(), 5).is_empty());
    assert!(!Kind::Momentum.label().is_empty());
    assert_ne!(Kind::Momentum.label(), Kind::Pullback.label());
}

const NOW: i64 = 1_800_000_000_000;

fn clock() -> Clock {
    Clock { weekday_iso: 1, minute_of_day: 600, now_ms: NOW, day_start_ms: NOW - 36_000_000 }
}

fn market(price: f64) -> MarketState {
    MarketState {
        up: 7,
        total: 10,
        prices: vec![PriceRow {
            thscode: "600519.SH".to_string(),
            last_price: Some(dec(price)),
            raw_close: None,
        }],
    }
}

fn quotes(price: f64) -> Vec<QuoteRow> {
    vec![QuoteRow {
        thscode: "600519.SH".to_string(),
        quote: Quote {
            snapshot_price: Some(dec(price)),
            prev_close: Some(dec(10.0)),
            days_since_first_bar: None,
        },
    }]
}

fn order(side: OrderSide, qty: u32) -> OrderIntent {
    OrderIntent {
        thscode: "600519.SH".to_string(),
        name: "贵州茅台".to_string(),
        side,
        quantity: qty,
        decision_id: None,
    }
}

fn engine(key: &str) -> DecisionEngine {
    DecisionEngine::new(LlmConfig {
        base_url: "https://api.deepseek.com".to_string(),
        api_key: key.to_string(),
        model: "deepseek-chat".to_string(),
    })
}

fn env() -> MarketEnv {
    MarketEnv {
        shanghai: Some(IndexQuote { price: dec(3000.0), pct: dec(0.5) }),
        shenzhen: None,
        chinext: None,
        up: 7,
        total: 10,
    }
}

#[test]
fn decisions_are_asked_for_and_logged() {
    let e = engine("key");
    let mut acct = AccountDb::new();
    acct.get_or_init_account(dec(200_000.0));
    let candidate = screen(&vec![listing("600519.SH", 15.0, "酒")], 5).remove(0);
    let items = vec![CandidateItem { candidate, bars: Vec::new() }];
    let step = e.decide(&mut acct, &market(10.5), &env(), &Vec::new(), &items, NOW);
    let ctx = match step {
        Step::Ask(text) => text,
        Step::Done(_) => panic!("a decision is due"),
    };
    assert!(ctx.contains("600519.SH"));
    let output = ParsedOutput {
        actions: vec![action("buy", Some(100))],
        actions_json: "[x]".to_string(),
        comment: "c".to_string(),
    };
    let r = e.conclude(&mut acct, ctx.as_str(), ModelReply::Read("raw".to_string(), output), NOW);
    assert_eq!(r.intents.len(), 1);
    assert_eq!(r.intents[0].decision_id, Some(r.log_id));
    assert_eq!(r.status, "executed");
    let logs = acct.recent_decision_logs(10);
    assert_eq!(logs[0].status, "executed");
    assert_eq!(logs.len(), 1);
    assert_eq!(logs[0].id, r.log_id);
    assert_eq!(logs[0].raw_response, "raw");
    assert_eq!(logs[0].actions, "[x]");
    // failures are logged too
    let f = e.conclude(
        &mut acct,
        ctx.as_str(),
        ModelReply::Failed(DecisionError::Llm("down".to_string())),
        NOW,
    );
    assert!(f.intents.is_empty());
    assert_eq!(f.status, "error");
    let held = ParsedOutput {
        actions: vec![action("hold", None)],
        actions_json: "[]".to_string(),
        comment: "".to_string(),
    };
    let mut books = AccountDb::new();
    let h = e.conclude(&mut books, "", ModelReply::Read("raw".to_string(), held), NOW);
    assert_eq!(h.status, "hold");
    assert_eq!(books.recent_executed_decisions(10).len(), 0);
    let u = e.conclude(
        &mut acct,
        ctx.as_str(),
        ModelReply::Unreadable("?".to_string(), DecisionError::Parse("bad".to_string())),
        NOW,
    );
    assert!(u.intents.is_empty());
    assert_eq!(acct.recent_decision_logs(10).len(), 3);
    assert!(f.note.contains("down"));
    assert!(u.note.contains("bad"));
}

#[test]
fn rounds_out_of_range_are_not_started() {
    let mut list = vec![listing("600519.SH", 15.0, "酒")];
    assert_eq!(screen_any(&list, 5).unwrap().len(), 1);
    list[0].row.ma20 = dec(2e9);
    assert!(screen_any(&list, 5).is_none());
    assert!(screen_any(&Vec::new(), usize::MAX).is_none());
    let e = engine("k");
    let mut acct = AccountDb::new();
    assert!(e.decide_any(&mut acct, &market(10.5), &env(), &Vec::new(), &Vec::new(), NOW).is_some());
    let mut wild = env();
    wild.chinext = Some(IndexQuote { price: dec(2e9), pct: 0 });
    assert!(e.decide_any(&mut acct, &market(10.5), &wild, &Vec::new(), &Vec::new(), NOW).is_none());
}

#[test]
fn engines_reload_their_settings() {
    let mut e = engine("");
    let mut acct = AccountDb::new();
    assert!(matches!(
        e.decide(&mut acct, &market(10.5), &env(), &Vec::new(), &Vec::new(), NOW),
        Step::Done(_)
    ));
    let defaults = LlmConfig {
        base_url: "https://d".to_string(),
        api_key: "dk".to_string(),
        model: "dm".to_string(),
    };
    assert!(e.reload_llm(None, Some("k2".to_string()), None, &defaults));
    assert_eq!(e.config.api_key, "k2");
    assert!(!e.reload_llm(None, Some("k2".to_string()), None, &defaults));
    let id = e.log_skip(&mut acct, "skipped", "why", NOW + 1);
    let logs = acct.recent_decision_logs(10);
    assert_eq!(logs[0].id, id);
    assert_eq!(logs[0].note, "why");
}

#[test]
fn replies_and_addresses() {
    assert_eq!(chat_url("https://api.deepseek.com/"), chat_url("https://api.deepseek.com"));
    assert!(chat_url("https://api.deepseek.com").contains("/chat/completions"));
    assert_eq!(first_choice(&vec!["a".to_string(), "b".to_string()]).unwrap(), "a");
    assert!(matches!(first_choice(&Vec::new()), Err(DecisionError::Parse(_))));
    assert!(DecisionError::MissingApiKey.message().len() > 0);
    assert!(DecisionError::Store("s".to_string()).message().contains("s"));
}

fn bar(ms: i64, close: f64) -> RecentBar {
    RecentBar {
        date_ms: ms,
        open: dec(close),
        high: dec(close + 0.5),
        low: dec(close - 0.5),
        close: dec(close),
        volume: dec(1_000_000.0),
    }
}

#[test]
fn contexts_say_what_is_held() {
    let mut acct = AccountDb::new();
    acct.get_or_init_account(dec(200_000.0));
    acct.upsert_position(&Position {
        thscode: "600519.SH".to_string(),
        name: "贵州茅台".to_string(),
        quantity: 100,
        avg_cost: dec(10.0),
    });
    let bars: Vec<RecentBar> =
        (0..20).map(|i| bar(1735660800000 + i * 86_400_000, 10.0 + i as f64 * 0.1)).collect();
    let watch = vec![WatchItem { thscode: "000001.SZ".to_string(), price: Some(dec(12.0)), bars }];
    let text = build_context(&mut acct, &market(10.5), &env(), &watch, &Vec::new());
    assert!(text.contains("600519.SH"));
    assert!(text.contains("000001.SZ"));
    assert!(text.contains("200000"));
    assert!(system_prompt().contains("JSON"));
    let days = recent_days_detail(&watch[0].bars);
    // 2025-01-20, the last of the days
    assert!(days.contains("01-20"));
    assert!(!trend_summary(&watch[0].bars).is_empty());
    // the change needs 22 bars
    let rising: Vec<RecentBar> =
        (0..22).map(|i| bar(i * 86_400_000, if i == 21 { 11.0 } else { 10.0 })).collect();
    assert!(trend_summary(&rising).starts_with("近20日+10.0%"));
    let short: Vec<RecentBar> = rising[1..].iter().map(|b| bar(b.date_ms, 10.0)).collect();
    assert!(trend_summary(&short).starts_with("近20日+0.0%"));
    assert!(market_env_summary(&env()).contains("3000"));
}

#[test]
fn purchases_are_sized_by_the_budget() {
    let mut acct = AccountDb::new();
    acct.get_or_init_account(dec(200_000.0));
    // a fifth of the assets is 40000: 38 lots at 10.5
    let n = position_size(&mut acct, "600519.SH", Some(dec(10.5)), dec(0.75), dec(200_000.0));
    assert!(n > 0 && n % 100 == 0);
    assert!(n as f64 * 10.5 <= 40_000.0);
    assert_eq!(position_size(&mut acct, "600519.SH", None, dec(0.75), dec(200_000.0)), 0);
    assert_eq!(position_size(&mut acct, "600519.SH", Some(dec(10.5)), 0, dec(200_000.0)), 0);
    // half of 100000 is held; a cap of 55% leaves 5000, five lots at 10
    let mut half = AccountDb::new();
    half.get_or_init_account(dec(50_000.0));
    half.upsert_position(&Position {
        thscode: "000001.SZ".to_string(),
        name: "x".to_string(),
        quantity: 5_000,
        avg_cost: dec(10.0),
    });
    assert_eq!(position_size(&mut half, "600519.SH", Some(dec(10.0)), dec(0.55), dec(50_000.0)), 500);
    assert_eq!(position_size(&mut half, "600519.SH", Some(dec(10.0)), dec(0.5), dec(50_000.0)), 0);
    let q = quotes(10.5);
    let refused = execute_buy(
        &mut acct,
        &order(OrderSide::Buy, 100),
        &q[0].quote,
        dec(0.75),
        dec(200_000.0),
        &clock(),
    );
    assert!(refused.is_none());
    let held = acct.position("600519.SH").unwrap().quantity;
    assert!(held > 0);
    // bought today: cannot be sold today
    let sells = vec![order(OrderSide::Sell, held)];
    assert_eq!(execute_sells(&mut acct, &sells, &q, dec(200_000.0), &clock()), 0);
    acct.backdate_buys("600519.SH");
    assert_eq!(execute_sells(&mut acct, &sells, &q, dec(200_000.0), &clock()), 1);
    assert!(acct.position("600519.SH").is_none());
}

#[test]
fn rounds_run_from_risk_to_orders() {
    let mut acct = AccountDb::new();
    acct.get_or_init_account(dec(200_000.0));
    let mut manager = RiskManager::new(RiskConfig::default());
    let e = engine("key");
    let start = periodic_decision(
        &mut manager,
        &mut acct,
        &e,
        &market(10.5),
        &quotes(10.5),
        dec(200_000.0),
        &clock(),
    );
    let limit = match start {
        RoundStart::Proceed(p) => p,
        RoundStart::Skipped(_) => panic!("nothing stops the round"),
    };
    assert_eq!(limit, dec(0.75));
    let output = ParsedOutput {
        actions: vec![action("buy", Some(100))],
        actions_json: "[]".to_string(),
        comment: "c".to_string(),
    };
    let r = e.conclude(&mut acct, "ctx", ModelReply::Read("raw".to_string(), output), NOW);
    finish_round(&mut acct, &r, &quotes(10.5), limit, dec(200_000.0), &clock());
    assert_eq!(acct.positions().len(), 1);
    let own = acct.trades_for_decision(r.log_id);
    assert_eq!(own.len(), 1);
    let report = intraday_risk(
        &mut manager,
        &mut acct,
        &market(10.5),
        &quotes(10.5),
        dec(200_000.0),
        &clock(),
    );
    assert!(report.forced_sells.is_empty());
    let id = snapshot_account(&mut acct, dec(200_000.0), NOW);
    let snaps = acct.account_snapshots();
    assert_eq!(snaps.len(), 1);
    assert_eq!(snaps[0].id, id);
    assert_eq!(snaps[0].total_asset, snaps[0].cash + snaps[0].market_value);
}

#[test]
fn old_decisions_are_reviewed_once() {
    let mut acct = AccountDb::new();
    acct.get_or_init_account(dec(200_000.0));
    let log = DecisionLog {
        id: 0,
        ts_ms: NOW - 6 * 86_400_000,
        model: "m".to_string(),
        context: "c".to_string(),
        raw_response: "r".to_string(),
        actions: "[]".to_string(),
        status: "executed".to_string(),
        note: "n".to_string(),
    };
    let id = acct.insert_decision_log(&log);
    let q = quotes(10.5);
    let mut bought = order(OrderSide::Buy, 100);
    bought.decision_id = Some(id);
    execute_buy(&mut acct, &bought, &q[0].quote, dec(0.75), dec(200_000.0), &clock());
    review_old_decisions(&mut acct, &market(11.0), NOW);
    let first = acct.reviews_for_decision(id).len();
    assert!(first > 0);
    assert!(acct.reviews_for_decision(id)[0].summary.contains("判断【对】"));
    review_old_decisions(&mut acct, &market(11.0), NOW);
    assert_eq!(acct.reviews_for_decision(id).len(), first);
}

#[test]
fn a_sale_that_saved_money_was_right() {
    for (now, verdict) in [(9.0, "判断【对】"), (11.0, "判断【错】")] {
        let mut acct = AccountDb::new();
        acct.get_or_init_account(dec(200_000.0));
        let log = DecisionLog {
            id: 0,
            ts_ms: NOW - 2 * 86_400_000,
            model: "m".to_string(),
            context: "c".to_string(),
            raw_response: "r".to_string(),
            actions: "[]".to_string(),
            status: "executed".to_string(),
            note: "n".to_string(),
        };
        let id = acct.insert_decision_log(&log);
        acct.upsert_position(&Position {
            thscode: "600519.SH".to_string(),
            name: "x".to_string(),
            quantity: 100,
            avg_cost: dec(10.0),
        });
        let mut sale = order(OrderSide::Sell, 100);
        sale.decision_id = Some(id);
        let broker = SimBroker::new(dec(200_000.0));
        assert!(broker.submit_any(&mut acct, &sale, &quotes(10.5)[0].quote, &clock()).is_ok());
        review_old_decisions(&mut acct, &market(now), NOW);
        assert!(acct.reviews_for_decision(id)[0].summary.contains(verdict));
    }
}

#[test]
fn weekends_are_quiet() {
    let mut c = CollectorState::new();
    let a = c.run_collector(6, 600, 1_000, true, 60);
    assert!(!a.collect && !a.sync_bars);
    let mut s = AccountState::new();
    let b = s.run_account(7, 600, 1_000, "2026-01-04", 30);
    assert!(!b.adjust && !b.risk && !b.decide && !b.close);
    // on a weekday the market is collected while it is open
    let mut d = CollectorState::new();
    assert!(d.run_collector(1, 600, 1_000, true, 60).collect);
    assert!(!d.pre_open(6, 545));
}

#[test]
fn accounts_are_started_and_stopped() {
    let s = account_supervisor(
        &vec!["a".to_string(), "b".to_string()],
        &vec!["b".to_string(), "c".to_string()],
    );
    assert_eq!(s.start, vec!["a".to_string()]);
    assert_eq!(s.stop, vec!["c".to_string()]);
}

#[test]
fn settings_of_accounts() {
    let mut acct = AccountDb::new();
    assert_eq!(parse_watchlist(" 600519.SH, ,000001.SZ"), vec!["600519.SH", "000001.SZ"]);
    let configured = vec!["600519.SH".to_string()];
    let d = read_acct_conf(&acct, dec(200_000.0), 5, &configured);
    assert_eq!(d.initial_capital, dec(200_000.0));
    assert_eq!(d.candidate_count, 5);
    assert_eq!(d.watchlist, configured);
    assert!(read_acct_conf(&acct, dec(200_000.0), 5, &vec![]).watchlist.is_empty());
    acct.meta_set("initial_capital", "50000.5");
    acct.meta_set("candidate_count", "3");
    acct.meta_set("watchlist", "000001.SZ");
    let c = read_acct_conf(&acct, dec(200_000.0), 5, &configured);
    assert_eq!(c.initial_capital, dec(50_000.5));
    assert_eq!(c.candidate_count, 3);
    assert_eq!(c.watchlist, vec!["000001.SZ"]);
    assert!(decision_interval(&acct) > 0);
    assert_eq!(refresh_collector_key(Some("k".to_string()), "k"), None);
    assert_eq!(refresh_collector_key(Some("k2".to_string()), "k"), Some("k2".to_string()));
}

#[test]
fn names_of_accounts() {
    assert_eq!(sanitize_name("我的_账户 1/.."), "我的_账户1");
    assert_eq!(sanitize_name("../.."), "account");
    assert_eq!(sanitize_name("a\\b:c\u{3000}d-e"), "abcde");
    assert_eq!(sanitize_name("account"), "account");
    assert_eq!(sanitize_name(sanitize_name("a b").as_str()), sanitize_name("a b"));
    assert_eq!(join_path("data", "x"), "data/x");
    assert_eq!(accounts_root("data"), "data/accounts");
    assert_eq!(account_db_path("data", "a b"), "data/accounts/ab/account.db");
    assert_eq!(create_account("a b", false).unwrap().name, "ab");
    assert!(create_account("a", true).unwrap_err().contains("已存在"));
    assert!(missing_account("x").contains("x"));
    assert_eq!(
        list_accounts(&vec!["b".to_string(), "a".to_string()]),
        vec!["a".to_string(), "b".to_string()]
    );
}
