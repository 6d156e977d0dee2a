use finbox::decimal::Decimal;
use finbox::rules::{
    board_allowed, board_name, complete_thscode, is_bj_board, is_gem_board, is_star_board,
    is_trading_time, is_valid_buy_quantity, is_valid_sell_quantity, limit_down_price, limit_ratio,
    limit_ratio_with_name, limit_up_price, normalize_thscode, round_price, round_to_cents,
    trade_fees,
};

fn dec(x: f64) -> Decimal {
    (x * 1e6).round() as Decimal
}

fn num(d: Decimal) -> f64 {
    d as f64 / 1e6
}

#[test]
fn limit_ratio_by_board() {
    assert!((num(limit_ratio("600519.SH")) - 0.10).abs() < 1e-9);
    assert!((num(limit_ratio("000001.SZ")) - 0.10).abs() < 1e-9);
    assert!((num(limit_ratio("300750.SZ")) - 0.20).abs() < 1e-9);
    assert!((num(limit_ratio("688981.SH")) - 0.20).abs() < 1e-9);
    assert!((num(limit_ratio("830799.BJ")) - 0.30).abs() < 1e-9);
    assert!((num(limit_ratio("430047.BJ")) - 0.30).abs() < 1e-9);
}

#[test]
fn limit_prices() {
    assert!((num(limit_up_price(dec(10.0), "600519.SH", "贵州茅台")) - 11.00).abs() < 1e-9);
    assert!((num(limit_down_price(dec(10.0), "600519.SH", "贵州茅台")) - 9.00).abs() < 1e-9);
    assert!((num(limit_up_price(dec(10.0), "600519.SH", "ST某某")) - 10.50).abs() < 1e-9);
    assert!((num(limit_up_price(dec(10.0), "300750.SZ", "宁德时代")) - 12.00).abs() < 1e-9);
    assert!((num(limit_up_price(dec(10.12), "600519.SH", "贵州茅台")) - 11.13).abs() < 1e-9);
}

#[test]
fn quantity_rules() {
    assert!(is_valid_buy_quantity("600519.SH", 100));
    assert!(!is_valid_buy_quantity("600519.SH", 150));
    assert!(is_valid_buy_quantity("688981.SH", 200));
    assert!(is_valid_buy_quantity("688981.SH", 201));
    assert!(!is_valid_buy_quantity("688981.SH", 100));
    assert!(is_valid_sell_quantity("600519.SH", 100, 150));
    assert!(is_valid_sell_quantity("600519.SH", 150, 150));
    assert!(!is_valid_sell_quantity("600519.SH", 50, 150));
    assert!(is_valid_sell_quantity("688981.SH", 250, 250));
}

#[test]
fn board_permission() {
    assert!(board_allowed(dec(100_000.0), "600519.SH"));
    assert!(board_allowed(dec(100_000.0), "300750.SZ"));
    assert!(!board_allowed(dec(50_000.0), "300750.SZ"));
    assert!(board_allowed(dec(500_000.0), "688981.SH"));
    assert!(!board_allowed(dec(300_000.0), "688981.SH"));
    assert!(!board_allowed(dec(300_000.0), "830799.BJ"));
    assert!(board_allowed(dec(500_000.0), "830799.BJ"));
}

#[test]
fn trading_time() {
    assert!(is_trading_time(1, 9 * 60 + 30));
    assert!(is_trading_time(1, 11 * 60 + 29));
    assert!(is_trading_time(1, 13 * 60));
    assert!(is_trading_time(1, 14 * 60 + 59));
    assert!(!is_trading_time(1, 11 * 60 + 30));
    assert!(!is_trading_time(1, 12 * 60));
    assert!(!is_trading_time(1, 15 * 60));
    assert!(!is_trading_time(1, 9 * 60 + 29));
    assert!(!is_trading_time(6, 10 * 60));
    assert!(!is_trading_time(7, 10 * 60));
}

#[test]
fn normalize_thscode_cases() {
    assert_eq!(normalize_thscode("600519"), "600519.SH");
    assert_eq!(normalize_thscode("688981"), "688981.SH");
    assert_eq!(normalize_thscode("000001"), "000001.SZ");
    assert_eq!(normalize_thscode("300750"), "300750.SZ");
    assert_eq!(normalize_thscode("830799"), "830799.BJ");
    assert_eq!(normalize_thscode("600519.SH"), "600519.SH");
    assert_eq!(normalize_thscode("abc"), "ABC");
}

#[test]
fn codes_are_completed_from_any_case() {
    // blanks go and letters are raised before the suffix is chosen
    assert_eq!(normalize_thscode("  600519.sh "), "600519.SH");
    assert_eq!(complete_thscode("900901"), "900901.SH");
    assert_eq!(complete_thscode("430047"), "430047.BJ");
    assert_eq!(normalize_thscode("1234567"), "1234567");
    assert_eq!(normalize_thscode(""), "");
    let once = normalize_thscode("300750");
    assert_eq!(normalize_thscode(once.as_str()), once);
}

#[test]
fn boards() {
    assert!(is_star_board("688981.SH"));
    assert!(!is_star_board("600519.SH"));
    assert!(is_gem_board("300750.SZ"));
    assert!(is_gem_board("301001.SZ"));
    assert!(is_bj_board("430047.BJ"));
    assert!(is_bj_board("830799.BJ"));
    assert!(is_bj_board("870001.BJ"));
    assert!(is_bj_board("880001.BJ"));
    assert!(is_bj_board("920001.BJ"));
    assert!(!is_bj_board("600519.SH"));
    assert_eq!(board_name("688981.SH"), "科创板");
    assert_eq!(board_name("300750.SZ"), "创业板");
    assert_eq!(board_name("830799.BJ"), "北交所");
}

#[test]
fn special_treatment_halves_the_band_of_the_main_board() {
    assert_eq!(limit_ratio_with_name("600519.SH", "*ST某某"), 50_000);
    assert_eq!(limit_ratio_with_name("600519.SH", "贵州茅台"), 100_000);
    assert_eq!(limit_ratio_with_name("300750.SZ", "ST某某"), 200_000);
}

#[test]
fn prices_are_rounded_to_cents() {
    assert_eq!(round_price(10_005_000), 10_010_000);
    assert_eq!(round_price(10_004_999), 10_000_000);
    assert_eq!(round_to_cents(1_000_000, 3), 330_000);
}

#[test]
fn limits_enclose_the_previous_close() {
    let prev = dec(7.77);
    let up = limit_up_price(prev, "600519.SH", "贵州茅台");
    let down = limit_down_price(prev, "600519.SH", "贵州茅台");
    assert!(down <= prev && prev <= up);
    assert_eq!(up, dec(8.55));
    assert_eq!(down, dec(6.99));
}

#[test]
fn fees_grow() {
    assert_eq!(trade_fees(dec(1_050.0), false), dec(5.01));
    assert_eq!(trade_fees(dec(1_050.0), true), dec(5.54));
    assert!(trade_fees(dec(1_000.0), true) <= trade_fees(dec(2_000.0), true));
}

#[test]
fn what_was_bought_can_be_sold() {
    for qty in [200u32, 300, 1_000] {
        assert!(is_valid_buy_quantity("600519.SH", qty));
        assert!(is_valid_sell_quantity("600519.SH", qty, qty));
    }
    assert!(is_valid_sell_quantity("688981.SH", 7, 7));
    assert!(!is_valid_buy_quantity("600519.SH", 0));
}
