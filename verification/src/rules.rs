//! The rules of the A-share market: boards, lots, price limits, sessions and fees.

use vstd::prelude::*;

use crate::decimal;
use crate::decimal::{decimal_max, rounded_div, Decimal, CENT, UNIT};
use crate::number;
use crate::text;
use crate::text::{chars_of, has_prefix, text_contains, text_has, trim_text};

verus! {

/// Shares in a board lot of the main board, ChiNext and the Beijing exchange.
pub const LOT_SIZE: u32 = 100;

/// The smallest purchase on the STAR market; above it any number of shares may be bought.
pub const STAR_MIN_LOT: u32 = 200;

/// The initial capital, in yuan, that trading on the STAR market takes.
pub const STAR_BOARD_MIN_CAPITAL: Decimal = 500_000_000_000;

/// The initial capital that trading on the Beijing exchange takes.
pub const BJ_BOARD_MIN_CAPITAL: Decimal = 500_000_000_000;

/// The initial capital that trading on ChiNext takes.
pub const GEM_BOARD_MIN_CAPITAL: Decimal = 100_000_000_000;

/// The most stocks that any strategy may hold.
pub const MAX_POSITIONS: usize = 5;

/// The largest share of the total assets that any strategy may put into one stock: 40%.
pub const MAX_POSITION_PCT: Decimal = 400_000;

/// Commission: 0.025% of the amount, on both sides.
pub const COMMISSION_RATE: Decimal = 250;

/// The smallest commission: 5 yuan.
pub const COMMISSION_MIN: Decimal = 5_000_000;

/// Stamp duty: 0.05% of the amount of a sale.
pub const STAMP_RATE: Decimal = 500;

/// Transfer fee: 0.001% of the amount, on both sides.
pub const TRANSFER_RATE: Decimal = 10;

/// The morning session, in minutes of the day: 9:30 to 11:30.
pub const MORNING_OPEN: u32 = 570;

pub const MORNING_CLOSE: u32 = 690;

/// The afternoon session, in minutes of the day: 13:00 to 15:00.
pub const AFTERNOON_OPEN: u32 = 780;

pub const AFTERNOON_CLOSE: u32 = 900;

/// The STAR market: codes that begin with 688 or 689.
pub open spec fn on_star_board(code: Seq<char>) -> bool {
    "688"@.is_prefix_of(code) || "689"@.is_prefix_of(code)
}

/// The Beijing exchange: codes that begin with 43, 83, 87, 88 or 920.
pub open spec fn on_bj_board(code: Seq<char>) -> bool {
    "43"@.is_prefix_of(code) || "83"@.is_prefix_of(code) || "87"@.is_prefix_of(code)
        || "88"@.is_prefix_of(code) || "920"@.is_prefix_of(code)
}

/// ChiNext: codes that begin with 300, 301 or 302.
pub open spec fn on_gem_board(code: Seq<char>) -> bool {
    "300"@.is_prefix_of(code) || "301"@.is_prefix_of(code) || "302"@.is_prefix_of(code)
}

/// Whether a code belongs to the STAR market.
pub fn is_star_board(thscode: &str) -> (r: bool)
    ensures
        r == on_star_board(thscode@),
{
    has_prefix(thscode, "688") || has_prefix(thscode, "689")
}

/// Whether a code belongs to the Beijing exchange.
pub fn is_bj_board(thscode: &str) -> (r: bool)
    ensures
        r == on_bj_board(thscode@),
{
    has_prefix(thscode, "43") || has_prefix(thscode, "83") || has_prefix(thscode, "87")
        || has_prefix(thscode, "88") || has_prefix(thscode, "920")
}

/// Whether a code belongs to ChiNext.
pub fn is_gem_board(thscode: &str) -> (r: bool)
    ensures
        r == on_gem_board(thscode@),
{
    has_prefix(thscode, "300") || has_prefix(thscode, "301") || has_prefix(thscode, "302")
}

/// The name of the board of a stock.
pub open spec fn board_of(code: Seq<char>) -> Seq<char> {
    if on_star_board(code) {
        "科创板"@
    } else if on_bj_board(code) {
        "北交所"@
    } else if on_gem_board(code) {
        "创业板"@
    } else {
        "主板"@
    }
}

/// The name of the board of a stock.
pub fn board_name(thscode: &str) -> (r: &'static str)
    ensures
        r@ == board_of(thscode@),
{
    if is_star_board(thscode) {
        "科创板"
    } else if is_bj_board(thscode) {
        "北交所"
    } else if is_gem_board(thscode) {
        "创业板"
    } else {
        "主板"
    }
}

/// The initial capital that trading a stock takes, `None` on the main board.
pub open spec fn capital_needed(code: Seq<char>) -> Option<Decimal> {
    if on_star_board(code) {
        Some(STAR_BOARD_MIN_CAPITAL)
    } else if on_bj_board(code) {
        Some(BJ_BOARD_MIN_CAPITAL)
    } else if on_gem_board(code) {
        Some(GEM_BOARD_MIN_CAPITAL)
    } else {
        None
    }
}

/// Whether an account that was opened with `initial_capital` may trade a stock.
pub open spec fn may_trade(initial_capital: Decimal, code: Seq<char>) -> bool {
    match capital_needed(code) {
        Some(needed) => initial_capital >= needed,
        None => true,
    }
}

/// Board permission by the capital with which the account was opened.
pub fn board_allowed(initial_capital: Decimal, thscode: &str) -> (r: bool)
    ensures
        r == may_trade(initial_capital, thscode@),
{
    if is_star_board(thscode) {
        initial_capital >= STAR_BOARD_MIN_CAPITAL
    } else if is_bj_board(thscode) {
        initial_capital >= BJ_BOARD_MIN_CAPITAL
    } else if is_gem_board(thscode) {
        initial_capital >= GEM_BOARD_MIN_CAPITAL
    } else {
        true
    }
}

/// A purchase: on the STAR market 200 shares or more, elsewhere whole lots.
pub open spec fn buy_quantity_ok(code: Seq<char>, qty: u32) -> bool {
    qty > 0 && if on_star_board(code) {
        qty >= STAR_MIN_LOT
    } else {
        qty % LOT_SIZE == 0
    }
}

/// Whether a number of shares may be bought in one order.
pub fn is_valid_buy_quantity(thscode: &str, qty: u32) -> (r: bool)
    ensures
        r == buy_quantity_ok(thscode@, qty),
{
    if qty == 0 {
        return false;
    }
    if is_star_board(thscode) {
        qty >= STAR_MIN_LOT
    } else {
        qty % LOT_SIZE == 0
    }
}

/// A sale: the whole holding, or on the STAR market 200 shares or more and elsewhere whole
/// lots. An odd lot leaves only with the rest of the holding.
pub open spec fn sell_quantity_ok(code: Seq<char>, qty: u32, holding: u32) -> bool {
    0 < qty <= holding && (qty == holding || if on_star_board(code) {
        qty >= STAR_MIN_LOT
    } else {
        qty % LOT_SIZE == 0
    })
}

/// Whether a number of shares may be sold out of a holding in one order.
pub fn is_valid_sell_quantity(thscode: &str, qty: u32, holding: u32) -> (r: bool)
    ensures
        r == sell_quantity_ok(thscode@, qty, holding),
{
    if qty == 0 || qty > holding {
        return false;
    }
    if is_star_board(thscode) {
        return qty >= STAR_MIN_LOT || qty == holding;
    }
    qty % LOT_SIZE == 0 || qty == holding
}

/// A holding can always be sold out, whatever its size.
pub proof fn whole_holding_can_be_sold(code: Seq<char>, holding: u32)
    requires
        holding > 0,
    ensures
        sell_quantity_ok(code, holding, holding),
{
}

/// What was bought in one order can be sold again in one order.
pub proof fn bought_quantity_can_be_sold(code: Seq<char>, qty: u32, holding: u32)
    requires
        buy_quantity_ok(code, qty),
        qty <= holding,
    ensures
        sell_quantity_ok(code, qty, holding),
{
}

/// The daily price limit as a ratio: 20% on ChiNext and the STAR market, 30% on the Beijing
/// exchange, on the main board 5% under special treatment and 10% otherwise.
pub open spec fn price_limit(code: Seq<char>, name: Seq<char>) -> int {
    if on_gem_board(code) || on_star_board(code) {
        200_000
    } else if on_bj_board(code) {
        300_000
    } else if text::contains_part(name, "ST"@) {
        50_000
    } else {
        100_000
    }
}

/// The daily price limit of a stock, by its code and name.
pub fn limit_ratio_with_name(thscode: &str, name: &str) -> (r: Decimal)
    ensures
        r == price_limit(thscode@, name@),
{
    if is_gem_board(thscode) || is_star_board(thscode) {
        200_000
    } else if is_bj_board(thscode) {
        300_000
    } else if text_contains(name, "ST") {
        50_000
    } else {
        100_000
    }
}

/// The daily price limit of a board, for a stock that is not under special treatment.
pub fn limit_ratio(thscode: &str) -> (r: Decimal)
    ensures
        r == price_limit(thscode@, ""@),
{
    limit_ratio_with_name(thscode, "")
}

/// `num / den` rounded to whole cents, halves away from zero.
pub open spec fn to_cents(num: int, den: int) -> int {
    decimal::div_round(num, den * CENT) * CENT
}

/// A decimal rounded to whole cents.
pub open spec fn price_rounded(p: int) -> int {
    to_cents(p, 1)
}

/// `num / den` rounded to whole cents.
pub fn round_to_cents(num: i128, den: i128) -> (r: Decimal)
    requires
        0 < den <= 1_000_000_000_000_000_000_000,
        -decimal::DIV_MAX <= num <= decimal::DIV_MAX,
    ensures
        r == to_cents(num as int, den as int),
{
    let q = rounded_div(num, den * CENT);
    proof {
        lemma_cents_close(num as int, den as int);
        assert(decimal::abs(q * CENT) <= decimal::DIV_MAX + CENT) by {
            lemma_cents_bound(num as int, den as int);
        }
    }
    q * CENT
}

/// Rounded to 0.01, the smallest step of a price.
pub fn round_price(p: Decimal) -> (r: Decimal)
    requires
        -decimal::DIV_MAX <= p <= decimal::DIV_MAX,
    ensures
        r == price_rounded(p as int),
{
    round_to_cents(p, 1)
}

/// Rounding to cents moves a value by half a cent at most, and keeps its sign.
pub proof fn lemma_cents_close(num: int, den: int)
    requires
        den > 0,
    ensures
        2 * decimal::abs(num - to_cents(num, den) * den) <= den * CENT,
        num >= 0 ==> to_cents(num, den) >= 0,
        num <= 0 ==> to_cents(num, den) <= 0,
        to_cents(num, den) % (CENT as int) == 0,
{
    let d = den * CENT;
    let q = decimal::div_round(num, d);
    decimal::lemma_div_round_nearest(num, d);
    assert(q * d == (q * CENT) * den) by (nonlinear_arith)
        requires
            d == den * CENT,
    ;
}

pub proof fn lemma_cents_bound(num: int, den: int)
    requires
        den > 0,
    ensures
        decimal::abs(to_cents(num, den)) <= decimal::abs(num) + CENT,
{
    lemma_cents_close(num, den);
    let c = to_cents(num, den);
    assert(decimal::abs(c) <= decimal::abs(num) + CENT) by (nonlinear_arith)
        requires
            den >= 1,
            2 * (num - c * den) <= den * CENT,
            -2 * (num - c * den) <= den * CENT,
            num >= 0 ==> c >= 0,
            num <= 0 ==> c <= 0,
    ;
}

/// Rounding to cents keeps the order.
pub proof fn lemma_cents_monotone(a: int, b: int, den: int)
    requires
        den > 0,
        a <= b,
    ensures
        to_cents(a, den) <= to_cents(b, den),
{
    decimal::lemma_div_round_monotone(a, b, den * CENT);
}

/// A value in whole cents is its own rounding.
pub proof fn lemma_cents_exact(c: int, den: int)
    requires
        den > 0,
        c % (CENT as int) == 0,
    ensures
        to_cents(c * den, den) == c,
{
    let q = c / (CENT as int);
    assert(c * den == q * (den * CENT)) by (nonlinear_arith)
        requires
            c == q * CENT,
    ;
    decimal::lemma_div_round_exact(q, den * CENT);
}

/// The highest price of the day.
pub open spec fn limit_up(prev_close: int, code: Seq<char>, name: Seq<char>) -> int {
    to_cents(prev_close * (UNIT + price_limit(code, name)), UNIT as int)
}

/// The lowest price of the day.
pub open spec fn limit_down(prev_close: int, code: Seq<char>, name: Seq<char>) -> int {
    to_cents(prev_close * (UNIT - price_limit(code, name)), UNIT as int)
}

/// The price at which a stock is limit-up.
pub fn limit_up_price(prev_close: Decimal, thscode: &str, name: &str) -> (r: Decimal)
    requires
        decimal::price_ok(prev_close as int),
    ensures
        r == limit_up(prev_close as int, thscode@, name@),
{
    let ratio = limit_ratio_with_name(thscode, name);
    proof {
        lemma_scaled(prev_close as int, UNIT + ratio);
    }
    round_to_cents(prev_close * (UNIT + ratio), UNIT)
}

/// The price at which a stock is limit-down.
pub fn limit_down_price(prev_close: Decimal, thscode: &str, name: &str) -> (r: Decimal)
    requires
        decimal::price_ok(prev_close as int),
    ensures
        r == limit_down(prev_close as int, thscode@, name@),
{
    let ratio = limit_ratio_with_name(thscode, name);
    proof {
        lemma_scaled(prev_close as int, UNIT - ratio);
    }
    round_to_cents(prev_close * (UNIT - ratio), UNIT)
}

proof fn lemma_scaled(p: int, f: int)
    requires
        decimal::price_ok(p),
        0 <= f <= 2 * UNIT,
    ensures
        -decimal::PRICE_MAX * (2 * UNIT) <= p * f <= decimal::PRICE_MAX * (2 * UNIT),
{
    assert(-decimal::PRICE_MAX * (2 * UNIT) <= p * f <= decimal::PRICE_MAX * (2 * UNIT))
        by (nonlinear_arith)
        requires
            -decimal::PRICE_MAX <= p <= decimal::PRICE_MAX,
            0 <= f <= 2 * UNIT,
    ;
}

/// The close of the day before lies between the two limits of the day, and the limits
/// are whole cents.
pub proof fn limits_enclose_previous_close(prev_close: int, code: Seq<char>, name: Seq<char>)
    requires
        prev_close >= 0,
        prev_close % (CENT as int) == 0,
    ensures
        limit_down(prev_close, code, name) <= prev_close <= limit_up(prev_close, code, name),
        limit_down(prev_close, code, name) % (CENT as int) == 0,
        limit_up(prev_close, code, name) % (CENT as int) == 0,
        limit_down(prev_close, code, name) >= 0,
{
    let l = price_limit(code, name);
    lemma_cents_exact(prev_close, UNIT as int);
    assert(prev_close * (UNIT - l) <= prev_close * UNIT <= prev_close * (UNIT + l)) by (
    nonlinear_arith)
        requires
            prev_close >= 0,
            l >= 0,
    ;
    assert(prev_close * (UNIT - l) >= 0) by (nonlinear_arith)
        requires
            prev_close >= 0,
            l <= UNIT,
    ;
    lemma_cents_monotone(prev_close * (UNIT - l), prev_close * UNIT, UNIT as int);
    lemma_cents_monotone(prev_close * UNIT, prev_close * (UNIT + l), UNIT as int);
    lemma_cents_close(prev_close * (UNIT - l), UNIT as int);
    lemma_cents_close(prev_close * (UNIT + l), UNIT as int);
}

/// The fee of a trade: commission with its minimum, transfer fee, and stamp duty on a sale,
/// the sum rounded to cents.
pub open spec fn trade_fee(amount: int, selling: bool) -> int {
    to_cents(
        decimal::max(amount * COMMISSION_RATE, COMMISSION_MIN * UNIT) + (if selling {
            amount * STAMP_RATE
        } else {
            0
        }) + amount * TRANSFER_RATE,
        UNIT as int,
    )
}

/// The fee of a trade.
pub fn trade_fees(amount: Decimal, selling: bool) -> (r: Decimal)
    requires
        decimal::money_ok(amount as int),
    ensures
        r == trade_fee(amount as int, selling),
{
    let commission = decimal_max(amount * COMMISSION_RATE, COMMISSION_MIN * UNIT);
    let stamp: Decimal = if selling {
        amount * STAMP_RATE
    } else {
        0
    };
    round_to_cents(commission + stamp + amount * TRANSFER_RATE, UNIT)
}

/// A fee is at least the smallest commission, a sale costs no less than a purchase of the
/// same amount, and a larger amount costs no less than a smaller one.
pub proof fn fees_grow_with_the_amount(a: int, b: int)
    requires
        0 <= a <= b,
    ensures
        trade_fee(a, false) >= COMMISSION_MIN,
        trade_fee(a, true) >= trade_fee(a, false),
        trade_fee(a, false) <= trade_fee(b, false),
        trade_fee(a, true) <= trade_fee(b, true),
{
    lemma_cents_exact(COMMISSION_MIN as int, UNIT as int);
    let buy_a = decimal::max(a * COMMISSION_RATE, COMMISSION_MIN * UNIT) + a * TRANSFER_RATE;
    let buy_b = decimal::max(b * COMMISSION_RATE, COMMISSION_MIN * UNIT) + b * TRANSFER_RATE;
    lemma_cents_monotone(COMMISSION_MIN * UNIT, buy_a, UNIT as int);
    lemma_cents_monotone(buy_a, buy_a + a * STAMP_RATE, UNIT as int);
    lemma_cents_monotone(buy_a, buy_b, UNIT as int);
    lemma_cents_monotone(buy_a + a * STAMP_RATE, buy_b + b * STAMP_RATE, UNIT as int);
}

/// The exchange of a six-digit code.
pub open spec fn exchange_suffix(s: Seq<char>) -> Seq<char> {
    if "60"@.is_prefix_of(s) || "68"@.is_prefix_of(s) || "9"@.is_prefix_of(s) {
        ".SH"@
    } else if "4"@.is_prefix_of(s) || "8"@.is_prefix_of(s) {
        ".BJ"@
    } else {
        ".SZ"@
    }
}

/// A bare six-digit code with its exchange; anything else as it is.
pub open spec fn with_exchange(s: Seq<char>) -> Seq<char> {
    if !s.contains('.') && s.len() == 6 && number::all_digits(s) {
        s + exchange_suffix(s)
    } else {
        s
    }
}

/// Appends the exchange to a bare six-digit code.
pub fn complete_thscode(s: &str) -> (r: String)
    ensures
        r@ == with_exchange(s@),
{
    let mut out = s.to_owned();
    if text_has(s, '.') {
        return out;
    }
    let chars = chars_of(s);
    if chars.len() != 6 {
        return out;
    }
    for i in 0..chars.len()
        invariant
            chars@ == s@,
            out@ == s@,
            forall|j: int| 0 <= j < i ==> number::is_digit(#[trigger] s@[j]),
    {
        if chars[i] < '0' || chars[i] > '9' {
            return out;
        }
    }
    if has_prefix(s, "60") || has_prefix(s, "68") || has_prefix(s, "9") {
        out.append(".SH");
    } else if has_prefix(s, "4") || has_prefix(s, "8") {
        out.append(".BJ");
    } else {
        out.append(".SZ");
    }
    out
}

/// A stock code in the form `600519.SH`: trimmed, in upper case, and with the exchange
/// appended to a bare six-digit code.
pub fn normalize_thscode(symbol: &str) -> (r: String)
    ensures
        r@ == with_exchange(text::uppercase(text::trimmed(symbol@))),
{
    let trimmed = trim_text(symbol);
    let s = trimmed.as_str().to_uppercase();
    complete_thscode(s.as_str())
}

/// A completed code is not completed again.
pub proof fn completed_codes_stay(s: Seq<char>)
    ensures
        with_exchange(with_exchange(s)) == with_exchange(s),
{
    reveal_strlit(".SH");
    reveal_strlit(".BJ");
    reveal_strlit(".SZ");
    let t = with_exchange(s);
    if t != s {
        assert(t[6] == '.');
    }
}

/// Whether the market is open: Monday to Friday, in one of the two sessions.
pub open spec fn in_session(weekday_iso: u32, minute_of_day: u32) -> bool {
    weekday_iso < 6 && (MORNING_OPEN <= minute_of_day < MORNING_CLOSE || AFTERNOON_OPEN
        <= minute_of_day < AFTERNOON_CLOSE)
}

/// Whether the market is open on an ISO weekday (1 is Monday) at a minute of the day.
pub fn is_trading_time(weekday_iso: u32, minute_of_day: u32) -> (r: bool)
    ensures
        r == in_session(weekday_iso, minute_of_day),
{
    if weekday_iso >= 6 {
        return false;
    }
    (MORNING_OPEN <= minute_of_day && minute_of_day < MORNING_CLOSE) || (AFTERNOON_OPEN
        <= minute_of_day && minute_of_day < AFTERNOON_CLOSE)
}

} // verus!
