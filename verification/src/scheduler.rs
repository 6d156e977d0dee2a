//! The scheduler: what is due at which minute, how large a purchase is, and how a round of
//! decisions runs.

use vstd::prelude::*;

use crate::account;
use crate::account::{DecisionLog, DecisionView, PositionView, RecentTrade, TradeView};
use crate::decimal;
use crate::decimal::{decimal_max, decimal_min, Decimal, MONEY_MAX, PRICE_MAX, UNIT};
use crate::decision;
use crate::decision::{DecisionEngine, DecisionResult};
use crate::intent;
use crate::intent::{IntentView, OrderIntent, OrderSide, RejectReason, RejectView};
use crate::ledger;
use crate::ledger::{AccountDb, LedgerView, StoredReviewView, MAX_ROWS};
use crate::number;
use crate::number::{parse_decimal, parse_u64};
use crate::risk;
use crate::risk::{MarketState, MarketView, ReportView, RiskConfig, RiskManager, RiskReport};
use crate::sim;
use crate::sim::{Clock, Quote, SimBroker};
use crate::text;
use crate::text::{join_text, push_decimal, push_int, split_text, text_eq, trim_text};

verus! {

/// 9:00, from when on a day is prepared.
pub const PREPARE_MINUTE: u32 = 540;

/// 9:15, until when data is synchronised before the opening.
pub const PRE_OPEN_END: u32 = 555;

/// 9:30 and 15:00, between which the market is watched.
pub const OPEN_MINUTE: u32 = 570;

pub const CLOSE_MINUTE: u32 = 900;

/// 15:05, from when on a day is reviewed.
pub const REVIEW_MINUTE: u32 = 905;

/// 15:30, from when on the bars of the day are synchronised.
pub const AFTER_CLOSE_MINUTE: u32 = 930;

/// What the collector has done today.
#[derive(Debug, Clone, Copy, PartialEq, Eq, Structural)]
pub struct CollectorState {
    /// The minute, counted from 1970, of the last collection.
    pub last_collect: i64,
    pub pre_open_done: bool,
    pub after_close_synced: bool,
}

/// What the collector does once it knows whether the day is a trading day.
#[derive(Debug, Clone, Copy, PartialEq, Eq, Structural)]
pub struct CollectorActions {
    /// Collect a snapshot of the market.
    pub collect: bool,
    /// Synchronise the bars of the day.
    pub sync_bars: bool,
}

pub open spec fn is_weekday(weekday_iso: u32) -> bool {
    weekday_iso < 6
}

impl CollectorState {
    pub open spec fn start() -> CollectorState {
        CollectorState { last_collect: 0, pre_open_done: false, after_close_synced: false }
    }

    /// Whether data is to be synchronised before the opening: on a weekday from 9:00 to 9:15,
    /// once.
    pub open spec fn wants_pre_open(self, weekday_iso: u32, minute: u32) -> bool {
        is_weekday(weekday_iso) && PREPARE_MINUTE <= minute < PRE_OPEN_END && !self.pre_open_done
    }

    /// Whether a snapshot is to be collected: on a trading day in the hours of the market,
    /// whenever the interval has passed.
    pub open spec fn wants_snapshot(
        self,
        weekday_iso: u32,
        minute: u32,
        unix_minute: i64,
        trading_day: bool,
        interval_seconds: u64,
    ) -> bool {
        is_weekday(weekday_iso) && trading_day && OPEN_MINUTE <= minute < CLOSE_MINUTE
            && unix_minute - self.last_collect >= whole_minutes(signed(interval_seconds))
    }

    /// Whether the bars of the day are to be synchronised: on a trading day from 15:30 on,
    /// once.
    pub open spec fn wants_bars(self, weekday_iso: u32, minute: u32, trading_day: bool) -> bool {
        is_weekday(weekday_iso) && trading_day && minute >= AFTER_CLOSE_MINUTE
            && !self.after_close_synced
    }

    /// The state after a minute. Before 9:00 on a weekday the day starts over.
    pub open spec fn after_minute(
        self,
        weekday_iso: u32,
        minute: u32,
        unix_minute: i64,
        trading_day: bool,
        interval_seconds: u64,
    ) -> CollectorState {
        let fresh = is_weekday(weekday_iso) && minute < PREPARE_MINUTE;
        CollectorState {
            last_collect: if self.wants_snapshot(
                weekday_iso,
                minute,
                unix_minute,
                trading_day,
                interval_seconds,
            ) {
                unix_minute
            } else {
                self.last_collect
            },
            pre_open_done: self.pre_open_done && !fresh,
            after_close_synced: (self.after_close_synced || self.wants_bars(
                weekday_iso,
                minute,
                trading_day,
            )) && !fresh,
        }
    }

    /// The state after the time before the opening was looked at.
    pub open spec fn after_pre_open(self, weekday_iso: u32, minute: u32) -> CollectorState {
        CollectorState {
            pre_open_done: self.pre_open_done || self.wants_pre_open(weekday_iso, minute),
            ..self
        }
    }

    pub fn new() -> (r: Self)
        ensures
            r == CollectorState::start(),
    {
        CollectorState { last_collect: 0, pre_open_done: false, after_close_synced: false }
    }

    /// Whether data is to be synchronised before the opening; if so it counts as done.
    pub fn pre_open(&mut self, weekday_iso: u32, minute: u32) -> (r: bool)
        ensures
            r == old(self).wants_pre_open(weekday_iso, minute),
            *final(self) == (CollectorState {
                pre_open_done: old(self).pre_open_done || r,
                ..*old(self)
            }),
            *final(self) == old(self).after_pre_open(weekday_iso, minute),
    {
        let due = weekday_iso < 6 && PREPARE_MINUTE <= minute && minute < PRE_OPEN_END
            && !self.pre_open_done;
        if due {
            self.pre_open_done = true;
        }
        due
    }

    /// What is to be done at a minute, once it is known whether the day is a trading day.
    /// Before 9:00 on a weekday the day starts over.
    pub fn run_collector(
        &mut self,
        weekday_iso: u32,
        minute: u32,
        unix_minute: i64,
        trading_day: bool,
        interval_seconds: u64,
    ) -> (r: CollectorActions)
        ensures
            r.collect == old(self).wants_snapshot(
                weekday_iso,
                minute,
                unix_minute,
                trading_day,
                interval_seconds,
            ),
            r.sync_bars == old(self).wants_bars(weekday_iso, minute, trading_day),
            final(self).last_collect == (if r.collect {
                unix_minute
            } else {
                old(self).last_collect
            }),
            final(self).pre_open_done == (old(self).pre_open_done && !(is_weekday(weekday_iso)
                && minute < PREPARE_MINUTE)),
            final(self).after_close_synced == ((old(self).after_close_synced || r.sync_bars) && !(
            is_weekday(weekday_iso) && minute < PREPARE_MINUTE)),
            *final(self) == old(self).after_minute(
                weekday_iso,
                minute,
                unix_minute,
                trading_day,
                interval_seconds,
            ),
    {
        let mut collect = false;
        let mut sync_bars = false;
        if weekday_iso < 6 {
            if trading_day && minute >= OPEN_MINUTE && minute < CLOSE_MINUTE {
                let passed: i128 = unix_minute as i128 - self.last_collect as i128;
                let wanted = minutes_in(as_signed(interval_seconds));
                if passed >= wanted {
                    collect = true;
                    self.last_collect = unix_minute;
                }
            }
            if trading_day && minute >= AFTER_CLOSE_MINUTE && !self.after_close_synced {
                sync_bars = true;
                self.after_close_synced = true;
            }
            if minute < PREPARE_MINUTE {
                self.pre_open_done = false;
                self.after_close_synced = false;
            }
        }
        CollectorActions { collect, sync_bars }
    }
}

/// An unsigned number read as a signed one of the same width.
pub open spec fn signed(n: u64) -> int {
    if n <= i64::MAX {
        n as int
    } else {
        n - 0x1_0000_0000_0000_0000
    }
}

fn as_signed(n: u64) -> (r: i128)
    ensures
        r == signed(n),
{
    if n <= 9_223_372_036_854_775_807 {
        n as i128
    } else {
        n as i128 - 18_446_744_073_709_551_616
    }
}

/// Whole minutes in some seconds, towards zero.
pub open spec fn whole_minutes(seconds: int) -> int {
    if seconds >= 0 {
        seconds / 60
    } else {
        -((-seconds) / 60)
    }
}

fn minutes_in(seconds: i128) -> (r: i128)
    requires
        -18_446_744_073_709_551_616 <= seconds <= 18_446_744_073_709_551_616,
    ensures
        r == whole_minutes(seconds as int),
{
    if seconds >= 0 {
        seconds / 60
    } else {
        -((-seconds) / 60)
    }
}

/// The minutes at which the model is always asked: 9:35, 11:25 and 14:55.
pub open spec fn is_fixed_point(minute: u32) -> bool {
    minute == 575 || minute == 685 || minute == 895
}

/// What an account has done today.
#[derive(Debug)]
pub struct AccountState {
    /// The minute, counted from 1970, of the last decision.
    pub last_decision_min: i64,
    /// The date on which corporate actions were last applied.
    pub last_adjust_date: String,
    /// Whether the day has been reviewed.
    pub closed_today: bool,
}

/// What is due for an account.
#[derive(Debug, Clone, Copy, PartialEq, Eq, Structural)]
pub struct AccountActions {
    /// Apply corporate actions.
    pub adjust: bool,
    /// Run the risk control.
    pub risk: bool,
    /// Ask the model.
    pub decide: bool,
    /// Review old decisions and record the value of the account.
    pub close: bool,
}

impl AccountState {
    pub open spec fn wants_adjust(self, weekday_iso: u32, minute: u32, today: Seq<char>) -> bool {
        is_weekday(weekday_iso) && today != self.last_adjust_date@ && minute >= PREPARE_MINUTE
    }

    pub open spec fn wants_risk(self, weekday_iso: u32, minute: u32) -> bool {
        is_weekday(weekday_iso) && OPEN_MINUTE <= minute < CLOSE_MINUTE
    }

    /// The model is asked at fixed points and whenever the interval has passed.
    pub open spec fn wants_decision(
        self,
        weekday_iso: u32,
        minute: u32,
        unix_minute: i64,
        interval: u64,
    ) -> bool {
        self.wants_risk(weekday_iso, minute) && (is_fixed_point(minute) || unix_minute
            - self.last_decision_min >= signed(interval))
    }

    pub open spec fn wants_close(self, weekday_iso: u32, minute: u32) -> bool {
        is_weekday(weekday_iso) && minute >= REVIEW_MINUTE && !self.closed_today
    }

    /// Whether `next` is the state after a minute. Before 9:00 on a weekday the day starts over.
    pub open spec fn moves_on_to(
        self,
        next: AccountState,
        weekday_iso: u32,
        minute: u32,
        unix_minute: i64,
        today: Seq<char>,
        interval: u64,
    ) -> bool {
        &&& next.last_adjust_date@ == (if self.wants_adjust(weekday_iso, minute, today) {
            today
        } else {
            self.last_adjust_date@
        })
        &&& next.last_decision_min == (if self.wants_decision(
            weekday_iso,
            minute,
            unix_minute,
            interval,
        ) {
            unix_minute
        } else {
            self.last_decision_min
        })
        &&& next.closed_today == ((self.closed_today || self.wants_close(weekday_iso, minute)) && !(
        is_weekday(weekday_iso) && minute < PREPARE_MINUTE))
    }

    pub fn new() -> (r: Self)
        ensures
            r.last_decision_min == 0,
            r.last_adjust_date@ == Seq::<char>::empty(),
            !r.closed_today,
    {
        AccountState {
            last_decision_min: 0,
            last_adjust_date: String::new(),
            closed_today: false,
        }
    }

    /// What is due at a minute. Before 9:00 on a weekday the day starts over.
    pub fn run_account(
        &mut self,
        weekday_iso: u32,
        minute: u32,
        unix_minute: i64,
        today: &str,
        interval: u64,
    ) -> (r: AccountActions)
        ensures
            r.adjust == old(self).wants_adjust(weekday_iso, minute, today@),
            r.risk == old(self).wants_risk(weekday_iso, minute),
            r.decide == old(self).wants_decision(weekday_iso, minute, unix_minute, interval),
            r.close == old(self).wants_close(weekday_iso, minute),
            final(self).last_adjust_date@ == (if r.adjust {
                today@
            } else {
                old(self).last_adjust_date@
            }),
            final(self).last_decision_min == (if r.decide {
                unix_minute
            } else {
                old(self).last_decision_min
            }),
            final(self).closed_today == ((old(self).closed_today || r.close) && !(is_weekday(
                weekday_iso,
            ) && minute < PREPARE_MINUTE)),
            old(self).moves_on_to(*final(self), weekday_iso, minute, unix_minute, today@, interval),
    {
        let mut adjust = false;
        let mut risk_due = false;
        let mut decide = false;
        let mut close = false;
        if weekday_iso < 6 {
            if !text_eq(today, self.last_adjust_date.as_str()) && minute >= PREPARE_MINUTE {
                adjust = true;
                self.last_adjust_date = today.to_owned();
            }
            if minute >= OPEN_MINUTE && minute < CLOSE_MINUTE {
                risk_due = true;
                let fixed = minute == 575 || minute == 685 || minute == 895;
                let passed: i128 = unix_minute as i128 - self.last_decision_min as i128;
                if fixed || passed >= as_signed(interval) {
                    decide = true;
                    self.last_decision_min = unix_minute;
                }
            }
            if minute >= REVIEW_MINUTE && !self.closed_today {
                close = true;
                self.closed_today = true;
            }
            if minute < PREPARE_MINUTE {
                self.closed_today = false;
            }
        }
        AccountActions { adjust, risk: risk_due, decide, close }
    }
}

/// On a weekend nothing is due.
pub proof fn weekends_are_quiet(
    collector: CollectorState,
    state: AccountState,
    weekday_iso: u32,
    minute: u32,
    unix_minute: i64,
    today: Seq<char>,
    interval: u64,
)
    requires
        weekday_iso >= 6,
    ensures
        !collector.wants_pre_open(weekday_iso, minute),
        !collector.wants_snapshot(weekday_iso, minute, unix_minute, true, interval),
        !collector.wants_bars(weekday_iso, minute, true),
        !state.wants_adjust(weekday_iso, minute, today),
        !state.wants_risk(weekday_iso, minute),
        !state.wants_decision(weekday_iso, minute, unix_minute, interval),
        !state.wants_close(weekday_iso, minute),
{
}

/// The minutes between decisions, by the books: 30 unless a setting says otherwise.
pub open spec fn interval_of(books: LedgerView) -> u64 {
    match books.setting("decision_interval_minutes"@) {
        Some(s) => match number::u64_of(s) {
            Some(n) => n,
            None => 30,
        },
        None => 30,
    }
}

/// The minutes between decisions.
pub fn decision_interval(acct: &AccountDb) -> (r: u64)
    requires
        acct.wf(),
    ensures
        r == interval_of(acct@),
{
    match acct.meta_get("decision_interval_minutes") {
        Some(s) => match parse_u64(s.as_str()) {
            Some(n) => n,
            None => 30,
        },
        None => 30,
    }
}

/// The settings of an account.
#[derive(Debug)]
pub struct AcctConf {
    pub initial_capital: Decimal,
    pub watchlist: Vec<String>,
    pub candidate_count: usize,
    pub risk: RiskConfig,
}

/// A number among the settings, or what stands for it.
pub open spec fn number_setting(books: LedgerView, key: Seq<char>, default: int) -> int {
    match books.setting(key) {
        Some(s) => match number::decimal_of(s) {
            Some(d) => d,
            None => default,
        },
        None => default,
    }
}

/// The names of a list, trimmed and without blanks.
pub open spec fn clean_names(pieces: Seq<Seq<char>>) -> Seq<Seq<char>>
    decreases pieces.len(),
{
    if pieces.len() == 0 {
        Seq::empty()
    } else {
        let before = clean_names(pieces.drop_last());
        let name = text::trimmed(pieces.last());
        if name.len() == 0 {
            before
        } else {
            before.push(name)
        }
    }
}

/// The stocks of a watch list that is separated by commas.
pub open spec fn watchlist_of(s: Seq<char>) -> Seq<Seq<char>> {
    clean_names(text::split_at_char(s, ','))
}

/// The whole part of a decimal as a count, at least 1.
pub open spec fn count_of(d: int) -> int {
    decimal::max(
        if d <= 0 {
            0
        } else {
            decimal::min(d / (UNIT as int), usize::MAX as int)
        },
        1,
    )
}

/// The stocks of a watch list that is separated by commas.
pub fn parse_watchlist(s: &str) -> (r: Vec<String>)
    ensures
        text::views(r@) == watchlist_of(s@),
{
    let pieces = split_text(s, ',');
    let ghost all = text::views(pieces@);
    let mut out: Vec<String> = Vec::new();
    assert(all.take(0) =~= Seq::empty());
    assert(text::views(out@) =~= Seq::empty());
    for i in 0..pieces.len()
        invariant
            all == text::views(pieces@),
            text::views(out@) == clean_names(all.take(i as int)),
    {
        proof {
            assert(all.take(i + 1).drop_last() =~= all.take(i as int));
            assert(all.take(i + 1).last() == pieces@[i as int]@);
        }
        let name = trim_text(pieces[i].as_str());
        if name.as_str().unicode_len() > 0 {
            let ghost before = text::views(out@);
            let ghost view = name@;
            out.push(name);
            assert(text::views(out@) =~= before.push(view));
        }
    }
    assert(all.take(all.len() as int) =~= all);
    out
}

fn read_number(acct: &AccountDb, key: &str, default: Decimal) -> (r: Decimal)
    requires
        acct.wf(),
    ensures
        r == number_setting(acct@, key@, default as int),
        decimal::money_ok(default as int) ==> decimal::money_ok(r as int),
{
    match acct.meta_get(key) {
        Some(s) => match parse_decimal(s.as_str()) {
            Some(d) => d,
            None => default,
        },
        None => default,
    }
}

fn copy_names(names: &Vec<String>) -> (r: Vec<String>)
    ensures
        text::views(r@) == text::views(names@),
{
    let mut out: Vec<String> = Vec::new();
    for i in 0..names.len()
        invariant
            out@.len() == i,
            forall|j: int| 0 <= j < i ==> (#[trigger] out@[j])@ == names@[j]@,
    {
        out.push(names[i].clone());
    }
    assert(text::views(out@) =~= text::views(names@));
    out
}

/// The settings of an account: those in its books, or else those of the program. They are
/// read anew each time, so that a change takes effect at once.
pub fn read_acct_conf(
    acct: &AccountDb,
    initial_capital: Decimal,
    candidate_count: usize,
    watchlist: &Vec<String>,
) -> (r: AcctConf)
    requires
        acct.wf(),
        decimal::money_ok(initial_capital as int),
    ensures
        r.initial_capital == number_setting(
            acct@,
            "initial_capital"@,
            initial_capital as int,
        ),
        decimal::money_ok(r.initial_capital as int),
        text::views(r.watchlist@) == (match acct@.setting("watchlist"@) {
            Some(s) => watchlist_of(s),
            None => text::views(watchlist@),
        }),
        r.candidate_count == count_of(
            number_setting(acct@, "candidate_count"@, candidate_count * UNIT),
        ),
        r.risk == RiskConfig::standard(),
{
    let capital = read_number(acct, "initial_capital", initial_capital);
    let watched = match acct.meta_get("watchlist") {
        Some(s) => parse_watchlist(s.as_str()),
        None => copy_names(watchlist),
    };
    let wanted = read_number(acct, "candidate_count", candidate_count as i128 * UNIT);
    let whole: i128 = if wanted <= 0 {
        0
    } else {
        wanted / UNIT
    };
    let count: usize = if whole < 1 {
        1
    } else if whole > usize::MAX as i128 {
        usize::MAX
    } else {
        whole as usize
    };
    AcctConf {
        initial_capital: capital,
        watchlist: watched,
        candidate_count: count,
        risk: RiskConfig::default(),
    }
}

/// The largest share of the total assets that a purchase takes: 20%.
pub const SINGLE_MAX_PCT: Decimal = 200_000;

/// The most lots that a quantity holds.
pub const LOTS_MAX: i128 = 42_949_672;

/// What may be spent on one purchase, in millionths of a [`Decimal`]: a fifth of the total
/// assets, what is left of the total position that is allowed, and the cash at hand.
pub open spec fn budget(total: int, held: int, cash: int, max_total_pct: int) -> int {
    decimal::min(
        decimal::min(
            total * SINGLE_MAX_PCT,
            decimal::max(max_total_pct * total - UNIT * held, 0),
        ),
        cash * UNIT,
    )
}

/// How many shares to buy at a price: whole lots within the budget.
pub open spec fn shares_for(budget: int, price: int) -> int {
    if budget <= 0 {
        0
    } else {
        decimal::min(budget / (price * UNIT * 100), LOTS_MAX as int) * 100
    }
}

/// How many shares of a stock to buy.
pub open spec fn size_of(
    books: LedgerView,
    code: Seq<char>,
    price: Option<Decimal>,
    max_total_pct: int,
) -> int {
    let account = books.account->0;
    match price {
        Some(p) => if p <= 0 {
            0
        } else if books.positions.len() >= sim::MAX_POSITIONS && ledger::held(
            books.positions,
            code,
        ) is None {
            0
        } else {
            shares_for(
                budget(
                    books.asset_at_cost(account),
                    ledger::cost_value(books.positions),
                    account.cash as int,
                    max_total_pct,
                ),
                p as int,
            )
        },
        None => 0,
    }
}

/// How many shares of a stock to buy: whole lots, within the limits of the account. The
/// account is opened where it is not yet, unless there is no price.
pub fn position_size(
    acct: &mut AccountDb,
    thscode: &str,
    price: Option<Decimal>,
    max_total_pct: Decimal,
    initial_capital: Decimal,
) -> (r: u32)
    requires
        old(acct).wf(),
        decimal::money_ok(initial_capital as int),
        risk::ratio_ok(max_total_pct),
        price matches Some(p) ==> p <= PRICE_MAX,
    ensures
        final(acct).wf(),
        final(acct)@ == (if price matches Some(p) && p > 0 {
            old(acct)@.opened(initial_capital)
        } else {
            old(acct)@
        }),
        r == size_of(old(acct)@.opened(initial_capital), thscode@, price, max_total_pct as int),
{
    let p: Decimal = match price {
        Some(v) => v,
        None => 0,
    };
    if p <= 0 {
        return 0;
    }
    let account = acct.get_or_init_account(initial_capital);
    let total = acct.total_asset_estimate(&account);
    if acct.positions.len() >= sim::MAX_POSITIONS && acct.position(thscode).is_none() {
        return 0;
    }
    proof {
        lemma_room(max_total_pct as int, total as int);
    }
    let room = decimal_max(max_total_pct * total - UNIT * (total - account.cash), 0);
    let money = decimal_min(decimal_min(total * SINGLE_MAX_PCT, room), account.cash * UNIT);
    if money <= 0 {
        return 0;
    }
    proof {
        vstd::arithmetic::div_mod::lemma_div_pos_is_pos(money as int, p * UNIT * 100);
    }
    let lots = decimal_min(money / (p * UNIT * 100), LOTS_MAX);
    (lots * 100) as u32
}

proof fn lemma_room(pct: int, total: int)
    requires
        -risk::RATIO_MAX <= pct <= risk::RATIO_MAX,
        -2 * MONEY_MAX <= total <= 2 * MONEY_MAX,
    ensures
        -risk::RATIO_MAX * (2 * MONEY_MAX) <= pct * total <= risk::RATIO_MAX * (2 * MONEY_MAX),
{
    assert(-risk::RATIO_MAX * (2 * MONEY_MAX) <= pct * total <= risk::RATIO_MAX * (2 * MONEY_MAX))
        by (nonlinear_arith)
        requires
            -risk::RATIO_MAX <= pct <= risk::RATIO_MAX,
            -2 * MONEY_MAX <= total <= 2 * MONEY_MAX,
            risk::RATIO_MAX == 10_000_000,
            MONEY_MAX == 1_000_000_000_000_000_000_000_000_000_000,
    ;
}

/// A purchase is in whole lots and costs no more than the cash and no more than a fifth of the
/// total assets. With what is held at cost it stays within the total position that is allowed.
pub proof fn purchases_stay_within_the_budget(
    books: LedgerView,
    code: Seq<char>,
    price: Decimal,
    max_total_pct: int,
)
    requires
        price > 0,
    ensures
        ({
            let q = size_of(books, code, Some(price), max_total_pct);
            let account = books.account->0;
            let total = books.asset_at_cost(account);
            &&& q >= 0
            &&& q % 100 == 0
            &&& q > 0 ==> {
                &&& q * price <= account.cash
                &&& q * price * UNIT <= total * SINGLE_MAX_PCT
                &&& (ledger::cost_value(books.positions) + q * price) * UNIT <= max_total_pct * total
                &&& books.positions.len() < sim::MAX_POSITIONS || ledger::held(
                    books.positions,
                    code,
                ) is Some
            }
        }),
{
    let q = size_of(books, code, Some(price), max_total_pct);
    let account = books.account->0;
    let total = books.asset_at_cost(account);
    let held = ledger::cost_value(books.positions);
    let b = budget(total, held, account.cash as int, max_total_pct);
    if b > 0 {
        let d = price * UNIT * 100;
        let lots = b / d;
        vstd::arithmetic::div_mod::lemma_div_pos_is_pos(b, d);
        vstd::arithmetic::div_mod::lemma_fundamental_div_mod(b, d);
        vstd::arithmetic::div_mod::lemma_mod_bound(b, d);
        let n = decimal::min(lots, LOTS_MAX as int);
        assert(n * d <= b) by (nonlinear_arith)
            requires
                n <= lots,
                d > 0,
                d * lots <= b,
        ;
        let s = n * 100;
        assert(s * price * UNIT == n * d) by (nonlinear_arith)
            requires
                s == n * 100,
                d == price * UNIT * 100,
        ;
        if q > 0 {
            assert(s * price * UNIT <= account.cash * UNIT);
            assert(s * price <= account.cash) by (nonlinear_arith)
                requires
                    s * price * UNIT <= account.cash * UNIT,
                    UNIT > 0,
            ;
            assert((held + s * price) * UNIT == UNIT * held + s * price * UNIT)
                by (nonlinear_arith);
        }
    }
}

/// The key of the data service to go on with: the one among the settings, where it is set
/// and differs from the one in use.
pub fn refresh_collector_key(stored: Option<String>, current: &str) -> (r: Option<String>)
    ensures
        match r {
            Some(k) => stored matches Some(s) && k@ == s@ && s@.len() > 0 && s@ != current@,
            None => stored matches Some(s) ==> s@.len() == 0 || s@ == current@,
        },
{
    match stored {
        Some(s) => if s.as_str().unicode_len() > 0 && !text_eq(s.as_str(), current) {
            Some(s)
        } else {
            None
        },
        None => None,
    }
}


/// The quote of a stock.
#[derive(Debug)]
pub struct QuoteRow {
    pub thscode: String,
    pub quote: Quote,
}

#[verifier::ext_equal]
pub struct QuoteRowView {
    pub thscode: Seq<char>,
    pub quote: Quote,
}

impl View for QuoteRow {
    type V = QuoteRowView;

    open spec fn view(&self) -> QuoteRowView {
        QuoteRowView { thscode: self.thscode@, quote: self.quote }
    }
}

pub open spec fn quote_views(list: Seq<QuoteRow>) -> Seq<QuoteRowView> {
    Seq::new(list.len(), |i: int| list[i]@)
}

/// The quote of a stock, empty where there is none.
pub open spec fn quote_of(list: Seq<QuoteRowView>, code: Seq<char>) -> Quote
    decreases list.len(),
{
    if list.len() == 0 {
        Quote { snapshot_price: None, prev_close: None, days_since_first_bar: None }
    } else if list[0].thscode == code {
        list[0].quote
    } else {
        quote_of(list.drop_first(), code)
    }
}

fn find_quote(list: &Vec<QuoteRow>, thscode: &str) -> (r: Quote)
    ensures
        r == quote_of(quote_views(list@), thscode@),
{
    let ghost all = quote_views(list@);
    assert(all.skip(0) =~= all);
    for i in 0..list.len()
        invariant
            all == quote_views(list@),
            quote_of(all, thscode@) == quote_of(all.skip(i as int), thscode@),
    {
        proof {
            assert(all.skip(i as int)[0] == list@[i as int]@);
            assert(all.skip(i as int).drop_first() =~= all.skip(i + 1));
        }
        if text_eq(list[i].thscode.as_str(), thscode) {
            return list[i].quote;
        }
    }
    Quote { snapshot_price: None, prev_close: None, days_since_first_bar: None }
}

/// A refusal in words, with the stock.
pub open spec fn refusal_text(code: Seq<char>, e: RejectView) -> Seq<char> {
    code + ": 订单被拒: "@ + e.message()
}

fn refusal_string(thscode: &str, e: &RejectReason) -> (r: String)
    requires
        e.fits(),
    ensures
        r@ == refusal_text(thscode@, e@),
{
    let mut out = thscode.to_owned();
    out.append(": 订单被拒: ");
    let message = e.message();
    out.append(message.as_str());
    assert(out@ =~= refusal_text(thscode@, e@));
    out
}

/// The books after a purchase, and why it was not made. The quantity of the order is what
/// the system allows, not what the model asked for.
pub open spec fn after_execute_buy(
    books: LedgerView,
    order: IntentView,
    quote: Quote,
    max_total_pct: int,
    initial_capital: Decimal,
    clock: Clock,
) -> (LedgerView, Option<Seq<char>>) {
    let sized = if quote.snapshot_price matches Some(p) && p > 0 {
        books.opened(initial_capital)
    } else {
        books
    };
    let q = size_of(
        books.opened(initial_capital),
        order.thscode,
        quote.snapshot_price,
        max_total_pct,
    );
    if q < 100 {
        (sized, Some(order.thscode + " 仓位不足一手"@))
    } else {
        let (after, r) = sim::after_submit_any(
            sized,
            IntentView { quantity: q as u32, ..order },
            quote,
            initial_capital,
            clock,
        );
        (
            after,
            match r {
                Ok(_) => None,
                Err(e) => Some(refusal_text(order.thscode, e)),
            },
        )
    }
}

pub open spec fn opt_text(s: Option<String>) -> Option<Seq<char>> {
    match s {
        Some(v) => Some(v@),
        None => None,
    }
}

/// Buys as much of a stock as the system allows; returns why it did not.
pub fn execute_buy(
    acct: &mut AccountDb,
    order: &OrderIntent,
    quote: &Quote,
    max_total_pct: Decimal,
    initial_capital: Decimal,
    clock: &Clock,
) -> (r: Option<String>)
    requires
        old(acct).wf(),
        decimal::money_ok(initial_capital as int),
        risk::ratio_ok(max_total_pct),
        quote.ok(),
    ensures
        final(acct).wf(),
        (final(acct)@, opt_text(r)) == after_execute_buy(
            old(acct)@,
            order@,
            *quote,
            max_total_pct as int,
            initial_capital,
            *clock,
        ),
{
    let qty = position_size(
        acct,
        order.thscode.as_str(),
        quote.snapshot_price,
        max_total_pct,
        initial_capital,
    );
    if qty < 100 {
        let mut out = order.thscode.clone();
        out.append(" 仓位不足一手");
        return Some(out);
    }
    let mut sized = order.clone();
    sized.quantity = qty;
    let broker = SimBroker::new(initial_capital);
    match broker.submit_any(acct, &sized, quote, clock) {
        Ok(_) => None,
        Err(e) => Some(refusal_string(sized.thscode.as_str(), &e)),
    }
}

/// The books after a list of sales was submitted one by one.
pub open spec fn after_sells(
    books: LedgerView,
    sells: Seq<IntentView>,
    quotes: Seq<QuoteRowView>,
    initial_capital: Decimal,
    clock: Clock,
) -> LedgerView
    decreases sells.len(),
{
    if sells.len() == 0 {
        books
    } else {
        let before = after_sells(books, sells.drop_last(), quotes, initial_capital, clock);
        let s = sells.last();
        sim::after_submit_any(
            before,
            s,
            quote_of(quotes, s.thscode),
            initial_capital,
            clock,
        ).0
    }
}

/// How many of a list of sales were filled.
pub open spec fn filled_sells(
    books: LedgerView,
    sells: Seq<IntentView>,
    quotes: Seq<QuoteRowView>,
    initial_capital: Decimal,
    clock: Clock,
) -> int
    decreases sells.len(),
{
    if sells.len() == 0 {
        0
    } else {
        let short = sells.drop_last();
        let s = sells.last();
        let before = after_sells(books, short, quotes, initial_capital, clock);
        filled_sells(books, short, quotes, initial_capital, clock) + if sim::after_submit_any(
            before,
            s,
            quote_of(quotes, s.thscode),
            initial_capital,
            clock,
        ).1 is Ok {
            1int
        } else {
            0int
        }
    }
}

/// Submits a list of sales one by one; a refused one does not stop the others. Returns how
/// many were filled.
pub fn execute_sells(
    acct: &mut AccountDb,
    sells: &Vec<OrderIntent>,
    quotes: &Vec<QuoteRow>,
    initial_capital: Decimal,
    clock: &Clock,
) -> (r: usize)
    requires
        old(acct).wf(),
    ensures
        final(acct).wf(),
        final(acct)@ == after_sells(
            old(acct)@,
            intent::intents(sells@),
            quote_views(quotes@),
            initial_capital,
            *clock,
        ),
        r == filled_sells(
            old(acct)@,
            intent::intents(sells@),
            quote_views(quotes@),
            initial_capital,
            *clock,
        ),
{
    let ghost all = intent::intents(sells@);
    let ghost start = acct@;
    let broker = SimBroker::new(initial_capital);
    let mut filled: usize = 0;
    assert(all.take(0) =~= Seq::empty());
    for i in 0..sells.len()
        invariant
            acct.wf(),
            broker.initial_capital == initial_capital,
            all == intent::intents(sells@),
            filled <= i,
            filled == filled_sells(
                start,
                all.take(i as int),
                quote_views(quotes@),
                initial_capital,
                *clock,
            ),
            acct@ == after_sells(
                start,
                all.take(i as int),
                quote_views(quotes@),
                initial_capital,
                *clock,
            ),
    {
        let s = &sells[i];
        proof {
            assert(all.take(i + 1).drop_last() =~= all.take(i as int));
            assert(all.take(i + 1).last() == s@);
        }
        let quote = find_quote(quotes, s.thscode.as_str());
        if broker.submit_any(acct, s, &quote, clock).is_ok() {
            filled = filled + 1;
        }
    }
    assert(all.take(all.len() as int) =~= all);
    filled
}

/// What came of the orders of a decision: how many were filled, and why the others were not.
pub struct Tally {
    pub filled: int,
    pub refusals: Seq<Seq<char>>,
}

/// The books and the tally after an order of a decision. Purchases are sized by the system,
/// sales are made as they are.
pub open spec fn after_order(
    books: LedgerView,
    tally: Tally,
    order: IntentView,
    quote: Quote,
    max_total_pct: int,
    initial_capital: Decimal,
    clock: Clock,
) -> (LedgerView, Tally) {
    let (after, refusal) = match order.side {
        OrderSide::Buy => if quote.ok() {
            after_execute_buy(books, order, quote, max_total_pct, initial_capital, clock)
        } else {
            (books, Some(refusal_text(order.thscode, RejectView::Other("数值超出可处理范围"@))))
        },
        OrderSide::Sell => {
            let (b, r) = sim::after_submit_any(books, order, quote, initial_capital, clock);
            (
                b,
                match r {
                    Ok(_) => None,
                    Err(e) => Some(refusal_text(order.thscode, e)),
                },
            )
        },
    };
    (
        after,
        match refusal {
            Some(s) => Tally { filled: tally.filled, refusals: tally.refusals.push(s) },
            None => Tally { filled: tally.filled + 1, refusals: tally.refusals },
        },
    )
}

/// The books and the tally after the orders of a decision.
pub open spec fn after_orders(
    books: LedgerView,
    orders: Seq<IntentView>,
    quotes: Seq<QuoteRowView>,
    max_total_pct: int,
    initial_capital: Decimal,
    clock: Clock,
) -> (LedgerView, Tally)
    decreases orders.len(),
{
    if orders.len() == 0 {
        (books, Tally { filled: 0, refusals: Seq::empty() })
    } else {
        let (before, tally) = after_orders(
            books,
            orders.drop_last(),
            quotes,
            max_total_pct,
            initial_capital,
            clock,
        );
        let order = orders.last();
        after_order(
            before,
            tally,
            order,
            quote_of(quotes, order.thscode),
            max_total_pct,
            initial_capital,
            clock,
        )
    }
}

/// The status of a decision once its orders were executed, and what is added to its note.
pub open spec fn execution_status(orders: int, tally: Tally) -> (Seq<char>, Option<Seq<char>>) {
    if orders > 0 && tally.refusals.len() == 0 {
        (
            "executed"@,
            Some(" [执行] 成交"@ + text::int_text(tally.filled) + "笔"@),
        )
    } else if tally.refusals.len() > 0 {
        (
            "rejected"@,
            Some(
                " [执行] 成交"@ + text::int_text(tally.filled) + "笔 拒单"@ + text::int_text(
                    tally.refusals.len() as int,
                ) + "笔: "@ + text::joined(tally.refusals, "; "@),
            ),
        )
    } else {
        ("executed"@, None)
    }
}

/// The decisions with the outcome of one of them written back.
pub open spec fn with_outcome(
    decisions: Seq<DecisionView>,
    id: i64,
    status: Seq<char>,
    suffix: Option<Seq<char>>,
) -> Seq<DecisionView> {
    Seq::new(
        decisions.len(),
        |i: int|
            if decisions[i].id == id {
                DecisionView {
                    status,
                    note: match suffix {
                        Some(s) => decisions[i].note + s,
                        None => decisions[i].note,
                    },
                    ..decisions[i]
                }
            } else {
                decisions[i]
            },
    )
}

/// The books after the orders of a decision were executed and, where the reply of the model
/// was read, the outcome was written back to the log.
pub open spec fn after_round(
    books: LedgerView,
    result: decision::ResultView,
    quotes: Seq<QuoteRowView>,
    max_total_pct: int,
    initial_capital: Decimal,
    clock: Clock,
) -> LedgerView {
    let (after, tally) = after_orders(
        books,
        result.intents,
        quotes,
        max_total_pct,
        initial_capital,
        clock,
    );
    if result.log_id > 0 && (result.status == "executed"@ || result.status == "hold"@) {
        let (status, suffix) = execution_status(result.intents.len() as int, tally);
        LedgerView {
            decisions: with_outcome(after.decisions, result.log_id, status, suffix),
            ..after
        }
    } else {
        after
    }
}

fn execute_order(
    acct: &mut AccountDb,
    order: &OrderIntent,
    quote: &Quote,
    max_total_pct: Decimal,
    initial_capital: Decimal,
    clock: &Clock,
    Ghost(tally): Ghost<Tally>,
) -> (r: Option<String>)
    requires
        old(acct).wf(),
        decimal::money_ok(initial_capital as int),
        risk::ratio_ok(max_total_pct),
    ensures
        final(acct).wf(),
        (
            final(acct)@,
            match opt_text(r) {
                Some(s) => Tally { filled: tally.filled, refusals: tally.refusals.push(s) },
                None => Tally { filled: tally.filled + 1, refusals: tally.refusals },
            },
        ) == after_order(
            old(acct)@,
            tally,
            order@,
            *quote,
            max_total_pct as int,
            initial_capital,
            *clock,
        ),
{
    match order.side {
        OrderSide::Buy => {
            if !quote_in_range(quote) {
                let e = RejectReason::Other("数值超出可处理范围".to_owned());
                return Some(refusal_string(order.thscode.as_str(), &e));
            }
            execute_buy(acct, order, quote, max_total_pct, initial_capital, clock)
        },
        OrderSide::Sell => {
            let broker = SimBroker::new(initial_capital);
            match broker.submit_any(acct, order, quote, clock) {
                Ok(_) => None,
                Err(e) => Some(refusal_string(order.thscode.as_str(), &e)),
            }
        },
    }
}

fn quote_in_range(quote: &Quote) -> (r: bool)
    ensures
        r == quote.ok(),
{
    let a = match quote.snapshot_price {
        Some(p) => -PRICE_MAX <= p && p <= PRICE_MAX,
        None => true,
    };
    let b = match quote.prev_close {
        Some(p) => -PRICE_MAX <= p && p <= PRICE_MAX,
        None => true,
    };
    a && b
}

/// Executes the orders of a decision, and writes the outcome back to the log.
#[verifier::rlimit(50)]
#[verifier::spinoff_prover]
pub fn finish_round(
    acct: &mut AccountDb,
    result: &DecisionResult,
    quotes: &Vec<QuoteRow>,
    max_total_pct: Decimal,
    initial_capital: Decimal,
    clock: &Clock,
)
    requires
        old(acct).wf(),
        decimal::money_ok(initial_capital as int),
        risk::ratio_ok(max_total_pct),
    ensures
        final(acct).wf(),
        final(acct)@ == after_round(
            old(acct)@,
            result@,
            quote_views(quotes@),
            max_total_pct as int,
            initial_capital,
            *clock,
        ),
{
    let ghost all = intent::intents(result.intents@);
    let ghost start = acct@;
    let mut filled: usize = 0;
    let mut rejects: Vec<String> = Vec::new();
    assert(all.take(0) =~= Seq::empty());
    assert(text::views(rejects@) =~= Seq::empty());
    for i in 0..result.intents.len()
        invariant
            acct.wf(),
            decimal::money_ok(initial_capital as int),
            risk::ratio_ok(max_total_pct),
            all == intent::intents(result.intents@),
            filled <= i,
            (acct@, Tally { filled: filled as int, refusals: text::views(rejects@) })
                == after_orders(
                start,
                all.take(i as int),
                quote_views(quotes@),
                max_total_pct as int,
                initial_capital,
                *clock,
            ),
    {
        let order = &result.intents[i];
        proof {
            assert(all.take(i + 1).drop_last() =~= all.take(i as int));
            assert(all.take(i + 1).last() == order@);
        }
        let quote = find_quote(quotes, order.thscode.as_str());
        let ghost before = text::views(rejects@);
        let ghost tally = Tally { filled: filled as int, refusals: before };
        match execute_order(
            acct,
            order,
            &quote,
            max_total_pct,
            initial_capital,
            clock,
            Ghost(tally),
        ) {
            Some(s) => {
                let ghost view = s@;
                rejects.push(s);
                assert(text::views(rejects@) =~= before.push(view));
            },
            None => {
                filled = filled + 1;
            },
        }
    }
    assert(all.take(all.len() as int) =~= all);
    let ghost after = acct@;
    let ghost tally = Tally { filled: filled as int, refusals: text::views(rejects@) };
    if result.log_id > 0 && (text_eq(result.status.as_str(), "executed") || text_eq(
        result.status.as_str(),
        "hold",
    )) {
        if result.intents.len() > 0 && rejects.len() == 0 {
            let mut note = String::new();
            note.append(" [执行] 成交");
            push_int(&mut note, filled as i128);
            note.append("笔");
            assert(note@ =~= " [执行] 成交"@ + text::int_text(filled as int) + "笔"@);
            acct.update_decision_status(result.log_id, "executed", Some(note.as_str()));
        } else if rejects.len() > 0 {
            let mut note = String::new();
            note.append(" [执行] 成交");
            push_int(&mut note, filled as i128);
            note.append("笔 拒单");
            push_int(&mut note, rejects.len() as i128);
            note.append("笔: ");
            let reasons = join_text(&rejects, "; ");
            note.append(reasons.as_str());
            assert(note@ =~= " [执行] 成交"@ + text::int_text(filled as int) + "笔 拒单"@
                + text::int_text(rejects@.len() as int) + "笔: "@ + text::joined(
                text::views(rejects@),
                "; "@,
            ));
            acct.update_decision_status(result.log_id, "rejected", Some(note.as_str()));
        } else {
            acct.update_decision_status(result.log_id, "executed", None);
        }
        proof {
            let (status, suffix) = execution_status(result.intents@.len() as int, tally);
            assert(acct@.decisions =~= with_outcome(
                after.decisions,
                result.log_id,
                status,
                suffix,
            ));
        }
    }
}

/// Why nothing is bought in a round.
pub open spec fn skip_reason(report: ReportView) -> Seq<char> {
    if !report.can_buy {
        "账户熔断/回撤中"@
    } else if report.regime == "risk-off"@ {
        "市场走弱(risk-off)，只减不买"@
    } else {
        "市场中性，暂不追买"@
    }
}

/// Whether a round ends before the model is asked: buying is stopped, or no position is
/// allowed.
pub open spec fn is_skipped(report: ReportView) -> bool {
    !report.can_buy || report.max_total_pct <= 0
}

/// How a round starts.
#[derive(Debug)]
pub enum RoundStart {
    /// The round is over; it is logged under this number.
    Skipped(i64),
    /// Ask the model; this is the largest total position.
    Proceed(Decimal),
}

/// The books and the risk control after the start of a round: the risk control is run, its
/// sales are made, and a round that is skipped is logged.
pub open spec fn after_start(
    manager: RiskManager,
    books: LedgerView,
    model: Seq<char>,
    market: MarketView,
    quotes: Seq<QuoteRowView>,
    initial_capital: Decimal,
    clock: Clock,
) -> (LedgerView, RiskManager, RoundStart) {
    let (assessed, next, report) = risk::assessed(manager, books, market, clock);
    let sold = after_sells(assessed, report.forced_sells, quotes, initial_capital, clock);
    if is_skipped(report) {
        let id = (sold.last_decision_id + 1) as i64;
        (
            decision::logged(
                sold,
                decision::log_entry(
                    model,
                    ""@,
                    ""@,
                    "[]"@,
                    "hold"@,
                    skip_reason(report) + "，当前持仓"@ + text::int_text(
                        books.positions.len() as int,
                    ) + "只"@,
                    clock.now_ms,
                    id,
                ),
            ),
            next,
            RoundStart::Skipped(id),
        )
    } else {
        (sold, next, RoundStart::Proceed(report.max_total_pct))
    }
}

/// Starts a round of decisions.
pub fn periodic_decision(
    manager: &mut RiskManager,
    acct: &mut AccountDb,
    engine: &DecisionEngine,
    market: &MarketState,
    quotes: &Vec<QuoteRow>,
    initial_capital: Decimal,
    clock: &Clock,
) -> (r: RoundStart)
    requires
        old(acct).wf(),
        risk::can_assess(*old(manager), old(acct)@, market@, *clock),
        old(acct)@.last_decision_id < i64::MAX,
    ensures
        final(acct).wf(),
        (final(acct)@, *final(manager), r) == after_start(
            *old(manager),
            old(acct)@,
            engine.config.model@,
            market@,
            quote_views(quotes@),
            initial_capital,
            *clock,
        ),
        r matches RoundStart::Proceed(pct) ==> risk::ratio_ok(pct),
{
    let report = manager.evaluate(acct, market, clock);
    let npos = acct.positions.len();
    proof {
        lemma_assessing_keeps(*old(manager), old(acct)@, market@, *clock);
        lemma_selling_keeps(
            acct@,
            intent::intents(report.forced_sells@),
            quote_views(quotes@),
            initial_capital,
            *clock,
        );
    }
    let _filled = execute_sells(acct, &report.forced_sells, quotes, initial_capital, clock);
    if !report.can_buy || report.max_total_pct <= 0 {
        let mut note = String::new();
        if !report.can_buy {
            note.append("账户熔断/回撤中");
        } else if text_eq(report.regime.as_str(), "risk-off") {
            note.append("市场走弱(risk-off)，只减不买");
        } else {
            note.append("市场中性，暂不追买");
        }
        assert(note@ =~= skip_reason(report@));
        note.append("，当前持仓");
        push_int(&mut note, npos as i128);
        note.append("只");
        assert(note@ =~= skip_reason(report@) + "，当前持仓"@ + text::int_text(npos as int) + "只"@);
        let id = engine.log_skip(acct, "hold", note.as_str(), clock.now_ms);
        return RoundStart::Skipped(id);
    }
    RoundStart::Proceed(report.max_total_pct)
}

proof fn lemma_assessing_keeps(
    manager: RiskManager,
    books: LedgerView,
    market: MarketView,
    clock: Clock,
)
    requires
        manager.config.ok(),
    ensures
        ({
            let (after, next, report) = risk::assessed(manager, books, market, clock);
            &&& after.positions == books.positions
            &&& after.last_decision_id == books.last_decision_id
            &&& risk::ratio_ok(report.max_total_pct)
        }),
{
    let cfg = manager.config;
    let opened = books.opened(0);
    let total = risk::asset_of(opened, market);
    let (with_peak, peak) = risk::after_peak(opened, manager.peak_cache as int, total);
    let (with_fuse, can_buy, fuse_note) = risk::after_fuse(
        with_peak,
        peak,
        total,
        cfg,
        clock.now_ms,
    );
    lemma_checking_keeps(books.positions, with_fuse, market, cfg, clock.now_ms);
}

proof fn lemma_checking_keeps(
    positions: Seq<PositionView>,
    books: LedgerView,
    market: MarketView,
    cfg: RiskConfig,
    now_ms: i64,
)
    ensures
        ({
            let after = risk::after_checks(positions, books, market, cfg, now_ms).0;
            after.positions == books.positions && after.last_decision_id == books.last_decision_id
        }),
    decreases positions.len(),
{
    if positions.len() > 0 {
        lemma_checking_keeps(positions.drop_last(), books, market, cfg, now_ms);
    }
}

proof fn lemma_selling_keeps(
    books: LedgerView,
    sells: Seq<IntentView>,
    quotes: Seq<QuoteRowView>,
    initial_capital: Decimal,
    clock: Clock,
)
    ensures
        after_sells(books, sells, quotes, initial_capital, clock).last_decision_id
            == books.last_decision_id,
    decreases sells.len(),
{
    if sells.len() > 0 {
        lemma_selling_keeps(books, sells.drop_last(), quotes, initial_capital, clock);
    }
}

/// Runs the risk control and makes its sales.
pub fn intraday_risk(
    manager: &mut RiskManager,
    acct: &mut AccountDb,
    market: &MarketState,
    quotes: &Vec<QuoteRow>,
    initial_capital: Decimal,
    clock: &Clock,
) -> (r: RiskReport)
    requires
        old(acct).wf(),
        risk::can_assess(*old(manager), old(acct)@, market@, *clock),
    ensures
        final(acct).wf(),
        ({
            let (assessed, next, report) = risk::assessed(
                *old(manager),
                old(acct)@,
                market@,
                *clock,
            );
            &&& *final(manager) == next
            &&& r@ == report
            &&& final(acct)@ == after_sells(
                assessed,
                report.forced_sells,
                quote_views(quotes@),
                initial_capital,
                *clock,
            )
        }),
{
    let report = manager.evaluate(acct, market, clock);
    let _filled = execute_sells(acct, &report.forced_sells, quotes, initial_capital, clock);
    report
}

/// Whether books have all trades of earlier ones, and beyond them only sales.
pub open spec fn only_sold(before: LedgerView, after: LedgerView) -> bool {
    &&& before.trades.len() <= after.trades.len()
    &&& after.trades.take(before.trades.len() as int) == before.trades
    &&& forall|i: int|
        before.trades.len() <= i < after.trades.len() ==> (#[trigger] after.trades[i]).side
            == OrderSide::Sell
}

/// Whether books have all trades of earlier ones, and beyond them only trades of a decision.
pub open spec fn only_traded_for(before: LedgerView, after: LedgerView, id: i64) -> bool {
    &&& before.trades.len() <= after.trades.len()
    &&& after.trades.take(before.trades.len() as int) == before.trades
    &&& forall|i: int|
        before.trades.len() <= i < after.trades.len() ==> (#[trigger] after.trades[i]).decision_id
            == Some(id)
}

proof fn lemma_sells_only_sell(
    books: LedgerView,
    sells: Seq<IntentView>,
    quotes: Seq<QuoteRowView>,
    initial_capital: Decimal,
    clock: Clock,
)
    requires
        forall|i: int| 0 <= i < sells.len() ==> (#[trigger] sells[i]).side == OrderSide::Sell,
    ensures
        only_sold(books, after_sells(books, sells, quotes, initial_capital, clock)),
    decreases sells.len(),
{
    let n = books.trades.len() as int;
    if sells.len() == 0 {
        assert(books.trades.take(n) =~= books.trades);
    } else {
        let short = sells.drop_last();
        assert forall|i: int| 0 <= i < short.len() implies (#[trigger] short[i]).side
            == OrderSide::Sell by {
            assert(short[i] == sells[i]);
        }
        lemma_sells_only_sell(books, short, quotes, initial_capital, clock);
        let before = after_sells(books, short, quotes, initial_capital, clock);
        let after = after_sells(books, sells, quotes, initial_capital, clock);
        let s = sells[sells.len() - 1];
        assert(s.side == OrderSide::Sell);
        assert(after.trades == before.trades || after.trades.drop_last() == before.trades
            && after.trades.len() == before.trades.len() + 1 && after.trades.last().side
            == OrderSide::Sell) by {
            if after.trades != before.trades {
                assert(after.trades.drop_last() =~= before.trades);
            }
        }
        assert(after.trades.take(n) =~= before.trades.take(n));
        assert forall|i: int| n <= i < after.trades.len() implies (#[trigger] after.trades[i]).side
            == OrderSide::Sell by {
            if i < before.trades.len() {
                assert(after.trades[i] == before.trades[i]);
            }
        }
    }
}

/// Until the model is asked, a round only sells: the risk control makes no purchase, whatever
/// it finds, and a round in which buying is stopped ends there.
pub proof fn rounds_sell_before_they_buy(
    manager: RiskManager,
    books: LedgerView,
    model: Seq<char>,
    market: MarketView,
    quotes: Seq<QuoteRowView>,
    initial_capital: Decimal,
    clock: Clock,
)
    ensures
        ({
            let (after, next, start) = after_start(
                manager,
                books,
                model,
                market,
                quotes,
                initial_capital,
                clock,
            );
            let report = risk::assessed(manager, books, market, clock).2;
            &&& only_sold(books, after)
            &&& !report.can_buy ==> start is Skipped
        }),
{
    risk::risk_control_orders_only_sales(manager, books, market, clock);
    let (assessed, next, report) = risk::assessed(manager, books, market, clock);
    lemma_sells_only_sell(assessed, report.forced_sells, quotes, initial_capital, clock);
}

proof fn lemma_orders_trade_for(
    books: LedgerView,
    orders: Seq<IntentView>,
    quotes: Seq<QuoteRowView>,
    max_total_pct: int,
    initial_capital: Decimal,
    clock: Clock,
    id: i64,
)
    requires
        forall|i: int| 0 <= i < orders.len() ==> (#[trigger] orders[i]).decision_id == Some(id),
    ensures
        only_traded_for(
            books,
            after_orders(books, orders, quotes, max_total_pct, initial_capital, clock).0,
            id,
        ),
    decreases orders.len(),
{
    let n = books.trades.len() as int;
    if orders.len() == 0 {
        assert(books.trades.take(n) =~= books.trades);
    } else {
        let short = orders.drop_last();
        assert forall|i: int| 0 <= i < short.len() implies (#[trigger] short[i]).decision_id
            == Some(id) by {
            assert(short[i] == orders[i]);
        }
        lemma_orders_trade_for(books, short, quotes, max_total_pct, initial_capital, clock, id);
        let before = after_orders(
            books,
            short,
            quotes,
            max_total_pct,
            initial_capital,
            clock,
        ).0;
        let after = after_orders(
            books,
            orders,
            quotes,
            max_total_pct,
            initial_capital,
            clock,
        ).0;
        let order = orders[orders.len() - 1];
        assert(order.decision_id == Some(id));
        assert(after.trades == before.trades || after.trades.drop_last() == before.trades
            && after.trades.len() == before.trades.len() + 1 && after.trades.last().decision_id
            == Some(id)) by {
            if after.trades != before.trades {
                assert(after.trades.drop_last() =~= before.trades);
            }
        }
        assert(after.trades.take(n) =~= before.trades.take(n));
        assert forall|i: int| n <= i < after.trades.len() implies (
        #[trigger] after.trades[i]).decision_id == Some(id) by {
            if i < before.trades.len() {
                assert(after.trades[i] == before.trades[i]);
            }
        }
    }
}

/// Every trade that comes of a reply of the model carries the number of the logged decision.
pub proof fn trades_carry_their_decision(
    books: LedgerView,
    result: decision::ResultView,
    quotes: Seq<QuoteRowView>,
    max_total_pct: int,
    initial_capital: Decimal,
    clock: Clock,
)
    requires
        forall|i: int|
            0 <= i < result.intents.len() ==> (#[trigger] result.intents[i]).decision_id == Some(
                result.log_id,
            ),
    ensures
        only_traded_for(
            books,
            after_round(books, result, quotes, max_total_pct, initial_capital, clock),
            result.log_id,
        ),
{
    lemma_orders_trade_for(
        books,
        result.intents,
        quotes,
        max_total_pct,
        initial_capital,
        clock,
        result.log_id,
    );
}

/// The books with the value of the account recorded, the positions at cost.
pub open spec fn after_snapshot(books: LedgerView, initial_capital: Decimal, now_ms: i64) -> LedgerView {
    let opened = books.opened(initial_capital);
    let a = opened.account->0;
    let id = (books.last_snapshot_id + 1) as i64;
    LedgerView {
        snapshots: opened.snapshots.push(
            account::AccountSnapshot {
                id,
                ts_ms: now_ms,
                cash: a.cash,
                market_value: ledger::cost_value(books.positions) as Decimal,
                total_asset: (a.cash + ledger::cost_value(books.positions)) as Decimal,
            },
        ),
        last_snapshot_id: id,
        ..opened
    }
}

/// Records the value of the account, with the positions at cost; returns the number of the
/// record.
pub fn snapshot_account(acct: &mut AccountDb, initial_capital: Decimal, now_ms: i64) -> (r: i64)
    requires
        old(acct).wf(),
        decimal::money_ok(initial_capital as int),
        old(acct).last_snapshot_id < i64::MAX,
    ensures
        final(acct).wf(),
        r == old(acct).last_snapshot_id + 1,
        ({
            let opened = old(acct)@.opened(initial_capital);
            let a = opened.account->0;
            let total = opened.asset_at_cost(a);
            final(acct)@ == (LedgerView {
                snapshots: opened.snapshots.push(
                    account::AccountSnapshot {
                        id: r,
                        ts_ms: now_ms,
                        cash: a.cash,
                        market_value: (total - a.cash) as Decimal,
                        total_asset: total as Decimal,
                    },
                ),
                last_snapshot_id: r,
                ..opened
            })
        }),
        final(acct)@ == after_snapshot(old(acct)@, initial_capital, now_ms),
{
    let account = acct.get_or_init_account(initial_capital);
    let total = acct.total_asset_estimate(&account);
    acct.insert_account_snapshot(now_ms, account.cash, total - account.cash, total)
}


/// The price against which a trade is held: the latest, or else its own.
pub open spec fn price_now(t: TradeView, market: MarketView) -> int {
    match market.last_price(t.thscode) {
        Some(p) => p as int,
        None => t.price as int,
    }
}

/// What a trade has gained since: for a sale, what it has saved.
pub open spec fn trade_gain(t: TradeView, market: MarketView) -> int {
    let gain = (price_now(t, market) - t.price) * t.quantity;
    match t.side {
        OrderSide::Buy => gain,
        OrderSide::Sell => -gain,
    }
}

/// What all trades of a list have gained.
pub open spec fn total_gain(trades: Seq<TradeView>, market: MarketView) -> int
    decreases trades.len(),
{
    if trades.len() == 0 {
        0
    } else {
        total_gain(trades.drop_last(), market) + trade_gain(trades.last(), market)
    }
}

/// The verdict on a trade: it was right where it did not lose.
pub open spec fn trade_verdict(t: TradeView, market: MarketView) -> Seq<char> {
    if trade_gain(t, market) >= 0 {
        "对"@
    } else {
        "错"@
    }
}

/// A trade under review in words.
pub open spec fn review_text(t: TradeView, market: MarketView) -> Seq<char> {
    t.side.text() + " "@ + t.thscode + " @ "@ + text::decimal_text(t.price as int, 2, false)
        + " → 现价 "@ + text::decimal_text(price_now(t, market), 2, false) + " 浮动 "@
        + text::decimal_text(trade_gain(t, market), 0, true) + "元 判断【"@ + trade_verdict(
        t,
        market,
    ) + "】"@
}

/// Whether a decision is to be reviewed so many days after it: it is that old, it was not
/// reviewed yet, and it led to trades.
pub open spec fn wants_review(books: LedgerView, d: DecisionView, days: u32, now_ms: i64) -> bool {
    &&& !ledger::is_reviewed(books.reviews, d.id, days)
    &&& risk::days_between(d.ts_ms, now_ms) >= days
    &&& ledger::trades_of(books.trades, d.id).len() > 0
}

/// The books after a decision was looked at for a review so many days after it.
pub open spec fn after_review(
    books: LedgerView,
    d: DecisionView,
    days: u32,
    market: MarketView,
    now_ms: i64,
) -> LedgerView {
    if !wants_review(books, d, days, now_ms) {
        books
    } else {
        let trades = ledger::earliest_trades(ledger::trades_of(books.trades, d.id));
        LedgerView {
            reviews: books.reviews.push(
                StoredReviewView {
                    ts_ms: now_ms,
                    row: account::ReviewView {
                        decision_id: d.id,
                        days_after: days,
                        summary: text::joined(
                            Seq::new(trades.len(), |i: int| review_text(trades[i], market)),
                            "; "@,
                        ),
                        pnl: total_gain(trades, market) as Decimal,
                    },
                },
            ),
            last_review_id: (books.last_review_id + 1) as i64,
            ..books
        }
    }
}

/// The books after decisions were looked at for reviews 1, 5 and 10 days after them.
pub open spec fn after_reviews(
    books: LedgerView,
    decisions: Seq<DecisionView>,
    market: MarketView,
    now_ms: i64,
) -> LedgerView
    decreases decisions.len(),
{
    if decisions.len() == 0 {
        books
    } else {
        let before = after_reviews(books, decisions.drop_last(), market, now_ms);
        let d = decisions.last();
        let one = after_review(before, d, 1, market, now_ms);
        let five = after_review(one, d, 5, market, now_ms);
        after_review(five, d, 10, market, now_ms)
    }
}

/// What a trade has gained is in range.
pub proof fn lemma_trade_gain(t: TradeView, market: MarketView)
    requires
        market.ok(),
        decimal::price_ok(t.price as int),
    ensures
        decimal::price_ok(price_now(t, market)),
        -2 * risk::value_max() <= trade_gain(t, market) <= 2 * risk::value_max(),
        (price_now(t, market) - t.price) * t.quantity == price_now(t, market) * t.quantity
            - t.price * t.quantity,
{
    risk::lemma_last_price_ok(market, t.thscode);
    let now = price_now(t, market);
    risk::lemma_product(now, t.quantity as int);
    risk::lemma_product(t.price as int, t.quantity as int);
    assert((now - t.price) * t.quantity == now * t.quantity - t.price * t.quantity)
        by (nonlinear_arith);
}

fn review_trades(trades: &Vec<RecentTrade>, market: &MarketState) -> (r: (Vec<String>, Decimal))
    requires
        market@.ok(),
        trades@.len() <= MAX_ROWS,
        forall|i: int| 0 <= i < trades@.len() ==> decimal::price_ok(#[trigger] trades@[i].price as int),
    ensures
        text::views(r.0@) == Seq::new(
            trades@.len(),
            |i: int| review_text(account::trade_views(trades@)[i], market@),
        ),
        r.1 == total_gain(account::trade_views(trades@), market@),
        decimal::money_ok(r.1 as int),
{
    let ghost ts = account::trade_views(trades@);
    let mut lines: Vec<String> = Vec::new();
    let mut total: i128 = 0;
    assert(ts.take(0) =~= Seq::empty());
    for i in 0..trades.len()
        invariant
            market@.ok(),
            trades@.len() <= MAX_ROWS,
            ts == account::trade_views(trades@),
            forall|j: int|
                0 <= j < trades@.len() ==> decimal::price_ok(#[trigger] trades@[j].price as int),
            lines@.len() == i,
            forall|j: int|
                0 <= j < i ==> (#[trigger] lines@[j])@ == review_text(ts[j], market@),
            total == total_gain(ts.take(i as int), market@),
            -i * (2 * risk::value_max()) <= total <= i * (2 * risk::value_max()),
    {
        let t = &trades[i];
        proof {
            assert(ts.take(i + 1).drop_last() =~= ts.take(i as int));
            assert(ts.take(i + 1).last() == t@);
            lemma_trade_gain(t@, market@);
            let v = 2 * risk::value_max();
            assert((i + 1) * v == i * v + v) by (nonlinear_arith);
            assert(-(i + 1) * v == -i * v - v) by (nonlinear_arith);
            lemma_gain_bound(i + 1);
        }
        let cur = match market.latest_snapshot_price(t.thscode.as_str()) {
            Some(p) => p,
            None => t.price,
        };
        let raw: i128 = (cur - t.price) * t.quantity as i128;
        let diff: i128 = if t.side == OrderSide::Sell {
            -raw
        } else {
            raw
        };
        total = total + diff;
        let right = diff >= 0;
        let mut line = t.side.as_str().to_owned();
        line.append(" ");
        line.append(t.thscode.as_str());
        line.append(" @ ");
        push_decimal(&mut line, t.price, 2, false);
        line.append(" → 现价 ");
        push_decimal(&mut line, cur, 2, false);
        line.append(" 浮动 ");
        push_decimal(&mut line, diff, 0, true);
        line.append("元 判断【");
        if right {
            line.append("对");
        } else {
            line.append("错");
        }
        line.append("】");
        assert(line@ =~= review_text(t@, market@));
        lines.push(line);
    }
    proof {
        assert(ts.take(ts.len() as int) =~= ts);
        lemma_gain_bound(ts.len() as int);
        assert(text::views(lines@) =~= Seq::new(ts.len(), |i: int| review_text(ts[i], market@)));
    }
    (lines, total)
}

proof fn lemma_gain_bound(n: int)
    requires
        0 <= n <= MAX_ROWS,
    ensures
        -MONEY_MAX <= -n * (2 * risk::value_max()),
        n * (2 * risk::value_max()) <= MONEY_MAX,
{
    assert(-MONEY_MAX <= -n * (2 * risk::value_max()) && n * (2 * risk::value_max()) <= MONEY_MAX)
        by (nonlinear_arith)
        requires
            0 <= n <= 100_000,
            risk::value_max() == 4_294_967_295_000_000_000_000_000,
            MONEY_MAX == 1_000_000_000_000_000_000_000_000_000_000,
    ;
}

fn review_decision(
    acct: &mut AccountDb,
    d: &DecisionLog,
    days: u32,
    market: &MarketState,
    now_ms: i64,
)
    requires
        old(acct).wf(),
        market@.ok(),
        old(acct)@.trades.len() <= MAX_ROWS,
        old(acct)@.last_review_id < i64::MAX,
    ensures
        final(acct).wf(),
        final(acct)@ == after_review(old(acct)@, d@, days, market@, now_ms),
        final(acct)@.trades == old(acct)@.trades,
        final(acct)@.last_review_id <= old(acct)@.last_review_id + 1,
{
    if acct.review_exists(d.id, days) {
        return ;
    }
    if risk::whole_days(d.ts_ms, now_ms) < days as i128 {
        return ;
    }
    let trades = acct.trades_for_decision(d.id);
    let ghost of = ledger::trades_of(acct@.trades, d.id);
    proof {
        ledger::lemma_trades_of(acct@, d.id);
        assert(account::trade_views(trades@).len() == trades@.len());
        assert forall|i: int| 0 <= i < trades@.len() implies decimal::price_ok(
            #[trigger] trades@[i].price as int,
        ) by {
            assert(account::trade_views(trades@)[i].price == trades@[i].price);
            assert(decimal::price_ok(
                ledger::earliest_trades(of)[i].price as int,
            ));
        }
    }
    if trades.len() == 0 {
        return ;
    }
    let (lines, pnl) = review_trades(&trades, market);
    let summary = join_text(&lines, "; ");
    let _id = acct.insert_review(d.id, days, summary.as_str(), pnl, now_ms);
}

/// The books after the latest fifty decisions were looked at for reviews.
pub open spec fn after_all_reviews(books: LedgerView, market: MarketView, now_ms: i64) -> LedgerView {
    after_reviews(books, ledger::latest_decisions(books.decisions, 50), market, now_ms)
}

/// Reviews the latest fifty decisions 1, 5 and 10 days after them.
pub fn review_old_decisions(acct: &mut AccountDb, market: &MarketState, now_ms: i64)
    requires
        old(acct).wf(),
        market@.ok(),
        old(acct)@.trades.len() <= MAX_ROWS,
        old(acct)@.last_review_id < i64::MAX - 150,
    ensures
        final(acct).wf(),
        final(acct)@ == after_reviews(
            old(acct)@,
            ledger::latest_decisions(old(acct)@.decisions, 50),
            market@,
            now_ms,
        ),
        final(acct)@ == after_all_reviews(old(acct)@, market@, now_ms),
{
    let decisions = acct.recent_decision_logs(50);
    let ghost ds = account::decision_views(decisions@);
    let ghost start = acct@;
    assert(ds.take(0) =~= Seq::empty());
    assert(ds.len() == decisions@.len());
    assert(decisions@.len() <= 50);
    for i in 0..decisions.len()
        invariant
            acct.wf(),
            market@.ok(),
            decisions@.len() <= 50,
            ds == account::decision_views(decisions@),
            acct@.trades == start.trades,
            start.trades.len() <= MAX_ROWS,
            start.last_review_id < i64::MAX - 150,
            acct@.last_review_id <= start.last_review_id + 3 * i,
            acct@ == after_reviews(start, ds.take(i as int), market@, now_ms),
    {
        proof {
            assert(ds.take(i + 1).drop_last() =~= ds.take(i as int));
            assert(ds.take(i + 1).last() == decisions@[i as int]@);
        }
        review_decision(acct, &decisions[i], 1, market, now_ms);
        review_decision(acct, &decisions[i], 5, market, now_ms);
        review_decision(acct, &decisions[i], 10, market, now_ms);
    }
    assert(ds.take(ds.len() as int) =~= ds);
}

/// A decision is reviewed once for each of the days: what has been reviewed is not reviewed
/// again.
pub proof fn reviews_are_made_once(
    books: LedgerView,
    d: DecisionView,
    days: u32,
    market: MarketView,
    now_ms: i64,
    later_market: MarketView,
    later_ms: i64,
)
    ensures
        ({
            let after = after_review(books, d, days, market, now_ms);
            after != books ==> after_review(after, d, days, later_market, later_ms) == after
        }),
{
    let after = after_review(books, d, days, market, now_ms);
    if after != books {
        assert(after.reviews[books.reviews.len() as int].row.decision_id == d.id);
    }
}

/// Whether a name is in a list.
pub open spec fn has_name(list: Seq<Seq<char>>, name: Seq<char>) -> bool {
    exists|i: int| 0 <= i < list.len() && #[trigger] list[i] == name
}

/// The names of one list that are not in another.
pub open spec fn names_missing(list: Seq<Seq<char>>, other: Seq<Seq<char>>) -> Seq<Seq<char>>
    decreases list.len(),
{
    if list.len() == 0 {
        Seq::empty()
    } else {
        let before = names_missing(list.drop_last(), other);
        if has_name(other, list.last()) {
            before
        } else {
            before.push(list.last())
        }
    }
}

fn is_in(list: &Vec<String>, name: &str) -> (r: bool)
    ensures
        r == has_name(text::views(list@), name@),
{
    for i in 0..list.len()
        invariant
            forall|j: int| 0 <= j < i ==> #[trigger] text::views(list@)[j] != name@,
    {
        if text_eq(list[i].as_str(), name) {
            assert(text::views(list@)[i as int] == name@);
            return true;
        }
    }
    false
}

fn missing_names(list: &Vec<String>, other: &Vec<String>) -> (r: Vec<String>)
    ensures
        text::views(r@) == names_missing(text::views(list@), text::views(other@)),
{
    let ghost all = text::views(list@);
    let mut out: Vec<String> = Vec::new();
    assert(all.take(0) =~= Seq::empty());
    assert(text::views(out@) =~= Seq::empty());
    for i in 0..list.len()
        invariant
            all == text::views(list@),
            text::views(out@) == names_missing(all.take(i as int), text::views(other@)),
    {
        proof {
            assert(all.take(i + 1).drop_last() =~= all.take(i as int));
            assert(all.take(i + 1).last() == list@[i as int]@);
        }
        if !is_in(other, list[i].as_str()) {
            let ghost before = text::views(out@);
            out.push(list[i].clone());
            assert(text::views(out@) =~= before.push(list@[i as int]@));
        }
    }
    assert(all.take(all.len() as int) =~= all);
    out
}

/// Which accounts are to be started and which are to be stopped.
#[derive(Debug)]
pub struct Supervision {
    pub start: Vec<String>,
    pub stop: Vec<String>,
}

/// Compares the accounts on disk with those that run.
pub fn account_supervisor(names: &Vec<String>, running: &Vec<String>) -> (r: Supervision)
    ensures
        text::views(r.start@) == names_missing(text::views(names@), text::views(running@)),
        text::views(r.stop@) == names_missing(text::views(running@), text::views(names@)),
{
    Supervision { start: missing_names(names, running), stop: missing_names(running, names) }
}

/// An account is started where it is on disk and does not run, and nothing else is.
pub proof fn the_supervisor_starts_what_is_new(
    list: Seq<Seq<char>>,
    other: Seq<Seq<char>>,
    name: Seq<char>,
)
    ensures
        has_name(names_missing(list, other), name) <==> has_name(list, name) && !has_name(
            other,
            name,
        ),
    decreases list.len(),
{
    if list.len() > 0 {
        let short = list.drop_last();
        the_supervisor_starts_what_is_new(short, other, name);
        let before = names_missing(short, other);
        let all = names_missing(list, other);
        if has_name(short, name) {
            let i = choose|i: int| 0 <= i < short.len() && short[i] == name;
            assert(list[i] == name);
        }
        if has_name(before, name) {
            let i = choose|i: int| 0 <= i < before.len() && before[i] == name;
            assert(all[i] == name);
        }
        if has_name(all, name) {
            let i = choose|i: int| 0 <= i < all.len() && all[i] == name;
            if i < before.len() {
                assert(before[i] == name);
            } else {
                assert(list[list.len() - 1] == name);
            }
        }
        if has_name(list, name) && !has_name(other, name) {
            let i = choose|i: int| 0 <= i < list.len() && list[i] == name;
            if i < short.len() {
                assert(short[i] == name);
            } else {
                assert(all[before.len() as int] == name);
            }
        }
    }
}

} // verus!
