//! Laws of the scheduler: what is due when, how many shares a purchase takes, and what becomes
//! of the orders of a decision.

use vstd::prelude::*;

use crate::account::{DecisionView, PositionView};
use crate::decimal;
use crate::decimal::{Decimal, UNIT};
use crate::decision;
use crate::intent::{IntentView, OrderSide};
use crate::ledger;
use crate::ledger::LedgerView;
use crate::number;
use crate::risk;
use crate::risk::{MarketView, RiskConfig, RiskManager};
use crate::scheduler;
use crate::scheduler::{AccountState, CollectorState, QuoteRowView, RoundStart, Tally};
use crate::sim;
use crate::sim::{Clock, Quote};
use crate::text;

verus! {

/// On a workday, corporate actions are due from 9:00 on, the risk control from 9:30 to 15:00,
/// and the review of the day from 15:05 on. In the hours of the market the model is asked at
/// 9:35, 11:25 and 14:55, and whenever the interval has passed.
pub proof fn accounts_keep_hours(
    state: AccountState,
    weekday_iso: u32,
    hour: u32,
    minute: u32,
    unix_minute: i64,
    today: Seq<char>,
    interval: u64,
)
    requires
        1 <= weekday_iso <= 5,
        hour < 24,
        minute < 60,
        interval <= i64::MAX,
    ensures
        ({
            let m = (hour * 60 + minute) as u32;
            let open = (hour == 9 && minute >= 30) || 10 <= hour <= 14;
            let fixed = (hour == 9 && minute == 35) || (hour == 11 && minute == 25) || (hour == 14
                && minute == 55);
            &&& state.wants_adjust(weekday_iso, m, today) <==> hour >= 9 && today
                != state.last_adjust_date@
            &&& state.wants_risk(weekday_iso, m) <==> open
            &&& state.wants_decision(weekday_iso, m, unix_minute, interval) <==> open && (fixed
                || unix_minute - state.last_decision_min >= interval)
            &&& state.wants_close(weekday_iso, m) <==> !state.closed_today && (hour >= 16 || (hour
                == 15 && minute >= 5))
        }),
{
}

/// Corporate actions are applied once a date, a day is reviewed once, and until the interval
/// has passed the model is asked again at the fixed times only. In the early hours of a
/// workday the review becomes due again.
pub proof fn accounts_do_things_once(
    before: AccountState,
    next: AccountState,
    weekday_iso: u32,
    minute: u32,
    unix_minute: i64,
    today: Seq<char>,
    interval: u64,
    later_weekday: u32,
    later_minute: u32,
    later_unix: i64,
    later_interval: u64,
)
    requires
        before.moves_on_to(next, weekday_iso, minute, unix_minute, today, interval),
        1 <= weekday_iso <= 5,
        later_interval <= i64::MAX,
    ensures
        before.wants_adjust(weekday_iso, minute, today) ==> !next.wants_adjust(
            later_weekday,
            later_minute,
            today,
        ),
        before.wants_close(weekday_iso, minute) ==> !next.wants_close(later_weekday, later_minute),
        before.closed_today && minute >= 540 ==> !next.wants_close(later_weekday, later_minute),
        minute < 540 && 1 <= later_weekday <= 5 && later_minute >= 905 ==> next.wants_close(
            later_weekday,
            later_minute,
        ),
        before.wants_decision(weekday_iso, minute, unix_minute, interval) && next.wants_decision(
            later_weekday,
            later_minute,
            later_unix,
            later_interval,
        ) ==> later_minute == 575 || later_minute == 685 || later_minute == 895 || later_unix
            - unix_minute >= later_interval,
{
}

/// The collector prepares from 9:00 to 9:15, once; on a trading day it collects from 9:30 to
/// 15:00 whenever the interval has passed, and from 15:30 on fetches the bars of the day, once.
pub proof fn the_collector_keeps_hours(
    state: CollectorState,
    weekday_iso: u32,
    hour: u32,
    minute: u32,
    unix_minute: i64,
    trading_day: bool,
    interval_minutes: u64,
)
    requires
        1 <= weekday_iso <= 5,
        hour < 24,
        minute < 60,
        interval_minutes <= 1_000_000,
    ensures
        ({
            let m = (hour * 60 + minute) as u32;
            &&& state.wants_pre_open(weekday_iso, m) <==> hour == 9 && minute < 15
                && !state.pre_open_done
            &&& state.wants_snapshot(
                weekday_iso,
                m,
                unix_minute,
                trading_day,
                (interval_minutes * 60) as u64,
            ) <==> trading_day && ((hour == 9 && minute >= 30) || 10 <= hour <= 14) && unix_minute
                - state.last_collect >= interval_minutes
            &&& state.wants_bars(weekday_iso, m, trading_day) <==> trading_day && (hour >= 16 || (
            hour == 15 && minute >= 30)) && !state.after_close_synced
        }),
{
}

/// What the collector did is not done again on the same day: the preparation and the bars
/// until the next early hours of a workday, and a collection until the interval has passed.
pub proof fn the_collector_does_things_once(
    state: CollectorState,
    weekday_iso: u32,
    minute: u32,
    unix_minute: i64,
    trading_day: bool,
    interval: u64,
    later_weekday: u32,
    later_minute: u32,
    later_unix: i64,
    later_interval: u64,
)
    requires
        1 <= weekday_iso <= 5,
        later_interval <= i64::MAX,
    ensures
        ({
            let next = state.after_minute(weekday_iso, minute, unix_minute, trading_day, interval);
            let prepared = state.after_pre_open(weekday_iso, minute);
            &&& state.wants_pre_open(weekday_iso, minute) ==> !prepared.wants_pre_open(
                later_weekday,
                later_minute,
            )
            &&& state.wants_bars(weekday_iso, minute, trading_day) ==> !next.wants_bars(
                later_weekday,
                later_minute,
                true,
            )
            &&& minute >= 540 && state.pre_open_done ==> !next.wants_pre_open(
                later_weekday,
                later_minute,
            )
            &&& minute < 540 ==> !next.pre_open_done && !next.after_close_synced
            &&& state.wants_snapshot(weekday_iso, minute, unix_minute, trading_day, interval)
                && next.wants_snapshot(
                later_weekday,
                later_minute,
                later_unix,
                true,
                later_interval,
            ) ==> (later_unix - unix_minute) * 60 > later_interval - 60
        }),
{
}

/// A purchase takes as many lots as the limits allow: a hundred shares more would cost more
/// than the cash, more than a fifth of the total assets, or more than is left of the total
/// position that is allowed.
pub proof fn purchases_use_the_budget(
    books: LedgerView,
    code: Seq<char>,
    price: Decimal,
    max_total_pct: int,
)
    requires
        price > 0,
        books.positions.len() < 3 || ledger::held(books.positions, code) is Some,
        scheduler::size_of(books, code, Some(price), max_total_pct) < 4_294_967_200,
    ensures
        ({
            let q = scheduler::size_of(books, code, Some(price), max_total_pct);
            let cash = books.account->0.cash as int;
            let held = ledger::cost_value(books.positions);
            let cost = (q + 100) * price;
            ||| cost > cash
            ||| 5 * cost > cash + held
            ||| (held + cost) * UNIT > max_total_pct * (cash + held)
        }),
{
    let q = scheduler::size_of(books, code, Some(price), max_total_pct);
    let cash = books.account->0.cash as int;
    let held = ledger::cost_value(books.positions);
    let total = cash + held;
    let b = scheduler::budget(total, held, cash, max_total_pct);
    let d = price * UNIT * 100;
    let cost = (q + 100) * price;
    assert(d > 0);
    assert(cost * UNIT > b) by {
        if b <= 0 {
            assert(q == 0);
            assert(cost * UNIT > 0) by (nonlinear_arith)
                requires
                    cost == (q + 100) * price,
                    q == 0,
                    price > 0,
                    UNIT > 0,
            ;
        } else {
            let lots = b / d;
            vstd::arithmetic::div_mod::lemma_fundamental_div_mod(b, d);
            vstd::arithmetic::div_mod::lemma_mod_bound(b, d);
            assert(q == lots * 100);
            assert(cost * UNIT == d * lots + d) by (nonlinear_arith)
                requires
                    cost == (q + 100) * price,
                    q == lots * 100,
                    d == price * UNIT * 100,
            ;
        }
    }
    assert(5 * cost > total <==> cost * UNIT > total * scheduler::SINGLE_MAX_PCT);
    assert((held + cost) * UNIT == UNIT * held + cost * UNIT) by (nonlinear_arith);
    assert(cost * UNIT > 0) by (nonlinear_arith)
        requires
            cost == (q + 100) * price,
            q >= 0,
            price > 0,
            UNIT > 0,
    ;
}

/// No more of a stock without a price is bought, nor of a fourth stock.
pub proof fn some_purchases_are_of_nothing(
    books: LedgerView,
    code: Seq<char>,
    price: Option<Decimal>,
    max_total_pct: int,
)
    requires
        price is None || price->0 <= 0 || (books.positions.len() >= 3 && ledger::held(
            books.positions,
            code,
        ) is None),
    ensures
        scheduler::size_of(books, code, price, max_total_pct) == 0,
{
}

/// A purchase of a decision is made with the number of shares that the system allows, whatever
/// the model asked for, and is otherwise the order of the decision; it is filled exactly where
/// nothing speaks against it.
pub proof fn purchases_are_sized_by_the_system(
    books: LedgerView,
    order: IntentView,
    quote: Quote,
    max_total_pct: int,
    initial_capital: Decimal,
    clock: Clock,
)
    requires
        order.side == OrderSide::Buy,
        books.account is Some,
        scheduler::size_of(books, order.thscode, quote.snapshot_price, max_total_pct) <= u32::MAX,
    ensures
        ({
            let (after, refusal) = scheduler::after_execute_buy(
                books,
                order,
                quote,
                max_total_pct,
                initial_capital,
                clock,
            );
            let q = scheduler::size_of(books, order.thscode, quote.snapshot_price, max_total_pct);
            &&& refusal is None <==> after.trades.len() == books.trades.len() + 1
            &&& refusal is Some ==> after == books
            &&& q < 100 ==> refusal is Some
            &&& refusal is None ==> {
                let t = after.trades.last();
                &&& t.quantity == q
                &&& t.thscode == order.thscode
                &&& t.side == OrderSide::Buy
                &&& t.decision_id == order.decision_id
                &&& t.ts_ms == clock.now_ms
                &&& quote.snapshot_price matches Some(p) && t.price == p
            }
        }),
{
    let q = scheduler::size_of(books, order.thscode, quote.snapshot_price, max_total_pct);
    assert(books.opened(initial_capital) == books);
    let (after, refusal) = scheduler::after_execute_buy(
        books,
        order,
        quote,
        max_total_pct,
        initial_capital,
        clock,
    );
    if q >= 100 {
        sim::refused_orders_change_nothing(
            books,
            IntentView { quantity: q as u32, ..order },
            quote,
            initial_capital,
            clock,
        );
    }
}

/// Each order of a decision is filled or refused: the fills and the refusals are as many as the
/// orders, and the fills are as many as the trades that were added.
pub proof fn every_order_is_filled_or_refused(
    books: LedgerView,
    orders: Seq<IntentView>,
    quotes: Seq<QuoteRowView>,
    max_total_pct: int,
    initial_capital: Decimal,
    clock: Clock,
)
    ensures
        ({
            let (after, tally) = scheduler::after_orders(
                books,
                orders,
                quotes,
                max_total_pct,
                initial_capital,
                clock,
            );
            &&& tally.filled + tally.refusals.len() == orders.len()
            &&& tally.filled == after.trades.len() - books.trades.len()
            &&& after.decisions == books.decisions
            &&& after.reviews == books.reviews
        }),
    decreases orders.len(),
{
    if orders.len() > 0 {
        let short = orders.drop_last();
        every_order_is_filled_or_refused(
            books,
            short,
            quotes,
            max_total_pct,
            initial_capital,
            clock,
        );
    }
}

/// Sales are counted as filled where they added a trade; orders that were refused change
/// nothing.
pub proof fn filled_sales_are_counted(
    books: LedgerView,
    sells: Seq<IntentView>,
    quotes: Seq<QuoteRowView>,
    initial_capital: Decimal,
    clock: Clock,
)
    ensures
        scheduler::filled_sells(books, sells, quotes, initial_capital, clock)
            == scheduler::after_sells(books, sells, quotes, initial_capital, clock).trades.len()
            - books.trades.len(),
    decreases sells.len(),
{
    if sells.len() > 0 {
        filled_sales_are_counted(books, sells.drop_last(), quotes, initial_capital, clock);
    }
}

/// A decision whose orders were all filled, or that has none, is executed; one with a refusal
/// is rejected.
pub proof fn a_refusal_rejects_the_decision(orders: int, tally: Tally)
    requires
        orders >= 0,
    ensures
        tally.refusals.len() > 0 ==> scheduler::execution_status(orders, tally).0 == "rejected"@,
        tally.refusals.len() == 0 ==> scheduler::execution_status(orders, tally).0 == "executed"@,
        scheduler::execution_status(orders, tally).1 is None <==> orders == 0
            && tally.refusals.len() == 0,
{
}

/// The outcome of a decision changes its status and adds to its note; all else of it, and all
/// other decisions, stay.
pub proof fn outcomes_change_one_decision(
    decisions: Seq<DecisionView>,
    id: i64,
    status: Seq<char>,
    suffix: Option<Seq<char>>,
    i: int,
)
    requires
        0 <= i < decisions.len(),
    ensures
        ({
            let after = scheduler::with_outcome(decisions, id, status, suffix);
            &&& after.len() == decisions.len()
            &&& decisions[i].id != id ==> after[i] == decisions[i]
            &&& decisions[i].id == id ==> after[i].status == status
            &&& decisions[i].id == id && suffix is None ==> after[i].note == decisions[i].note
            &&& decisions[i].id == id && suffix is Some ==> after[i].note == decisions[i].note
                + suffix->0
            &&& after[i].id == decisions[i].id
            &&& after[i].ts_ms == decisions[i].ts_ms
            &&& after[i].model == decisions[i].model
        }),
{
}

/// A round in which buying is stopped or no position is allowed ends before the model is asked
/// and is logged as a hold under a new number; any other round goes on with the position that
/// the risk control allows, and logs nothing yet.
pub proof fn stopped_rounds_are_logged(
    manager: RiskManager,
    books: LedgerView,
    model: Seq<char>,
    market: MarketView,
    quotes: Seq<QuoteRowView>,
    initial_capital: Decimal,
    clock: Clock,
)
    requires
        books.last_decision_id < i64::MAX,
    ensures
        ({
            let report = risk::assessed(manager, books, market, clock).2;
            let (after, next, start) = scheduler::after_start(
                manager,
                books,
                model,
                market,
                quotes,
                initial_capital,
                clock,
            );
            let stopped = !report.can_buy || report.max_total_pct <= 0;
            &&& next == risk::assessed(manager, books, market, clock).1
            &&& !stopped ==> start == RoundStart::Proceed(report.max_total_pct) && after.decisions
                == books.decisions
            &&& stopped ==> {
                let id = (books.last_decision_id + 1) as i64;
                &&& start == RoundStart::Skipped(id)
                &&& after.decisions.len() == books.decisions.len() + 1
                &&& after.decisions.last().id == id
                &&& after.decisions.last().status == "hold"@
                &&& after.decisions.last().model == model
                &&& after.decisions.last().ts_ms == clock.now_ms
            }
        }),
{
    let (assessed, next, report) = risk::assessed(manager, books, market, clock);
    lemma_assessing_logs_nothing(manager, books, market, clock);
    lemma_selling_logs_nothing(assessed, report.forced_sells, quotes, initial_capital, clock);
}

proof fn lemma_selling_logs_nothing(
    books: LedgerView,
    sells: Seq<IntentView>,
    quotes: Seq<QuoteRowView>,
    initial_capital: Decimal,
    clock: Clock,
)
    ensures
        ({
            let after = scheduler::after_sells(books, sells, quotes, initial_capital, clock);
            after.decisions == books.decisions && after.last_decision_id == books.last_decision_id
        }),
    decreases sells.len(),
{
    if sells.len() > 0 {
        lemma_selling_logs_nothing(books, sells.drop_last(), quotes, initial_capital, clock);
    }
}

proof fn lemma_assessing_logs_nothing(
    manager: RiskManager,
    books: LedgerView,
    market: MarketView,
    clock: Clock,
)
    ensures
        ({
            let after = risk::assessed(manager, books, market, clock).0;
            after.decisions == books.decisions && after.last_decision_id == books.last_decision_id
        }),
{
    let cfg = manager.config;
    let opened = books.opened(0);
    let total = risk::asset_of(opened, market);
    let (with_peak, peak) = risk::after_peak(opened, manager.peak_cache as int, total);
    let (with_fuse, _, _) = risk::after_fuse(with_peak, peak, total, cfg, clock.now_ms);
    lemma_checks_log_nothing(books.positions, with_fuse, market, cfg, clock.now_ms);
}

proof fn lemma_checks_log_nothing(
    positions: Seq<PositionView>,
    books: LedgerView,
    market: MarketView,
    cfg: RiskConfig,
    now_ms: i64,
)
    ensures
        ({
            let after = risk::after_checks(positions, books, market, cfg, now_ms).0;
            after.decisions == books.decisions && after.last_decision_id == books.last_decision_id
        }),
    decreases positions.len(),
{
    if positions.len() > 0 {
        lemma_checks_log_nothing(positions.drop_last(), books, market, cfg, now_ms);
    }
}

/// The value of the account that is recorded is its cash and its positions at cost.
pub proof fn recorded_values_add_up(books: LedgerView, initial_capital: Decimal, now_ms: i64)
    requires
        books.account is Some,
        -decimal::MONEY_MAX <= ledger::cost_value(books.positions)
            <= decimal::MONEY_MAX,
        decimal::money_ok(books.account->0.cash as int),
        books.last_snapshot_id < i64::MAX,
    ensures
        ({
            let after = scheduler::after_snapshot(books, initial_capital, now_ms);
            let s = after.snapshots.last();
            &&& after.snapshots.len() == books.snapshots.len() + 1
            &&& after.snapshots.drop_last() == books.snapshots
            &&& s.cash == books.account->0.cash
            &&& s.market_value == ledger::cost_value(books.positions)
            &&& s.total_asset == s.cash + s.market_value
            &&& s.ts_ms == now_ms
            &&& s.id == books.last_snapshot_id + 1
            &&& after.account == books.account
            &&& after.positions == books.positions
        }),
{
    let after = scheduler::after_snapshot(books, initial_capital, now_ms);
    assert(after.snapshots.drop_last() =~= books.snapshots);
}

/// The minutes between decisions are those of the setting, or 30 where there is none or it is
/// no number.
pub proof fn decisions_come_every_half_hour(books: LedgerView)
    ensures
        books.setting("decision_interval_minutes"@) is None ==> scheduler::interval_of(books) == 30,
        books.setting("decision_interval_minutes"@) matches Some(s) ==> scheduler::interval_of(books)
            == match number::u64_of(s) {
            Some(n) => n,
            None => 30,
        },
{
}

/// A count is the whole part of a number, and never less than one.
pub proof fn counts_are_whole(d: int)
    requires
        d <= 1_000_000_000_000_000,
    ensures
        scheduler::count_of(d) >= 1,
        d >= 1_000_000 ==> scheduler::count_of(d) * 1_000_000 <= d < (scheduler::count_of(d) + 1)
            * 1_000_000,
        d < 2_000_000 ==> scheduler::count_of(d) == 1,
{
}

/// The stocks of a watch list have neither blanks around them nor empty names.
pub proof fn watched_names_are_clean(pieces: Seq<Seq<char>>, i: int)
    requires
        0 <= i < scheduler::clean_names(pieces).len(),
    ensures
        scheduler::clean_names(pieces)[i].len() > 0,
        exists|k: int|
            0 <= k < pieces.len() && scheduler::clean_names(pieces)[i] == text::trimmed(
                #[trigger] pieces[k],
            ),
    decreases pieces.len(),
{
    let rest = pieces.drop_last();
    let before = scheduler::clean_names(rest);
    if i < before.len() {
        watched_names_are_clean(rest, i);
        let k = choose|k: int|
            0 <= k < rest.len() && before[i] == text::trimmed(#[trigger] rest[k]);
        assert(pieces[k] == rest[k]);
    } else {
        assert(pieces[pieces.len() - 1] == pieces.last());
    }
}

/// The quote of a stock is that of the first row with its code.
pub proof fn order_quotes_are_found(list: Seq<QuoteRowView>, code: Seq<char>, k: int)
    requires
        0 <= k < list.len(),
        list[k].thscode == code,
        forall|j: int| 0 <= j < k ==> (#[trigger] list[j]).thscode != code,
    ensures
        scheduler::quote_of(list, code) == list[k].quote,
    decreases list.len(),
{
    if k > 0 {
        let rest = list.drop_first();
        assert(list[0].thscode != code);
        assert forall|j: int| 0 <= j < k - 1 implies (#[trigger] rest[j]).thscode != code by {
            assert(rest[j] == list[j + 1]);
        }
        order_quotes_are_found(rest, code, k - 1);
    }
}

/// The outcome of a round is written back exactly where the reply of the model was read: after
/// an error, or without a number, the decisions stay as they are.
pub proof fn outcomes_are_written_for_replies(
    books: LedgerView,
    result: decision::ResultView,
    quotes: Seq<QuoteRowView>,
    max_total_pct: int,
    initial_capital: Decimal,
    clock: Clock,
    i: int,
)
    requires
        0 <= i < books.decisions.len(),
    ensures
        ({
            let after = scheduler::after_round(
                books,
                result,
                quotes,
                max_total_pct,
                initial_capital,
                clock,
            );
            let read = result.log_id > 0 && (result.status == "executed"@ || result.status
                == "hold"@);
            &&& after.decisions.len() == books.decisions.len()
            &&& !read || books.decisions[i].id != result.log_id ==> after.decisions[i]
                == books.decisions[i]
            &&& read && books.decisions[i].id == result.log_id ==> {
                let filled = after.trades.len() - books.trades.len();
                after.decisions[i].status == if filled == result.intents.len() {
                    "executed"@
                } else {
                    "rejected"@
                }
            }
        }),
{
    every_order_is_filled_or_refused(
        books,
        result.intents,
        quotes,
        max_total_pct,
        initial_capital,
        clock,
    );
}

/// The stocks of a watch list are the names between its commas that are not blank, in their
/// order: a further name behind a comma is added at the end.
pub proof fn watch_lists_are_separated_by_commas(s: Seq<char>, name: Seq<char>)
    requires
        !name.contains(','),
    ensures
        ({
            let before = scheduler::watchlist_of(s);
            let after = scheduler::watchlist_of(s + seq![','] + name);
            let clean = text::trimmed(name);
            after == if clean.len() == 0 {
                before
            } else {
                before.push(clean)
            }
        }),
{
    let whole = s + seq![','] + name;
    let pieces = text::split_at_char(s, ',');
    lemma_split_behind(s, name);
    let all = text::split_at_char(whole, ',');
    assert(all.drop_last() =~= pieces);
    assert(all.last() == name);
}

proof fn lemma_split_behind(s: Seq<char>, name: Seq<char>)
    requires
        !name.contains(','),
    ensures
        text::split_at_char(s + seq![','] + name, ',') == text::split_at_char(s, ',').push(name),
    decreases name.len(),
{
    let whole = s + seq![','] + name;
    let pieces = text::split_at_char(s, ',');
    if name.len() == 0 {
        assert(whole.drop_last() =~= s);
        assert(whole.last() == ',');
        assert(name =~= Seq::empty());
    } else {
        let short = name.drop_last();
        assert(!short.contains(',')) by {
            if short.contains(',') {
                let k = choose|k: int| 0 <= k < short.len() && short[k] == ',';
                assert(name[k] == ',');
            }
        }
        lemma_split_behind(s, short);
        assert(whole.drop_last() =~= s + seq![','] + short);
        assert(whole.last() == name.last());
        assert(name.last() != ',') by {
            assert(name[name.len() - 1] == name.last());
        }
        let before = pieces.push(short);
        assert(text::split_at_char(whole, ',') =~= before.update(
            before.len() - 1,
            short.push(name.last()),
        ));
        assert(short.push(name.last()) =~= name);
        assert(text::split_at_char(whole, ',') =~= pieces.push(name));
    }
}

} // verus!
