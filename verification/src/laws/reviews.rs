//! Laws of the reviews: which decisions are reviewed, when, and what result is written.

use vstd::prelude::*;

use crate::account::{DecisionView, TradeView};
use crate::decimal;
use crate::intent::OrderSide;
use crate::laws::books;
use crate::ledger;
use crate::ledger::{LedgerView, MAX_ROWS};
use crate::order;
use crate::order::Fraction;
use crate::risk;
use crate::risk::MarketView;
use crate::scheduler;

verus! {

/// The latest price of a stock times a quantity, less the price of the trade times the same:
/// what a purchase has gained and a sale has missed.
pub open spec fn moved(t: TradeView, market: MarketView) -> int {
    match market.last_price(t.thscode) {
        Some(latest) => (latest - t.price) * t.quantity,
        None => 0,
    }
}

/// The sum over the trades of a decision: what the price has moved since for each purchase,
/// and the negative of it for each sale.
pub open spec fn result_of(trades: Seq<TradeView>, id: i64, market: MarketView) -> int
    decreases trades.len(),
{
    if trades.len() == 0 {
        0
    } else {
        let t = trades[0];
        let rest = result_of(trades.drop_first(), id, market);
        if t.decision_id != Some(id) {
            rest
        } else if t.side == OrderSide::Buy {
            moved(t, market) + rest
        } else {
            rest - moved(t, market)
        }
    }
}

/// A review of a decision is written exactly where the decision is old enough, has trades and
/// was not reviewed for these days; its result is the sum over the trades of the decision of
/// the latest price less the price of the trade, times the quantity, and the negative of that
/// for sales.
pub proof fn reviews_sum_up_the_trades(
    books: LedgerView,
    d: DecisionView,
    days: u32,
    market: MarketView,
    now_ms: i64,
)
    requires
        books.ok(),
        market.ok(),
        books.trades.len() <= MAX_ROWS,
    ensures
        ({
            let after = scheduler::after_review(books, d, days, market, now_ms);
            let old_enough = now_ms - d.ts_ms >= days * 86_400_000;
            let traded = exists|i: int|
                0 <= i < books.trades.len() && (#[trigger] books.trades[i]).decision_id == Some(
                    d.id,
                );
            let reviewed = exists|i: int|
                0 <= i < books.reviews.len() && (#[trigger] books.reviews[i]).row.decision_id
                    == d.id && books.reviews[i].row.days_after == days;
            if days > 0 && old_enough && traded && !reviewed {
                &&& after.reviews.len() == books.reviews.len() + 1
                &&& after.reviews.drop_last() == books.reviews
                &&& after.reviews.last().ts_ms == now_ms
                &&& after.reviews.last().row.decision_id == d.id
                &&& after.reviews.last().row.days_after == days
                &&& after.reviews.last().row.pnl == result_of(books.trades, d.id, market)
            } else {
                days > 0 ==> after == books
            }
        }),
{
    lemma_result(books, d.id, market);
    let of = ledger::trades_of(books.trades, d.id);
    let traded = exists|i: int|
        0 <= i < books.trades.len() && (#[trigger] books.trades[i]).decision_id == Some(d.id);
    lemma_traded(books.trades, d.id);
    let span = now_ms - d.ts_ms;
    assert(days > 0 ==> (risk::days_between(d.ts_ms, now_ms) >= days <==> span >= days
        * 86_400_000)) by (nonlinear_arith)
        requires
            span == now_ms - d.ts_ms,
            span >= 0 ==> risk::days_between(d.ts_ms, now_ms) == span / 86_400_000,
            span < 0 ==> risk::days_between(d.ts_ms, now_ms) == -((-span) / 86_400_000),
    ;
    let after = scheduler::after_review(books, d, days, market, now_ms);
    if scheduler::wants_review(books, d, days, now_ms) {
        assert(after.reviews.drop_last() =~= books.reviews);
    }
}

proof fn lemma_traded(trades: Seq<TradeView>, id: i64)
    ensures
        ledger::trades_of(trades, id).len() > 0 <==> exists|i: int|
            0 <= i < trades.len() && (#[trigger] trades[i]).decision_id == Some(id),
    decreases trades.len(),
{
    if trades.len() > 0 {
        let rest = trades.drop_last();
        let n = trades.len() - 1;
        lemma_traded(rest, id);
        if ledger::trades_of(rest, id).len() > 0 {
            let i = choose|i: int|
                0 <= i < rest.len() && (#[trigger] rest[i]).decision_id == Some(id);
            assert(trades[i].decision_id == Some(id));
        }
        if exists|i: int| 0 <= i < trades.len() && (#[trigger] trades[i]).decision_id == Some(id) {
            let i = choose|i: int|
                0 <= i < trades.len() && (#[trigger] trades[i]).decision_id == Some(id);
            if i < n {
                assert(rest[i].decision_id == Some(id));
            }
        }
    }
}

/// The result of a decision with a single trade, a purchase, is the latest price less the
/// price paid, times the quantity; of a single sale the negative.
pub proof fn a_single_trade_is_the_result(
    books: LedgerView,
    d: DecisionView,
    days: u32,
    market: MarketView,
    now_ms: i64,
    i: int,
    latest: int,
)
    requires
        books.ok(),
        market.ok(),
        books.trades.len() <= MAX_ROWS,
        0 <= i < books.trades.len(),
        books.trades[i].decision_id == Some(d.id),
        forall|j: int|
            0 <= j < books.trades.len() && j != i ==> (#[trigger] books.trades[j]).decision_id
                != Some(d.id),
        market.last_price(books.trades[i].thscode) matches Some(v) && v == latest,
        scheduler::after_review(books, d, days, market, now_ms) != books,
    ensures
        ({
            let t = books.trades[i];
            let pnl = scheduler::after_review(books, d, days, market, now_ms).reviews.last().row.pnl;
            &&& t.side == OrderSide::Buy ==> pnl == (latest - t.price) * t.quantity
            &&& t.side == OrderSide::Sell ==> pnl == (t.price - latest) * t.quantity
        }),
{
    lemma_result(books, d.id, market);
    lemma_single(books.trades, d.id, market, i);
    let t = books.trades[i];
    assert((t.price - latest) * t.quantity == -((latest - t.price) * t.quantity))
        by (nonlinear_arith);
}

proof fn lemma_single(trades: Seq<TradeView>, id: i64, market: MarketView, i: int)
    requires
        0 <= i < trades.len(),
        trades[i].decision_id == Some(id),
        forall|j: int|
            0 <= j < trades.len() && j != i ==> (#[trigger] trades[j]).decision_id != Some(id),
    ensures
        result_of(trades, id, market) == if trades[i].side == OrderSide::Buy {
            moved(trades[i], market)
        } else {
            -moved(trades[i], market)
        },
    decreases trades.len(),
{
    let rest = trades.drop_first();
    assert forall|j: int| 0 <= j < rest.len() && j != i - 1 implies (
    #[trigger] rest[j]).decision_id != Some(id) by {
        assert(rest[j] == trades[j + 1]);
    }
    if i > 0 {
        assert(trades[0].decision_id != Some(id));
        assert(rest[i - 1] == trades[i]);
        lemma_single(rest, id, market, i - 1);
    } else {
        lemma_none(rest, id, market);
    }
}

proof fn lemma_none(trades: Seq<TradeView>, id: i64, market: MarketView)
    requires
        forall|j: int| 0 <= j < trades.len() ==> (#[trigger] trades[j]).decision_id != Some(id),
    ensures
        result_of(trades, id, market) == 0,
    decreases trades.len(),
{
    if trades.len() > 0 {
        let rest = trades.drop_first();
        assert forall|j: int| 0 <= j < rest.len() implies (#[trigger] rest[j]).decision_id != Some(
            id,
        ) by {
            assert(rest[j] == trades[j + 1]);
        }
        lemma_none(rest, id, market);
    }
}

/// The gains at some places of a list.
spec fn gains_at(trades: Seq<TradeView>, places: Seq<int>, market: MarketView) -> int
    decreases places.len(),
{
    if places.len() == 0 {
        0
    } else {
        gains_at(trades, places.drop_last(), market) + scheduler::trade_gain(
            trades[places.last()],
            market,
        )
    }
}

proof fn lemma_gains_placed(
    trades: Seq<TradeView>,
    keys: Seq<Fraction>,
    o: Seq<int>,
    i: int,
    market: MarketView,
)
    ensures
        gains_at(trades, order::placed(keys, o, i), market) == gains_at(trades, o, market)
            + scheduler::trade_gain(trades[i], market),
    decreases o.len(),
{
    let r = order::placed(keys, o, i);
    if o.len() == 0 || !keys[i].below(keys[o.last()]) {
        assert(r.drop_last() =~= o);
    } else {
        lemma_gains_placed(trades, keys, o.drop_last(), i, market);
        assert(r.drop_last() =~= order::placed(keys, o.drop_last(), i));
    }
}

proof fn lemma_gains_arranged(
    trades: Seq<TradeView>,
    keys: Seq<Fraction>,
    n: nat,
    market: MarketView,
)
    requires
        n <= trades.len(),
    ensures
        gains_at(trades, order::arranged_first(keys, n), market) == scheduler::total_gain(
            trades.take(n as int),
            market,
        ),
    decreases n,
{
    if n > 0 {
        let m = (n - 1) as nat;
        lemma_gains_arranged(trades, keys, m, market);
        lemma_gains_placed(trades, keys, order::arranged_first(keys, m), n - 1, market);
        assert(trades.take(n as int).drop_last() =~= trades.take(m as int));
    }
}

proof fn lemma_gains_picked(trades: Seq<TradeView>, places: Seq<int>, market: MarketView, n: int)
    requires
        0 <= n <= places.len(),
    ensures
        scheduler::total_gain(Seq::new(n as nat, |i: int| trades[places[i]]), market) == gains_at(
            trades,
            places.take(n),
            market,
        ),
    decreases n,
{
    if n > 0 {
        lemma_gains_picked(trades, places, market, n - 1);
        let all = Seq::new(n as nat, |i: int| trades[places[i]]);
        assert(all.drop_last() =~= Seq::new((n - 1) as nat, |i: int| trades[places[i]]));
        assert(places.take(n).drop_last() =~= places.take(n - 1));
    }
}

proof fn lemma_gains_ordered(trades: Seq<TradeView>, market: MarketView)
    ensures
        scheduler::total_gain(ledger::earliest_trades(trades), market) == scheduler::total_gain(
            trades,
            market,
        ),
{
    let keys = Seq::new(trades.len(), |i: int| Fraction::whole(trades[i].ts_ms as i128));
    let o = order::arranged(keys);
    order::lemma_arranged_in_range(keys, trades.len());
    lemma_gains_arranged(trades, keys, trades.len(), market);
    lemma_gains_picked(trades, o, market, o.len() as int);
    assert(trades.take(trades.len() as int) =~= trades);
    assert(o.take(o.len() as int) =~= o);
    assert(ledger::earliest_trades(trades) =~= Seq::new(o.len(), |i: int| trades[o[i]]));
}

proof fn lemma_result_last(trades: Seq<TradeView>, t: TradeView, id: i64, market: MarketView)
    ensures
        result_of(trades.push(t), id, market) == result_of(trades, id, market) + result_of(
            seq![t],
            id,
            market,
        ),
    decreases trades.len(),
{
    if trades.len() == 0 {
        assert(trades.push(t) =~= seq![t]);
    } else {
        lemma_result_last(trades.drop_first(), t, id, market);
        assert(trades.push(t).drop_first() =~= trades.drop_first().push(t));
    }
}

proof fn lemma_result_of(trades: Seq<TradeView>, id: i64, market: MarketView)
    ensures
        scheduler::total_gain(ledger::trades_of(trades, id), market) == result_of(
            trades,
            id,
            market,
        ),
    decreases trades.len(),
{
    if trades.len() > 0 {
        let rest = trades.drop_last();
        let t = trades.last();
        lemma_result_of(rest, id, market);
        lemma_result_last(rest, t, id, market);
        assert(rest.push(t) =~= trades);
        assert(seq![t].drop_first() =~= Seq::empty());
        assert(result_of(Seq::empty(), id, market) == 0);
        let before = ledger::trades_of(rest, id);
        assert(before.push(t).drop_last() =~= before);
        if market.last_price(t.thscode) is None {
            assert((t.price - t.price) * t.quantity == 0) by (nonlinear_arith);
        }
    }
}

proof fn lemma_result(books: LedgerView, id: i64, market: MarketView)
    requires
        books.ok(),
        market.ok(),
        books.trades.len() <= MAX_ROWS,
    ensures
        ({
            let trades = ledger::earliest_trades(ledger::trades_of(books.trades, id));
            &&& scheduler::total_gain(trades, market) == result_of(books.trades, id, market)
            &&& scheduler::total_gain(trades, market) as decimal::Decimal == scheduler::total_gain(
                trades,
                market,
            )
        }),
{
    let of = ledger::trades_of(books.trades, id);
    let trades = ledger::earliest_trades(of);
    lemma_gains_ordered(of, market);
    lemma_result_of(books.trades, id, market);
    ledger::lemma_trades_of(books, id);
    lemma_gain_fits(trades, market, trades.len() as int);
    assert(trades.take(trades.len() as int) =~= trades);
    let n = trades.len() as int;
    let most = 2 * risk::value_max();
    assert(n * most <= 100_000 * most) by (nonlinear_arith)
        requires
            n <= 100_000,
            most >= 0,
    ;
}

proof fn lemma_gain_fits(trades: Seq<TradeView>, market: MarketView, n: int)
    requires
        market.ok(),
        0 <= n <= trades.len(),
        forall|i: int| 0 <= i < trades.len() ==> decimal::price_ok((#[trigger] trades[i]).price as int),
    ensures
        -(n * (2 * risk::value_max())) <= scheduler::total_gain(trades.take(n), market) <= n * (2
            * risk::value_max()),
    decreases n,
{
    if n > 0 {
        lemma_gain_fits(trades, market, n - 1);
        assert(trades.take(n).drop_last() =~= trades.take(n - 1));
        assert(decimal::price_ok(trades[n - 1].price as int));
        scheduler::lemma_trade_gain(trades[n - 1], market);
        let most = 2 * risk::value_max();
        assert(n * most == (n - 1) * most + most) by (nonlinear_arith);
    }
}

/// Looking at the decisions writes reviews for 1, 5 and 10 days and no others; each carries
/// the result of its decision, and the trades stay as they are.
pub proof fn every_review_carries_its_result(
    books: LedgerView,
    decisions: Seq<DecisionView>,
    market: MarketView,
    now_ms: i64,
    k: int,
)
    requires
        books.ok(),
        market.ok(),
        books.trades.len() <= MAX_ROWS,
        books.reviews.len() <= k < scheduler::after_reviews(
            books,
            decisions,
            market,
            now_ms,
        ).reviews.len(),
    ensures
        ({
            let after = scheduler::after_reviews(books, decisions, market, now_ms);
            let row = after.reviews[k].row;
            &&& row.pnl == result_of(books.trades, row.decision_id, market)
            &&& row.days_after == 1 || row.days_after == 5 || row.days_after == 10
            &&& after.reviews[k].ts_ms == now_ms
            &&& exists|i: int|
                0 <= i < decisions.len() && (#[trigger] decisions[i]).id == row.decision_id
                    && now_ms - decisions[i].ts_ms >= row.days_after * 86_400_000
        }),
    decreases decisions.len(),
{
    lemma_reviews_keep(books, decisions, market, now_ms);
    if decisions.len() > 0 {
        let rest = decisions.drop_last();
        let d = decisions.last();
        let n = decisions.len() - 1;
        lemma_reviews_keep(books, rest, market, now_ms);
        let before = scheduler::after_reviews(books, rest, market, now_ms);
        let one = scheduler::after_review(before, d, 1, market, now_ms);
        let five = scheduler::after_review(one, d, 5, market, now_ms);
        let ten = scheduler::after_review(five, d, 10, market, now_ms);
        assert(decisions[n].id == d.id);
        lemma_result(books, d.id, market);
        if k < before.reviews.len() {
            every_review_carries_its_result(books, rest, market, now_ms, k);
            let row = before.reviews[k].row;
            let i = choose|i: int|
                0 <= i < rest.len() && (#[trigger] rest[i]).id == row.decision_id && now_ms
                    - rest[i].ts_ms >= row.days_after * 86_400_000;
            assert(decisions[i] == rest[i]);
            assert(ten.reviews[k] == before.reviews[k]);
        } else {
            let row = ten.reviews[k].row;
            assert(row.decision_id == d.id);
            assert(risk::days_between(d.ts_ms, now_ms) >= row.days_after);
            assert(now_ms - d.ts_ms >= row.days_after * 86_400_000);
        }
    }
}

proof fn lemma_reviews_keep(
    books: LedgerView,
    decisions: Seq<DecisionView>,
    market: MarketView,
    now_ms: i64,
)
    ensures
        ({
            let after = scheduler::after_reviews(books, decisions, market, now_ms);
            &&& after.trades == books.trades
            &&& after.reviews.len() >= books.reviews.len()
            &&& after.reviews.take(books.reviews.len() as int) == books.reviews
        }),
    decreases decisions.len(),
{
    let after = scheduler::after_reviews(books, decisions, market, now_ms);
    if decisions.len() == 0 {
        assert(after.reviews.take(books.reviews.len() as int) =~= books.reviews);
    } else {
        let rest = decisions.drop_last();
        lemma_reviews_keep(books, rest, market, now_ms);
        let before = scheduler::after_reviews(books, rest, market, now_ms);
        assert forall|i: int| 0 <= i < books.reviews.len() implies after.reviews[i]
            == books.reviews[i] by {
            assert(before.reviews.take(books.reviews.len() as int)[i] == before.reviews[i]);
        }
        assert(after.reviews.take(books.reviews.len() as int) =~= books.reviews);
    }
}

/// A trade counts as right exactly where it did not lose: a purchase whose price has not fallen
/// since, or a sale whose price has not risen.
pub proof fn a_trade_is_right_where_it_did_not_lose(t: TradeView, market: MarketView, latest: int)
    requires
        market.last_price(t.thscode) matches Some(v) && v == latest,
        t.quantity > 0,
    ensures
        t.side == OrderSide::Buy ==> (scheduler::trade_verdict(t, market) == "对"@ <==> latest
            >= t.price),
        t.side == OrderSide::Sell ==> (scheduler::trade_verdict(t, market) == "对"@ <==> latest
            <= t.price),
        scheduler::trade_verdict(t, market) == "对"@ || scheduler::trade_verdict(t, market)
            == "错"@,
{
    reveal_strlit("对");
    reveal_strlit("错");
    assert("对"@[0] != "错"@[0]);
    let d = latest - t.price;
    assert(d >= 0 <==> d * t.quantity >= 0) by (nonlinear_arith)
        requires
            t.quantity > 0,
    ;
    assert(d <= 0 <==> d * t.quantity <= 0) by (nonlinear_arith)
        requires
            t.quantity > 0,
    ;
}

/// Every decision that was looked at is reviewed for each of 1, 5 and 10 days that have passed
/// since, as far as it led to trades.
pub proof fn due_reviews_are_made(
    books: LedgerView,
    decisions: Seq<DecisionView>,
    market: MarketView,
    now_ms: i64,
    i: int,
    days: u32,
)
    requires
        0 <= i < decisions.len(),
        days == 1 || days == 5 || days == 10,
        now_ms - decisions[i].ts_ms >= days * 86_400_000,
        exists|t: int|
            0 <= t < books.trades.len() && (#[trigger] books.trades[t]).decision_id == Some(
                decisions[i].id,
            ),
    ensures
        ledger::is_reviewed(
            scheduler::after_reviews(books, decisions, market, now_ms).reviews,
            decisions[i].id,
            days,
        ),
    decreases decisions.len(),
{
    let rest = decisions.drop_last();
    let d = decisions.last();
    let before = scheduler::after_reviews(books, rest, market, now_ms);
    let one = scheduler::after_review(before, d, 1, market, now_ms);
    let five = scheduler::after_review(one, d, 5, market, now_ms);
    let ten = scheduler::after_review(five, d, 10, market, now_ms);
    lemma_reviews_keep(books, rest, market, now_ms);
    if i < rest.len() {
        assert(rest[i] == decisions[i]);
        due_reviews_are_made(books, rest, market, now_ms, i, days);
        let id = decisions[i].id;
        lemma_review_stays(before, d, 1, market, now_ms, id, days);
        lemma_review_stays(one, d, 5, market, now_ms, id, days);
        lemma_review_stays(five, d, 10, market, now_ms, id, days);
    } else {
        lemma_traded(books.trades, d.id);
        assert(risk::days_between(d.ts_ms, now_ms) >= days);
        if days == 1 {
            lemma_review_made(before, d, 1, market, now_ms);
        } else if days == 5 {
            lemma_review_made(one, d, 5, market, now_ms);
        } else {
            lemma_review_made(five, d, 10, market, now_ms);
        }
        lemma_review_stays(one, d, 5, market, now_ms, d.id, days);
        lemma_review_stays(five, d, 10, market, now_ms, d.id, days);
    }
}

proof fn lemma_review_made(
    books: LedgerView,
    d: DecisionView,
    days: u32,
    market: MarketView,
    now_ms: i64,
)
    requires
        risk::days_between(d.ts_ms, now_ms) >= days,
        ledger::trades_of(books.trades, d.id).len() > 0,
    ensures
        ledger::is_reviewed(
            scheduler::after_review(books, d, days, market, now_ms).reviews,
            d.id,
            days,
        ),
{
    let after = scheduler::after_review(books, d, days, market, now_ms);
    if scheduler::wants_review(books, d, days, now_ms) {
        let n = books.reviews.len() as int;
        assert(after.reviews[n].row.decision_id == d.id);
    }
}

proof fn lemma_review_stays(
    books: LedgerView,
    d: DecisionView,
    days: u32,
    market: MarketView,
    now_ms: i64,
    id: i64,
    other: u32,
)
    ensures
        ledger::is_reviewed(books.reviews, id, other) ==> ledger::is_reviewed(
            scheduler::after_review(books, d, days, market, now_ms).reviews,
            id,
            other,
        ),
        scheduler::after_review(books, d, days, market, now_ms).trades == books.trades,
{
    let after = scheduler::after_review(books, d, days, market, now_ms);
    if ledger::is_reviewed(books.reviews, id, other) {
        let k = choose|k: int|
            0 <= k < books.reviews.len() && (#[trigger] books.reviews[k]).row.decision_id == id
                && books.reviews[k].row.days_after == other;
        assert(after.reviews[k] == books.reviews[k]);
        assert(after.reviews[k].row.decision_id == id);
    }
}

/// Of fifty decisions or fewer, each one that is due is reviewed.
pub proof fn the_latest_decisions_are_reviewed(
    books: LedgerView,
    market: MarketView,
    now_ms: i64,
    i: int,
    days: u32,
)
    requires
        0 <= i < books.decisions.len(),
        days == 1 || days == 5 || days == 10,
        now_ms - books.decisions[i].ts_ms >= days * 86_400_000,
        exists|t: int|
            0 <= t < books.trades.len() && (#[trigger] books.trades[t]).decision_id == Some(
                books.decisions[i].id,
            ),
        books.decisions.len() <= 50,
    ensures
        ledger::is_reviewed(
            scheduler::after_all_reviews(books, market, now_ms).reviews,
            books.decisions[i].id,
            days,
        ),
{
    let n = books.decisions.len() as int;
    let keys = Seq::new(
        books.decisions.len(),
        |j: int| Fraction::whole((-(books.decisions[j].ts_ms as i128)) as i128),
    );
    let latest = ledger::latest_decisions(books.decisions, 50);
    assert(latest =~= order::picked(books.decisions, order::arranged(keys), n)) by {
        order::lemma_arranged_in_range(keys, books.decisions.len());
    }
    assert forall|j: int| 0 <= j < keys.len() implies (#[trigger] keys[j]).ok() by {
    }
    books::lemma_all_kept(books.decisions, keys);
    assert(latest.contains(books.decisions[i]));
    let k = choose|k: int| 0 <= k < latest.len() && latest[k] == books.decisions[i];
    due_reviews_are_made(books, latest, market, now_ms, k, days);
}

/// No more than fifty decisions are looked at, each for three reviews at most.
pub proof fn reviews_of_a_run_are_bounded(books: LedgerView, market: MarketView, now_ms: i64)
    ensures
        scheduler::after_all_reviews(books, market, now_ms).reviews.len() <= books.reviews.len() + 3
            * 50,
{
    lemma_review_count(
        books,
        ledger::latest_decisions(books.decisions, 50),
        market,
        now_ms,
    );
}

proof fn lemma_review_count(
    books: LedgerView,
    decisions: Seq<DecisionView>,
    market: MarketView,
    now_ms: i64,
)
    ensures
        scheduler::after_reviews(books, decisions, market, now_ms).reviews.len()
            <= books.reviews.len() + 3 * decisions.len(),
    decreases decisions.len(),
{
    if decisions.len() > 0 {
        lemma_review_count(books, decisions.drop_last(), market, now_ms);
    }
}

} // verus!
