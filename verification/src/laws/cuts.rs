//! Laws of the cuts that bring the total position down: which positions are cut, in what
//! order, by how many shares, and when.

use vstd::prelude::*;

use crate::account::PositionView;
use crate::decimal;
use crate::decimal::UNIT;
use crate::intent::{IntentView, OrderSide};
use crate::laws::books;
use crate::laws::checks;
use crate::ledger::LedgerView;
use crate::order;
use crate::risk;
use crate::risk::{MarketView, RiskManager};
use crate::sim::Clock;

verus! {

/// The rows come back, each of them, with the lowest ratio of price to cost first.
pub proof fn the_largest_loss_comes_first(rows: Seq<PositionView>, market: MarketView)
    requires
        forall|i: int|
            0 <= i < rows.len() ==> 0 < (#[trigger] rows[i]).avg_cost && decimal::price_ok(
                rows[i].avg_cost as int,
            ) && decimal::price_ok(market.value_price(rows[i])),
    ensures
        ({
            let sorted = risk::worst_first(rows, market);
            &&& sorted.len() == rows.len()
            &&& forall|i: int| 0 <= i < rows.len() ==> sorted.contains(#[trigger] rows[i])
            &&& forall|i: int| 0 <= i < sorted.len() ==> rows.contains(#[trigger] sorted[i])
            &&& forall|a: int, b: int|
                0 <= a < b < sorted.len() ==> market.value_price(#[trigger] sorted[a])
                    * sorted[b].avg_cost <= market.value_price(#[trigger] sorted[b])
                    * sorted[a].avg_cost
        }),
{
    let keys = Seq::new(rows.len(), |i: int| risk::gain_of(rows[i], market));
    let sorted = risk::worst_first(rows, market);
    assert forall|j: int| 0 <= j < keys.len() implies (#[trigger] keys[j]).ok() by {
        assert(decimal::price_ok(rows[j].avg_cost as int));
    }
    order::arrangement_is_a_stable_sort(keys, rows.len());
    let o = order::arranged(keys);
    assert forall|i: int| 0 <= i < rows.len() implies sorted.contains(#[trigger] rows[i]) by {
        assert(o.contains(i));
        let a = choose|a: int| 0 <= a < o.len() && o[a] == i;
        assert(sorted[a] == rows[i]);
    }
    assert forall|i: int| 0 <= i < sorted.len() implies rows.contains(#[trigger] sorted[i]) by {
        assert(rows[o[i]] == sorted[i]);
    }
    assert forall|a: int, b: int| 0 <= a < b < sorted.len() implies market.value_price(
        #[trigger] sorted[a],
    ) * sorted[b].avg_cost <= market.value_price(#[trigger] sorted[b]) * sorted[a].avg_cost by {
        let x = rows[o[a]];
        let y = rows[o[b]];
        assert(sorted[a] == x && sorted[b] == y);
        assert(0 < x.avg_cost && 0 < y.avg_cost);
        let vx = market.value_price(x);
        let vy = market.value_price(y);
        assert(decimal::price_ok(vx) && decimal::price_ok(vy));
        assert(decimal::price_ok(x.avg_cost as int) && decimal::price_ok(y.avg_cost as int));
        assert(!keys[o[b]].below(keys[o[a]]));
        assert((vy - y.avg_cost) * x.avg_cost >= (vx - x.avg_cost) * y.avg_cost);
        assert(vx * y.avg_cost <= vy * x.avg_cost) by (nonlinear_arith)
            requires
                (vy - y.avg_cost) * x.avg_cost >= (vx - x.avg_cost) * y.avg_cost,
        ;
    }
}

/// The positions that may be cut are those that are not on sale already and of whose stock
/// nothing was bought since the day began.
pub proof fn only_free_positions_are_cut(
    positions: Seq<PositionView>,
    orders: Seq<IntentView>,
    books: LedgerView,
    day_start_ms: i64,
    p: PositionView,
)
    ensures
        risk::trimmable(positions, orders, books, day_start_ms).contains(p) <==> {
            &&& positions.contains(p)
            &&& forall|i: int| 0 <= i < orders.len() ==> (#[trigger] orders[i]).thscode != p.thscode
            &&& forall|i: int|
                0 <= i < books.trades.len() && books::buys(#[trigger] books.trades[i], p.thscode)
                    ==> books.trades[i].ts_ms < day_start_ms
        },
    decreases positions.len(),
{
    books::last_purchases_are_the_latest(books.trades, p.thscode);
    let list = risk::trimmable(positions, orders, books, day_start_ms);
    if positions.len() > 0 {
        let rest = positions.drop_last();
        let n = positions.len() - 1;
        let before = risk::trimmable(rest, orders, books, day_start_ms);
        only_free_positions_are_cut(rest, orders, books, day_start_ms, p);
        if positions.contains(p) {
            let i = choose|i: int| 0 <= i < positions.len() && positions[i] == p;
            if i < n {
                assert(rest[i] == p);
            }
        }
        if rest.contains(p) {
            let i = choose|i: int| 0 <= i < rest.len() && rest[i] == p;
            assert(positions[i] == p);
        }
        if before.contains(p) {
            let i = choose|i: int| 0 <= i < before.len() && before[i] == p;
            assert(list[i] == p);
        }
        if list.contains(p) && !before.contains(p) {
            let i = choose|i: int| 0 <= i < list.len() && list[i] == p;
            if i < before.len() {
                assert(before[i] == p);
            }
            assert(positions[n] == p);
        }
        if positions[n] == p && list.len() == before.len() + 1 {
            assert(list[before.len() as int] == p);
        }
    }
}

/// A cut sells whole lots that bring in the amount, and not one lot more than that; or it
/// sells everything, where less than a lot would be left.
pub proof fn a_cut_is_no_larger_than_needed(quantity: u32, price: int, amount: int)
    requires
        quantity > 0,
        price > 0,
        amount > 0,
    ensures
        ({
            let q = risk::cut_size(quantity, price, amount);
            &&& 0 < q <= quantity
            &&& q < quantity ==> {
                &&& q % 100 == 0
                &&& q + 100 <= quantity
                &&& price * q * UNIT >= amount
            }
            &&& price * (q - if q < quantity { 100int } else { 200int }) * UNIT < amount
        }),
{
    let d = price * UNIT * 100;
    let full = price * quantity * UNIT;
    let q = risk::cut_size(quantity, price, amount);
    risk::lemma_cut_size(quantity, price, amount);
    let want = decimal::min(amount, full);
    let lots = decimal::div_ceil(want, d);
    vstd::arithmetic::div_mod::lemma_fundamental_div_mod(want + d - 1, d);
    vstd::arithmetic::div_mod::lemma_mod_bound(want + d - 1, d);
    assert(d * lots >= want);
    assert(d * lots - d < want);
    if q < quantity {
        risk::lemma_cut_covers(quantity, price, amount);
    }
    let less = q - if q < quantity { 100int } else { 200int };
    assert(less <= lots * 100 - 100);
    assert(price * less * UNIT <= d * lots - d) by (nonlinear_arith)
        requires
            less <= lots * 100 - 100,
            d == price * UNIT * 100,
            price > 0,
            UNIT > 0,
    ;
}

/// A cut of a position comes only after everything that can be sold of the positions before
/// it: all of those with shares and a price are sold as a whole.
pub proof fn cuts_go_down_the_list(
    rows: Seq<PositionView>,
    market: MarketView,
    need: int,
    sold: int,
    k: int,
)
    requires
        0 <= k < risk::cuts(rows, market, need, sold).len(),
    ensures
        exists|b: int|
            0 <= b < rows.len() && {
                &&& (#[trigger] rows[b]).thscode == risk::cuts(rows, market, need, sold)[k].thscode
                &&& 0 < risk::cuts(rows, market, need, sold)[k].quantity <= rows[b].quantity
                &&& forall|a: int|
                    0 <= a < b && (#[trigger] rows[a]).quantity > 0 && market.value_price(rows[a])
                        > 0 ==> checks::sells(
                        risk::cuts(rows, market, need, sold),
                        rows[a],
                        rows[a].quantity,
                    )
            },
    decreases rows.len(),
{
    let all = risk::cuts(rows, market, need, sold);
    let p = rows[0];
    let price = market.value_price(p);
    let rest = rows.drop_first();
    if p.quantity == 0 || price <= 0 {
        cuts_go_down_the_list(rest, market, need, sold, k);
        let b = choose|b: int|
            0 <= b < rest.len() && {
                &&& (#[trigger] rest[b]).thscode == all[k].thscode
                &&& 0 < all[k].quantity <= rest[b].quantity
                &&& forall|a: int|
                    0 <= a < b && (#[trigger] rest[a]).quantity > 0 && market.value_price(rest[a])
                        > 0 ==> checks::sells(all, rest[a], rest[a].quantity)
            };
        assert(rows[b + 1] == rest[b]);
        assert forall|a: int|
            0 <= a < b + 1 && (#[trigger] rows[a]).quantity > 0 && market.value_price(rows[a])
                > 0 implies checks::sells(all, rows[a], rows[a].quantity) by {
            if a > 0 {
                assert(rest[a - 1] == rows[a]);
            }
        }
    } else {
        let q = risk::cut_size(p.quantity, price, need - sold);
        risk::lemma_cut_size(p.quantity, price, need - sold);
        let next = sold + price * q * UNIT;
        let later = risk::cuts(rest, market, need, next);
        assert(all == seq![risk::sale(p, q as u32)] + later);
        assert(all[0] == risk::sale(p, q as u32));
        if k == 0 {
            assert(rows[0].thscode == all[k].thscode);
        } else {
            assert(all[k] == later[k - 1]);
            if q < p.quantity {
                risk::lemma_cut_covers(p.quantity, price, need - sold);
            }
            assert(q == p.quantity);
            assert(checks::sells(all, p, p.quantity));
            cuts_go_down_the_list(rest, market, need, next, k - 1);
            let b = choose|b: int|
                0 <= b < rest.len() && {
                    &&& (#[trigger] rest[b]).thscode == later[k - 1].thscode
                    &&& 0 < later[k - 1].quantity <= rest[b].quantity
                    &&& forall|a: int|
                        0 <= a < b && (#[trigger] rest[a]).quantity > 0 && market.value_price(
                            rest[a],
                        ) > 0 ==> checks::sells(later, rest[a], rest[a].quantity)
                };
            assert(rows[b + 1] == rest[b]);
            assert forall|a: int|
                0 <= a < b + 1 && (#[trigger] rows[a]).quantity > 0 && market.value_price(rows[a])
                    > 0 implies checks::sells(all, rows[a], rows[a].quantity) by {
                if a > 0 {
                    assert(rest[a - 1] == rows[a]);
                    lemma_sells_later(risk::sale(p, q as u32), later, rows[a], rows[a].quantity);
                }
            }
        }
    }
}

proof fn lemma_sells_later(first: IntentView, later: Seq<IntentView>, p: PositionView, quantity: u32)
    requires
        checks::sells(later, p, quantity),
    ensures
        checks::sells(seq![first] + later, p, quantity),
{
    let all = seq![first] + later;
    let i = choose|i: int|
        0 <= i < later.len() && {
            &&& (#[trigger] later[i]).side == OrderSide::Sell
            &&& later[i].thscode == p.thscode
            &&& later[i].quantity == quantity
        };
    assert(all[i + 1] == later[i]);
}

/// Nothing is cut while the positions are worth no more than the target share of the total
/// assets; once they are worth more, a free position with shares and a price is cut.
pub proof fn positions_above_the_target_are_cut(
    positions: Seq<PositionView>,
    orders: Seq<IntentView>,
    books: LedgerView,
    market: MarketView,
    total: int,
    target_pct: int,
    day_start_ms: i64,
    p: PositionView,
)
    requires
        total > 0,
        risk::trimmable(positions, orders, books, day_start_ms).contains(p),
        p.quantity > 0,
        market.value_price(p) > 0,
        forall|i: int|
            0 <= i < positions.len() ==> 0 < (#[trigger] positions[i]).avg_cost && decimal::price_ok(
                positions[i].avg_cost as int,
            ) && decimal::price_ok(market.value_price(positions[i])),
    ensures
        risk::trims_to(positions, orders, books, market, total, target_pct, day_start_ms).len() == 0
            <==> risk::market_value(positions, market) * UNIT <= target_pct * total,
{
    let rows = risk::trimmable(positions, orders, books, day_start_ms);
    assert forall|i: int| 0 <= i < rows.len() implies 0 < (#[trigger] rows[i]).avg_cost
        && decimal::price_ok(rows[i].avg_cost as int) && decimal::price_ok(
        market.value_price(rows[i]),
    ) by {
        assert(rows.contains(rows[i]));
        only_free_positions_are_cut(positions, orders, books, day_start_ms, rows[i]);
        let j = choose|j: int| 0 <= j < positions.len() && positions[j] == rows[i];
        assert(0 < positions[j].avg_cost);
    }
    the_largest_loss_comes_first(rows, market);
    let sorted = risk::worst_first(rows, market);
    let i = choose|i: int| 0 <= i < rows.len() && rows[i] == p;
    assert(sorted.contains(rows[i]));
    let need = risk::market_value(positions, market) * UNIT - target_pct * total;
    if need > 0 {
        lemma_cuts_something(sorted, market, need, p);
    }
}

proof fn lemma_cuts_something(
    rows: Seq<PositionView>,
    market: MarketView,
    need: int,
    p: PositionView,
)
    requires
        need > 0,
        rows.contains(p),
        p.quantity > 0,
        market.value_price(p) > 0,
    ensures
        risk::cuts(rows, market, need, 0).len() > 0,
    decreases rows.len(),
{
    let i = choose|i: int| 0 <= i < rows.len() && rows[i] == p;
    let first = rows[0];
    if first.quantity == 0 || market.value_price(first) <= 0 {
        assert(rows.drop_first()[i - 1] == p);
        lemma_cuts_something(rows.drop_first(), market, need, p);
    }
}

/// The count of rounds that call for a lower position goes up by one in each of them, and
/// starts over in a round that does not.
pub proof fn rounds_that_call_for_cuts_are_counted(
    manager: RiskManager,
    books: LedgerView,
    market: MarketView,
    clock: Clock,
)
    requires
        manager.trim_streak < u32::MAX,
    ensures
        ({
            let (_, next, report) = risk::assessed(manager, books, market, clock);
            next.trim_streak == if report.regime == "risk-off"@ || !report.can_buy
                || report.profit_reached {
                manager.trim_streak + 1
            } else {
                0
            }
        }),
{
}

/// From the third round in a row on that calls for a lower position, something is sold as long as
/// the positions are worth more than the total position that is allowed and one of them can be:
/// it has shares and a price, and its stock was not bought today.
pub proof fn the_third_round_sells(
    manager: RiskManager,
    books: LedgerView,
    market: MarketView,
    clock: Clock,
    i: int,
)
    requires
        manager.config.ok(),
        2 <= manager.trim_streak < u32::MAX,
        books.account is Some,
        0 <= i < books.positions.len(),
        books.positions[i].quantity > 0,
        market.value_price(books.positions[i]) > 0,
        forall|j: int|
            0 <= j < books.trades.len() && books::buys(
                #[trigger] books.trades[j],
                books.positions[i].thscode,
            ) ==> books.trades[j].ts_ms < clock.day_start_ms,
        forall|j: int|
            0 <= j < books.positions.len() ==> 0 < (#[trigger] books.positions[j]).avg_cost
                && decimal::price_ok(books.positions[j].avg_cost as int) && decimal::price_ok(
                market.value_price(books.positions[j]),
            ),
        ({
            let report = risk::assessed(manager, books, market, clock).2;
            let total = risk::asset_of(books, market);
            &&& report.regime == "risk-off"@ || !report.can_buy || report.profit_reached
            &&& total > 0
            &&& risk::market_value(books.positions, market) * UNIT > report.max_total_pct * total
        }),
    ensures
        risk::assessed(manager, books, market, clock).2.forced_sells.len() > 0,
{
    let cfg = manager.config;
    let p = books.positions[i];
    let total = risk::asset_of(books, market);
    let (with_peak, peak) = risk::after_peak(books, manager.peak_cache as int, total);
    let (with_fuse, can_buy, _) = risk::after_fuse(with_peak, peak, total, cfg, clock.now_ms);
    let (after, sold) = risk::after_checks(books.positions, with_fuse, market, cfg, clock.now_ms);
    checks::lemma_checks_keep_trades(books.positions, with_fuse, market, cfg, clock.now_ms);
    let report = risk::assessed(manager, books, market, clock).2;
    let target = report.max_total_pct as int;
    if sold.len() == 0 {
        assert(books.positions.contains(p));
        only_free_positions_are_cut(books.positions, sold, after, clock.day_start_ms, p);
        positions_above_the_target_are_cut(
            books.positions,
            sold,
            after,
            market,
            total,
            target,
            clock.day_start_ms,
            p,
        );
        let trims = risk::trims_to(
            books.positions,
            sold,
            after,
            market,
            total,
            target,
            clock.day_start_ms,
        );
        assert(trims.len() > 0);
        assert(report.forced_sells == sold + trims);
    }
}

/// A position without a cost counts as without gain or loss.
pub proof fn positions_without_a_cost_have_no_gain(p: PositionView, market: MarketView)
    requires
        p.avg_cost <= 0,
    ensures
        risk::gain_of(p, market).num == 0,
        risk::gain_of(p, market).den > 0,
{
}

} // verus!
