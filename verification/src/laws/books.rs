//! Laws of the books: which trades, decisions and reviews a reading gives back.

use vstd::prelude::*;

use crate::account::{Account, AccountSnapshot, DecisionView, PositionView, TradeView};
use crate::decimal::Decimal;
use crate::intent::OrderSide;
use crate::ledger;
use crate::ledger::{LedgerView, StoredReviewView};
use crate::order;
use crate::order::Fraction;

verus! {

/// Whether a trade is a purchase of a stock.
pub open spec fn buys(t: TradeView, code: Seq<char>) -> bool {
    t.thscode == code && t.side == OrderSide::Buy
}

/// The first purchase of a stock on record is a purchase of it, and none is earlier; there
/// is none exactly where the stock was never bought.
pub proof fn first_purchases_are_the_earliest(trades: Seq<TradeView>, code: Seq<char>)
    ensures
        match ledger::first_buy(trades, code) {
            Some(ts) => {
                &&& exists|i: int|
                    0 <= i < trades.len() && buys(#[trigger] trades[i], code) && trades[i].ts_ms
                        == ts
                &&& forall|i: int|
                    0 <= i < trades.len() && buys(#[trigger] trades[i], code) ==> ts
                        <= trades[i].ts_ms
            },
            None => forall|i: int|
                0 <= i < trades.len() ==> !buys(#[trigger] trades[i], code),
        },
    decreases trades.len(),
{
    if trades.len() > 0 {
        let rest = trades.drop_last();
        let n = trades.len() - 1;
        first_purchases_are_the_earliest(rest, code);
        if ledger::first_buy(trades, code) is Some {
            let ts = ledger::first_buy(trades, code)->0;
            if buys(trades[n], code) && trades[n].ts_ms == ts {
            } else {
                let i = choose|i: int|
                    0 <= i < rest.len() && buys(#[trigger] rest[i], code) && rest[i].ts_ms == ts;
                assert(buys(trades[i], code) && trades[i].ts_ms == ts);
            }
        }
        assert forall|i: int| 0 <= i < trades.len() && buys(#[trigger] trades[i], code) implies {
            &&& ledger::first_buy(trades, code) is Some
            &&& ledger::first_buy(trades, code)->0 <= trades[i].ts_ms
        } by {
            if i < n {
                assert(buys(rest[i], code));
            }
        }
    }
}

/// The last purchase of a stock on record is a purchase of it, and none is later; there is
/// none exactly where the stock was never bought.
pub proof fn last_purchases_are_the_latest(trades: Seq<TradeView>, code: Seq<char>)
    ensures
        match ledger::last_buy(trades, code) {
            Some(ts) => {
                &&& exists|i: int|
                    0 <= i < trades.len() && buys(#[trigger] trades[i], code) && trades[i].ts_ms
                        == ts
                &&& forall|i: int|
                    0 <= i < trades.len() && buys(#[trigger] trades[i], code) ==> ts
                        >= trades[i].ts_ms
            },
            None => forall|i: int|
                0 <= i < trades.len() ==> !buys(#[trigger] trades[i], code),
        },
    decreases trades.len(),
{
    if trades.len() > 0 {
        let rest = trades.drop_last();
        let n = trades.len() - 1;
        last_purchases_are_the_latest(rest, code);
        if ledger::last_buy(trades, code) is Some {
            let ts = ledger::last_buy(trades, code)->0;
            if buys(trades[n], code) && trades[n].ts_ms == ts {
            } else {
                let i = choose|i: int|
                    0 <= i < rest.len() && buys(#[trigger] rest[i], code) && rest[i].ts_ms == ts;
                assert(buys(trades[i], code) && trades[i].ts_ms == ts);
            }
        }
        assert forall|i: int| 0 <= i < trades.len() && buys(#[trigger] trades[i], code) implies {
            &&& ledger::last_buy(trades, code) is Some
            &&& ledger::last_buy(trades, code)->0 >= trades[i].ts_ms
        } by {
            if i < n {
                assert(buys(rest[i], code));
            }
        }
    }
}

/// A further position adds its cost times its quantity to the positions at cost.
pub proof fn positions_at_cost_add_up(positions: Seq<PositionView>, p: PositionView)
    ensures
        ledger::cost_value(Seq::empty()) == 0,
        ledger::cost_value(positions.push(p)) == ledger::cost_value(positions) + p.avg_cost
            * p.quantity,
{
    assert(positions.push(p).drop_last() =~= positions);
}

/// Rows in the order of whole keys: the first `limit` of them, no key above a later one, and
/// what is left out no key below one that is there.
pub proof fn lemma_in_order<T>(rows: Seq<T>, keys: Seq<Fraction>, limit: int)
    requires
        keys.len() == rows.len(),
        limit >= 0,
        forall|i: int|
            0 <= i < keys.len() ==> (#[trigger] keys[i]).den == 1 && -order::FRACTION_MAX
                <= keys[i].num <= order::FRACTION_MAX,
    ensures
        ({
            let o = order::arranged(keys);
            let out = order::picked(rows, o, limit);
            &&& o.len() == rows.len()
            &&& out.len() == if limit < rows.len() { limit } else { rows.len() as int }
            &&& forall|a: int|
                0 <= a < out.len() ==> 0 <= #[trigger] o[a] < rows.len() && out[a] == rows[o[a]]
            &&& forall|a: int, b: int|
                0 <= a < b < o.len() ==> keys[#[trigger] o[a]].num <= keys[#[trigger] o[b]].num
            &&& forall|i: int|
                0 <= i < rows.len() ==> out.contains(#[trigger] rows[i]) || (forall|a: int|
                    0 <= a < out.len() ==> keys[#[trigger] o[a]].num <= keys[i].num)
        }),
{
    assert forall|i: int| 0 <= i < keys.len() implies (#[trigger] keys[i]).ok() by {
        assert(keys[i].den == 1);
    }
    order::arrangement_is_a_stable_sort(keys, keys.len());
    let o = order::arranged(keys);
    let out = order::picked(rows, o, limit);
    assert forall|a: int, b: int| 0 <= a < b < o.len() implies keys[#[trigger] o[a]].num
        <= keys[#[trigger] o[b]].num by {
        assert(!keys[o[b]].below(keys[o[a]]));
        assert(keys[o[a]].den == 1 && keys[o[b]].den == 1);
    }
    assert forall|i: int| 0 <= i < rows.len() implies out.contains(#[trigger] rows[i]) || (forall|
        a: int,
    |
        0 <= a < out.len() ==> keys[#[trigger] o[a]].num <= keys[i].num) by {
        assert(o.contains(i));
        let b = choose|b: int| 0 <= b < o.len() && o[b] == i;
        if b < out.len() {
            assert(out[b] == rows[i]);
        } else {
            assert forall|a: int| 0 <= a < out.len() implies keys[#[trigger] o[a]].num
                <= keys[i].num by {
                assert(keys[o[a]].num <= keys[o[b]].num);
            }
        }
    }
}

/// The latest trades come with the latest first, and no trade that is left out is later than
/// one of them.
pub proof fn the_latest_trades_come_first(trades: Seq<TradeView>, limit: int)
    requires
        limit >= 0,
    ensures
        ({
            let out = ledger::latest_trades(trades, limit);
            &&& out.len() == if limit < trades.len() { limit } else { trades.len() as int }
            &&& forall|a: int, b: int|
                0 <= a < b < out.len() ==> (#[trigger] out[a]).ts_ms >= (#[trigger] out[b]).ts_ms
            &&& forall|a: int| 0 <= a < out.len() ==> trades.contains(#[trigger] out[a])
            &&& forall|i: int|
                0 <= i < trades.len() ==> out.contains(#[trigger] trades[i]) || (forall|a: int|
                    0 <= a < out.len() ==> (#[trigger] out[a]).ts_ms >= trades[i].ts_ms)
        }),
{
    let keys = Seq::new(
        trades.len(),
        |i: int| Fraction::whole((-(trades[i].ts_ms as i128)) as i128),
    );
    lemma_in_order(trades, keys, limit);
    let o = order::arranged(keys);
    let out = ledger::latest_trades(trades, limit);
    assert(out == order::picked(trades, o, limit));
    assert forall|a: int| 0 <= a < out.len() implies trades.contains(#[trigger] out[a]) by {
        assert(trades[o[a]] == out[a]);
    }
    assert forall|a: int, b: int| 0 <= a < b < out.len() implies (#[trigger] out[a]).ts_ms >= (
    #[trigger] out[b]).ts_ms by {
        assert(keys[o[a]].num <= keys[o[b]].num);
    }
    assert forall|i: int| 0 <= i < trades.len() implies out.contains(#[trigger] trades[i]) || (
    forall|a: int| 0 <= a < out.len() ==> (#[trigger] out[a]).ts_ms >= trades[i].ts_ms) by {
        if !out.contains(trades[i]) {
            assert forall|a: int| 0 <= a < out.len() implies (#[trigger] out[a]).ts_ms
                >= trades[i].ts_ms by {
                assert(keys[o[a]].num <= keys[i].num);
            }
        }
    }
}

/// The latest decisions come with the latest first, and no decision that is left out is later
/// than one of them.
pub proof fn the_latest_decisions_come_first(decisions: Seq<DecisionView>, limit: int)
    requires
        limit >= 0,
    ensures
        ({
            let out = ledger::latest_decisions(decisions, limit);
            &&& out.len() == if limit < decisions.len() { limit } else { decisions.len() as int }
            &&& forall|a: int, b: int|
                0 <= a < b < out.len() ==> (#[trigger] out[a]).ts_ms >= (#[trigger] out[b]).ts_ms
            &&& forall|a: int| 0 <= a < out.len() ==> decisions.contains(#[trigger] out[a])
            &&& forall|i: int|
                0 <= i < decisions.len() ==> out.contains(#[trigger] decisions[i]) || (forall|
                    a: int,
                |
                    0 <= a < out.len() ==> (#[trigger] out[a]).ts_ms >= decisions[i].ts_ms)
        }),
{
    let keys = Seq::new(
        decisions.len(),
        |i: int| Fraction::whole((-(decisions[i].ts_ms as i128)) as i128),
    );
    lemma_in_order(decisions, keys, limit);
    let o = order::arranged(keys);
    let out = ledger::latest_decisions(decisions, limit);
    assert(out == order::picked(decisions, o, limit));
    assert forall|a: int| 0 <= a < out.len() implies decisions.contains(#[trigger] out[a]) by {
        assert(decisions[o[a]] == out[a]);
    }
    assert forall|a: int, b: int| 0 <= a < b < out.len() implies (#[trigger] out[a]).ts_ms >= (
    #[trigger] out[b]).ts_ms by {
        assert(keys[o[a]].num <= keys[o[b]].num);
    }
    assert forall|i: int| 0 <= i < decisions.len() implies out.contains(#[trigger] decisions[i])
        || (forall|a: int|
        0 <= a < out.len() ==> (#[trigger] out[a]).ts_ms >= decisions[i].ts_ms) by {
        if !out.contains(decisions[i]) {
            assert forall|a: int| 0 <= a < out.len() implies (#[trigger] out[a]).ts_ms
                >= decisions[i].ts_ms by {
                assert(keys[o[a]].num <= keys[i].num);
            }
        }
    }
}

/// The latest reviews come with the latest first, and no review that is left out is later
/// than one of them.
pub proof fn the_latest_reviews_come_first(reviews: Seq<StoredReviewView>, limit: int)
    requires
        limit >= 0,
    ensures
        ({
            let out = ledger::latest_reviews(reviews, limit);
            &&& out.len() == if limit < reviews.len() { limit } else { reviews.len() as int }
            &&& forall|a: int, b: int|
                0 <= a < b < out.len() ==> (#[trigger] out[a]).ts_ms >= (#[trigger] out[b]).ts_ms
            &&& forall|a: int| 0 <= a < out.len() ==> reviews.contains(#[trigger] out[a])
            &&& forall|i: int|
                0 <= i < reviews.len() ==> out.contains(#[trigger] reviews[i]) || (forall|a: int|
                    0 <= a < out.len() ==> (#[trigger] out[a]).ts_ms >= reviews[i].ts_ms)
        }),
{
    let keys = Seq::new(
        reviews.len(),
        |i: int| Fraction::whole((-(reviews[i].ts_ms as i128)) as i128),
    );
    lemma_in_order(reviews, keys, limit);
    let o = order::arranged(keys);
    let out = ledger::latest_reviews(reviews, limit);
    assert(out == order::picked(reviews, o, limit));
    assert forall|a: int| 0 <= a < out.len() implies reviews.contains(#[trigger] out[a]) by {
        assert(reviews[o[a]] == out[a]);
    }
    assert forall|a: int, b: int| 0 <= a < b < out.len() implies (#[trigger] out[a]).ts_ms >= (
    #[trigger] out[b]).ts_ms by {
        assert(keys[o[a]].num <= keys[o[b]].num);
    }
    assert forall|i: int| 0 <= i < reviews.len() implies out.contains(#[trigger] reviews[i]) || (
    forall|a: int| 0 <= a < out.len() ==> (#[trigger] out[a]).ts_ms >= reviews[i].ts_ms) by {
        if !out.contains(reviews[i]) {
            assert forall|a: int| 0 <= a < out.len() implies (#[trigger] out[a]).ts_ms
                >= reviews[i].ts_ms by {
                assert(keys[o[a]].num <= keys[i].num);
            }
        }
    }
}

/// The reviews of a decision come with the fewest days first, each of them.
pub proof fn reviews_come_by_their_days(reviews: Seq<StoredReviewView>)
    ensures
        ({
            let out = ledger::reviews_by_days(reviews);
            &&& out.len() == reviews.len()
            &&& forall|a: int, b: int|
                0 <= a < b < out.len() ==> (#[trigger] out[a]).row.days_after <= (
                #[trigger] out[b]).row.days_after
            &&& forall|i: int| 0 <= i < reviews.len() ==> out.contains(#[trigger] reviews[i])
        }),
{
    let keys = Seq::new(reviews.len(), |i: int| Fraction::whole(reviews[i].row.days_after as i128));
    lemma_in_order(reviews, keys, reviews.len() as int);
    lemma_all_kept(reviews, keys);
    let o = order::arranged(keys);
    let out = ledger::reviews_by_days(reviews);
    assert(out == order::picked(reviews, o, reviews.len() as int));
    assert forall|a: int, b: int| 0 <= a < b < out.len() implies (#[trigger] out[a]).row.days_after
        <= (#[trigger] out[b]).row.days_after by {
        assert(keys[o[a]].num <= keys[o[b]].num);
    }
}

/// Rows in the order of their keys are all there.
pub proof fn lemma_all_kept<T>(rows: Seq<T>, keys: Seq<Fraction>)
    requires
        keys.len() == rows.len(),
        forall|i: int| 0 <= i < keys.len() ==> (#[trigger] keys[i]).ok(),
    ensures
        forall|i: int|
            0 <= i < rows.len() ==> order::picked(
                rows,
                order::arranged(keys),
                rows.len() as int,
            ).contains(#[trigger] rows[i]),
{
    order::arrangement_is_a_stable_sort(keys, keys.len());
    let o = order::arranged(keys);
    let out = order::picked(rows, o, rows.len() as int);
    assert forall|i: int| 0 <= i < rows.len() implies out.contains(#[trigger] rows[i]) by {
        assert(o.contains(i));
        let b = choose|b: int| 0 <= b < o.len() && o[b] == i;
        assert(out[b] == rows[i]);
    }
}

/// Account values come with the earliest first, each of them.
pub proof fn account_values_come_by_time(snapshots: Seq<AccountSnapshot>)
    ensures
        ({
            let out = ledger::snapshots_by_time(snapshots);
            &&& out.len() == snapshots.len()
            &&& forall|a: int, b: int|
                0 <= a < b < out.len() ==> (#[trigger] out[a]).ts_ms <= (#[trigger] out[b]).ts_ms
            &&& forall|i: int| 0 <= i < snapshots.len() ==> out.contains(#[trigger] snapshots[i])
        }),
{
    let keys = Seq::new(snapshots.len(), |i: int| Fraction::whole(snapshots[i].ts_ms as i128));
    lemma_in_order(snapshots, keys, snapshots.len() as int);
    lemma_all_kept(snapshots, keys);
    let o = order::arranged(keys);
    let out = ledger::snapshots_by_time(snapshots);
    assert(out == order::picked(snapshots, o, snapshots.len() as int));
    assert forall|a: int, b: int| 0 <= a < b < out.len() implies (#[trigger] out[a]).ts_ms <= (
    #[trigger] out[b]).ts_ms by {
        assert(keys[o[a]].num <= keys[o[b]].num);
    }
}

/// Trades by time come with the earliest first, each of them.
pub proof fn the_earliest_trades_come_first(trades: Seq<TradeView>)
    ensures
        ({
            let out = ledger::earliest_trades(trades);
            &&& out.len() == trades.len()
            &&& forall|a: int, b: int|
                0 <= a < b < out.len() ==> (#[trigger] out[a]).ts_ms <= (#[trigger] out[b]).ts_ms
            &&& forall|i: int| 0 <= i < trades.len() ==> out.contains(#[trigger] trades[i])
        }),
{
    let keys = Seq::new(trades.len(), |i: int| Fraction::whole(trades[i].ts_ms as i128));
    lemma_in_order(trades, keys, trades.len() as int);
    lemma_all_kept(trades, keys);
    let o = order::arranged(keys);
    let out = ledger::earliest_trades(trades);
    assert(out == order::picked(trades, o, trades.len() as int));
    assert forall|a: int, b: int| 0 <= a < b < out.len() implies (#[trigger] out[a]).ts_ms <= (
    #[trigger] out[b]).ts_ms by {
        assert(keys[o[a]].num <= keys[o[b]].num);
    }
}

/// The trades of a decision are those with its number, and no others.
pub proof fn trades_of_a_decision_have_its_number(trades: Seq<TradeView>, id: i64, t: TradeView)
    ensures
        ledger::trades_of(trades, id).contains(t) <==> trades.contains(t) && t.decision_id == Some(
            id,
        ),
    decreases trades.len(),
{
    if trades.len() > 0 {
        let rest = trades.drop_last();
        let n = trades.len() - 1;
        trades_of_a_decision_have_its_number(rest, id, t);
        let before = ledger::trades_of(rest, id);
        let all = ledger::trades_of(trades, id);
        if trades.contains(t) && t != trades[n] {
            let i = choose|i: int| 0 <= i < trades.len() && trades[i] == t;
            assert(rest[i] == t);
        }
        if rest.contains(t) {
            let i = choose|i: int| 0 <= i < rest.len() && rest[i] == t;
            assert(trades[i] == t);
        }
        if before.contains(t) {
            let i = choose|i: int| 0 <= i < before.len() && before[i] == t;
            assert(all[i] == t);
        }
        if all.contains(t) && !before.contains(t) {
            let i = choose|i: int| 0 <= i < all.len() && all[i] == t;
            if i < before.len() {
                assert(before[i] == t);
            }
        }
        if trades[n].decision_id == Some(id) {
            assert(all[before.len() as int] == trades[n]);
        }
        assert(trades.contains(trades[n]));
    }
}

/// The reviews of a decision are those with its number, and no others.
pub proof fn reviews_of_a_decision_have_its_number(
    reviews: Seq<StoredReviewView>,
    id: i64,
    r: StoredReviewView,
)
    ensures
        ledger::reviews_of(reviews, id).contains(r) <==> reviews.contains(r) && r.row.decision_id
            == id,
    decreases reviews.len(),
{
    if reviews.len() > 0 {
        let rest = reviews.drop_last();
        let n = reviews.len() - 1;
        reviews_of_a_decision_have_its_number(rest, id, r);
        let before = ledger::reviews_of(rest, id);
        let all = ledger::reviews_of(reviews, id);
        if reviews.contains(r) && r != reviews[n] {
            let i = choose|i: int| 0 <= i < reviews.len() && reviews[i] == r;
            assert(rest[i] == r);
        }
        if rest.contains(r) {
            let i = choose|i: int| 0 <= i < rest.len() && rest[i] == r;
            assert(reviews[i] == r);
        }
        if before.contains(r) {
            let i = choose|i: int| 0 <= i < before.len() && before[i] == r;
            assert(all[i] == r);
        }
        if all.contains(r) && !before.contains(r) {
            let i = choose|i: int| 0 <= i < all.len() && all[i] == r;
            if i < before.len() {
                assert(before[i] == r);
            }
        }
        if reviews[n].row.decision_id == id {
            assert(all[before.len() as int] == reviews[n]);
        }
        assert(reviews.contains(reviews[n]));
    }
}

/// The decisions in a status are those that have it, and no others.
pub proof fn decisions_in_a_status_have_it(
    decisions: Seq<DecisionView>,
    status: Seq<char>,
    d: DecisionView,
)
    ensures
        ledger::decisions_in(decisions, status).contains(d) <==> decisions.contains(d) && d.status
            == status,
    decreases decisions.len(),
{
    if decisions.len() > 0 {
        let rest = decisions.drop_last();
        let n = decisions.len() - 1;
        decisions_in_a_status_have_it(rest, status, d);
        let before = ledger::decisions_in(rest, status);
        let all = ledger::decisions_in(decisions, status);
        if decisions.contains(d) && d != decisions[n] {
            let i = choose|i: int| 0 <= i < decisions.len() && decisions[i] == d;
            assert(rest[i] == d);
        }
        if rest.contains(d) {
            let i = choose|i: int| 0 <= i < rest.len() && rest[i] == d;
            assert(decisions[i] == d);
        }
        if before.contains(d) {
            let i = choose|i: int| 0 <= i < before.len() && before[i] == d;
            assert(all[i] == d);
        }
        if all.contains(d) && !before.contains(d) {
            let i = choose|i: int| 0 <= i < all.len() && all[i] == d;
            if i < before.len() {
                assert(before[i] == d);
            }
        }
        if decisions[n].status == status {
            assert(all[before.len() as int] == decisions[n]);
        }
        assert(decisions.contains(decisions[n]));
    }
}

/// An account is opened once: with the capital as its cash where there was none, and as it is
/// where there was one. Nothing else changes.
pub proof fn accounts_are_opened_once(books: LedgerView, initial: Decimal, later: Decimal)
    ensures
        books.account is None ==> books.opened(initial).account == Some(
            Account { cash: initial, initial_capital: initial },
        ),
        books.account is Some ==> books.opened(initial) == books,
        books.opened(initial).opened(later) == books.opened(initial),
        books.opened(initial).positions == books.positions,
        books.opened(initial).trades == books.trades,
        books.opened(initial).meta == books.meta,
{
}

/// Writing the cash of an open account changes nothing else, and what is written is read.
pub proof fn cash_is_written(books: LedgerView, cash: Decimal)
    requires
        books.account is Some,
    ensures
        books.with_cash(cash as int).account is Some,
        books.with_cash(cash as int).account->0.cash == cash,
        books.with_cash(cash as int).account->0.initial_capital == books.account->0.initial_capital,
        books.with_cash(cash as int).positions == books.positions,
        books.with_cash(cash as int).trades == books.trades,
        books.with_cash(cash as int).meta == books.meta,
{
}

/// A change of status reaches the decision with the number alone, keeps the text of its note and
/// adds to it.
pub proof fn a_status_is_written_to_one_decision(
    d: DecisionView,
    id: i64,
    status: Seq<char>,
    suffix: Option<&str>,
)
    ensures
        ({
            let after = ledger::with_status(d, id, status, suffix);
            &&& d.id != id ==> after == d
            &&& d.id == id ==> after.status == status && after.id == d.id && after.ts_ms == d.ts_ms
            &&& d.id == id && suffix is None ==> after.note == d.note
            &&& d.id == id ==> (suffix matches Some(s) ==> after.note == d.note + s@)
        }),
{
}

/// A recorded trade comes last, under the next number; nothing else changes.
pub proof fn trades_are_numbered(books: LedgerView, t: TradeView)
    requires
        books.last_trade_id < i64::MAX,
    ensures
        books.with_trade(t).trades == books.trades.push(t),
        books.with_trade(t).last_trade_id == books.last_trade_id + 1,
        books.with_trade(t).account == books.account,
        books.with_trade(t).positions == books.positions,
        books.with_trade(t).meta == books.meta,
        books.with_trade(t).decisions == books.decisions,
{
}

} // verus!
