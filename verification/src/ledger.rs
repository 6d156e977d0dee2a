//! The books of one account: cash, positions, trades, settings and the logs.

use vstd::prelude::*;

use crate::account;
use crate::account::{
    Account, AccountSnapshot, DecisionLog, DecisionView, Position, PositionView, RecentTrade,
    ReviewRow, ReviewView, Trade, TradeView,
};
use crate::decimal;
use crate::decimal::Decimal;
use crate::intent::OrderSide;
use crate::order;
use crate::order::{stable_order, Fraction};
use crate::text;
use crate::text::{is_less, text_eq};

verus! {

/// The most positions that one account can hold; there are fewer stocks on the market.
pub const MAX_ROWS: usize = 100_000;

/// One day in milliseconds.
pub const DAY_MS: i64 = 86_400_000;

/// A setting.
#[derive(Debug)]
pub struct MetaEntry {
    pub key: String,
    pub value: String,
}

/// A corporate action that has been applied to the account.
#[derive(Debug)]
pub struct ProcessedAdjustment {
    pub thscode: String,
    pub ex_date_ms: i64,
    pub applied_ms: i64,
}

/// A review and when it was made.
#[derive(Debug)]
pub struct StoredReview {
    pub ts_ms: i64,
    pub row: ReviewRow,
}

impl Clone for StoredReview {
    fn clone(&self) -> (r: Self)
        ensures
            r.ts_ms == self.ts_ms,
            r.row@ == self.row@,
    {
        StoredReview { ts_ms: self.ts_ms, row: self.row.clone() }
    }
}

/// The books of one account.
#[derive(Debug)]
pub struct AccountDb {
    /// The cash account, once it is opened.
    pub account: Option<Account>,
    /// One entry for each stock held, by code.
    pub positions: Vec<Position>,
    /// The trades in the order in which they were recorded.
    pub trades: Vec<RecentTrade>,
    pub last_trade_id: i64,
    pub meta: Vec<MetaEntry>,
    pub processed: Vec<ProcessedAdjustment>,
    pub decisions: Vec<DecisionLog>,
    pub last_decision_id: i64,
    pub reviews: Vec<StoredReview>,
    pub last_review_id: i64,
    pub snapshots: Vec<AccountSnapshot>,
    pub last_snapshot_id: i64,
}

#[verifier::ext_equal]
pub struct StoredReviewView {
    pub ts_ms: i64,
    pub row: ReviewView,
}

#[verifier::ext_equal]
pub struct LedgerView {
    pub account: Option<Account>,
    pub positions: Seq<PositionView>,
    pub trades: Seq<TradeView>,
    pub last_trade_id: i64,
    pub meta: Map<Seq<char>, Seq<char>>,
    /// Applied corporate actions, by stock and ex-date, with the time of application.
    pub processed: Map<(Seq<char>, i64), i64>,
    pub decisions: Seq<DecisionView>,
    pub last_decision_id: i64,
    pub reviews: Seq<StoredReviewView>,
    pub last_review_id: i64,
    pub snapshots: Seq<AccountSnapshot>,
    pub last_snapshot_id: i64,
}

pub open spec fn key_at(entries: Seq<MetaEntry>, key: Seq<char>, i: int) -> bool {
    0 <= i < entries.len() && entries[i].key@ == key
}

/// What a list of settings holds.
pub open spec fn meta_view(entries: Seq<MetaEntry>) -> Map<Seq<char>, Seq<char>> {
    Map::new(
        |key: Seq<char>| exists|i: int| key_at(entries, key, i),
        |key: Seq<char>| entries[choose|i: int| key_at(entries, key, i)].value@,
    )
}

pub open spec fn event_at(
    list: Seq<ProcessedAdjustment>,
    event: (Seq<char>, i64),
    i: int,
) -> bool {
    0 <= i < list.len() && list[i].thscode@ == event.0 && list[i].ex_date_ms == event.1
}

/// What a list of applied corporate actions holds.
pub open spec fn processed_view(list: Seq<ProcessedAdjustment>) -> Map<(Seq<char>, i64), i64> {
    Map::new(
        |e: (Seq<char>, i64)| exists|i: int| event_at(list, e, i),
        |e: (Seq<char>, i64)| list[choose|i: int| event_at(list, e, i)].applied_ms,
    )
}

pub open spec fn review_views(list: Seq<StoredReview>) -> Seq<StoredReviewView> {
    Seq::new(
        list.len(),
        |i: int| StoredReviewView { ts_ms: list[i].ts_ms, row: list[i].row@ },
    )
}

impl View for AccountDb {
    type V = LedgerView;

    open spec fn view(&self) -> LedgerView {
        LedgerView {
            account: self.account,
            positions: account::position_views(self.positions@),
            trades: account::trade_views(self.trades@),
            last_trade_id: self.last_trade_id,
            meta: meta_view(self.meta@),
            processed: processed_view(self.processed@),
            decisions: account::decision_views(self.decisions@),
            last_decision_id: self.last_decision_id,
            reviews: review_views(self.reviews@),
            last_review_id: self.last_review_id,
            snapshots: self.snapshots@,
            last_snapshot_id: self.last_snapshot_id,
        }
    }
}

/// Each code stands before the next one: by code, and each stock once.
pub open spec fn ascending(positions: Seq<PositionView>) -> bool {
    forall|i: int, j: int|
        0 <= i < j < positions.len() ==> text::text_less(
            #[trigger] positions[i].thscode,
            #[trigger] positions[j].thscode,
        )
}

/// How many positions stand before a code.
pub open spec fn rank(positions: Seq<PositionView>, code: Seq<char>) -> int
    decreases positions.len(),
{
    if positions.len() == 0 || !text::text_less(positions[0].thscode, code) {
        0
    } else {
        1 + rank(positions.drop_first(), code)
    }
}

/// The position in a stock.
pub open spec fn held(positions: Seq<PositionView>, code: Seq<char>) -> Option<PositionView> {
    let k = rank(positions, code);
    if k < positions.len() && positions[k].thscode == code {
        Some(positions[k])
    } else {
        None
    }
}

/// The positions with `p` in place of the position in its stock, or added to them.
pub open spec fn upserted(positions: Seq<PositionView>, p: PositionView) -> Seq<PositionView> {
    let k = rank(positions, p.thscode);
    if held(positions, p.thscode) is Some {
        positions.update(k, p)
    } else {
        positions.insert(k, p)
    }
}

/// The positions without the one in a stock.
pub open spec fn without(positions: Seq<PositionView>, code: Seq<char>) -> Seq<PositionView> {
    if held(positions, code) is Some {
        positions.remove(rank(positions, code))
    } else {
        positions
    }
}

/// The positions at cost.
pub open spec fn cost_value(positions: Seq<PositionView>) -> int
    decreases positions.len(),
{
    if positions.len() == 0 {
        0
    } else {
        cost_value(positions.drop_last()) + positions.last().avg_cost * positions.last().quantity
    }
}

proof fn lemma_rank(positions: Seq<PositionView>, code: Seq<char>, k: int)
    requires
        0 <= k <= positions.len(),
        forall|j: int|
            0 <= j < k ==> text::text_less(#[trigger] positions[j].thscode, code),
        k == positions.len() || !text::text_less(positions[k].thscode, code),
    ensures
        rank(positions, code) == k,
    decreases k,
{
    if k > 0 {
        let rest = positions.drop_first();
        assert(text::text_less(positions[0].thscode, code));
        assert forall|j: int| 0 <= j < k - 1 implies text::text_less(
            #[trigger] rest[j].thscode,
            code,
        ) by {
            assert(rest[j] == positions[j + 1]);
        }
        lemma_rank(rest, code, k - 1);
    }
}

proof fn lemma_rank_splits(positions: Seq<PositionView>, code: Seq<char>)
    ensures
        ({
            let k = rank(positions, code);
            &&& 0 <= k <= positions.len()
            &&& forall|j: int|
                0 <= j < k ==> text::text_less(#[trigger] positions[j].thscode, code)
            &&& k < positions.len() ==> !text::text_less(positions[k].thscode, code)
        }),
    decreases positions.len(),
{
    if positions.len() > 0 && text::text_less(positions[0].thscode, code) {
        let rest = positions.drop_first();
        lemma_rank_splits(rest, code);
        let k = rank(positions, code);
        assert forall|j: int| 0 <= j < k implies text::text_less(
            #[trigger] positions[j].thscode,
            code,
        ) by {
            if j > 0 {
                assert(positions[j] == rest[j - 1]);
            }
        }
    }
}

/// The position that stands in the books is the one that is found, and a stock without a
/// position is not found.
pub proof fn positions_are_found(positions: Seq<PositionView>, code: Seq<char>)
    requires
        ascending(positions),
    ensures
        forall|i: int|
            0 <= i < positions.len() && #[trigger] positions[i].thscode == code ==> held(
                positions,
                code,
            ) == Some(positions[i]),
        held(positions, code) is None ==> forall|i: int|
            0 <= i < positions.len() ==> #[trigger] positions[i].thscode != code,
        held(positions, code) matches Some(p) ==> p.thscode == code && positions.contains(p),
        0 <= rank(positions, code) <= positions.len(),
{
    lemma_rank_splits(positions, code);
    assert forall|i: int|
        0 <= i < positions.len() && #[trigger] positions[i].thscode == code implies held(
        positions,
        code,
    ) == Some(positions[i]) by {
        text::text_order_is_total(code, code);
        lemma_rank(positions, code, i);
    }
}

/// After a position is written it is read back, the other positions stay, and the books
/// keep their order.
pub proof fn written_positions_are_read_back(
    positions: Seq<PositionView>,
    p: PositionView,
    other: Seq<char>,
)
    requires
        ascending(positions),
    ensures
        ascending(upserted(positions, p)),
        upserted(positions, p).len() == positions.len() + (if held(positions, p.thscode) is Some {
            0int
        } else {
            1int
        }),
        held(upserted(positions, p), p.thscode) == Some(p),
        other != p.thscode ==> held(upserted(positions, p), other) == held(positions, other),
{
    let k = rank(positions, p.thscode);
    let after = upserted(positions, p);
    lemma_rank_splits(positions, p.thscode);
    lemma_upsert_ascending(positions, p);
    assert(after[k] == p);
    positions_are_found(after, p.thscode);
    if other != p.thscode {
        positions_are_found(after, other);
        positions_are_found(positions, other);
        match held(positions, other) {
            Some(q) => {
                let i = choose|i: int| 0 <= i < positions.len() && positions[i] == q;
                if held(positions, p.thscode) is Some {
                    assert(i != k);
                    assert(after[i] == q);
                } else if i < k {
                    assert(after[i] == q);
                } else {
                    assert(after[i + 1] == q);
                }
            },
            None => {
                if held(after, other) is Some {
                    let q = held(after, other)->0;
                    let i = choose|i: int| 0 <= i < after.len() && after[i] == q;
                    if held(positions, p.thscode) is Some {
                        assert(positions[i].thscode == other);
                    } else if i < k {
                        assert(positions[i].thscode == other);
                    } else {
                        assert(positions[i - 1].thscode == other);
                    }
                }
            },
        }
    }
}

proof fn lemma_upsert_ascending(positions: Seq<PositionView>, p: PositionView)
    requires
        ascending(positions),
    ensures
        ascending(upserted(positions, p)),
{
    let k = rank(positions, p.thscode);
    let after = upserted(positions, p);
    lemma_rank_splits(positions, p.thscode);
    if held(positions, p.thscode) is Some {
        assert forall|i: int, j: int| 0 <= i < j < after.len() implies text::text_less(
            #[trigger] after[i].thscode,
            #[trigger] after[j].thscode,
        ) by {
            assert(after[i].thscode == positions[i].thscode);
            assert(after[j].thscode == positions[j].thscode);
        }
    } else {
        assert forall|i: int, j: int| 0 <= i < j < after.len() implies text::text_less(
            #[trigger] after[i].thscode,
            #[trigger] after[j].thscode,
        ) by {
            if i < k {
                assert(after[i] == positions[i]);
            } else if i > k {
                assert(after[i] == positions[i - 1]);
            }
            if j < k {
                assert(after[j] == positions[j]);
            } else if j > k {
                assert(after[j] == positions[j - 1]);
                text::text_order_is_total(positions[k].thscode, p.thscode);
                if i == k && j - 1 > k {
                    text::text_order_is_transitive(
                        p.thscode,
                        positions[k].thscode,
                        positions[j - 1].thscode,
                    );
                }
            }
        }
    }
}

/// After a position is deleted it is gone, the other positions stay, and the books keep
/// their order.
pub proof fn deleted_positions_are_gone(
    positions: Seq<PositionView>,
    code: Seq<char>,
    other: Seq<char>,
)
    requires
        ascending(positions),
    ensures
        ascending(without(positions, code)),
        held(without(positions, code), code) is None,
        other != code ==> held(without(positions, code), other) == held(positions, other),
{
    let k = rank(positions, code);
    let after = without(positions, code);
    lemma_rank_splits(positions, code);
    positions_are_found(positions, code);
    positions_are_found(positions, other);
    if held(positions, code) is Some {
        assert forall|i: int, j: int| 0 <= i < j < after.len() implies text::text_less(
            #[trigger] after[i].thscode,
            #[trigger] after[j].thscode,
        ) by {
            assert(after[i] == positions[if i < k {
                i
            } else {
                i + 1
            }]);
            assert(after[j] == positions[if j < k {
                j
            } else {
                j + 1
            }]);
        }
        positions_are_found(after, code);
        positions_are_found(after, other);
        text::text_order_is_total(code, code);
        if held(after, code) is Some {
            let q = held(after, code)->0;
            let i = choose|i: int| 0 <= i < after.len() && after[i] == q;
            if i < k {
                assert(positions[i] == q);
            } else {
                assert(positions[i + 1] == q);
                assert(text::text_less(positions[k].thscode, positions[i + 1].thscode));
            }
        }
        if other != code {
            match held(positions, other) {
                Some(q) => {
                    let i = choose|i: int| 0 <= i < positions.len() && positions[i] == q;
                    assert(i != k);
                    if i < k {
                        assert(after[i] == q);
                    } else {
                        assert(after[i - 1] == q);
                    }
                },
                None => {
                    if held(after, other) is Some {
                        let q = held(after, other)->0;
                        let i = choose|i: int| 0 <= i < after.len() && after[i] == q;
                        if i < k {
                            assert(positions[i].thscode == other);
                        } else {
                            assert(positions[i + 1].thscode == other);
                        }
                    }
                },
            }
        }
    }
}


/// The shares of a stock that were bought from `start_ms` on and before `end_ms`.
pub open spec fn bought_sum(
    trades: Seq<TradeView>,
    code: Seq<char>,
    start_ms: i64,
    end_ms: i64,
) -> int
    decreases trades.len(),
{
    if trades.len() == 0 {
        0
    } else {
        let t = trades.last();
        bought_sum(trades.drop_last(), code, start_ms, end_ms) + if t.thscode == code && t.side
            == OrderSide::Buy && start_ms <= t.ts_ms < end_ms {
            t.quantity as int
        } else {
            0
        }
    }
}

/// When a stock was last bought.
pub open spec fn last_buy(trades: Seq<TradeView>, code: Seq<char>) -> Option<i64>
    decreases trades.len(),
{
    if trades.len() == 0 {
        None
    } else {
        let t = trades.last();
        let before = last_buy(trades.drop_last(), code);
        if t.thscode == code && t.side == OrderSide::Buy && (before is None || t.ts_ms
            > before->0) {
            Some(t.ts_ms)
        } else {
            before
        }
    }
}

/// When a stock was first bought.
pub open spec fn first_buy(trades: Seq<TradeView>, code: Seq<char>) -> Option<i64>
    decreases trades.len(),
{
    if trades.len() == 0 {
        None
    } else {
        let t = trades.last();
        let before = first_buy(trades.drop_last(), code);
        if t.thscode == code && t.side == OrderSide::Buy && (before is None || t.ts_ms
            < before->0) {
            Some(t.ts_ms)
        } else {
            before
        }
    }
}

/// The trades of one decision.
pub open spec fn trades_of(trades: Seq<TradeView>, decision_id: i64) -> Seq<TradeView>
    decreases trades.len(),
{
    if trades.len() == 0 {
        Seq::empty()
    } else if trades.last().decision_id == Some(decision_id) {
        trades_of(trades.drop_last(), decision_id).push(trades.last())
    } else {
        trades_of(trades.drop_last(), decision_id)
    }
}

/// The decisions in a status.
pub open spec fn decisions_in(decisions: Seq<DecisionView>, status: Seq<char>) -> Seq<DecisionView>
    decreases decisions.len(),
{
    if decisions.len() == 0 {
        Seq::empty()
    } else if decisions.last().status == status {
        decisions_in(decisions.drop_last(), status).push(decisions.last())
    } else {
        decisions_in(decisions.drop_last(), status)
    }
}

/// The reviews of one decision.
pub open spec fn reviews_of(reviews: Seq<StoredReviewView>, decision_id: i64) -> Seq<
    StoredReviewView,
>
    decreases reviews.len(),
{
    if reviews.len() == 0 {
        Seq::empty()
    } else if reviews.last().row.decision_id == decision_id {
        reviews_of(reviews.drop_last(), decision_id).push(reviews.last())
    } else {
        reviews_of(reviews.drop_last(), decision_id)
    }
}

/// Trades by time, the latest first.
pub open spec fn latest_trades(trades: Seq<TradeView>, limit: int) -> Seq<TradeView> {
    order::picked(
        trades,
        order::arranged(
            Seq::new(
                trades.len(),
                |i: int| Fraction::whole((-(trades[i].ts_ms as i128)) as i128),
            ),
        ),
        limit,
    )
}

/// Trades by time, the earliest first.
pub open spec fn earliest_trades(trades: Seq<TradeView>) -> Seq<TradeView> {
    order::picked(
        trades,
        order::arranged(
            Seq::new(trades.len(), |i: int| Fraction::whole(trades[i].ts_ms as i128)),
        ),
        trades.len() as int,
    )
}

/// Decisions by time, the latest first.
pub open spec fn latest_decisions(decisions: Seq<DecisionView>, limit: int) -> Seq<DecisionView> {
    order::picked(
        decisions,
        order::arranged(
            Seq::new(
                decisions.len(),
                |i: int| Fraction::whole((-(decisions[i].ts_ms as i128)) as i128),
            ),
        ),
        limit,
    )
}

/// Reviews by time, the latest first.
pub open spec fn latest_reviews(reviews: Seq<StoredReviewView>, limit: int) -> Seq<
    StoredReviewView,
> {
    order::picked(
        reviews,
        order::arranged(
            Seq::new(
                reviews.len(),
                |i: int| Fraction::whole((-(reviews[i].ts_ms as i128)) as i128),
            ),
        ),
        limit,
    )
}

/// Reviews by the days after the decision.
pub open spec fn reviews_by_days(reviews: Seq<StoredReviewView>) -> Seq<StoredReviewView> {
    order::picked(
        reviews,
        order::arranged(
            Seq::new(
                reviews.len(),
                |i: int| Fraction::whole(reviews[i].row.days_after as i128),
            ),
        ),
        reviews.len() as int,
    )
}

/// Account values by time.
pub open spec fn snapshots_by_time(snapshots: Seq<AccountSnapshot>) -> Seq<AccountSnapshot> {
    order::picked(
        snapshots,
        order::arranged(
            Seq::new(snapshots.len(), |i: int| Fraction::whole(snapshots[i].ts_ms as i128)),
        ),
        snapshots.len() as int,
    )
}

impl LedgerView {
    /// The books are in order: amounts in range, and the positions by code.
    pub open spec fn ok(self) -> bool {
        &&& self.account matches Some(a) ==> decimal::money_ok(a.cash as int)
            && decimal::money_ok(a.initial_capital as int)
        &&& ascending(self.positions)
        &&& self.positions.len() <= MAX_ROWS
        &&& forall|i: int|
            0 <= i < self.positions.len() ==> decimal::price_ok(
                #[trigger] self.positions[i].avg_cost as int,
            )
        &&& forall|i: int|
            0 <= i < self.trades.len() ==> decimal::price_ok(
                (#[trigger] self.trades[i]).price as int,
            )
        &&& forall|i: int|
            0 <= i < self.reviews.len() ==> decimal::money_ok(
                (#[trigger] self.reviews[i]).row.pnl as int,
            )
    }

    /// The books with the account opened.
    pub open spec fn opened(self, initial_capital: Decimal) -> LedgerView {
        if self.account is Some {
            self
        } else {
            LedgerView {
                account: Some(Account { cash: initial_capital, initial_capital }),
                ..self
            }
        }
    }

    /// The books with other cash; an account that is not opened has none.
    pub open spec fn with_cash(self, cash: int) -> LedgerView {
        match self.account {
            Some(a) => LedgerView {
                account: Some(
                    Account { cash: cash as Decimal, initial_capital: a.initial_capital },
                ),
                ..self
            },
            None => self,
        }
    }

    pub open spec fn with_position(self, p: PositionView) -> LedgerView {
        LedgerView { positions: upserted(self.positions, p), ..self }
    }

    pub open spec fn without_position(self, code: Seq<char>) -> LedgerView {
        LedgerView { positions: without(self.positions, code), ..self }
    }

    pub open spec fn with_trade(self, t: TradeView) -> LedgerView {
        LedgerView {
            trades: self.trades.push(t),
            last_trade_id: (self.last_trade_id + 1) as i64,
            ..self
        }
    }

    pub open spec fn with_meta(self, key: Seq<char>, value: Seq<char>) -> LedgerView {
        LedgerView { meta: self.meta.insert(key, value), ..self }
    }

    /// The setting under a key.
    pub open spec fn setting(self, key: Seq<char>) -> Option<Seq<char>> {
        if self.meta.dom().contains(key) {
            Some(self.meta[key])
        } else {
            None
        }
    }

    /// The books with a corporate action marked as applied; a mark that is there stays.
    pub open spec fn with_processed(self, code: Seq<char>, ex_date_ms: i64, now_ms: i64) -> LedgerView {
        if self.processed.dom().contains((code, ex_date_ms)) {
            self
        } else {
            LedgerView { processed: self.processed.insert((code, ex_date_ms), now_ms), ..self }
        }
    }

    pub open spec fn is_processed(self, code: Seq<char>, ex_date_ms: i64) -> bool {
        self.processed.dom().contains((code, ex_date_ms))
    }

    /// Cash and the positions at cost.
    pub open spec fn asset_at_cost(self, account: Account) -> int {
        account.cash + cost_value(self.positions)
    }

    /// The books of a fresh start: a new cash balance, nothing held and nothing logged. The
    /// settings stay, but for the peak and the fuse.
    pub open spec fn reset(self, initial_capital: Decimal) -> LedgerView {
        LedgerView {
            account: if self.account is Some {
                Some(Account { cash: initial_capital, initial_capital })
            } else {
                None
            },
            positions: Seq::empty(),
            trades: Seq::empty(),
            meta: self.meta.remove("peak_asset"@).remove("fuse_until_ms"@),
            processed: Map::empty(),
            decisions: Seq::empty(),
            reviews: Seq::empty(),
            snapshots: Seq::empty(),
            ..self
        }
    }
}

proof fn lemma_cost_bound(positions: Seq<PositionView>, n: int)
    requires
        0 <= n <= positions.len(),
        forall|i: int|
            0 <= i < positions.len() ==> decimal::price_ok(#[trigger] positions[i].avg_cost as int),
    ensures
        -n * (decimal::PRICE_MAX * u32::MAX) <= cost_value(positions.take(n)) <= n * (
        decimal::PRICE_MAX * u32::MAX),
    decreases n,
{
    if n > 0 {
        lemma_cost_bound(positions, n - 1);
        assert(positions.take(n).drop_last() =~= positions.take(n - 1));
        let p = positions[n - 1];
        let b = decimal::PRICE_MAX * u32::MAX;
        assert(-b <= p.avg_cost * p.quantity <= b) by (nonlinear_arith)
            requires
                -decimal::PRICE_MAX <= p.avg_cost <= decimal::PRICE_MAX,
                0 <= p.quantity <= u32::MAX,
                b == decimal::PRICE_MAX * u32::MAX,
        ;
        assert(-n * b == -(n - 1) * b - b) by (nonlinear_arith);
        assert(n * b == (n - 1) * b + b) by (nonlinear_arith);
    }
}

proof fn lemma_meta_at(entries: Seq<MetaEntry>, i: int)
    requires
        0 <= i < entries.len(),
        distinct_keys(entries),
    ensures
        meta_view(entries).dom().contains(entries[i].key@),
        meta_view(entries)[entries[i].key@] == entries[i].value@,
{
    assert(key_at(entries, entries[i].key@, i));
    let j = choose|j: int| key_at(entries, entries[i].key@, j);
    assert(j == i);
}

/// Each key stands in the list once.
pub open spec fn distinct_keys(entries: Seq<MetaEntry>) -> bool {
    forall|i: int, j: int|
        0 <= i < j < entries.len() ==> #[trigger] entries[i].key@ != #[trigger] entries[j].key@
}

/// Each corporate action stands in the list once.
pub open spec fn distinct_events(list: Seq<ProcessedAdjustment>) -> bool {
    forall|i: int, j: int|
        0 <= i < j < list.len() ==> (#[trigger] list[i]).thscode@ != (#[trigger] list[j]).thscode@
            || list[i].ex_date_ms != list[j].ex_date_ms
}

impl AccountDb {
    /// The books are in order, and what is keyed stands once.
    pub open spec fn wf(&self) -> bool {
        &&& self@.ok()
        &&& distinct_keys(self.meta@)
        &&& distinct_events(self.processed@)
    }

    /// Empty books.
    pub fn new() -> (r: Self)
        ensures
            r.wf(),
            r@ == (LedgerView {
                account: None,
                positions: Seq::empty(),
                trades: Seq::empty(),
                last_trade_id: 0,
                meta: Map::empty(),
                processed: Map::empty(),
                decisions: Seq::empty(),
                last_decision_id: 0,
                reviews: Seq::empty(),
                last_review_id: 0,
                snapshots: Seq::empty(),
                last_snapshot_id: 0,
            }),
    {
        let r = AccountDb {
            account: None,
            positions: Vec::new(),
            trades: Vec::new(),
            last_trade_id: 0,
            meta: Vec::new(),
            processed: Vec::new(),
            decisions: Vec::new(),
            last_decision_id: 0,
            reviews: Vec::new(),
            last_review_id: 0,
            snapshots: Vec::new(),
            last_snapshot_id: 0,
        };
        assert(r@.positions =~= Seq::empty());
        assert(r@.meta =~= Map::empty());
        assert(r@.processed =~= Map::empty());
        r
    }

    /// The cash account, opened with `initial_capital` where there is none yet.
    pub fn get_or_init_account(&mut self, initial_capital: Decimal) -> (r: Account)
        requires
            old(self).wf(),
            decimal::money_ok(initial_capital as int),
        ensures
            final(self).wf(),
            final(self)@ == old(self)@.opened(initial_capital),
            final(self)@.account == Some(r),
    {
        match self.account {
            Some(a) => a,
            None => {
                let a = Account { cash: initial_capital, initial_capital };
                self.account = Some(a);
                a
            },
        }
    }

    /// Sets the cash of an open account.
    pub fn set_account_cash(&mut self, cash: Decimal)
        requires
            old(self).wf(),
            decimal::money_ok(cash as int),
        ensures
            final(self).wf(),
            final(self)@ == old(self)@.with_cash(cash as int),
    {
        if let Some(a) = self.account {
            self.account = Some(Account { cash, initial_capital: a.initial_capital });
        }
    }

    /// Adds to the cash of an open account.
    pub fn add_cash(&mut self, delta: Decimal)
        requires
            old(self).wf(),
            decimal::money_ok(delta as int),
            old(self)@.account matches Some(a) ==> decimal::money_ok(a.cash + delta),
        ensures
            final(self).wf(),
            final(self)@ == (match old(self)@.account {
                Some(a) => old(self)@.with_cash(a.cash + delta),
                None => old(self)@,
            }),
    {
        if let Some(a) = self.account {
            self.account = Some(
                Account { cash: a.cash + delta, initial_capital: a.initial_capital },
            );
        }
    }

    fn position_rank(&self, thscode: &str) -> (r: usize)
        requires
            self.wf(),
        ensures
            r == rank(self@.positions, thscode@),
            r <= self.positions@.len(),
    {
        let mut k: usize = 0;
        while k < self.positions.len() && is_less(self.positions[k].thscode.as_str(), thscode)
            invariant
                k <= self.positions@.len(),
                forall|j: int|
                    0 <= j < k ==> text::text_less(
                        #[trigger] self@.positions[j].thscode,
                        thscode@,
                    ),
            decreases self.positions.len() - k,
        {
            assert(self@.positions[k as int].thscode == self.positions@[k as int].thscode@);
            k = k + 1;
        }
        proof {
            if k < self.positions@.len() {
                assert(self@.positions[k as int].thscode == self.positions@[k as int].thscode@);
            }
            lemma_rank(self@.positions, thscode@, k as int);
        }
        k
    }

    /// The positions, by code.
    pub fn positions(&self) -> (r: Vec<Position>)
        ensures
            account::position_views(r@) == self@.positions,
    {
        let mut out: Vec<Position> = Vec::new();
        for i in 0..self.positions.len()
            invariant
                out@.len() == i,
                forall|j: int| 0 <= j < i ==> (#[trigger] out@[j])@ == self.positions@[j]@,
        {
            out.push(self.positions[i].clone());
        }
        assert(account::position_views(out@) =~= self@.positions);
        out
    }

    /// The position in a stock.
    pub fn position(&self, thscode: &str) -> (r: Option<Position>)
        requires
            self.wf(),
        ensures
            match r {
                Some(p) => held(self@.positions, thscode@) == Some(p@) && decimal::price_ok(
                    p.avg_cost as int,
                ),
                None => held(self@.positions, thscode@) is None,
            },
    {
        let k = self.position_rank(thscode);
        if k < self.positions.len() {
            assert(self@.positions[k as int] == self.positions@[k as int]@);
            if text_eq(self.positions[k].thscode.as_str(), thscode) {
                assert(decimal::price_ok(self@.positions[k as int].avg_cost as int));
                return Some(self.positions[k].clone());
            }
        }
        None
    }

    /// Writes the position in a stock, in place of the one that is there.
    pub fn upsert_position(&mut self, p: &Position)
        requires
            old(self).wf(),
            decimal::price_ok(p.avg_cost as int),
            held(old(self)@.positions, p.thscode@) is Some || old(self)@.positions.len() < MAX_ROWS,
        ensures
            final(self).wf(),
            final(self)@ == old(self)@.with_position(p@),
    {
        let ghost before = self@.positions;
        let k = self.position_rank(p.thscode.as_str());
        proof {
            lemma_upsert_ascending(before, p@);
        }
        let found = k < self.positions.len() && text_eq(
            self.positions[k].thscode.as_str(),
            p.thscode.as_str(),
        );
        proof {
            if k < self.positions@.len() {
                assert(before[k as int] == self.positions@[k as int]@);
            }
        }
        let copy = p.clone();
        if found {
            self.positions.set(k, copy);
        } else {
            self.positions.insert(k, copy);
        }
        assert(self@.positions =~= upserted(before, p@));
        assert forall|i: int| 0 <= i < self@.positions.len() implies decimal::price_ok(
            #[trigger] self@.positions[i].avg_cost as int,
        ) by {
            if !found && i > k {
                assert(self@.positions[i] == before[i - 1]);
            } else if i != k {
                assert(self@.positions[i] == before[i]);
            }
        }
    }

    /// Deletes the position in a stock.
    pub fn delete_position(&mut self, thscode: &str)
        requires
            old(self).wf(),
        ensures
            final(self).wf(),
            final(self)@ == old(self)@.without_position(thscode@),
    {
        let ghost before = self@.positions;
        let k = self.position_rank(thscode);
        proof {
            deleted_positions_are_gone(before, thscode@, thscode@);
        }
        if k < self.positions.len() {
            assert(before[k as int] == self.positions@[k as int]@);
            if text_eq(self.positions[k].thscode.as_str(), thscode) {
                let _gone = self.positions.remove(k);
                assert(self@.positions =~= without(before, thscode@));
                assert forall|i: int| 0 <= i < self@.positions.len() implies decimal::price_ok(
                    #[trigger] self@.positions[i].avg_cost as int,
                ) by {
                    if i < k {
                        assert(self@.positions[i] == before[i]);
                    } else {
                        assert(self@.positions[i] == before[i + 1]);
                    }
                }
            }
        }
    }

    /// Cash and the positions at cost.
    pub fn total_asset_estimate(&self, account: &Account) -> (r: Decimal)
        requires
            self.wf(),
            decimal::money_ok(account.cash as int),
        ensures
            r == self@.asset_at_cost(*account),
            -2 * decimal::MONEY_MAX <= r <= 2 * decimal::MONEY_MAX,
    {
        let ghost ps = self@.positions;
        let mut sum: i128 = 0;
        assert(ps.take(0) =~= Seq::empty());
        for i in 0..self.positions.len()
            invariant
                self.wf(),
                ps == self@.positions,
                sum == cost_value(ps.take(i as int)),
        {
            proof {
                assert(ps.take(i + 1).drop_last() =~= ps.take(i as int));
                assert(ps.take(i + 1).last() == self.positions@[i as int]@);
                lemma_cost_bound(ps, i as int);
                lemma_cost_bound(ps, i + 1);
                let p = ps[i as int];
                assert(-decimal::PRICE_MAX * u32::MAX <= p.avg_cost * p.quantity
                    <= decimal::PRICE_MAX * u32::MAX) by (nonlinear_arith)
                    requires
                        -decimal::PRICE_MAX <= p.avg_cost <= decimal::PRICE_MAX,
                        0 <= p.quantity <= u32::MAX,
                ;
            }
            sum = sum + self.positions[i].avg_cost * self.positions[i].quantity as i128;
        }
        proof {
            assert(ps.take(ps.len() as int) =~= ps);
            lemma_cost_bound(ps, ps.len() as int);
            let n = ps.len() as int;
            let b = decimal::PRICE_MAX * u32::MAX;
            assert(-decimal::MONEY_MAX <= -n * b && n * b <= decimal::MONEY_MAX)
                by (nonlinear_arith)
                requires
                    0 <= n <= 100_000,
                    b == 4_294_967_295_000_000_000_000_000,
                    decimal::MONEY_MAX == 1_000_000_000_000_000_000_000_000_000_000,
            ;
        }
        account.cash + sum
    }

    /// Records a trade and returns its number.
    pub fn insert_trade(&mut self, t: Trade, now_ms: i64) -> (r: i64)
        requires
            old(self).wf(),
            old(self).last_trade_id < i64::MAX,
            decimal::price_ok(t.price as int),
        ensures
            final(self).wf(),
            final(self)@ == old(self)@.with_trade(t.at(now_ms)),
            r == old(self).last_trade_id + 1,
    {
        let ghost before = self@.trades;
        let row = RecentTrade {
            thscode: t.thscode,
            name: t.name,
            side: t.side,
            price: t.price,
            quantity: t.quantity,
            amount: t.amount,
            fee: t.fee,
            ts_ms: now_ms,
            decision_id: t.decision_id,
        };
        self.trades.push(row);
        self.last_trade_id = self.last_trade_id + 1;
        assert(self@.trades =~= before.push(t.at(now_ms)));
        self.last_trade_id
    }

    /// How many shares of a stock were bought in a span of time, up to the largest `u32`.
    pub fn bought_between(&self, thscode: &str, start_ms: i64, end_ms: i64) -> (r: u32)
        ensures
            r as int == decimal::min(
                bought_sum(self@.trades, thscode@, start_ms, end_ms),
                u32::MAX as int,
            ),
    {
        let ghost ts = self@.trades;
        let mut sum: u32 = 0;
        assert(ts.take(0) =~= Seq::empty());
        for i in 0..self.trades.len()
            invariant
                ts == self@.trades,
                sum as int == decimal::min(
                    bought_sum(ts.take(i as int), thscode@, start_ms, end_ms),
                    u32::MAX as int,
                ),
        {
            let t = &self.trades[i];
            proof {
                assert(ts.take(i + 1).drop_last() =~= ts.take(i as int));
                assert(ts.take(i + 1).last() == t@);
            }
            if text_eq(t.thscode.as_str(), thscode) && t.side == OrderSide::Buy && start_ms
                <= t.ts_ms && t.ts_ms < end_ms {
                sum = if t.quantity > u32::MAX - sum {
                    u32::MAX
                } else {
                    sum + t.quantity
                };
            }
        }
        assert(ts.take(ts.len() as int) =~= ts);
        sum
    }

    /// When a stock was last bought.
    pub fn position_bought_at(&self, thscode: &str) -> (r: Option<i64>)
        ensures
            r == last_buy(self@.trades, thscode@),
    {
        let ghost ts = self@.trades;
        let mut best: Option<i64> = None;
        assert(ts.take(0) =~= Seq::empty());
        for i in 0..self.trades.len()
            invariant
                ts == self@.trades,
                best == last_buy(ts.take(i as int), thscode@),
        {
            let t = &self.trades[i];
            proof {
                assert(ts.take(i + 1).drop_last() =~= ts.take(i as int));
                assert(ts.take(i + 1).last() == t@);
            }
            if text_eq(t.thscode.as_str(), thscode) && t.side == OrderSide::Buy {
                let later = match best {
                    Some(b) => t.ts_ms > b,
                    None => true,
                };
                if later {
                    best = Some(t.ts_ms);
                }
            }
        }
        assert(ts.take(ts.len() as int) =~= ts);
        best
    }

    /// When a stock was first bought.
    pub fn first_buy_ms(&self, thscode: &str) -> (r: Option<i64>)
        ensures
            r == first_buy(self@.trades, thscode@),
    {
        let ghost ts = self@.trades;
        let mut best: Option<i64> = None;
        assert(ts.take(0) =~= Seq::empty());
        for i in 0..self.trades.len()
            invariant
                ts == self@.trades,
                best == first_buy(ts.take(i as int), thscode@),
        {
            let t = &self.trades[i];
            proof {
                assert(ts.take(i + 1).drop_last() =~= ts.take(i as int));
                assert(ts.take(i + 1).last() == t@);
            }
            if text_eq(t.thscode.as_str(), thscode) && t.side == OrderSide::Buy {
                let earlier = match best {
                    Some(b) => t.ts_ms < b,
                    None => true,
                };
                if earlier {
                    best = Some(t.ts_ms);
                }
            }
        }
        assert(ts.take(ts.len() as int) =~= ts);
        best
    }

    /// Moves the purchases of a stock back by one day.
    pub fn backdate_buys(&mut self, thscode: &str)
        requires
            old(self).wf(),
            forall|i: int|
                0 <= i < old(self)@.trades.len() ==> #[trigger] old(self)@.trades[i].ts_ms
                    >= i64::MIN + DAY_MS,
        ensures
            final(self).wf(),
            final(self)@ == (LedgerView {
                trades: Seq::new(
                    old(self)@.trades.len(),
                    |i: int|
                        {
                            let t = old(self)@.trades[i];
                            if t.thscode == thscode@ && t.side == OrderSide::Buy {
                                TradeView { ts_ms: (t.ts_ms - DAY_MS) as i64, ..t }
                            } else {
                                t
                            }
                        },
                ),
                ..old(self)@
            }),
    {
        let ghost before = self@;
        let n: usize = self.trades.len();
        for i in 0..n
            invariant
                n == before.trades.len(),
                before.ok(),
                distinct_keys(self.meta@),
                distinct_events(self.processed@),
                self@ == (LedgerView { trades: self@.trades, ..before }),
                self@.trades.len() == before.trades.len(),
                self.trades@.len() == before.trades.len(),
                forall|j: int|
                    0 <= j < before.trades.len() ==> #[trigger] before.trades[j].ts_ms >= i64::MIN
                        + DAY_MS,
                forall|j: int| i <= j < before.trades.len() ==> #[trigger] self@.trades[j]
                    == before.trades[j],
                forall|j: int|
                    0 <= j < i ==> #[trigger] self@.trades[j] == ({
                        let t = before.trades[j];
                        if t.thscode == thscode@ && t.side == OrderSide::Buy {
                            TradeView { ts_ms: (t.ts_ms - DAY_MS) as i64, ..t }
                        } else {
                            t
                        }
                    }),
        {
            assert(self@.trades[i as int] == before.trades[i as int]);
            assert(self@.trades[i as int] == self.trades@[i as int]@);
            let ghost now = self@.trades;
            let mut t = self.trades[i].clone();
            if text_eq(t.thscode.as_str(), thscode) && t.side == OrderSide::Buy {
                t.ts_ms = t.ts_ms - DAY_MS;
                self.trades.set(i, t);
            }
            assert forall|j: int| 0 <= j < before.trades.len() && j != i implies
                #[trigger] self@.trades[j] == now[j] by {}
        }
        assert forall|j: int| 0 <= j < self@.trades.len() implies decimal::price_ok(
            (#[trigger] self@.trades[j]).price as int,
        ) by {
            assert(self@.trades[j].price == before.trades[j].price);
        }
    }

    /// The setting under a key.
    pub fn meta_get(&self, key: &str) -> (r: Option<String>)
        requires
            self.wf(),
        ensures
            match r {
                Some(v) => self@.setting(key@) == Some(v@),
                None => self@.setting(key@) is None,
            },
    {
        for i in 0..self.meta.len()
            invariant
                self.wf(),
                forall|j: int| 0 <= j < i ==> (#[trigger] self.meta@[j]).key@ != key@,
        {
            if text_eq(self.meta[i].key.as_str(), key) {
                proof {
                    lemma_meta_at(self.meta@, i as int);
                }
                return Some(self.meta[i].value.clone());
            }
        }
        assert(!self@.meta.dom().contains(key@)) by {
            if self@.meta.dom().contains(key@) {
                let j = choose|j: int| key_at(self.meta@, key@, j);
                assert(self.meta@[j].key@ == key@);
            }
        }
        None
    }

    /// Writes the setting under a key.
    pub fn meta_set(&mut self, key: &str, value: &str)
        requires
            old(self).wf(),
        ensures
            final(self).wf(),
            final(self)@ == old(self)@.with_meta(key@, value@),
    {
        let ghost before = self.meta@;
        let n: usize = self.meta.len();
        let mut at: usize = 0;
        while at < n && !text_eq(self.meta[at].key.as_str(), key)
            invariant
                n == self.meta@.len(),
                at <= n,
                self.meta@ == before,
                forall|j: int| 0 <= j < at ==> (#[trigger] self.meta@[j]).key@ != key@,
            decreases n - at,
        {
            at = at + 1;
        }
        let entry = MetaEntry { key: key.to_owned(), value: value.to_owned() };
        if at < n {
            self.meta.set(at, entry);
        } else {
            self.meta.push(entry);
        }
        proof {
            let after = self.meta@;
            assert(after[at as int].key@ == key@);
            assert(distinct_keys(after));
            assert forall|k: Seq<char>| #[trigger]
                meta_view(after).dom().contains(k) == meta_view(before).insert(
                    key@,
                    value@,
                ).dom().contains(k) by {
                if k == key@ {
                    assert(key_at(after, k, at as int));
                } else {
                    if meta_view(after).dom().contains(k) {
                        let j = choose|j: int| key_at(after, k, j);
                        assert(key_at(before, k, j));
                    }
                    if meta_view(before).dom().contains(k) {
                        let j = choose|j: int| key_at(before, k, j);
                        assert(key_at(after, k, j));
                    }
                }
            }
            assert forall|k: Seq<char>| #[trigger]
                meta_view(after).dom().contains(k) implies meta_view(after)[k] == meta_view(
                before,
            ).insert(key@, value@)[k] by {
                if k == key@ {
                    lemma_meta_at(after, at as int);
                } else {
                    let j = choose|j: int| key_at(after, k, j);
                    lemma_meta_at(after, j);
                    lemma_meta_at(before, j);
                }
            }
            assert(meta_view(after) =~= meta_view(before).insert(key@, value@));
        }
    }

    /// Whether a corporate action has been applied.
    pub fn is_adjustment_processed(&self, thscode: &str, ex_date_ms: i64) -> (r: bool)
        ensures
            r == self@.is_processed(thscode@, ex_date_ms),
    {
        for i in 0..self.processed.len()
            invariant
                forall|j: int|
                    0 <= j < i ==> !event_at(self.processed@, (thscode@, ex_date_ms), j),
        {
            if text_eq(self.processed[i].thscode.as_str(), thscode)
                && self.processed[i].ex_date_ms == ex_date_ms {
                assert(event_at(self.processed@, (thscode@, ex_date_ms), i as int));
                return true;
            }
        }
        false
    }

    /// Marks a corporate action as applied.
    pub fn mark_adjustment_processed(&mut self, thscode: &str, ex_date_ms: i64, now_ms: i64)
        requires
            old(self).wf(),
        ensures
            final(self).wf(),
            final(self)@ == old(self)@.with_processed(thscode@, ex_date_ms, now_ms),
    {
        if self.is_adjustment_processed(thscode, ex_date_ms) {
            return ;
        }
        let ghost before = self.processed@;
        let ghost e = (thscode@, ex_date_ms);
        assert(forall|i: int| !event_at(before, e, i));
        self.processed.push(
            ProcessedAdjustment { thscode: thscode.to_owned(), ex_date_ms, applied_ms: now_ms },
        );
        proof {
            let after = self.processed@;
            assert forall|i: int, j: int| 0 <= i < j < after.len() implies (
            #[trigger] after[i]).thscode@ != (#[trigger] after[j]).thscode@ || after[i].ex_date_ms
                != after[j].ex_date_ms by {
                if j == before.len() {
                    assert(!event_at(before, e, i));
                }
            }
            assert forall|x: (Seq<char>, i64)| #[trigger]
                processed_view(after).dom().contains(x) == processed_view(before).insert(
                    e,
                    now_ms,
                ).dom().contains(x) by {
                if x == e {
                    assert(event_at(after, x, before.len() as int));
                } else {
                    if processed_view(after).dom().contains(x) {
                        let j = choose|j: int| event_at(after, x, j);
                        assert(event_at(before, x, j));
                    }
                    if processed_view(before).dom().contains(x) {
                        let j = choose|j: int| event_at(before, x, j);
                        assert(event_at(after, x, j));
                    }
                }
            }
            assert forall|x: (Seq<char>, i64)| #[trigger]
                processed_view(after).dom().contains(x) implies processed_view(after)[x]
                == processed_view(before).insert(e, now_ms)[x] by {
                let j = choose|j: int| event_at(after, x, j);
                if x == e {
                    if j < before.len() {
                        assert(event_at(before, e, j));
                    }
                } else {
                    assert(event_at(before, x, j));
                    let l = choose|l: int| event_at(before, x, l);
                    assert(l == j);
                }
            }
            assert(processed_view(after) =~= processed_view(before).insert(e, now_ms));
        }
    }
}


/// Trades by time, the latest first.
fn trades_latest_first(rows: &Vec<RecentTrade>, limit: u32) -> (r: Vec<RecentTrade>)
    ensures
        account::trade_views(r@) == latest_trades(account::trade_views(rows@), limit as int),
{
    let mut keys: Vec<Fraction> = Vec::new();
    for i in 0..rows.len()
        invariant
            keys@.len() == i,
            forall|j: int|
                0 <= j < i ==> #[trigger] keys@[j] == Fraction::whole((-(rows@[j].ts_ms as i128)) as i128),
    {
        keys.push(Fraction { num: -(rows[i].ts_ms as i128), den: 1 });
    }
    let ghost views = account::trade_views(rows@);
    assert(keys@ =~= Seq::new(views.len(), |j: int| Fraction::whole((-(views[j].ts_ms as i128)) as i128)));
    let idx = stable_order(&keys);
    let n: usize = if (limit as u64) < (idx.len() as u64) { limit as usize } else { idx.len() };
    let mut out: Vec<RecentTrade> = Vec::new();
    for i in 0..n
        invariant
            n <= idx@.len(),
            idx@.len() == rows@.len(),
            out@.len() == i,
            order::is_stable_order(keys@, order::ints(idx@), rows@.len()),
            forall|j: int| 0 <= j < i ==> account::trade_views(out@)[j] == account::trade_views(rows@)[#[trigger] order::ints(idx@)[j]],
    {
        assert(0 <= order::ints(idx@)[i as int] < rows@.len());
        let ghost before = account::trade_views(out@);
        let row = rows[idx[i]].clone();
        out.push(row);
        assert(account::trade_views(out@) =~= before.push(account::trade_views(rows@)[idx@[i as int] as int]));
    }
    assert(account::trade_views(out@) =~= latest_trades(views, limit as int));
    out
}

/// Trades by time, the earliest first.
fn trades_earliest_first(rows: &Vec<RecentTrade>) -> (r: Vec<RecentTrade>)
    ensures
        account::trade_views(r@) == earliest_trades(account::trade_views(rows@)),
{
    let mut keys: Vec<Fraction> = Vec::new();
    for i in 0..rows.len()
        invariant
            keys@.len() == i,
            forall|j: int|
                0 <= j < i ==> #[trigger] keys@[j] == Fraction::whole(rows@[j].ts_ms as i128),
    {
        keys.push(Fraction { num: rows[i].ts_ms as i128, den: 1 });
    }
    let ghost views = account::trade_views(rows@);
    assert(keys@ =~= Seq::new(views.len(), |j: int| Fraction::whole(views[j].ts_ms as i128)));
    let idx = stable_order(&keys);
    let n: usize = idx.len();
    let mut out: Vec<RecentTrade> = Vec::new();
    for i in 0..n
        invariant
            n <= idx@.len(),
            idx@.len() == rows@.len(),
            out@.len() == i,
            order::is_stable_order(keys@, order::ints(idx@), rows@.len()),
            forall|j: int| 0 <= j < i ==> account::trade_views(out@)[j] == account::trade_views(rows@)[#[trigger] order::ints(idx@)[j]],
    {
        assert(0 <= order::ints(idx@)[i as int] < rows@.len());
        let ghost before = account::trade_views(out@);
        let row = rows[idx[i]].clone();
        out.push(row);
        assert(account::trade_views(out@) =~= before.push(account::trade_views(rows@)[idx@[i as int] as int]));
    }
    assert(account::trade_views(out@) =~= earliest_trades(views));
    out
}

/// Decisions by time, the latest first.
fn decisions_latest_first(rows: &Vec<DecisionLog>, limit: u32) -> (r: Vec<DecisionLog>)
    ensures
        account::decision_views(r@) == latest_decisions(account::decision_views(rows@), limit as int),
{
    let mut keys: Vec<Fraction> = Vec::new();
    for i in 0..rows.len()
        invariant
            keys@.len() == i,
            forall|j: int|
                0 <= j < i ==> #[trigger] keys@[j] == Fraction::whole((-(rows@[j].ts_ms as i128)) as i128),
    {
        keys.push(Fraction { num: -(rows[i].ts_ms as i128), den: 1 });
    }
    let ghost views = account::decision_views(rows@);
    assert(keys@ =~= Seq::new(views.len(), |j: int| Fraction::whole((-(views[j].ts_ms as i128)) as i128)));
    let idx = stable_order(&keys);
    let n: usize = if (limit as u64) < (idx.len() as u64) { limit as usize } else { idx.len() };
    let mut out: Vec<DecisionLog> = Vec::new();
    for i in 0..n
        invariant
            n <= idx@.len(),
            idx@.len() == rows@.len(),
            out@.len() == i,
            order::is_stable_order(keys@, order::ints(idx@), rows@.len()),
            forall|j: int| 0 <= j < i ==> account::decision_views(out@)[j] == account::decision_views(rows@)[#[trigger] order::ints(idx@)[j]],
    {
        assert(0 <= order::ints(idx@)[i as int] < rows@.len());
        let ghost before = account::decision_views(out@);
        let row = rows[idx[i]].clone();
        out.push(row);
        assert(account::decision_views(out@) =~= before.push(account::decision_views(rows@)[idx@[i as int] as int]));
    }
    assert(account::decision_views(out@) =~= latest_decisions(views, limit as int));
    out
}

/// Reviews by time, the latest first.
fn reviews_latest_first(rows: &Vec<StoredReview>, limit: u32) -> (r: Vec<StoredReview>)
    ensures
        review_views(r@) == latest_reviews(review_views(rows@), limit as int),
{
    let mut keys: Vec<Fraction> = Vec::new();
    for i in 0..rows.len()
        invariant
            keys@.len() == i,
            forall|j: int|
                0 <= j < i ==> #[trigger] keys@[j] == Fraction::whole((-(rows@[j].ts_ms as i128)) as i128),
    {
        keys.push(Fraction { num: -(rows[i].ts_ms as i128), den: 1 });
    }
    let ghost views = review_views(rows@);
    assert(keys@ =~= Seq::new(views.len(), |j: int| Fraction::whole((-(views[j].ts_ms as i128)) as i128)));
    let idx = stable_order(&keys);
    let n: usize = if (limit as u64) < (idx.len() as u64) { limit as usize } else { idx.len() };
    let mut out: Vec<StoredReview> = Vec::new();
    for i in 0..n
        invariant
            n <= idx@.len(),
            idx@.len() == rows@.len(),
            out@.len() == i,
            order::is_stable_order(keys@, order::ints(idx@), rows@.len()),
            forall|j: int| 0 <= j < i ==> review_views(out@)[j] == review_views(rows@)[#[trigger] order::ints(idx@)[j]],
    {
        assert(0 <= order::ints(idx@)[i as int] < rows@.len());
        let ghost before = review_views(out@);
        let row = rows[idx[i]].clone();
        out.push(row);
        assert(review_views(out@) =~= before.push(review_views(rows@)[idx@[i as int] as int]));
    }
    assert(review_views(out@) =~= latest_reviews(views, limit as int));
    out
}

/// Reviews by the days after the decision.
fn reviews_in_days_order(rows: &Vec<StoredReview>) -> (r: Vec<StoredReview>)
    ensures
        review_views(r@) == reviews_by_days(review_views(rows@)),
{
    let mut keys: Vec<Fraction> = Vec::new();
    for i in 0..rows.len()
        invariant
            keys@.len() == i,
            forall|j: int|
                0 <= j < i ==> #[trigger] keys@[j] == Fraction::whole(rows@[j].row.days_after as i128),
    {
        keys.push(Fraction { num: rows[i].row.days_after as i128, den: 1 });
    }
    let ghost views = review_views(rows@);
    assert(keys@ =~= Seq::new(views.len(), |j: int| Fraction::whole(views[j].row.days_after as i128)));
    let idx = stable_order(&keys);
    let n: usize = idx.len();
    let mut out: Vec<StoredReview> = Vec::new();
    for i in 0..n
        invariant
            n <= idx@.len(),
            idx@.len() == rows@.len(),
            out@.len() == i,
            order::is_stable_order(keys@, order::ints(idx@), rows@.len()),
            forall|j: int| 0 <= j < i ==> review_views(out@)[j] == review_views(rows@)[#[trigger] order::ints(idx@)[j]],
    {
        assert(0 <= order::ints(idx@)[i as int] < rows@.len());
        let ghost before = review_views(out@);
        let row = rows[idx[i]].clone();
        out.push(row);
        assert(review_views(out@) =~= before.push(review_views(rows@)[idx@[i as int] as int]));
    }
    assert(review_views(out@) =~= reviews_by_days(views));
    out
}

/// The reviews of a list, without their times.
pub open spec fn review_rows(list: Seq<StoredReviewView>) -> Seq<ReviewView> {
    Seq::new(list.len(), |i: int| list[i].row)
}

pub open spec fn row_views(list: Seq<ReviewRow>) -> Seq<ReviewView> {
    Seq::new(list.len(), |i: int| list[i]@)
}

fn rows_of(list: &Vec<StoredReview>) -> (r: Vec<ReviewRow>)
    ensures
        row_views(r@) == review_rows(review_views(list@)),
{
    let mut out: Vec<ReviewRow> = Vec::new();
    for i in 0..list.len()
        invariant
            out@.len() == i,
            forall|j: int| 0 <= j < i ==> (#[trigger] out@[j])@ == list@[j].row@,
    {
        out.push(list[i].row.clone());
    }
    assert(row_views(out@) =~= review_rows(review_views(list@)));
    out
}

impl AccountDb {
    /// The latest trades, the last one first.
    pub fn recent_trades(&self, limit: u32) -> (r: Vec<RecentTrade>)
        ensures
            account::trade_views(r@) == latest_trades(self@.trades, limit as int),
    {
        trades_latest_first(&self.trades, limit)
    }

    /// The trades that a decision led to, by time.
    pub fn trades_for_decision(&self, decision_id: i64) -> (r: Vec<RecentTrade>)
        ensures
            account::trade_views(r@) == earliest_trades(trades_of(self@.trades, decision_id)),
    {
        let ghost ts = self@.trades;
        let mut rows: Vec<RecentTrade> = Vec::new();
        assert(ts.take(0) =~= Seq::empty());
        assert(account::trade_views(rows@) =~= Seq::empty());
        for i in 0..self.trades.len()
            invariant
                ts == self@.trades,
                account::trade_views(rows@) == trades_of(ts.take(i as int), decision_id),
        {
            proof {
                assert(ts.take(i + 1).drop_last() =~= ts.take(i as int));
                assert(ts.take(i + 1).last() == self.trades@[i as int]@);
            }
            let hit = match self.trades[i].decision_id {
                Some(id) => id == decision_id,
                None => false,
            };
            if hit {
                let ghost before = account::trade_views(rows@);
                rows.push(self.trades[i].clone());
                assert(account::trade_views(rows@) =~= before.push(ts[i as int]));
            }
        }
        assert(ts.take(ts.len() as int) =~= ts);
        trades_earliest_first(&rows)
    }

    /// Logs a decision under the next number, and returns the number.
    pub fn insert_decision_log(&mut self, log: &DecisionLog) -> (r: i64)
        requires
            old(self).wf(),
            old(self).last_decision_id < i64::MAX,
        ensures
            final(self).wf(),
            r == old(self).last_decision_id + 1,
            final(self)@ == (LedgerView {
                decisions: old(self)@.decisions.push(DecisionView { id: r, ..log@ }),
                last_decision_id: r,
                ..old(self)@
            }),
    {
        let ghost before = self@.decisions;
        let mut row = log.clone();
        self.last_decision_id = self.last_decision_id + 1;
        row.id = self.last_decision_id;
        self.decisions.push(row);
        assert(self@.decisions =~= before.push(DecisionView { id: self.last_decision_id, ..log@ }));
        self.last_decision_id
    }

    /// The latest decisions, the last one first.
    pub fn recent_decision_logs(&self, limit: u32) -> (r: Vec<DecisionLog>)
        ensures
            account::decision_views(r@) == latest_decisions(self@.decisions, limit as int),
    {
        decisions_latest_first(&self.decisions, limit)
    }

    /// The latest decisions that were executed, the last one first.
    pub fn recent_executed_decisions(&self, limit: u32) -> (r: Vec<DecisionLog>)
        ensures
            account::decision_views(r@) == latest_decisions(
                decisions_in(self@.decisions, "executed"@),
                limit as int,
            ),
    {
        let ghost ds = self@.decisions;
        let mut rows: Vec<DecisionLog> = Vec::new();
        assert(ds.take(0) =~= Seq::empty());
        assert(account::decision_views(rows@) =~= Seq::empty());
        for i in 0..self.decisions.len()
            invariant
                ds == self@.decisions,
                account::decision_views(rows@) == decisions_in(ds.take(i as int), "executed"@),
        {
            proof {
                assert(ds.take(i + 1).drop_last() =~= ds.take(i as int));
                assert(ds.take(i + 1).last() == self.decisions@[i as int]@);
            }
            if text_eq(self.decisions[i].status.as_str(), "executed") {
                let ghost before = account::decision_views(rows@);
                rows.push(self.decisions[i].clone());
                assert(account::decision_views(rows@) =~= before.push(ds[i as int]));
            }
        }
        assert(ds.take(ds.len() as int) =~= ds);
        decisions_latest_first(&rows, limit)
    }

    /// Sets the status of a decision, and appends to its note.
    pub fn update_decision_status(&mut self, id: i64, status: &str, note_suffix: Option<&str>)
        requires
            old(self).wf(),
        ensures
            final(self).wf(),
            final(self)@ == (LedgerView {
                decisions: Seq::new(
                    old(self)@.decisions.len(),
                    |i: int| with_status(old(self)@.decisions[i], id, status@, note_suffix),
                ),
                ..old(self)@
            }),
    {
        let ghost before = self@;
        let n: usize = self.decisions.len();
        for i in 0..n
            invariant
                n == before.decisions.len(),
                n == self.decisions@.len(),
                before.ok(),
                distinct_keys(self.meta@),
                distinct_events(self.processed@),
                self@ == (LedgerView { decisions: self@.decisions, ..before }),
                forall|j: int|
                    i <= j < n ==> #[trigger] self@.decisions[j] == before.decisions[j],
                forall|j: int|
                    0 <= j < i ==> #[trigger] self@.decisions[j] == with_status(
                        before.decisions[j],
                        id,
                        status@,
                        note_suffix,
                    ),
        {
            assert(self@.decisions[i as int] == before.decisions[i as int]);
            assert(self@.decisions[i as int] == self.decisions@[i as int]@);
            let ghost now = self@.decisions;
            if self.decisions[i].id == id {
                let mut row = self.decisions[i].clone();
                row.status = status.to_owned();
                if let Some(suffix) = note_suffix {
                    row.note.append(suffix);
                }
                self.decisions.set(i, row);
            }
            assert forall|j: int| 0 <= j < n && j != i implies #[trigger] self@.decisions[j]
                == now[j] by {}
        }
    }

    /// Records the value of the account, and returns the number of the record.
    pub fn insert_account_snapshot(
        &mut self,
        ts_ms: i64,
        cash: Decimal,
        market_value: Decimal,
        total_asset: Decimal,
    ) -> (r: i64)
        requires
            old(self).wf(),
            old(self).last_snapshot_id < i64::MAX,
        ensures
            final(self).wf(),
            r == old(self).last_snapshot_id + 1,
            final(self)@ == (LedgerView {
                snapshots: old(self)@.snapshots.push(
                    AccountSnapshot { id: r, ts_ms, cash, market_value, total_asset },
                ),
                last_snapshot_id: r,
                ..old(self)@
            }),
    {
        self.last_snapshot_id = self.last_snapshot_id + 1;
        let id = self.last_snapshot_id;
        self.snapshots.push(AccountSnapshot { id, ts_ms, cash, market_value, total_asset });
        id
    }

    /// The recorded values of the account, by time.
    pub fn account_snapshots(&self) -> (r: Vec<AccountSnapshot>)
        ensures
            r@ == snapshots_by_time(self@.snapshots),
    {
        let mut keys: Vec<Fraction> = Vec::new();
        for i in 0..self.snapshots.len()
            invariant
                keys@.len() == i,
                forall|j: int|
                    0 <= j < i ==> #[trigger] keys@[j] == Fraction::whole(
                        self.snapshots@[j].ts_ms as i128,
                    ),
        {
            keys.push(Fraction { num: self.snapshots[i].ts_ms as i128, den: 1 });
        }
        let ghost rows = self.snapshots@;
        assert(keys@ =~= Seq::new(rows.len(), |j: int| Fraction::whole(rows[j].ts_ms as i128)));
        let idx = stable_order(&keys);
        let mut out: Vec<AccountSnapshot> = Vec::new();
        for i in 0..idx.len()
            invariant
                idx@.len() == self.snapshots@.len(),
                out@.len() == i,
                order::is_stable_order(keys@, order::ints(idx@), self.snapshots@.len()),
                forall|j: int|
                    0 <= j < i ==> out@[j] == self.snapshots@[#[trigger] order::ints(idx@)[j]],
        {
            assert(0 <= order::ints(idx@)[i as int] < self.snapshots@.len());
            out.push(self.snapshots[idx[i]]);
        }
        assert(out@ =~= snapshots_by_time(rows));
        out
    }

    /// Records a review, and returns its number.
    pub fn insert_review(
        &mut self,
        decision_id: i64,
        days_after: u32,
        summary: &str,
        pnl: Decimal,
        now_ms: i64,
    ) -> (r: i64)
        requires
            old(self).wf(),
            old(self).last_review_id < i64::MAX,
            decimal::money_ok(pnl as int),
        ensures
            final(self).wf(),
            r == old(self).last_review_id + 1,
            final(self)@ == (LedgerView {
                reviews: old(self)@.reviews.push(
                    StoredReviewView {
                        ts_ms: now_ms,
                        row: ReviewView { decision_id, days_after, summary: summary@, pnl },
                    },
                ),
                last_review_id: r,
                ..old(self)@
            }),
    {
        let ghost before = self@.reviews;
        self.last_review_id = self.last_review_id + 1;
        self.reviews.push(
            StoredReview {
                ts_ms: now_ms,
                row: ReviewRow { decision_id, days_after, summary: summary.to_owned(), pnl },
            },
        );
        assert(self@.reviews =~= before.push(
            StoredReviewView {
                ts_ms: now_ms,
                row: ReviewView { decision_id, days_after, summary: summary@, pnl },
            },
        ));
        self.last_review_id
    }

    /// The latest reviews, the last one first.
    pub fn recent_reviews(&self, limit: u32) -> (r: Vec<ReviewRow>)
        ensures
            row_views(r@) == review_rows(latest_reviews(self@.reviews, limit as int)),
    {
        let sorted = reviews_latest_first(&self.reviews, limit);
        rows_of(&sorted)
    }

    /// The reviews of a decision, by the days after it.
    pub fn reviews_for_decision(&self, decision_id: i64) -> (r: Vec<ReviewRow>)
        ensures
            row_views(r@) == review_rows(reviews_by_days(reviews_of(self@.reviews, decision_id))),
    {
        let ghost all = self@.reviews;
        let mut rows: Vec<StoredReview> = Vec::new();
        assert(all.take(0) =~= Seq::empty());
        assert(review_views(rows@) =~= Seq::empty());
        for i in 0..self.reviews.len()
            invariant
                all == self@.reviews,
                review_views(rows@) == reviews_of(all.take(i as int), decision_id),
        {
            proof {
                assert(all.take(i + 1).drop_last() =~= all.take(i as int));
                assert(all.take(i + 1).last() == all[i as int]);
            }
            if self.reviews[i].row.decision_id == decision_id {
                let ghost before = review_views(rows@);
                rows.push(self.reviews[i].clone());
                assert(review_views(rows@) =~= before.push(all[i as int]));
            }
        }
        assert(all.take(all.len() as int) =~= all);
        let sorted = reviews_in_days_order(&rows);
        rows_of(&sorted)
    }

    /// Whether a decision has been reviewed so many days after it.
    pub fn review_exists(&self, decision_id: i64, days_after: u32) -> (r: bool)
        ensures
            r == is_reviewed(self@.reviews, decision_id, days_after),
    {
        for i in 0..self.reviews.len()
            invariant
                forall|j: int|
                    0 <= j < i ==> !((#[trigger] self@.reviews[j]).row.decision_id == decision_id
                        && self@.reviews[j].row.days_after == days_after),
        {
            if self.reviews[i].row.decision_id == decision_id && self.reviews[i].row.days_after
                == days_after {
                assert(self@.reviews[i as int].row.decision_id == decision_id);
                return true;
            }
        }
        false
    }

    /// Starts the account anew with `initial_capital`.
    pub fn reset_account(&mut self, initial_capital: Decimal)
        requires
            old(self).wf(),
            decimal::money_ok(initial_capital as int),
        ensures
            final(self).wf(),
            final(self)@ == old(self)@.reset(initial_capital),
    {
        self.positions.clear();
        self.trades.clear();
        self.decisions.clear();
        self.reviews.clear();
        self.snapshots.clear();
        self.processed.clear();
        if self.account.is_some() {
            self.account = Some(Account { cash: initial_capital, initial_capital });
        }
        let ghost meta = self.meta@;
        self.meta_remove("peak_asset");
        self.meta_remove("fuse_until_ms");
        assert(self@.positions =~= Seq::empty());
        assert(self@.trades =~= Seq::empty());
        assert(self@.decisions =~= Seq::empty());
        assert(self@.reviews =~= Seq::empty());
        assert(self@.processed =~= Map::empty());
        assert(self@.meta == meta_view(meta).remove("peak_asset"@).remove("fuse_until_ms"@));
    }

    fn meta_remove(&mut self, key: &str)
        requires
            distinct_keys(old(self).meta@),
        ensures
            distinct_keys(final(self).meta@),
            final(self)@.meta == old(self)@.meta.remove(key@),
            *final(self) == (AccountDb { meta: final(self).meta, ..*old(self) }),
    {
        let ghost before = self.meta@;
        let n: usize = self.meta.len();
        let mut at: usize = 0;
        while at < n && !text_eq(self.meta[at].key.as_str(), key)
            invariant
                n == self.meta@.len(),
                at <= n,
                self.meta@ == before,
                *self == *old(self),
                forall|j: int| 0 <= j < at ==> (#[trigger] self.meta@[j]).key@ != key@,
            decreases n - at,
        {
            at = at + 1;
        }
        if at < n {
            let _gone = self.meta.remove(at);
            proof {
                let after = self.meta@;
                assert forall|i: int| 0 <= i < after.len() implies #[trigger] after[i] == before[if i
                    < at {
                    i
                } else {
                    i + 1
                }] by {}
                assert forall|i: int, j: int| 0 <= i < j < after.len() implies
                    #[trigger] after[i].key@ != #[trigger] after[j].key@ by {}
                lemma_removed_meta(before, after, key@, at as int);
            }
        } else {
            proof {
                assert(!meta_view(before).dom().contains(key@)) by {
                    if meta_view(before).dom().contains(key@) {
                        let j = choose|j: int| key_at(before, key@, j);
                        assert(before[j].key@ == key@);
                    }
                }
                assert(meta_view(before).remove(key@) =~= meta_view(before));
            }
        }
    }
}

proof fn lemma_removed_meta(
    before: Seq<MetaEntry>,
    after: Seq<MetaEntry>,
    key: Seq<char>,
    at: int,
)
    requires
        0 <= at < before.len(),
        before[at].key@ == key,
        distinct_keys(before),
        distinct_keys(after),
        after.len() == before.len() - 1,
        forall|i: int|
            0 <= i < after.len() ==> #[trigger] after[i] == before[if i < at {
                i
            } else {
                i + 1
            }],
    ensures
        meta_view(after) == meta_view(before).remove(key),
{
    assert forall|k: Seq<char>| #[trigger]
        meta_view(after).dom().contains(k) == meta_view(before).remove(key).dom().contains(k) by {
        if meta_view(after).dom().contains(k) {
            let j = choose|j: int| key_at(after, k, j);
            let o = if j < at {
                j
            } else {
                j + 1
            };
            assert(after[j] == before[o]);
            assert(key_at(before, k, o));
            assert(k != key);
        }
        if meta_view(before).dom().contains(k) && k != key {
            let o = choose|o: int| key_at(before, k, o);
            let j = if o < at {
                o
            } else {
                o - 1
            };
            assert(after[j] == before[o]);
            assert(key_at(after, k, j));
        }
    }
    assert forall|k: Seq<char>| #[trigger]
        meta_view(after).dom().contains(k) implies meta_view(after)[k] == meta_view(before).remove(
        key,
    )[k] by {
        let j = choose|j: int| key_at(after, k, j);
        let o = if j < at {
            j
        } else {
            j + 1
        };
        assert(after[j] == before[o]);
        lemma_meta_at(after, j);
        lemma_meta_at(before, o);
    }
    assert(meta_view(after) =~= meta_view(before).remove(key));
}

/// The trades of a decision are trades of the books.
pub proof fn lemma_trades_of(books: LedgerView, decision_id: i64)
    requires
        books.ok(),
    ensures
        ({
            let of = trades_of(books.trades, decision_id);
            &&& of.len() <= books.trades.len()
            &&& earliest_trades(of).len() == of.len()
            &&& forall|i: int|
                0 <= i < of.len() ==> decimal::price_ok(
                    (#[trigger] earliest_trades(of)[i]).price as int,
                )
        }),
{
    let of = trades_of(books.trades, decision_id);
    lemma_trades_of_prices(books.trades, decision_id);
    let keys = Seq::new(of.len(), |i: int| Fraction::whole(of[i].ts_ms as i128));
    order::lemma_arranged_in_range(keys, of.len());
    let o = order::arranged(keys);
    assert forall|i: int| 0 <= i < of.len() implies decimal::price_ok(
        (#[trigger] earliest_trades(of)[i]).price as int,
    ) by {
        assert(0 <= o[i] < of.len());
        assert(earliest_trades(of)[i] == of[o[i]]);
    }
}

proof fn lemma_trades_of_prices(trades: Seq<TradeView>, decision_id: i64)
    requires
        forall|i: int| 0 <= i < trades.len() ==> decimal::price_ok((#[trigger] trades[i]).price as int),
    ensures
        trades_of(trades, decision_id).len() <= trades.len(),
        forall|i: int|
            0 <= i < trades_of(trades, decision_id).len() ==> decimal::price_ok(
                (#[trigger] trades_of(trades, decision_id)[i]).price as int,
            ),
    decreases trades.len(),
{
    if trades.len() > 0 {
        let short = trades.drop_last();
        assert forall|i: int| 0 <= i < short.len() implies decimal::price_ok(
            (#[trigger] short[i]).price as int,
        ) by {
            assert(short[i] == trades[i]);
        }
        lemma_trades_of_prices(short, decision_id);
        let before = trades_of(short, decision_id);
        let all = trades_of(trades, decision_id);
        assert forall|i: int| 0 <= i < all.len() implies decimal::price_ok(
            (#[trigger] all[i]).price as int,
        ) by {
            if i < before.len() {
                assert(all[i] == before[i]);
            } else {
                assert(all[i] == trades[trades.len() - 1]);
            }
        }
    }
}

/// The results of the latest reviews are in range.
pub proof fn lemma_recent_reviews_ok(books: LedgerView, limit: int, i: int)
    requires
        books.ok(),
        limit >= 0,
        0 <= i < review_rows(latest_reviews(books.reviews, limit)).len(),
    ensures
        decimal::money_ok(review_rows(latest_reviews(books.reviews, limit))[i].pnl as int),
{
    let reviews = books.reviews;
    let keys = Seq::new(
        reviews.len(),
        |j: int| Fraction::whole((-(reviews[j].ts_ms as i128)) as i128),
    );
    order::lemma_arranged_in_range(keys, reviews.len());
    let o = order::arranged(keys);
    assert(0 <= o[i] < reviews.len());
    assert(decimal::money_ok(reviews[o[i]].row.pnl as int));
}

/// A decision with another status and a longer note, where it has the number.
pub open spec fn with_status(
    d: DecisionView,
    id: i64,
    status: Seq<char>,
    note_suffix: Option<&str>,
) -> DecisionView {
    if d.id == id {
        DecisionView {
            status,
            note: match note_suffix {
                Some(suffix) => d.note + suffix@,
                None => d.note,
            },
            ..d
        }
    } else {
        d
    }
}

/// Whether a decision has been reviewed so many days after it.
pub open spec fn is_reviewed(
    reviews: Seq<StoredReviewView>,
    decision_id: i64,
    days_after: u32,
) -> bool {
    exists|i: int|
        0 <= i < reviews.len() && (#[trigger] reviews[i]).row.decision_id == decision_id
            && reviews[i].row.days_after == days_after
}

/// After a reset nothing is held, traded or logged, and the cash is the new capital.
pub proof fn a_reset_starts_anew(books: LedgerView, initial_capital: Decimal, code: Seq<char>)
    ensures
        ({
            let after = books.reset(initial_capital);
            &&& held(after.positions, code) is None
            &&& after.trades.len() == 0
            &&& after.decisions.len() == 0
            &&& after.reviews.len() == 0
            &&& after.opened(initial_capital).account == Some(
                Account { cash: initial_capital, initial_capital },
            )
            &&& after.setting("peak_asset"@) is None
            &&& after.setting("fuse_until_ms"@) is None
        }),
{
}

/// A setting that is written is read back, and the other settings stay.
pub proof fn written_settings_are_read_back(
    books: LedgerView,
    key: Seq<char>,
    value: Seq<char>,
    other: Seq<char>,
)
    ensures
        books.with_meta(key, value).setting(key) == Some(value),
        other != key ==> books.with_meta(key, value).setting(other) == books.setting(other),
{
}

} // verus!
