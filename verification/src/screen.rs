//! Screening the market: hard filters, two pools of candidates, and a short list of the best.
//!
//! One pool holds stocks in an uptrend that rise gently, the other those that have come back
//! to their average on low volume. The factors of a score are continuous, so that candidates
//! differ; the scores of a short list are spread over 0.3 to 1.

use vstd::prelude::*;

use crate::decimal;
use crate::decimal::{
    decimal_max, decimal_min, is_price, is_price_or_none, rounded_div, Decimal, PRICE_MAX, UNIT,
};
use crate::order;
use crate::order::{stable_order, Fraction};
use crate::rules;
use crate::rules::board_name;
use crate::text;
use crate::text::{push_quotient, text_contains, text_eq};

verus! {

/// The share 1 of a factor: factors have twelve decimal digits.
pub const FINE: i128 = 1_000_000_000_000;

/// The score 1: a score is a sum of factors in hundredths.
pub const SCORE_ONE: i128 = 100_000_000_000_000;

/// The smallest spread over which the scores of a short list are spread: 0.000001.
pub const MIN_SPREAD: i128 = 100_000_000;

/// The smallest turnover of a candidate: 30 million yuan.
pub const MIN_TURNOVER: Decimal = 30_000_000_000_000;

/// A rise in percent from which on a stock counts as limit-up.
pub const MAX_PCT_LIMIT: Decimal = 9_500_000;

/// The most candidates of one industry.
pub const MAX_PER_INDUSTRY: usize = 2;

/// The factors of a stock.
#[derive(Debug)]
pub struct ScreenRow {
    pub thscode: String,
    pub price: Decimal,
    /// Change of the day in percent.
    pub pct: Decimal,
    pub turnover: Decimal,
    pub ma20: Decimal,
    pub ma60: Decimal,
    /// Change over five days in percent.
    pub chg5: Decimal,
    pub volume_ratio: Option<Decimal>,
    /// Where the price stands between the low and the high of sixty days, 0 to 1.
    pub position: Option<Decimal>,
    /// The adjusted close.
    pub adj_close: Decimal,
}

#[verifier::ext_equal]
pub struct ScreenRowView {
    pub thscode: Seq<char>,
    pub price: Decimal,
    pub pct: Decimal,
    pub turnover: Decimal,
    pub ma20: Decimal,
    pub ma60: Decimal,
    pub chg5: Decimal,
    pub volume_ratio: Option<Decimal>,
    pub position: Option<Decimal>,
    pub adj_close: Decimal,
}

impl View for ScreenRow {
    type V = ScreenRowView;

    open spec fn view(&self) -> ScreenRowView {
        ScreenRowView {
            thscode: self.thscode@,
            price: self.price,
            pct: self.pct,
            turnover: self.turnover,
            ma20: self.ma20,
            ma60: self.ma60,
            chg5: self.chg5,
            volume_ratio: self.volume_ratio,
            position: self.position,
            adj_close: self.adj_close,
        }
    }
}

impl ScreenRowView {
    pub open spec fn ok(self) -> bool {
        &&& decimal::price_ok(self.pct as int)
        &&& decimal::price_ok(self.ma20 as int)
        &&& decimal::price_ok(self.ma60 as int)
        &&& decimal::price_ok(self.chg5 as int)
        &&& decimal::price_ok(self.adj_close as int)
        &&& self.volume_ratio matches Some(v) ==> decimal::price_ok(v as int)
        &&& self.position matches Some(v) ==> decimal::price_ok(v as int)
    }
}

impl ScreenRow {
    /// Whether the factors are in range.
    pub fn is_ok(&self) -> (r: bool)
        ensures
            r == self@.ok(),
    {
        is_price(self.pct) && is_price(self.ma20) && is_price(self.ma60) && is_price(self.chg5)
            && is_price(self.adj_close) && is_price_or_none(self.volume_ratio) && is_price_or_none(
            self.position,
        )
    }
}

/// A stock of the market with its name and its industry, where it is known.
#[derive(Debug)]
pub struct Listing {
    pub row: ScreenRow,
    pub name: String,
    pub industry: Option<String>,
}

#[verifier::ext_equal]
pub struct ListingView {
    pub row: ScreenRowView,
    pub name: Seq<char>,
    pub industry: Option<Seq<char>>,
}

impl View for Listing {
    type V = ListingView;

    open spec fn view(&self) -> ListingView {
        ListingView {
            row: self.row@,
            name: self.name@,
            industry: match self.industry {
                Some(s) => Some(s@),
                None => None,
            },
        }
    }
}

impl ListingView {
    /// What counts as the industry: the industry, or else the board.
    pub open spec fn group(self) -> Seq<char> {
        match self.industry {
            Some(s) => s,
            None => rules::board_of(self.row.thscode),
        }
    }

    /// Traded enough, not limit-up, and neither under special treatment nor about to be
    /// delisted.
    pub open spec fn passes(self) -> bool {
        &&& self.row.turnover >= MIN_TURNOVER
        &&& self.row.pct < MAX_PCT_LIMIT
        &&& !text::contains_part(self.name, "ST"@)
        &&& !text::contains_part(self.name, "退"@)
    }
}

pub open spec fn listing_views(list: Seq<Listing>) -> Seq<ListingView> {
    Seq::new(list.len(), |i: int| list[i]@)
}

/// What kind of candidate a stock is.
#[derive(Debug, Clone, Copy, PartialEq, Eq, Structural)]
pub enum Kind {
    Momentum,
    Pullback,
}

impl Kind {
    pub open spec fn text(self) -> Seq<char> {
        match self {
            Kind::Momentum => "强势型"@,
            Kind::Pullback => "回调型"@,
        }
    }

    /// The name of the kind.
    pub fn label(self) -> (r: &'static str)
        ensures
            r@ == self.text(),
    {
        match self {
            Kind::Momentum => "强势型",
            Kind::Pullback => "回调型",
        }
    }
}

/// A candidate of the short list.
#[derive(Debug)]
pub struct Candidate {
    pub thscode: String,
    pub name: String,
    pub price: Decimal,
    pub pct: Decimal,
    pub volume_ratio: Option<Decimal>,
    pub reason: String,
    /// The score within the short list, 0.3 to 1.
    pub score: Decimal,
}

#[verifier::ext_equal]
pub struct CandidateView {
    pub thscode: Seq<char>,
    pub name: Seq<char>,
    pub price: Decimal,
    pub pct: Decimal,
    pub volume_ratio: Option<Decimal>,
    pub reason: Seq<char>,
    pub score: Decimal,
}

impl View for Candidate {
    type V = CandidateView;

    open spec fn view(&self) -> CandidateView {
        CandidateView {
            thscode: self.thscode@,
            name: self.name@,
            price: self.price,
            pct: self.pct,
            volume_ratio: self.volume_ratio,
            reason: self.reason@,
            score: self.score,
        }
    }
}

pub open spec fn candidate_views(list: Seq<Candidate>) -> Seq<CandidateView> {
    Seq::new(list.len(), |i: int| list[i]@)
}

/// `num / den` between 0 and 1, with twelve digits.
pub open spec fn share(num: int, den: int) -> int {
    if num <= 0 {
        0
    } else if num >= den {
        FINE as int
    } else {
        (num * FINE) / den
    }
}

/// A rise from 0 at `lo` to 1 at `hi`.
pub open spec fn ramp_of(x: Fraction, lo: int, hi: int) -> int {
    if hi <= lo {
        0
    } else {
        share(x.num * UNIT - lo * x.den, (hi - lo) * x.den)
    }
}

/// A triangle: 1 at `ideal`, 0 from `tol` away on.
pub open spec fn peak_of(x: Fraction, ideal: int, tol: int) -> int {
    share(tol * x.den - decimal::abs(x.num * UNIT - ideal * x.den), tol * x.den)
}

/// A decimal as a fraction.
pub open spec fn fraction_of(d: Decimal) -> Fraction {
    Fraction { num: d, den: UNIT }
}

/// The change from `base` to `value` in percent.
pub open spec fn change_percent(value: Decimal, base: Decimal) -> Fraction {
    Fraction { num: ((value - base) * 100) as i128, den: base }
}

/// The score in an uptrend: averages that spread, a price above them, a gentle rise on more
/// volume, and room above. `None` where the price and the averages do not stand in order.
pub open spec fn momentum_score(s: ScreenRowView) -> Option<int> {
    if s.ma20 <= 0 || s.ma60 <= 0 || s.adj_close <= 0 || !(s.adj_close > s.ma20 && s.ma20
        > s.ma60) {
        None
    } else {
        Some(
            25 * ramp_of(change_percent(s.ma20, s.ma60), 0, 4_000_000) + 20 * ramp_of(
                change_percent(s.adj_close, s.ma20),
                0,
                1_500_000,
            ) + 20 * peak_of(fraction_of(s.pct), 2_000_000, 6_000_000) + (match s.volume_ratio {
                Some(v) => 20 * peak_of(fraction_of(v), 1_800_000, 2_000_000),
                None => 10 * FINE,
            }) + (match s.position {
                Some(v) => 15 * peak_of(fraction_of(v), 500_000, 500_000),
                None => 0,
            }),
        )
    }
}

/// The score of a pullback: the longer averages in order, and a price that has come back to
/// the shorter one, 3.5% below to 2% above it, on low volume. `None` otherwise.
pub open spec fn pullback_score(s: ScreenRowView) -> Option<int> {
    if s.ma20 <= 0 || s.ma60 <= 0 || s.adj_close <= 0 || s.ma20 <= s.ma60 || !(-3_500_000 * s.ma20
        <= (s.adj_close - s.ma20) * 100 * UNIT <= 2_000_000 * s.ma20) {
        None
    } else {
        Some(
            35 * peak_of(change_percent(s.adj_close, s.ma20), -500_000, 3_000_000) + 20 * peak_of(
                fraction_of(s.pct),
                -1_000_000,
                4_000_000,
            ) + 20 * peak_of(fraction_of(s.chg5), -3_000_000, 7_000_000) + (match s.volume_ratio {
                Some(v) => 15 * peak_of(fraction_of(v), 800_000, 800_000),
                None => 0,
            }) + (match s.position {
                Some(v) => 10 * peak_of(fraction_of(v), 400_000, 500_000),
                None => 0,
            }),
        )
    }
}

/// The largest numerator of a fraction that is weighed.
pub const WEIGH_MAX: i128 = 200_000_000_000_000_000;

/// The largest bound or tolerance: a thousand.
pub const BOUND_MAX: i128 = 1_000_000_000;

pub open spec fn weighable(x: Fraction) -> bool {
    &&& 0 < x.den <= PRICE_MAX
    &&& -WEIGH_MAX <= x.num <= WEIGH_MAX
}

fn bounded_share(num: i128, den: i128) -> (r: i128)
    requires
        den <= 2_000_000_000_000_000_000_000_000,
    ensures
        r == share(num as int, den as int),
        0 <= r <= FINE,
{
    if num <= 0 {
        0
    } else if num >= den {
        FINE
    } else {
        proof {
            vstd::arithmetic::div_mod::lemma_div_pos_is_pos(num * FINE, den as int);
            vstd::arithmetic::div_mod::lemma_multiply_divide_lt(
                num * FINE,
                den as int,
                FINE as int,
            );
            assert(num * FINE < den * FINE);
        }
        num * FINE / den
    }
}

proof fn lemma_bound_product(a: int, b: int)
    requires
        -BOUND_MAX <= a <= BOUND_MAX,
        0 < b <= PRICE_MAX,
    ensures
        -BOUND_MAX * PRICE_MAX <= a * b <= BOUND_MAX * PRICE_MAX,
{
    assert(-BOUND_MAX * PRICE_MAX <= a * b <= BOUND_MAX * PRICE_MAX) by (nonlinear_arith)
        requires
            -BOUND_MAX <= a <= BOUND_MAX,
            0 < b <= PRICE_MAX,
            BOUND_MAX == 1_000_000_000,
            PRICE_MAX == 1_000_000_000_000_000,
    ;
}

/// A rise from 0 at `lo` to 1 at `hi`.
pub fn ramp(x: Fraction, lo: Decimal, hi: Decimal) -> (r: i128)
    requires
        weighable(x),
        0 <= lo <= BOUND_MAX,
        0 <= hi <= BOUND_MAX,
    ensures
        r == ramp_of(x, lo as int, hi as int),
        0 <= r <= FINE,
{
    if hi <= lo {
        return 0;
    }
    proof {
        lemma_bound_product(lo as int, x.den as int);
        lemma_bound_product(hi - lo, x.den as int);
    }
    bounded_share(x.num * UNIT - lo * x.den, (hi - lo) * x.den)
}

/// A triangle: 1 at `ideal`, 0 from `tol` away on.
pub fn peak(x: Fraction, ideal: Decimal, tol: Decimal) -> (r: i128)
    requires
        weighable(x),
        -BOUND_MAX <= ideal <= BOUND_MAX,
        0 < tol <= BOUND_MAX,
    ensures
        r == peak_of(x, ideal as int, tol as int),
        0 <= r <= FINE,
{
    proof {
        lemma_bound_product(ideal as int, x.den as int);
        lemma_bound_product(tol as int, x.den as int);
    }
    let off: i128 = x.num * UNIT - ideal * x.den;
    let away: i128 = if off < 0 {
        -off
    } else {
        off
    };
    bounded_share(tol * x.den - away, tol * x.den)
}

/// The score of a stock in an uptrend.
pub fn score_momentum(s: &ScreenRow) -> (r: Option<i128>)
    requires
        s@.ok(),
    ensures
        match momentum_score(s@) {
            Some(v) => r == Some(v as i128) && 0 <= v <= SCORE_ONE,
            None => r is None,
        },
{
    if s.ma20 <= 0 || s.ma60 <= 0 || s.adj_close <= 0 {
        return None;
    }
    if !(s.adj_close > s.ma20 && s.ma20 > s.ma60) {
        return None;
    }
    let spread = ramp(Fraction { num: (s.ma20 - s.ma60) * 100, den: s.ma60 }, 0, 4_000_000);
    let above = ramp(Fraction { num: (s.adj_close - s.ma20) * 100, den: s.ma20 }, 0, 1_500_000);
    let rise = peak(Fraction { num: s.pct, den: UNIT }, 2_000_000, 6_000_000);
    let volume: i128 = match s.volume_ratio {
        Some(v) => 20 * peak(Fraction { num: v, den: UNIT }, 1_800_000, 2_000_000),
        None => 10 * FINE,
    };
    let place: i128 = match s.position {
        Some(v) => 15 * peak(Fraction { num: v, den: UNIT }, 500_000, 500_000),
        None => 0,
    };
    Some(25 * spread + 20 * above + 20 * rise + volume + place)
}

/// The score of a stock that has come back to its average.
pub fn score_pullback(s: &ScreenRow) -> (r: Option<i128>)
    requires
        s@.ok(),
    ensures
        match pullback_score(s@) {
            Some(v) => r == Some(v as i128) && 0 <= v <= SCORE_ONE,
            None => r is None,
        },
{
    if s.ma20 <= 0 || s.ma60 <= 0 || s.adj_close <= 0 {
        return None;
    }
    if s.ma20 <= s.ma60 {
        return None;
    }
    let change: i128 = (s.adj_close - s.ma20) * 100;
    if change * UNIT < -3_500_000 * s.ma20 || change * UNIT > 2_000_000 * s.ma20 {
        return None;
    }
    let near = peak(Fraction { num: change, den: s.ma20 }, -500_000, 3_000_000);
    let day = peak(Fraction { num: s.pct, den: UNIT }, -1_000_000, 4_000_000);
    let week = peak(Fraction { num: s.chg5, den: UNIT }, -3_000_000, 7_000_000);
    let volume: i128 = match s.volume_ratio {
        Some(v) => 15 * peak(Fraction { num: v, den: UNIT }, 800_000, 800_000),
        None => 0,
    };
    let place: i128 = match s.position {
        Some(v) => 10 * peak(Fraction { num: v, den: UNIT }, 400_000, 500_000),
        None => 0,
    };
    Some(35 * near + 20 * day + 20 * week + volume + place)
}


/// The score of a listing as a candidate of a kind; none where a hard filter or the shape of
/// its chart keeps it out.
pub open spec fn score_as(l: ListingView, kind: Kind) -> Option<int> {
    if !l.passes() {
        None
    } else {
        match kind {
            Kind::Momentum => momentum_score(l.row),
            Kind::Pullback => pullback_score(l.row),
        }
    }
}

/// The candidates of a kind: score and place in the list.
pub open spec fn pool(list: Seq<ListingView>, kind: Kind) -> Seq<(int, int)>
    decreases list.len(),
{
    if list.len() == 0 {
        Seq::empty()
    } else {
        let before = pool(list.drop_last(), kind);
        match score_as(list.last(), kind) {
            Some(v) => before.push((v, list.len() - 1)),
            None => before,
        }
    }
}

/// A pool with the best score first.
pub open spec fn best_first(pool: Seq<(int, int)>) -> Seq<(int, int)> {
    order::picked(
        pool,
        order::arranged(
            Seq::new(pool.len(), |i: int| Fraction::whole((-pool[i].0) as i128)),
        ),
        pool.len() as int,
    )
}

/// A stock that was picked: its score, its place in the list, and as what.
#[derive(Debug, Clone, Copy, PartialEq, Eq, Structural)]
pub struct Pick {
    pub score: i128,
    pub row: usize,
    pub kind: Kind,
}

/// Whether a stock is among the picks.
pub open spec fn has_code(list: Seq<ListingView>, picks: Seq<Pick>, code: Seq<char>) -> bool {
    exists|i: int|
        0 <= i < picks.len() && list[#[trigger] picks[i].row as int].row.thscode == code
}

/// The picks with those of a pool added, in its order, up to `count` and each stock once.
pub open spec fn filled(
    list: Seq<ListingView>,
    picks: Seq<Pick>,
    pool: Seq<(int, int)>,
    count: int,
    kind: Kind,
) -> Seq<Pick>
    decreases pool.len(),
{
    if pool.len() == 0 {
        picks
    } else {
        let before = filled(list, picks, pool.drop_last(), count, kind);
        let (score, row) = pool.last();
        if before.len() < count && !has_code(list, before, list[row].row.thscode) {
            before.push(Pick { score: score as i128, row: row as usize, kind })
        } else {
            before
        }
    }
}

/// The picks before industries are looked at: half of them from the uptrends, then
/// pullbacks, and then whatever is left.
pub open spec fn picks_of(list: Seq<ListingView>, count: int) -> Seq<Pick> {
    let rising = best_first(pool(list, Kind::Momentum));
    let dips = best_first(pool(list, Kind::Pullback));
    let half = decimal::min((count + 1) / 2, rising.len() as int);
    let first = filled(list, Seq::empty(), rising.take(half), count, Kind::Momentum);
    let second = filled(list, first, dips, count, Kind::Pullback);
    filled(list, second, rising.skip(half) + dips, count, Kind::Momentum)
}

/// How many of the picks are in a group.
pub open spec fn in_group(list: Seq<ListingView>, picks: Seq<Pick>, group: Seq<char>) -> int
    decreases picks.len(),
{
    if picks.len() == 0 {
        0
    } else {
        in_group(list, picks.drop_last(), group) + if list[picks.last().row as int].group()
            == group {
            1int
        } else {
            0int
        }
    }
}

/// The picks without those that come third or later in their group.
pub open spec fn spread_out(list: Seq<ListingView>, picks: Seq<Pick>) -> Seq<Pick>
    decreases picks.len(),
{
    if picks.len() == 0 {
        Seq::empty()
    } else {
        let before = spread_out(list, picks.drop_last());
        let p = picks.last();
        if in_group(list, picks.drop_last(), list[p.row as int].group()) < MAX_PER_INDUSTRY {
            before.push(p)
        } else {
            before
        }
    }
}

/// The lowest score of the picks.
pub open spec fn lowest(picks: Seq<Pick>) -> int
    decreases picks.len(),
{
    if picks.len() <= 1 {
        picks[0].score as int
    } else {
        decimal::min(lowest(picks.drop_last()), picks.last().score as int)
    }
}

/// The highest score of the picks.
pub open spec fn highest(picks: Seq<Pick>) -> int
    decreases picks.len(),
{
    if picks.len() <= 1 {
        picks[0].score as int
    } else {
        decimal::max(highest(picks.drop_last()), picks.last().score as int)
    }
}

/// A pick as a candidate. Its score runs from 0.3 at the lowest one to 1 at the highest.
pub open spec fn candidate_of(
    list: Seq<ListingView>,
    p: Pick,
    low: int,
    spread: int,
) -> CandidateView {
    let l = list[p.row as int];
    let num = 3 * spread + 7 * (p.score - low);
    let den = 10 * spread;
    CandidateView {
        thscode: l.row.thscode,
        name: l.name,
        price: l.row.price,
        pct: l.row.pct,
        volume_ratio: l.row.volume_ratio,
        reason: p.kind.text() + "("@ + text::quotient_text(num, den, 2, false) + ")"@,
        score: decimal::div_round(num * UNIT, den) as Decimal,
    }
}

/// The short list of a market.
pub open spec fn short_list(list: Seq<ListingView>, count: int) -> Seq<CandidateView> {
    let picks = spread_out(list, picks_of(list, count));
    let low = lowest(picks);
    let spread = decimal::max(highest(picks) - low, MIN_SPREAD as int);
    Seq::new(picks.len(), |i: int| candidate_of(list, picks[i], low, spread))
}

/// A pool as numbers.
pub open spec fn pool_view(list: Seq<(i128, usize)>) -> Seq<(int, int)> {
    Seq::new(list.len(), |i: int| (list[i].0 as int, list[i].1 as int))
}

/// What holds of the members of a pool.
pub open spec fn pool_ok(list: Seq<(i128, usize)>, n: int) -> bool {
    forall|i: int|
        0 <= i < list.len() ==> 0 <= (#[trigger] list[i]).0 <= SCORE_ONE && list[i].1 < n
}

fn listing_passes(l: &Listing) -> (r: bool)
    ensures
        r == l@.passes(),
{
    if l.row.turnover < MIN_TURNOVER {
        return false;
    }
    if l.row.pct >= MAX_PCT_LIMIT {
        return false;
    }
    !text_contains(l.name.as_str(), "ST") && !text_contains(l.name.as_str(), "退")
}

fn build_pool(list: &Vec<Listing>, kind: Kind) -> (r: Vec<(i128, usize)>)
    requires
        forall|i: int| 0 <= i < list@.len() ==> (#[trigger] list@[i]).row@.ok(),
    ensures
        pool_view(r@) == pool(listing_views(list@), kind),
        pool_ok(r@, list@.len() as int),
{
    let ghost all = listing_views(list@);
    let mut out: Vec<(i128, usize)> = Vec::new();
    assert(all.take(0) =~= Seq::empty());
    assert(pool_view(out@) =~= Seq::empty());
    for i in 0..list.len()
        invariant
            all == listing_views(list@),
            forall|j: int| 0 <= j < list@.len() ==> (#[trigger] list@[j]).row@.ok(),
            pool_view(out@) == pool(all.take(i as int), kind),
            pool_ok(out@, list@.len() as int),
    {
        proof {
            assert(all.take(i + 1).drop_last() =~= all.take(i as int));
            assert(all.take(i + 1).last() == list@[i as int]@);
        }
        if listing_passes(&list[i]) {
            let score = match kind {
                Kind::Momentum => score_momentum(&list[i].row),
                Kind::Pullback => score_pullback(&list[i].row),
            };
            if let Some(v) = score {
                let ghost before = pool_view(out@);
                out.push((v, i));
                assert(pool_view(out@) =~= before.push((v as int, i as int)));
            }
        }
    }
    assert(all.take(all.len() as int) =~= all);
    out
}

fn rank_pool(list: &Vec<(i128, usize)>, n: usize) -> (r: Vec<(i128, usize)>)
    requires
        pool_ok(list@, n as int),
    ensures
        pool_view(r@) == best_first(pool_view(list@)),
        pool_ok(r@, n as int),
{
    let mut keys: Vec<Fraction> = Vec::new();
    for i in 0..list.len()
        invariant
            pool_ok(list@, n as int),
            keys@.len() == i,
            forall|j: int|
                0 <= j < i ==> #[trigger] keys@[j] == Fraction::whole((-list@[j].0) as i128)
                    && keys@[j].ok(),
    {
        keys.push(Fraction { num: -list[i].0, den: 1 });
    }
    let ghost view = pool_view(list@);
    assert(keys@ =~= Seq::new(view.len(), |j: int| Fraction::whole((-view[j].0) as i128)));
    let idx = stable_order(&keys);
    let mut out: Vec<(i128, usize)> = Vec::new();
    for i in 0..idx.len()
        invariant
            pool_ok(list@, n as int),
            idx@.len() == list@.len(),
            out@.len() == i,
            order::is_stable_order(keys@, order::ints(idx@), list@.len()),
            pool_ok(out@, n as int),
            forall|j: int|
                0 <= j < i ==> out@[j] == list@[#[trigger] order::ints(idx@)[j]],
    {
        assert(0 <= order::ints(idx@)[i as int] < list@.len());
        out.push(list[idx[i]]);
    }
    assert(pool_view(out@) =~= best_first(view));
    out
}

/// What holds of picks.
pub open spec fn picks_ok(picks: Seq<Pick>, n: int) -> bool {
    forall|i: int|
        0 <= i < picks.len() ==> 0 <= (#[trigger] picks[i]).score <= SCORE_ONE && picks[i].row < n
}

fn is_picked(list: &Vec<Listing>, picks: &Vec<Pick>, thscode: &str) -> (r: bool)
    requires
        picks_ok(picks@, list@.len() as int),
    ensures
        r == has_code(listing_views(list@), picks@, thscode@),
{
    for i in 0..picks.len()
        invariant
            picks_ok(picks@, list@.len() as int),
            forall|j: int|
                0 <= j < i ==> listing_views(list@)[#[trigger] picks@[j].row as int].row.thscode
                    != thscode@,
    {
        let row = picks[i].row;
        assert(listing_views(list@)[row as int] == list@[row as int]@);
        if text_eq(list[row].row.thscode.as_str(), thscode) {
            assert(listing_views(list@)[picks@[i as int].row as int].row.thscode == thscode@);
            return true;
        }
    }
    false
}

/// Adds the members `from..to` of a pool to the picks.
fn fill(
    list: &Vec<Listing>,
    picks: &mut Vec<Pick>,
    pool: &Vec<(i128, usize)>,
    from: usize,
    to: usize,
    count: usize,
    kind: Kind,
)
    requires
        from <= to <= pool@.len(),
        pool_ok(pool@, list@.len() as int),
        picks_ok(old(picks)@, list@.len() as int),
    ensures
        picks_ok(final(picks)@, list@.len() as int),
        final(picks)@ == filled(
            listing_views(list@),
            old(picks)@,
            pool_view(pool@).subrange(from as int, to as int),
            count as int,
            kind,
        ),
{
    let ghost all = listing_views(list@);
    let ghost start = picks@;
    let ghost part = pool_view(pool@).subrange(from as int, to as int);
    assert(part.take(0) =~= Seq::empty());
    for i in from..to
        invariant
            all == listing_views(list@),
            from <= to <= pool@.len(),
            part == pool_view(pool@).subrange(from as int, to as int),
            pool_ok(pool@, list@.len() as int),
            picks_ok(picks@, list@.len() as int),
            picks@ == filled(all, start, part.take(i - from), count as int, kind),
    {
        let (score, row) = pool[i];
        proof {
            assert(part.take(i + 1 - from).drop_last() =~= part.take(i - from));
            assert(part.take(i + 1 - from).last() == (score as int, row as int));
            assert(all[row as int] == list@[row as int]@);
        }
        if picks.len() < count && !is_picked(list, picks, list[row].row.thscode.as_str()) {
            picks.push(Pick { score, row, kind });
        }
    }
    assert(part.take(to - from) =~= part);
}

fn group_count(list: &Vec<Listing>, picks: &Vec<Pick>, n: usize, group: &str) -> (r: usize)
    requires
        n <= picks@.len(),
        picks_ok(picks@, list@.len() as int),
    ensures
        r == in_group(listing_views(list@), picks@.take(n as int), group@),
{
    let ghost all = listing_views(list@);
    let mut c: usize = 0;
    assert(picks@.take(0) =~= Seq::empty());
    for i in 0..n
        invariant
            all == listing_views(list@),
            n <= picks@.len(),
            picks_ok(picks@, list@.len() as int),
            c == in_group(all, picks@.take(i as int), group@),
            c <= i,
    {
        let row = picks[i].row;
        proof {
            assert(picks@.take(i + 1).drop_last() =~= picks@.take(i as int));
            assert(all[row as int] == list@[row as int]@);
        }
        let same = text_eq(group_name(&list[row]).as_str(), group);
        if same {
            c = c + 1;
        }
    }
    c
}

fn group_name(l: &Listing) -> (r: String)
    ensures
        r@ == l@.group(),
{
    match &l.industry {
        Some(s) => s.clone(),
        None => board_name(l.row.thscode.as_str()).to_owned(),
    }
}

fn keep_spread_out(list: &Vec<Listing>, picks: &Vec<Pick>) -> (r: Vec<Pick>)
    requires
        picks_ok(picks@, list@.len() as int),
    ensures
        r@ == spread_out(listing_views(list@), picks@),
        picks_ok(r@, list@.len() as int),
{
    let ghost all = listing_views(list@);
    let mut out: Vec<Pick> = Vec::new();
    assert(picks@.take(0) =~= Seq::empty());
    for i in 0..picks.len()
        invariant
            all == listing_views(list@),
            picks_ok(picks@, list@.len() as int),
            picks_ok(out@, list@.len() as int),
            out@ == spread_out(all, picks@.take(i as int)),
    {
        let p = picks[i];
        proof {
            assert(picks@.take(i + 1).drop_last() =~= picks@.take(i as int));
            assert(all[p.row as int] == list@[p.row as int]@);
        }
        let group = group_name(&list[p.row]);
        if group_count(list, picks, i, group.as_str()) < MAX_PER_INDUSTRY {
            out.push(p);
        }
    }
    assert(picks@.take(picks@.len() as int) =~= picks@);
    out
}

fn score_range(picks: &Vec<Pick>) -> (r: (i128, i128))
    requires
        picks@.len() > 0,
        forall|i: int|
            0 <= i < picks@.len() ==> 0 <= (#[trigger] picks@[i]).score <= SCORE_ONE,
    ensures
        r.0 == lowest(picks@),
        r.1 == highest(picks@),
        0 <= r.0 <= r.1 <= SCORE_ONE,
        forall|i: int| 0 <= i < picks@.len() ==> r.0 <= (#[trigger] picks@[i]).score <= r.1,
{
    let mut low: i128 = picks[0].score;
    let mut high: i128 = picks[0].score;
    for i in 1..picks.len()
        invariant
            picks@.len() > 0,
            forall|j: int|
                0 <= j < picks@.len() ==> 0 <= (#[trigger] picks@[j]).score <= SCORE_ONE,
            low == lowest(picks@.take(i as int)),
            high == highest(picks@.take(i as int)),
            0 <= low <= high <= SCORE_ONE,
            forall|j: int| 0 <= j < i ==> low <= (#[trigger] picks@[j]).score <= high,
    {
        assert(picks@.take(i + 1).drop_last() =~= picks@.take(i as int));
        low = decimal_min(low, picks[i].score);
        high = decimal_max(high, picks[i].score);
    }
    assert(picks@.take(picks@.len() as int) =~= picks@);
    (low, high)
}

fn make_candidate(l: &Listing, p: Pick, low: i128, spread: i128) -> (r: Candidate)
    requires
        0 <= low <= p.score <= SCORE_ONE,
        MIN_SPREAD <= spread <= SCORE_ONE,
    ensures
        forall|list: Seq<ListingView>|
            list[p.row as int] == l@ ==> r@ == candidate_of(list, p, low as int, spread as int),
{
    let num: i128 = 3 * spread + 7 * (p.score - low);
    let den: i128 = 10 * spread;
    let mut reason = String::new();
    reason.append(p.kind.label());
    reason.append("(");
    push_quotient(&mut reason, num, den, 2, false);
    reason.append(")");
    assert(reason@ =~= p.kind.text() + "("@ + text::quotient_text(num as int, den as int, 2, false)
        + ")"@);
    let score = rounded_div(num * UNIT, den);
    Candidate {
        thscode: l.row.thscode.clone(),
        name: l.name.clone(),
        price: l.row.price,
        pct: l.row.pct,
        volume_ratio: l.row.volume_ratio,
        reason,
        score,
    }
}

/// The short list of a market; none where a factor is out of range.
pub fn screen_any(list: &Vec<Listing>, count: usize) -> (r: Option<Vec<Candidate>>)
    ensures
        match r {
            Some(picks) => {
                &&& count < usize::MAX
                &&& forall|i: int| 0 <= i < list@.len() ==> (#[trigger] list@[i]).row@.ok()
                &&& candidate_views(picks@) == short_list(listing_views(list@), count as int)
            },
            None => count == usize::MAX || exists|i: int|
                0 <= i < list@.len() && !(#[trigger] list@[i]).row@.ok(),
        },
{
    if count == usize::MAX {
        return None;
    }
    for i in 0..list.len()
        invariant
            forall|j: int| 0 <= j < i ==> (#[trigger] list@[j]).row@.ok(),
    {
        if !list[i].row.is_ok() {
            assert(!list@[i as int].row@.ok());
            return None;
        }
    }
    Some(screen(list, count))
}

/// The short list of a market: at most `count` candidates.
pub fn screen(list: &Vec<Listing>, count: usize) -> (r: Vec<Candidate>)
    requires
        count < usize::MAX,
        forall|i: int| 0 <= i < list@.len() ==> (#[trigger] list@[i]).row@.ok(),
    ensures
        candidate_views(r@) == short_list(listing_views(list@), count as int),
{
    let ghost all = listing_views(list@);
    let rising_pool = build_pool(list, Kind::Momentum);
    let dip_pool = build_pool(list, Kind::Pullback);
    let rising = rank_pool(&rising_pool, list.len());
    let dips = rank_pool(&dip_pool, list.len());
    let wanted: usize = (count + 1) / 2;
    let half: usize = if wanted < rising.len() {
        wanted
    } else {
        rising.len()
    };
    let mut picks: Vec<Pick> = Vec::new();
    let ghost up = pool_view(rising@);
    let ghost down = pool_view(dips@);
    proof {
        assert(up.subrange(0, half as int) =~= up.take(half as int));
        assert(down.subrange(0, down.len() as int) =~= down);
        assert(up.subrange(half as int, up.len() as int) =~= up.skip(half as int));
    }
    fill(list, &mut picks, &rising, 0, half, count, Kind::Momentum);
    fill(list, &mut picks, &dips, 0, dips.len(), count, Kind::Pullback);
    let ghost second = picks@;
    fill(list, &mut picks, &rising, half, rising.len(), count, Kind::Momentum);
    fill(list, &mut picks, &dips, 0, dips.len(), count, Kind::Momentum);
    proof {
        lemma_filled_in_parts(
            all,
            second,
            up.skip(half as int),
            down,
            count as int,
            Kind::Momentum,
        );
    }
    assert(picks@ == picks_of(all, count as int));
    let kept = keep_spread_out(list, &picks);
    let mut out: Vec<Candidate> = Vec::new();
    if kept.len() == 0 {
        assert(candidate_views(out@) =~= short_list(all, count as int));
        return out;
    }
    let (low, high) = score_range(&kept);
    let spread = decimal_max(high - low, MIN_SPREAD);
    for i in 0..kept.len()
        invariant
            all == listing_views(list@),
            picks_ok(kept@, list@.len() as int),
            forall|j: int| 0 <= j < kept@.len() ==> low <= (#[trigger] kept@[j]).score,
            0 <= low <= SCORE_ONE,
            MIN_SPREAD <= spread <= SCORE_ONE,
            out@.len() == i,
            forall|j: int|
                0 <= j < i ==> (#[trigger] out@[j])@ == candidate_of(
                    all,
                    kept@[j],
                    low as int,
                    spread as int,
                ),
    {
        let p = kept[i];
        assert(all[p.row as int] == list@[p.row as int]@);
        out.push(make_candidate(&list[p.row], p, low, spread));
    }
    assert(candidate_views(out@) =~= short_list(all, count as int));
    out
}

/// Filling up from two pools is filling up from one after the other.
pub proof fn lemma_filled_in_parts(
    list: Seq<ListingView>,
    picks: Seq<Pick>,
    a: Seq<(int, int)>,
    b: Seq<(int, int)>,
    count: int,
    kind: Kind,
)
    ensures
        filled(list, picks, a + b, count, kind) == filled(
            list,
            filled(list, picks, a, count, kind),
            b,
            count,
            kind,
        ),
    decreases b.len(),
{
    if b.len() == 0 {
        assert(a + b =~= a);
    } else {
        assert((a + b).drop_last() =~= a + b.drop_last());
        assert((a + b).last() == b.last());
        lemma_filled_in_parts(list, picks, a, b.drop_last(), count, kind);
    }
}


/// What a pick is: a listing that passes, with its score as one of the two kinds.
pub open spec fn is_fair_pick(list: Seq<ListingView>, p: Pick) -> bool {
    &&& 0 <= p.row < list.len()
    &&& list[p.row as int].passes()
    &&& score_as(list[p.row as int], Kind::Momentum) == Some(p.score as int) || score_as(
        list[p.row as int],
        Kind::Pullback,
    ) == Some(p.score as int)
    &&& 0 <= p.score <= SCORE_ONE
}

/// Fair picks of different stocks.
pub open spec fn are_fair_picks(list: Seq<ListingView>, picks: Seq<Pick>) -> bool {
    &&& forall|i: int| 0 <= i < picks.len() ==> is_fair_pick(list, #[trigger] picks[i])
    &&& forall|i: int, j: int|
        0 <= i < j < picks.len() ==> list[#[trigger] picks[i].row as int].row.thscode
            != list[#[trigger] picks[j].row as int].row.thscode
}

pub open spec fn listings_ok(list: Seq<ListingView>) -> bool {
    &&& list.len() <= usize::MAX
    &&& forall|i: int| 0 <= i < list.len() ==> (#[trigger] list[i]).row.ok()
}

proof fn lemma_share(num: int, den: int)
    ensures
        0 <= share(num, den) <= FINE,
{
    if 0 < num < den {
        vstd::arithmetic::div_mod::lemma_div_pos_is_pos(num * FINE, den);
        vstd::arithmetic::div_mod::lemma_multiply_divide_lt(num * FINE, den, FINE as int);
    }
}

proof fn lemma_factors(x: Fraction, a: int, b: int)
    ensures
        0 <= ramp_of(x, a, b) <= FINE,
        0 <= peak_of(x, a, b) <= FINE,
{
    lemma_share(x.num * UNIT - a * x.den, (b - a) * x.den);
    lemma_share(b * x.den - decimal::abs(x.num * UNIT - a * x.den), b * x.den);
}

/// Scores are in range.
pub proof fn lemma_scores(s: ScreenRowView)
    ensures
        momentum_score(s) matches Some(v) ==> 0 <= v <= SCORE_ONE,
        pullback_score(s) matches Some(v) ==> 0 <= v <= SCORE_ONE,
{
    lemma_factors(change_percent(s.ma20, s.ma60), 0, 4_000_000);
    lemma_factors(change_percent(s.adj_close, s.ma20), 0, 1_500_000);
    lemma_factors(fraction_of(s.pct), 2_000_000, 6_000_000);
    lemma_factors(change_percent(s.adj_close, s.ma20), -500_000, 3_000_000);
    lemma_factors(fraction_of(s.pct), -1_000_000, 4_000_000);
    lemma_factors(fraction_of(s.chg5), -3_000_000, 7_000_000);
    if let Some(v) = s.volume_ratio {
        lemma_factors(fraction_of(v), 1_800_000, 2_000_000);
        lemma_factors(fraction_of(v), 800_000, 800_000);
    }
    if let Some(v) = s.position {
        lemma_factors(fraction_of(v), 500_000, 500_000);
        lemma_factors(fraction_of(v), 400_000, 500_000);
    }
}

/// Whether an entry of a pool is what the list says.
pub open spec fn is_entry(list: Seq<ListingView>, e: (int, int), kind: Kind) -> bool {
    0 <= e.1 < list.len() && score_as(list[e.1], kind) == Some(e.0)
}

/// A pool holds what the list says.
pub proof fn lemma_pool(list: Seq<ListingView>, kind: Kind)
    ensures
        forall|i: int|
            0 <= i < pool(list, kind).len() ==> is_entry(list, #[trigger] pool(list, kind)[i], kind),
    decreases list.len(),
{
    if list.len() > 0 {
        let short = list.drop_last();
        lemma_pool(short, kind);
        let before = pool(short, kind);
        let all = pool(list, kind);
        assert forall|i: int| 0 <= i < all.len() implies is_entry(list, #[trigger] all[i], kind) by {
            if i < before.len() {
                assert(all[i] == before[i]);
                assert(is_entry(short, before[i], kind));
                assert(short[before[i].1] == list[before[i].1]);
            }
        }
    }
}

proof fn lemma_best_first(list: Seq<ListingView>, entries: Seq<(int, int)>, kind: Kind)
    requires
        forall|i: int| 0 <= i < entries.len() ==> is_entry(list, #[trigger] entries[i], kind),
    ensures
        forall|i: int|
            0 <= i < best_first(entries).len() ==> is_entry(
                list,
                #[trigger] best_first(entries)[i],
                kind,
            ),
{
    let keys = Seq::new(entries.len(), |i: int| Fraction::whole((-entries[i].0) as i128));
    order::lemma_arranged_in_range(keys, entries.len());
    let o = order::arranged(keys);
    assert forall|i: int| 0 <= i < best_first(entries).len() implies is_entry(
        list,
        #[trigger] best_first(entries)[i],
        kind,
    ) by {
        assert(0 <= o[i] < entries.len());
        assert(best_first(entries)[i] == entries[o[i]]);
    }
}

proof fn lemma_filled(
    list: Seq<ListingView>,
    picks: Seq<Pick>,
    entries: Seq<(int, int)>,
    count: int,
    kind: Kind,
)
    requires
        listings_ok(list),
        are_fair_picks(list, picks),
        picks.len() <= count,
        forall|i: int|
            0 <= i < entries.len() ==> is_entry(list, #[trigger] entries[i], Kind::Momentum)
                || is_entry(list, entries[i], Kind::Pullback),
    ensures
        are_fair_picks(list, filled(list, picks, entries, count, kind)),
        filled(list, picks, entries, count, kind).len() <= count,
    decreases entries.len(),
{
    if entries.len() > 0 {
        let short = entries.drop_last();
        assert forall|i: int| 0 <= i < short.len() implies is_entry(
            list,
            #[trigger] short[i],
            Kind::Momentum,
        ) || is_entry(list, short[i], Kind::Pullback) by {
            assert(short[i] == entries[i]);
        }
        lemma_filled(list, picks, short, count, kind);
        let e = entries[entries.len() - 1];
        assert(is_entry(list, e, Kind::Momentum) || is_entry(list, e, Kind::Pullback));
        lemma_scores(list[e.1].row);
        let before = filled(list, picks, short, count, kind);
        let after = filled(list, picks, entries, count, kind);
        if after != before {
            let p = Pick { score: e.0 as i128, row: e.1 as usize, kind };
            assert(after == before.push(p));
            assert forall|i: int, j: int| 0 <= i < j < after.len() implies list[
                #[trigger] after[i].row as int].row.thscode != list[
                #[trigger] after[j].row as int].row.thscode by {
                assert(after[i] == before[i]);
                if j < before.len() {
                    assert(after[j] == before[j]);
                }
            }
        }
    }
}

proof fn lemma_in_group_push(list: Seq<ListingView>, picks: Seq<Pick>, p: Pick, group: Seq<char>)
    ensures
        in_group(list, picks.push(p), group) == in_group(list, picks, group) + (if list[p.row as int].group()
            == group {
            1int
        } else {
            0int
        }),
{
    assert(picks.push(p).drop_last() =~= picks);
}

proof fn lemma_spread_out(list: Seq<ListingView>, picks: Seq<Pick>, group: Seq<char>)
    requires
        are_fair_picks(list, picks),
    ensures
        are_fair_picks(list, spread_out(list, picks)),
        spread_out(list, picks).len() <= picks.len(),
        forall|i: int|
            0 <= i < spread_out(list, picks).len() ==> picks.contains(
                #[trigger] spread_out(list, picks)[i],
            ),
        in_group(list, spread_out(list, picks), group) <= decimal::min(
            in_group(list, picks, group),
            MAX_PER_INDUSTRY as int,
        ),
        in_group(list, picks, group) >= 0,
    decreases picks.len(),
{
    if picks.len() > 0 {
        let short = picks.drop_last();
        let p = picks.last();
        assert forall|i: int| 0 <= i < short.len() implies is_fair_pick(list, #[trigger] short[i]) by {
            assert(short[i] == picks[i]);
        }
        assert forall|i: int, j: int| 0 <= i < j < short.len() implies list[
            #[trigger] short[i].row as int].row.thscode != list[
            #[trigger] short[j].row as int].row.thscode by {
            assert(short[i] == picks[i]);
            assert(short[j] == picks[j]);
        }
        lemma_spread_out(list, short, group);
        let before = spread_out(list, short);
        let after = spread_out(list, picks);
        if in_group(list, short, list[p.row as int].group()) < MAX_PER_INDUSTRY {
            lemma_in_group_push(list, before, p, group);
            assert(after == before.push(p));
            assert(picks[picks.len() - 1] == p);
            assert forall|i: int| 0 <= i < after.len() implies picks.contains(
                #[trigger] after[i],
            ) by {
                if i < before.len() {
                    assert(after[i] == before[i]);
                    let k = choose|k: int| 0 <= k < short.len() && short[k] == before[i];
                    assert(picks[k] == after[i]);
                }
            }
            assert forall|i: int| 0 <= i < after.len() implies is_fair_pick(
                list,
                #[trigger] after[i],
            ) by {
                let k = choose|k: int| 0 <= k < picks.len() && picks[k] == after[i];
                assert(is_fair_pick(list, picks[k]));
            }
            assert forall|i: int, j: int| 0 <= i < j < after.len() implies list[
                #[trigger] after[i].row as int].row.thscode != list[
                #[trigger] after[j].row as int].row.thscode by {
                assert(after[i] == before[i]);
                if j < before.len() {
                    assert(after[j] == before[j]);
                } else {
                    let k = choose|k: int| 0 <= k < short.len() && short[k] == before[i];
                    assert(picks[k] == after[i]);
                    assert(picks[picks.len() - 1] == after[j]);
                }
            }
        } else {
            assert(after == before);
            assert forall|i: int| 0 <= i < after.len() implies picks.contains(
                #[trigger] after[i],
            ) by {
                let k = choose|k: int| 0 <= k < short.len() && short[k] == before[i];
                assert(picks[k] == after[i]);
            }
        }
    }
}

proof fn lemma_range(picks: Seq<Pick>, i: int)
    requires
        0 <= i < picks.len(),
    ensures
        lowest(picks) <= picks[i].score <= highest(picks),
    decreases picks.len(),
{
    if picks.len() > 1 && i < picks.len() - 1 {
        lemma_range(picks.drop_last(), i);
        assert(picks.drop_last()[i] == picks[i]);
    }
}

/// The short list holds no more than was asked for, each stock once, only stocks that pass
/// the hard filters, at most two of one industry, and scores from 0.3 to 1.
pub proof fn the_short_list_is_sound(list: Seq<ListingView>, count: int, group: Seq<char>)
    requires
        listings_ok(list),
        count >= 0,
    ensures
        short_list(list, count).len() <= count,
        forall|i: int, j: int|
            0 <= i < j < short_list(list, count).len() ==> (#[trigger] short_list(
                list,
                count,
            )[i]).thscode != (#[trigger] short_list(list, count)[j]).thscode,
        forall|i: int|
            0 <= i < short_list(list, count).len() ==> 300_000 <= (#[trigger] short_list(
                list,
                count,
            )[i]).score <= 1_000_000,
        forall|i: int|
            0 <= i < short_list(list, count).len() ==> is_listed(
                list,
                #[trigger] short_list(list, count)[i],
            ),
        in_group(list, spread_out(list, picks_of(list, count)), group) <= MAX_PER_INDUSTRY,
{
    let rising = best_first(pool(list, Kind::Momentum));
    let dips = best_first(pool(list, Kind::Pullback));
    lemma_pool(list, Kind::Momentum);
    lemma_pool(list, Kind::Pullback);
    lemma_best_first(list, pool(list, Kind::Momentum), Kind::Momentum);
    lemma_best_first(list, pool(list, Kind::Pullback), Kind::Pullback);
    let half = decimal::min((count + 1) / 2, rising.len() as int);
    let head = rising.take(half);
    let tail = rising.skip(half) + dips;
    assert forall|i: int| 0 <= i < head.len() implies is_entry(
        list,
        #[trigger] head[i],
        Kind::Momentum,
    ) by {
        assert(head[i] == rising[i]);
    }
    assert forall|i: int| 0 <= i < tail.len() implies is_entry(
        list,
        #[trigger] tail[i],
        Kind::Momentum,
    ) || is_entry(list, tail[i], Kind::Pullback) by {
        if i < rising.len() - half {
            assert(tail[i] == rising[half + i]);
        } else {
            assert(tail[i] == dips[i - (rising.len() - half)]);
        }
    }
    let first = filled(list, Seq::empty(), head, count, Kind::Momentum);
    lemma_filled(list, Seq::empty(), head, count, Kind::Momentum);
    let second = filled(list, first, dips, count, Kind::Pullback);
    lemma_filled(list, first, dips, count, Kind::Pullback);
    lemma_filled(list, second, tail, count, Kind::Momentum);
    let picks = picks_of(list, count);
    lemma_spread_out(list, picks, group);
    let kept = spread_out(list, picks);
    let low = lowest(kept);
    let spread = decimal::max(highest(kept) - low, MIN_SPREAD as int);
    let out = short_list(list, count);
    assert forall|i: int, j: int| 0 <= i < j < out.len() implies (#[trigger] out[i]).thscode != (
    #[trigger] out[j]).thscode by {
        assert(list[kept[i].row as int].row.thscode != list[kept[j].row as int].row.thscode);
    }
    assert forall|i: int| 0 <= i < out.len() implies 300_000 <= (#[trigger] out[i]).score
        <= 1_000_000 by {
        lemma_range(kept, i);
        let num = 3 * spread + 7 * (kept[i].score - low);
        let den = 10 * spread;
        decimal::lemma_div_round_monotone(300_000 * den, num * UNIT, den);
        decimal::lemma_div_round_monotone(num * UNIT, 1_000_000 * den, den);
        decimal::lemma_div_round_exact(300_000, den);
        decimal::lemma_div_round_exact(1_000_000, den);
    }
    assert forall|i: int| 0 <= i < out.len() implies is_listed(list, #[trigger] out[i]) by {
        let k = kept[i].row as int;
        assert(is_fair_pick(list, kept[i]));
        assert(list[k].row.thscode == out[i].thscode);
    }
}

/// Whether a candidate is a listing that passes the hard filters.
pub open spec fn is_listed(list: Seq<ListingView>, c: CandidateView) -> bool {
    exists|k: int|
        0 <= k < list.len() && (#[trigger] list[k]).row.thscode == c.thscode && list[k].passes()
            && list[k].name == c.name && list[k].row.price == c.price
}

} // verus!
