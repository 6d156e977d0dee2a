//! What the model is told: the account, the market, the candidates and past results.

use vstd::prelude::*;

use crate::account;
use crate::account::{Position, PositionView, ReviewRow, ReviewView};
use crate::dates;
use crate::dates::{fmt_bar_date, CST_OFFSET_MS};
use crate::decimal;
use crate::decimal::{
    decimal_max, decimal_min, is_price, is_price_or_none, Decimal, PRICE_MAX, UNIT,
};
use crate::ledger;
use crate::ledger::{AccountDb, LedgerView};
use crate::risk::{MarketState, MarketView};
use crate::screen::{Candidate, CandidateView};
use crate::text;
use crate::text::{join_text, push_decimal, push_int, push_quotient};

verus! {

/// The standing orders of the model.
pub const SYSTEM_PROMPT: &'static str = "你是一个稳健的 A 股交易员，管理真实资金账户。目标：稳定小赚，严格控制回撤。策略是低风险的日线波段。\n\n核心纪律：\n1. 候选池只有 3-5 只，是系统初筛出的上升趋势、回调到位的股票。你只需从中精选 1-2 只，不要超出候选池\n2. 每只股票最大仓位 20%，最多同时持有 3 只；没有把握就 hold，空仓等待是常态，也是合法决策\n3. 买入后按系统风控执行：亏损 -5% 强制止损，盈利 +15% 减半止盈。你不必反复交易，持有到目标或止损\n4. 优先选择：多头排列（MA20>MA60）、回调不破位、温和放量（量比1~3）、离 60 日高点有一定空间\n5. 避免：追高（今日涨幅已大）、涨停板（买不进）、ST/退市风险股、下跌趋势\n6. 卖出逻辑：持仓盈利到目标、趋势走坏（跌破MA20）、或系统性风险时卖出；也可明确建议减仓/清仓\n7. 每次决策都要审视当前持仓：继续持有 / 加仓 / 减仓 / 清仓，给出理由\n8. 输出严格 JSON，不要多余内容：\n{\"actions\": [{\"action\": \"buy\"|\"sell\"|\"hold\", \"symbol\": \"代码\", \"quantity\": 数量, \"reason\": \"理由\"}], \"comment\": \"整体判断与市场状态\"}\n";

/// The standing orders of the model.
pub fn system_prompt() -> (r: &'static str)
    ensures
        r@ == SYSTEM_PROMPT@,
{
    SYSTEM_PROMPT
}

/// A daily bar.
#[derive(Debug, Clone, Copy, PartialEq, Eq, Structural)]
pub struct RecentBar {
    pub date_ms: i64,
    pub open: Decimal,
    pub high: Decimal,
    pub low: Decimal,
    pub close: Decimal,
    pub volume: Decimal,
}

impl RecentBar {
    pub open spec fn ok(self) -> bool {
        &&& decimal::price_ok(self.open as int)
        &&& decimal::price_ok(self.high as int)
        &&& decimal::price_ok(self.low as int)
        &&& decimal::price_ok(self.close as int)
        &&& self.date_ms <= i64::MAX - CST_OFFSET_MS
    }

    /// Whether the prices and the time are in range.
    pub fn is_ok(&self) -> (r: bool)
        ensures
            r == self.ok(),
    {
        is_price(self.open) && is_price(self.high) && is_price(self.low) && is_price(self.close)
            && self.date_ms <= i64::MAX - CST_OFFSET_MS
    }
}

/// The most bars that a summary takes.
pub const BARS_MAX: usize = 60;

pub open spec fn bars_ok(bars: Seq<RecentBar>) -> bool {
    &&& bars.len() <= BARS_MAX
    &&& forall|i: int| 0 <= i < bars.len() ==> (#[trigger] bars[i]).ok()
}

pub open spec fn close_sum(bars: Seq<RecentBar>) -> int
    decreases bars.len(),
{
    if bars.len() == 0 {
        0
    } else {
        close_sum(bars.drop_last()) + bars.last().close
    }
}

pub open spec fn top_high(bars: Seq<RecentBar>) -> int
    decreases bars.len(),
{
    if bars.len() <= 1 {
        bars[0].high as int
    } else {
        decimal::max(top_high(bars.drop_last()), bars.last().high as int)
    }
}

pub open spec fn bottom_low(bars: Seq<RecentBar>) -> int
    decreases bars.len(),
{
    if bars.len() <= 1 {
        bars[0].low as int
    } else {
        decimal::min(bottom_low(bars.drop_last()), bars.last().low as int)
    }
}

/// The average close of bars, to two digits.
pub open spec fn average_text(bars: Seq<RecentBar>) -> Seq<char> {
    text::quotient_text(close_sum(bars), bars.len() * UNIT, 2, false)
}

/// The last `n` bars.
pub open spec fn last_bars(bars: Seq<RecentBar>, n: int) -> Seq<RecentBar> {
    bars.skip(decimal::max(bars.len() - n, 0))
}

/// The trend of up to sixty bars in words: the change over twenty days, the averages, and the
/// range.
pub open spec fn trend_text(bars: Seq<RecentBar>) -> Seq<char> {
    if bars.len() < 5 {
        "历史数据不足"@
    } else {
        let n = bars.len() as int;
        let change = if n > 21 {
            let base = bars[n - 22].close as int;
            text::quotient_text((bars.last().close - base) * 100, base, 1, true)
        } else {
            text::quotient_text(0, 1, 1, true)
        };
        "近20日"@ + change + "%, MA20="@ + average_text(last_bars(bars, 20)) + ", MA60="@
            + average_text(bars) + ", 60日区间 "@ + text::decimal_text(bottom_low(bars), 2, false)
            + "~"@ + text::decimal_text(top_high(bars), 2, false)
    }
}

/// One day in words: its date and its change from open to close.
pub open spec fn day_text(b: RecentBar) -> Seq<char> {
    let change = if b.open > 0 {
        text::quotient_text((b.close - b.open) * 100, b.open as int, 1, true)
    } else {
        text::quotient_text(0, 1, 1, true)
    };
    dates::text_or_blank(dates::utc_text((b.date_ms + CST_OFFSET_MS) as i64, "%m-%d"@)) + "("@
        + change + "%)"@
}

/// The last five days in words.
pub open spec fn days_text(bars: Seq<RecentBar>) -> Seq<char> {
    let last = last_bars(bars, 5);
    if last.len() == 0 {
        ""@
    } else {
        "近5日: "@ + text::joined(Seq::new(last.len(), |i: int| day_text(last[i])), " "@)
    }
}

fn sum_closes(bars: &Vec<RecentBar>, from: usize) -> (r: i128)
    requires
        bars_ok(bars@),
        from <= bars@.len(),
    ensures
        r == close_sum(bars@.skip(from as int)),
        -60 * PRICE_MAX <= r <= 60 * PRICE_MAX,
{
    let ghost part = bars@.skip(from as int);
    let mut sum: i128 = 0;
    assert(part.take(0) =~= Seq::empty());
    for i in from..bars.len()
        invariant
            bars_ok(bars@),
            from <= bars@.len(),
            part == bars@.skip(from as int),
            sum == close_sum(part.take(i - from)),
            -(i - from) * PRICE_MAX <= sum <= (i - from) * PRICE_MAX,
    {
        proof {
            assert(part.take(i + 1 - from).drop_last() =~= part.take(i - from));
            assert(part.take(i + 1 - from).last() == bars@[i as int]);
            assert(bars@[i as int].ok());
        }
        sum = sum + bars[i].close;
    }
    assert(part.take(bars@.len() - from) =~= part);
    sum
}

/// The trend of up to sixty bars in words.
pub fn trend_summary(bars: &Vec<RecentBar>) -> (r: String)
    requires
        bars_ok(bars@),
    ensures
        r@ == trend_text(bars@),
{
    let n: usize = bars.len();
    let mut out = String::new();
    if n < 5 {
        out.append("历史数据不足");
        assert(out@ =~= "历史数据不足"@);
        return out;
    }
    let from: usize = if n > 20 {
        n - 20
    } else {
        0
    };
    let recent = sum_closes(bars, from);
    let whole = sum_closes(bars, 0);
    assert(bars@.skip(0) =~= bars@);
    let mut hi: i128 = bars[0].high;
    let mut lo: i128 = bars[0].low;
    assert(bars@[0].ok());
    for i in 1..n
        invariant
            n == bars@.len(),
            bars_ok(bars@),
            n >= 5,
            hi == top_high(bars@.take(i as int)),
            lo == bottom_low(bars@.take(i as int)),
            decimal::price_ok(hi as int),
            decimal::price_ok(lo as int),
    {
        proof {
            assert(bars@.take(i + 1).drop_last() =~= bars@.take(i as int));
            assert(bars@[i as int].ok());
        }
        hi = decimal_max(hi, bars[i].high);
        lo = decimal_min(lo, bars[i].low);
    }
    assert(bars@.take(n as int) =~= bars@);
    out.append("近20日");
    if n > 21 {
        let base = bars[n - 22].close;
        proof {
            assert(bars@[n - 22].ok());
            assert(bars@[n - 1].ok());
        }
        push_quotient(&mut out, (bars[n - 1].close - base) * 100, base, 1, true);
    } else {
        push_quotient(&mut out, 0, 1, 1, true);
    }
    out.append("%, MA20=");
    push_quotient(&mut out, recent, (n - from) as i128 * UNIT, 2, false);
    out.append(", MA60=");
    push_quotient(&mut out, whole, n as i128 * UNIT, 2, false);
    out.append(", 60日区间 ");
    push_decimal(&mut out, lo, 2, false);
    out.append("~");
    push_decimal(&mut out, hi, 2, false);
    assert(out@ =~= trend_text(bars@));
    out
}

/// The last five days in words.
pub fn recent_days_detail(bars: &Vec<RecentBar>) -> (r: String)
    requires
        bars_ok(bars@),
    ensures
        r@ == days_text(bars@),
{
    let n: usize = bars.len();
    let from: usize = if n > 5 {
        n - 5
    } else {
        0
    };
    let ghost last = last_bars(bars@, 5);
    let mut out = String::new();
    if n == 0 {
        proof {
            reveal_strlit("");
        }
        assert(out@ =~= ""@);
        return out;
    }
    let mut parts: Vec<String> = Vec::new();
    for i in from..n
        invariant
            n == bars@.len(),
            from <= n,
            bars_ok(bars@),
            last == bars@.skip(from as int),
            parts@.len() == i - from,
            forall|j: int| 0 <= j < i - from ==> (#[trigger] parts@[j])@ == day_text(last[j]),
    {
        let b = &bars[i];
        assert(bars@[i as int].ok());
        let mut part = fmt_bar_date(b.date_ms);
        part.append("(");
        if b.open > 0 {
            push_quotient(&mut part, (b.close - b.open) * 100, b.open, 1, true);
        } else {
            push_quotient(&mut part, 0, 1, 1, true);
        }
        part.append("%)");
        assert(part@ =~= day_text(last[i - from]));
        parts.push(part);
    }
    out.append("近5日: ");
    let joined = join_text(&parts, " ");
    out.append(joined.as_str());
    assert(text::views(parts@) =~= Seq::new(last.len(), |i: int| day_text(last[i])));
    assert(out@ =~= days_text(bars@));
    out
}

/// The latest quote of an index.
#[derive(Debug, Clone, Copy, PartialEq, Eq, Structural)]
pub struct IndexQuote {
    pub price: Decimal,
    pub pct: Decimal,
}

/// The market as a whole.
#[derive(Debug, Clone, Copy, PartialEq, Eq, Structural)]
pub struct MarketEnv {
    /// 000001.SH
    pub shanghai: Option<IndexQuote>,
    /// 399001.SZ
    pub shenzhen: Option<IndexQuote>,
    /// 399006.SZ
    pub chinext: Option<IndexQuote>,
    /// Stocks that are up.
    pub up: u32,
    /// Stocks that are quoted.
    pub total: u32,
}

pub open spec fn quote_ok(q: Option<IndexQuote>) -> bool {
    q matches Some(v) ==> decimal::price_ok(v.price as int) && decimal::price_ok(v.pct as int)
}

impl MarketEnv {
    pub open spec fn ok(self) -> bool {
        quote_ok(self.shanghai) && quote_ok(self.shenzhen) && quote_ok(self.chinext)
    }
}

/// An index in words.
pub open spec fn index_text(name: Seq<char>, q: IndexQuote) -> Seq<char> {
    name + " "@ + text::decimal_text(q.price as int, 0, false) + "（"@ + text::decimal_text(
        q.pct as int,
        2,
        true,
    ) + "%）"@
}

pub open spec fn index_part(name: Seq<char>, q: Option<IndexQuote>) -> Seq<Seq<char>> {
    match q {
        Some(v) => seq![index_text(name, v)],
        None => Seq::empty(),
    }
}

/// The market in words: the indices that are quoted, and how many stocks are up.
pub open spec fn env_text(env: MarketEnv) -> Seq<char> {
    text::joined(
        index_part("上证"@, env.shanghai) + index_part("深成"@, env.shenzhen) + index_part(
            "创业板"@,
            env.chinext,
        ) + (if env.total > 0 {
            seq![
                "涨"@ + text::int_text(env.up as int) + "家/共"@ + text::int_text(
                    env.total as int,
                ) + "家"@,
            ]
        } else {
            Seq::empty()
        }),
        "，"@,
    )
}

fn push_index(parts: &mut Vec<String>, name: &str, q: Option<IndexQuote>)
    requires
        quote_ok(q),
    ensures
        text::views(final(parts)@) == text::views(old(parts)@) + index_part(name@, q),
{
    let ghost before = text::views(parts@);
    if let Some(v) = q {
        let mut part = String::new();
        part.append(name);
        part.append(" ");
        push_decimal(&mut part, v.price, 0, false);
        part.append("（");
        push_decimal(&mut part, v.pct, 2, true);
        part.append("%）");
        assert(part@ =~= index_text(name@, v));
        parts.push(part);
    }
    assert(text::views(parts@) =~= before + index_part(name@, q));
}

/// The market in words.
pub fn market_env_summary(env: &MarketEnv) -> (r: String)
    requires
        env.ok(),
    ensures
        r@ == env_text(*env),
{
    let mut parts: Vec<String> = Vec::new();
    assert(text::views(parts@) =~= Seq::empty());
    push_index(&mut parts, "上证", env.shanghai);
    push_index(&mut parts, "深成", env.shenzhen);
    push_index(&mut parts, "创业板", env.chinext);
    let ghost before = text::views(parts@);
    if env.total > 0 {
        let mut part = String::new();
        part.append("涨");
        push_int(&mut part, env.up as i128);
        part.append("家/共");
        push_int(&mut part, env.total as i128);
        part.append("家");
        let ghost view = part@;
        assert(view =~= "涨"@ + text::int_text(env.up as int) + "家/共"@ + text::int_text(
            env.total as int,
        ) + "家"@);
        parts.push(part);
        assert(text::views(parts@) =~= before + seq![view]);
    } else {
        assert(before + Seq::empty() =~= before);
    }
    assert(text::views(parts@) =~= index_part("上证"@, env.shanghai) + index_part(
        "深成"@,
        env.shenzhen,
    ) + index_part("创业板"@, env.chinext) + (if env.total > 0 {
        seq![
            "涨"@ + text::int_text(env.up as int) + "家/共"@ + text::int_text(env.total as int)
                + "家"@,
        ]
    } else {
        Seq::empty()
    }));
    join_text(&parts, "，")
}

/// A stock of the watch list with its bars.
#[derive(Debug)]
pub struct WatchItem {
    pub thscode: String,
    pub price: Option<Decimal>,
    pub bars: Vec<RecentBar>,
}

#[verifier::ext_equal]
pub struct WatchView {
    pub thscode: Seq<char>,
    pub price: Option<Decimal>,
    pub bars: Seq<RecentBar>,
}

impl View for WatchItem {
    type V = WatchView;

    open spec fn view(&self) -> WatchView {
        WatchView { thscode: self.thscode@, price: self.price, bars: self.bars@ }
    }
}

/// A candidate with its bars.
#[derive(Debug)]
pub struct CandidateItem {
    pub candidate: Candidate,
    pub bars: Vec<RecentBar>,
}

#[verifier::ext_equal]
pub struct CandidateItemView {
    pub candidate: CandidateView,
    pub bars: Seq<RecentBar>,
}

impl View for CandidateItem {
    type V = CandidateItemView;

    open spec fn view(&self) -> CandidateItemView {
        CandidateItemView { candidate: self.candidate@, bars: self.bars@ }
    }
}

/// The gain on a position in words.
pub open spec fn gain_text(price: int, cost: int) -> Seq<char> {
    if price > 0 {
        text::quotient_text((price - cost) * 100, cost, 2, false) + "%"@
    } else {
        "无行情"@
    }
}

/// A position in words.
pub open spec fn position_line(p: PositionView, market: MarketView) -> Seq<char> {
    let price = match market.last_price(p.thscode) {
        Some(v) => v as int,
        None => 0,
    };
    p.thscode + " "@ + p.name + ": "@ + text::int_text(p.quantity as int) + "股, 成本 "@
        + text::decimal_text(p.avg_cost as int, 2, false) + ", 现价 "@ + text::decimal_text(
        price,
        2,
        false,
    ) + ", 盈亏 "@ + gain_text(price, p.avg_cost as int)
}

/// A stock of the watch list in words.
pub open spec fn watch_line(w: WatchView) -> Seq<char> {
    w.thscode + ": 最新价 "@ + (match w.price {
        Some(p) => text::decimal_text(p as int, 2, false),
        None => "无数据"@,
    }) + " | "@ + trend_text(w.bars)
}

/// A candidate in words.
pub open spec fn candidate_line(c: CandidateItemView) -> Seq<char> {
    c.candidate.thscode + " "@ + c.candidate.name + ": 现价 "@ + text::decimal_text(
        c.candidate.price as int,
        2,
        false,
    ) + ", 涨幅 "@ + text::decimal_text(c.candidate.pct as int, 2, false) + "%, 量比 "@ + (
    match c.candidate.volume_ratio {
        Some(v) => text::decimal_text(v as int, 2, false),
        None => "-"@,
    }) + " | 入选: "@ + c.candidate.reason + " | "@ + trend_text(c.bars) + " | "@ + days_text(
        c.bars,
    )
}

/// A review in words.
pub open spec fn review_line(r: ReviewView) -> Seq<char> {
    "决策#"@ + text::int_text(r.decision_id as int) + " "@ + text::int_text(r.days_after as int)
        + "天后 盈亏 "@ + text::decimal_text(r.pnl as int, 0, true) + "元 | "@ + r.summary
}

pub open spec fn position_lines(positions: Seq<PositionView>, market: MarketView) -> Seq<Seq<char>> {
    if positions.len() == 0 {
        seq!["（空仓）"@]
    } else {
        Seq::new(positions.len(), |i: int| position_line(positions[i], market))
    }
}

pub open spec fn watch_lines(watch: Seq<WatchView>) -> Seq<Seq<char>> {
    if watch.len() == 0 {
        Seq::empty()
    } else {
        seq![""@, "== 自选池行情与趋势 =="@] + Seq::new(
            watch.len(),
            |i: int| watch_line(watch[i]),
        )
    }
}

pub open spec fn candidate_lines(candidates: Seq<CandidateItemView>) -> Seq<Seq<char>> {
    if candidates.len() == 0 {
        Seq::empty()
    } else {
        seq![""@, "== 今日全市场初筛候选 =="@] + Seq::new(
            candidates.len(),
            |i: int| candidate_line(candidates[i]),
        )
    }
}

pub open spec fn review_lines(reviews: Seq<ReviewView>) -> Seq<Seq<char>> {
    if reviews.len() == 0 {
        Seq::empty()
    } else {
        seq![""@, "== 近期复盘反馈（你之前决策的验证结果，用于自我修正）=="@] + Seq::new(
            reviews.len(),
            |i: int| review_line(reviews[i]),
        )
    }
}

/// What the model is told, line by line.
pub open spec fn context_lines(
    books: LedgerView,
    market: MarketView,
    env: MarketEnv,
    watch: Seq<WatchView>,
    candidates: Seq<CandidateItemView>,
) -> Seq<Seq<char>> {
    seq![
        "可用现金: "@ + text::decimal_text(books.account->0.cash as int, 2, false) + " 元"@,
        ""@,
        "== 大盘环境 =="@,
        env_text(env),
        ""@,
        "== 当前持仓 =="@,
    ] + position_lines(books.positions, market) + watch_lines(watch) + candidate_lines(candidates)
        + review_lines(ledger::review_rows(ledger::latest_reviews(books.reviews, 5)))
}

/// What the model is told.
pub open spec fn context_text(
    books: LedgerView,
    market: MarketView,
    env: MarketEnv,
    watch: Seq<WatchView>,
    candidates: Seq<CandidateItemView>,
) -> Seq<char> {
    text::joined(context_lines(books, market, env, watch, candidates), "\n"@)
}


/// What the arithmetic of the context takes.
pub open spec fn can_describe(
    market: MarketView,
    env: MarketEnv,
    watch: Seq<WatchView>,
    candidates: Seq<CandidateItemView>,
) -> bool {
    &&& market.ok()
    &&& env.ok()
    &&& forall|i: int|
        0 <= i < watch.len() ==> bars_ok((#[trigger] watch[i]).bars) && (
        watch[i].price matches Some(p) ==> decimal::price_ok(p as int))
    &&& forall|i: int|
        0 <= i < candidates.len() ==> bars_ok((#[trigger] candidates[i]).bars)
            && decimal::price_ok(candidates[i].candidate.price as int) && decimal::price_ok(
            candidates[i].candidate.pct as int,
        ) && (candidates[i].candidate.volume_ratio matches Some(v) ==> decimal::price_ok(v as int))
}

fn are_bars_ok(bars: &Vec<RecentBar>) -> (r: bool)
    ensures
        r == bars_ok(bars@),
{
    if bars.len() > BARS_MAX {
        return false;
    }
    for i in 0..bars.len()
        invariant
            forall|j: int| 0 <= j < i ==> (#[trigger] bars@[j]).ok(),
    {
        if !bars[i].is_ok() {
            assert(!bars@[i as int].ok());
            return false;
        }
    }
    true
}

fn is_quote_ok(q: &Option<IndexQuote>) -> (r: bool)
    ensures
        r == quote_ok(*q),
{
    match q {
        Some(v) => is_price(v.price) && is_price(v.pct),
        None => true,
    }
}

/// Whether what a context describes is in range.
pub fn is_describable(
    market: &MarketState,
    env: &MarketEnv,
    watch: &Vec<WatchItem>,
    candidates: &Vec<CandidateItem>,
) -> (r: bool)
    ensures
        r == can_describe(market@, *env, watch_views(watch@), item_views(candidates@)),
{
    let ghost ws = watch_views(watch@);
    let ghost cs = item_views(candidates@);
    if !market.is_ok() || !is_quote_ok(&env.shanghai) || !is_quote_ok(&env.shenzhen)
        || !is_quote_ok(&env.chinext) {
        return false;
    }
    for i in 0..watch.len()
        invariant
            ws == watch_views(watch@),
            forall|j: int|
                0 <= j < i ==> bars_ok((#[trigger] ws[j]).bars) && (ws[j].price matches Some(p)
                    ==> decimal::price_ok(p as int)),
    {
        assert(ws[i as int] == watch@[i as int]@);
        if !are_bars_ok(&watch[i].bars) || !is_price_or_none(watch[i].price) {
            return false;
        }
    }
    for i in 0..candidates.len()
        invariant
            cs == item_views(candidates@),
            forall|j: int|
                0 <= j < i ==> bars_ok((#[trigger] cs[j]).bars) && decimal::price_ok(
                    cs[j].candidate.price as int,
                ) && decimal::price_ok(cs[j].candidate.pct as int) && (
                cs[j].candidate.volume_ratio matches Some(v) ==> decimal::price_ok(v as int)),
    {
        let c = &candidates[i].candidate;
        assert(cs[i as int] == candidates@[i as int]@);
        if !are_bars_ok(&candidates[i].bars) || !is_price(c.price) || !is_price(c.pct)
            || !is_price_or_none(c.volume_ratio) {
            return false;
        }
    }
    true
}

pub open spec fn watch_views(list: Seq<WatchItem>) -> Seq<WatchView> {
    Seq::new(list.len(), |i: int| list[i]@)
}

pub open spec fn item_views(list: Seq<CandidateItem>) -> Seq<CandidateItemView> {
    Seq::new(list.len(), |i: int| list[i]@)
}

fn describe_position(p: &Position, market: &MarketState) -> (r: String)
    requires
        market@.ok(),
        decimal::price_ok(p.avg_cost as int),
    ensures
        r@ == position_line(p@, market@),
{
    let cur: Decimal = match market.latest_snapshot_price(p.thscode.as_str()) {
        Some(v) => v,
        None => 0,
    };
    let mut out = p.thscode.clone();
    out.append(" ");
    out.append(p.name.as_str());
    out.append(": ");
    push_int(&mut out, p.quantity as i128);
    out.append("股, 成本 ");
    push_decimal(&mut out, p.avg_cost, 2, false);
    out.append(", 现价 ");
    push_decimal(&mut out, cur, 2, false);
    out.append(", 盈亏 ");
    let ghost head = out@;
    if cur > 0 {
        push_quotient(&mut out, (cur - p.avg_cost) * 100, p.avg_cost, 2, false);
        out.append("%");
    } else {
        out.append("无行情");
    }
    assert(out@ =~= head + gain_text(cur as int, p.avg_cost as int));
    assert(out@ =~= position_line(p@, market@));
    out
}

fn describe_watch(w: &WatchItem) -> (r: String)
    requires
        bars_ok(w.bars@),
        w.price matches Some(p) ==> decimal::price_ok(p as int),
    ensures
        r@ == watch_line(w@),
{
    let mut out = w.thscode.clone();
    out.append(": 最新价 ");
    match w.price {
        Some(p) => push_decimal(&mut out, p, 2, false),
        None => out.append("无数据"),
    }
    out.append(" | ");
    let trend = trend_summary(&w.bars);
    out.append(trend.as_str());
    assert(out@ =~= watch_line(w@));
    out
}

fn describe_candidate(c: &CandidateItem) -> (r: String)
    requires
        bars_ok(c.bars@),
        decimal::price_ok(c.candidate.price as int),
        decimal::price_ok(c.candidate.pct as int),
        c.candidate.volume_ratio matches Some(v) ==> decimal::price_ok(v as int),
    ensures
        r@ == candidate_line(c@),
{
    let mut out = c.candidate.thscode.clone();
    out.append(" ");
    out.append(c.candidate.name.as_str());
    out.append(": 现价 ");
    push_decimal(&mut out, c.candidate.price, 2, false);
    out.append(", 涨幅 ");
    push_decimal(&mut out, c.candidate.pct, 2, false);
    out.append("%, 量比 ");
    match c.candidate.volume_ratio {
        Some(v) => push_decimal(&mut out, v, 2, false),
        None => out.append("-"),
    }
    out.append(" | 入选: ");
    out.append(c.candidate.reason.as_str());
    out.append(" | ");
    let trend = trend_summary(&c.bars);
    out.append(trend.as_str());
    out.append(" | ");
    let detail = recent_days_detail(&c.bars);
    out.append(detail.as_str());
    assert(out@ =~= candidate_line(c@));
    out
}

fn describe_review(r: &ReviewRow) -> (s: String)
    requires
        decimal::money_ok(r.pnl as int),
    ensures
        s@ == review_line(r@),
{
    let mut out = String::new();
    out.append("决策#");
    push_int(&mut out, r.decision_id as i128);
    out.append(" ");
    push_int(&mut out, r.days_after as i128);
    out.append("天后 盈亏 ");
    push_decimal(&mut out, r.pnl, 0, true);
    out.append("元 | ");
    out.append(r.summary.as_str());
    assert(out@ =~= review_line(r@));
    out
}

fn push_line(lines: &mut Vec<String>, line: String)
    ensures
        text::views(final(lines)@) == text::views(old(lines)@).push(line@),
{
    let ghost before = text::views(lines@);
    lines.push(line);
    assert(text::views(lines@) =~= before.push(line@));
}

fn push_positions(lines: &mut Vec<String>, positions: &Vec<Position>, market: &MarketState)
    requires
        market@.ok(),
        forall|i: int|
            0 <= i < positions@.len() ==> decimal::price_ok(
                #[trigger] positions@[i].avg_cost as int,
            ),
    ensures
        text::views(final(lines)@) == text::views(old(lines)@) + position_lines(
            account::position_views(positions@),
            market@,
        ),
{
    let ghost start = text::views(lines@);
    let ghost ps = account::position_views(positions@);
    if positions.len() == 0 {
        push_line(lines, "（空仓）".to_owned());
        assert(text::views(lines@) =~= start + position_lines(ps, market@));
        return ;
    }
    let ghost all = Seq::new(ps.len(), |i: int| position_line(ps[i], market@));
    assert(start + all.take(0) =~= start);
    for i in 0..positions.len()
        invariant
            market@.ok(),
            ps == account::position_views(positions@),
            all == Seq::new(ps.len(), |j: int| position_line(ps[j], market@)),
            forall|j: int|
                0 <= j < positions@.len() ==> decimal::price_ok(
                    #[trigger] positions@[j].avg_cost as int,
                ),
            text::views(lines@) == start + all.take(i as int),
    {
        let line = describe_position(&positions[i], market);
        push_line(lines, line);
        assert(text::views(lines@) =~= start + all.take(i + 1));
    }
    assert(all.take(all.len() as int) =~= all);
}

fn push_watch(lines: &mut Vec<String>, watch: &Vec<WatchItem>)
    requires
        forall|i: int|
            0 <= i < watch@.len() ==> bars_ok((#[trigger] watch@[i]).bars@) && (
            watch@[i].price matches Some(p) ==> decimal::price_ok(p as int)),
    ensures
        text::views(final(lines)@) == text::views(old(lines)@) + watch_lines(watch_views(watch@)),
{
    let ghost start = text::views(lines@);
    let ghost ws = watch_views(watch@);
    if watch.len() == 0 {
        assert(start + watch_lines(ws) =~= start);
        return ;
    }
    push_line(lines, "".to_owned());
    push_line(lines, "== 自选池行情与趋势 ==".to_owned());
    let ghost head = seq![""@, "== 自选池行情与趋势 =="@];
    let ghost all = Seq::new(ws.len(), |i: int| watch_line(ws[i]));
    assert(text::views(lines@) =~= start + (head + all.take(0)));
    for i in 0..watch.len()
        invariant
            ws == watch_views(watch@),
            all == Seq::new(ws.len(), |j: int| watch_line(ws[j])),
            forall|j: int|
                0 <= j < watch@.len() ==> bars_ok((#[trigger] watch@[j]).bars@) && (
                watch@[j].price matches Some(p) ==> decimal::price_ok(p as int)),
            text::views(lines@) == start + (head + all.take(i as int)),
    {
        let line = describe_watch(&watch[i]);
        push_line(lines, line);
        assert(text::views(lines@) =~= start + (head + all.take(i + 1)));
    }
    assert(all.take(all.len() as int) =~= all);
}

fn push_candidates(lines: &mut Vec<String>, candidates: &Vec<CandidateItem>)
    requires
        forall|i: int|
            0 <= i < candidates@.len() ==> bars_ok((#[trigger] candidates@[i]).bars@)
                && decimal::price_ok(candidates@[i].candidate.price as int) && decimal::price_ok(
                candidates@[i].candidate.pct as int,
            ) && (candidates@[i].candidate.volume_ratio matches Some(v) ==> decimal::price_ok(
                v as int,
            )),
    ensures
        text::views(final(lines)@) == text::views(old(lines)@) + candidate_lines(
            item_views(candidates@),
        ),
{
    let ghost start = text::views(lines@);
    let ghost cs = item_views(candidates@);
    if candidates.len() == 0 {
        assert(start + candidate_lines(cs) =~= start);
        return ;
    }
    push_line(lines, "".to_owned());
    push_line(lines, "== 今日全市场初筛候选 ==".to_owned());
    let ghost head = seq![""@, "== 今日全市场初筛候选 =="@];
    let ghost all = Seq::new(cs.len(), |i: int| candidate_line(cs[i]));
    assert(text::views(lines@) =~= start + (head + all.take(0)));
    for i in 0..candidates.len()
        invariant
            cs == item_views(candidates@),
            all == Seq::new(cs.len(), |j: int| candidate_line(cs[j])),
            forall|j: int|
                0 <= j < candidates@.len() ==> bars_ok((#[trigger] candidates@[j]).bars@)
                    && decimal::price_ok(candidates@[j].candidate.price as int)
                    && decimal::price_ok(candidates@[j].candidate.pct as int) && (
                candidates@[j].candidate.volume_ratio matches Some(v) ==> decimal::price_ok(
                    v as int,
                )),
            text::views(lines@) == start + (head + all.take(i as int)),
    {
        let line = describe_candidate(&candidates[i]);
        push_line(lines, line);
        assert(text::views(lines@) =~= start + (head + all.take(i + 1)));
    }
    assert(all.take(all.len() as int) =~= all);
}

fn push_reviews(lines: &mut Vec<String>, reviews: &Vec<ReviewRow>)
    requires
        forall|i: int| 0 <= i < reviews@.len() ==> decimal::money_ok(#[trigger] reviews@[i].pnl as int),
    ensures
        text::views(final(lines)@) == text::views(old(lines)@) + review_lines(
            ledger::row_views(reviews@),
        ),
{
    let ghost start = text::views(lines@);
    let ghost rs = ledger::row_views(reviews@);
    if reviews.len() == 0 {
        assert(start + review_lines(rs) =~= start);
        return ;
    }
    push_line(lines, "".to_owned());
    push_line(lines, "== 近期复盘反馈（你之前决策的验证结果，用于自我修正）==".to_owned());
    let ghost head = seq![""@, "== 近期复盘反馈（你之前决策的验证结果，用于自我修正）=="@];
    let ghost all = Seq::new(rs.len(), |i: int| review_line(rs[i]));
    assert(text::views(lines@) =~= start + (head + all.take(0)));
    for i in 0..reviews.len()
        invariant
            rs == ledger::row_views(reviews@),
            all == Seq::new(rs.len(), |j: int| review_line(rs[j])),
            forall|j: int|
                0 <= j < reviews@.len() ==> decimal::money_ok(#[trigger] reviews@[j].pnl as int),
            text::views(lines@) == start + (head + all.take(i as int)),
    {
        let line = describe_review(&reviews[i]);
        push_line(lines, line);
        assert(text::views(lines@) =~= start + (head + all.take(i + 1)));
    }
    assert(all.take(all.len() as int) =~= all);
}

/// What the model is told: cash, the market, the positions, the watch list, the candidates,
/// and how earlier decisions turned out.
pub fn build_context(
    acct: &mut AccountDb,
    market: &MarketState,
    env: &MarketEnv,
    watch: &Vec<WatchItem>,
    candidates: &Vec<CandidateItem>,
) -> (r: String)
    requires
        old(acct).wf(),
        can_describe(market@, *env, watch_views(watch@), item_views(candidates@)),
    ensures
        final(acct).wf(),
        final(acct)@ == old(acct)@.opened(0),
        r@ == context_text(
            final(acct)@,
            market@,
            *env,
            watch_views(watch@),
            item_views(candidates@),
        ),
{
    let account = acct.get_or_init_account(0);
    let positions = acct.positions();
    let ghost books = acct@;
    let mut lines: Vec<String> = Vec::new();
    assert(text::views(lines@) =~= Seq::empty());
    let mut cash = String::new();
    cash.append("可用现金: ");
    push_decimal(&mut cash, account.cash, 2, false);
    cash.append(" 元");
    assert(cash@ =~= "可用现金: "@ + text::decimal_text(account.cash as int, 2, false) + " 元"@);
    push_line(&mut lines, cash);
    push_line(&mut lines, "".to_owned());
    push_line(&mut lines, "== 大盘环境 ==".to_owned());
    let env_line = market_env_summary(env);
    push_line(&mut lines, env_line);
    push_line(&mut lines, "".to_owned());
    push_line(&mut lines, "== 当前持仓 ==".to_owned());
    let ghost head = seq![
        "可用现金: "@ + text::decimal_text(account.cash as int, 2, false) + " 元"@,
        ""@,
        "== 大盘环境 =="@,
        env_text(*env),
        ""@,
        "== 当前持仓 =="@,
    ];
    assert(text::views(lines@) =~= head);
    assert forall|i: int| 0 <= i < positions@.len() implies decimal::price_ok(
        #[trigger] positions@[i].avg_cost as int,
    ) by {
        assert(account::position_views(positions@)[i] == books.positions[i]);
        assert(decimal::price_ok(books.positions[i].avg_cost as int));
    }
    push_positions(&mut lines, &positions, market);
    assert forall|i: int| 0 <= i < watch@.len() implies bars_ok((#[trigger] watch@[i]).bars@) && (
    watch@[i].price matches Some(p) ==> decimal::price_ok(p as int)) by {
        assert(watch_views(watch@)[i] == watch@[i]@);
    }
    push_watch(&mut lines, watch);
    assert forall|i: int| 0 <= i < candidates@.len() implies bars_ok(
        (#[trigger] candidates@[i]).bars@,
    ) && decimal::price_ok(candidates@[i].candidate.price as int) && decimal::price_ok(
        candidates@[i].candidate.pct as int,
    ) && (candidates@[i].candidate.volume_ratio matches Some(v) ==> decimal::price_ok(
        v as int,
    )) by {
        assert(item_views(candidates@)[i] == candidates@[i]@);
    }
    push_candidates(&mut lines, candidates);
    let reviews = acct.recent_reviews(5);
    assert forall|i: int| 0 <= i < reviews@.len() implies decimal::money_ok(
        #[trigger] reviews@[i].pnl as int,
    ) by {
        ledger::lemma_recent_reviews_ok(books, 5, i);
        assert(ledger::row_views(reviews@)[i] == reviews@[i]@);
    }
    push_reviews(&mut lines, &reviews);
    assert(text::views(lines@) =~= context_lines(
        books,
        market@,
        *env,
        watch_views(watch@),
        item_views(candidates@),
    ));
    join_text(&lines, "\n")
}

} // verus!
