//! The requests to the data service: an endpoint and its parameters.

use vstd::prelude::*;

use crate::sdk::{Adjust, DumpKind, FundType};
use crate::text;
use crate::text::{int_string, join_text};

verus! {

/// A request.
#[derive(Debug)]
pub struct Request {
    pub path: &'static str,
    pub query: Vec<(String, String)>,
}

#[verifier::ext_equal]
pub struct RequestView {
    pub path: Seq<char>,
    pub query: Seq<(Seq<char>, Seq<char>)>,
}

/// The views of a list of parameters.
pub open spec fn pair_views(list: Seq<(String, String)>) -> Seq<(Seq<char>, Seq<char>)> {
    Seq::new(list.len(), |i: int| (list[i].0@, list[i].1@))
}

impl View for Request {
    type V = RequestView;

    open spec fn view(&self) -> RequestView {
        RequestView { path: self.path@, query: pair_views(self.query@) }
    }
}

/// One parameter.
pub open spec fn one(key: Seq<char>, value: Seq<char>) -> Seq<(Seq<char>, Seq<char>)> {
    seq![(key, value)]
}

/// A parameter where there is a value for it.
pub open spec fn maybe(key: Seq<char>, value: Option<&str>) -> Seq<(Seq<char>, Seq<char>)> {
    match value {
        Some(v) => one(key, v@),
        None => Seq::empty(),
    }
}

/// A number as a parameter where there is one.
pub open spec fn maybe_number(key: Seq<char>, value: Option<u32>) -> Seq<(Seq<char>, Seq<char>)> {
    match value {
        Some(v) => one(key, text::int_text(v as int)),
        None => Seq::empty(),
    }
}

fn push_pair(query: &mut Vec<(String, String)>, key: &str, value: &str)
    ensures
        pair_views(final(query)@) == pair_views(old(query)@) + one(key@, value@),
{
    let ghost before = pair_views(query@);
    query.push((key.to_owned(), value.to_owned()));
    assert(pair_views(query@) =~= before + one(key@, value@));
}

fn push_number(query: &mut Vec<(String, String)>, key: &str, value: i128)
    requires
        value > i128::MIN,
    ensures
        pair_views(final(query)@) == pair_views(old(query)@) + one(
            key@,
            text::int_text(value as int),
        ),
{
    let number = int_string(value);
    push_pair(query, key, number.as_str());
}

fn push_maybe(query: &mut Vec<(String, String)>, key: &str, value: Option<&str>)
    ensures
        pair_views(final(query)@) == pair_views(old(query)@) + maybe(key@, value),
{
    match value {
        Some(v) => push_pair(query, key, v),
        None => {
            assert(pair_views(query@) + Seq::empty() =~= pair_views(query@));
        },
    }
}

fn push_maybe_number(query: &mut Vec<(String, String)>, key: &str, value: Option<u32>)
    ensures
        pair_views(final(query)@) == pair_views(old(query)@) + maybe_number(key@, value),
{
    match value {
        Some(v) => push_number(query, key, v as i128),
        None => {
            assert(pair_views(query@) + Seq::empty() =~= pair_views(query@));
        },
    }
}

fn push_codes(query: &mut Vec<(String, String)>, key: &str, codes: &Vec<String>)
    ensures
        pair_views(final(query)@) == pair_views(old(query)@) + one(
            key@,
            text::joined(text::views(codes@), ","@),
        ),
{
    let list = join_text(codes, ",");
    push_pair(query, key, list.as_str());
}

/// The most stocks of one request for valuations.
pub const VALUATION_MAX_TOKENS: usize = 100;

/// Where a page of limit-up, limit-down or broken-limit stocks starts, and how it is sorted.
#[derive(Debug, Clone, Copy)]
pub struct PoolQuery {
    pub date_ms: Option<i64>,
    pub page: Option<u32>,
    pub size: Option<u32>,
    pub sort_field: Option<&'static str>,
    pub sort_dir: Option<&'static str>,
}

impl PoolQuery {
    /// The parameters, those that are set.
    pub open spec fn pair_list(self) -> Seq<(Seq<char>, Seq<char>)> {
        (match self.date_ms {
            Some(v) => one("date_ms"@, text::int_text(v as int)),
            None => Seq::empty(),
        }) + maybe_number("page"@, self.page) + maybe_number("size"@, self.size) + maybe(
            "sort_field"@,
            self.sort_field,
        ) + maybe("sort_dir"@, self.sort_dir)
    }

    /// The parameters, those that are set.
    pub fn pairs(&self) -> (r: Vec<(String, String)>)
        ensures
            pair_views(r@) == self.pair_list(),
    {
        let mut query: Vec<(String, String)> = Vec::new();
        assert(pair_views(query@) =~= Seq::empty());
        if let Some(v) = self.date_ms {
            push_number(&mut query, "date_ms", v as i128);
        }
        push_maybe_number(&mut query, "page", self.page);
        push_maybe_number(&mut query, "size", self.size);
        push_maybe(&mut query, "sort_field", self.sort_field);
        push_maybe(&mut query, "sort_dir", self.sort_dir);
        assert(pair_views(query@) =~= self.pair_list());
        query
    }
}

impl Default for PoolQuery {
    fn default() -> (r: Self)
        ensures
            r.pair_list() == Seq::<(Seq<char>, Seq<char>)>::empty(),
    {
        let r = PoolQuery {
            date_ms: None,
            page: None,
            size: None,
            sort_field: None,
            sort_dir: None,
        };
        assert(r.pair_list() =~= Seq::<(Seq<char>, Seq<char>)>::empty());
        r
    }
}

/// The address of a file with the data of the whole market.
pub fn dump_download_url(kind: DumpKind) -> (r: Request)
    ensures
        r@ == (RequestView { path: kind.path_text(), query: Seq::empty() }),
{
    let r = Request { path: kind.path(), query: Vec::new() };
    assert(pair_views(r.query@) =~= Seq::empty());
    r
}

/// Quotes: of some stocks, or a page of the whole market where none are named.
pub fn price_snapshot(thscodes: &Vec<String>, limit: Option<u32>, offset: Option<u32>) -> (r:
    Request)
    ensures
        r@ == (RequestView {
            path: "/api/a-share/prices/snapshot"@,
            query: if thscodes@.len() > 0 {
                one("thscodes"@, text::joined(text::views(thscodes@), ","@))
            } else {
                maybe_number("limit"@, limit) + maybe_number("offset"@, offset)
            },
        }),
{
    let mut query: Vec<(String, String)> = Vec::new();
    assert(pair_views(query@) =~= Seq::empty());
    if thscodes.len() > 0 {
        push_codes(&mut query, "thscodes", thscodes);
        assert(pair_views(query@) =~= one("thscodes"@, text::joined(text::views(thscodes@), ","@)));
    } else {
        push_maybe_number(&mut query, "limit", limit);
        push_maybe_number(&mut query, "offset", offset);
        assert(pair_views(query@) =~= maybe_number("limit"@, limit) + maybe_number(
            "offset"@,
            offset,
        ));
    }
    Request { path: "/api/a-share/prices/snapshot", query }
}

/// Stocks that are limit-up.
pub fn limit_up_pool(q: &PoolQuery) -> (r: Request)
    ensures
        r@ == (RequestView {
            path: "/api/a-share/special-data/limit-up-pool"@,
            query: q.pair_list(),
        }),
{
    Request { path: "/api/a-share/special-data/limit-up-pool", query: q.pairs() }
}

/// Stocks that are limit-down.
pub fn limit_down_pool(q: &PoolQuery) -> (r: Request)
    ensures
        r@ == (RequestView {
            path: "/api/a-share/special-data/limit-down-pool"@,
            query: q.pair_list(),
        }),
{
    Request { path: "/api/a-share/special-data/limit-down-pool", query: q.pairs() }
}

/// Stocks that were limit-up and are not any more.
pub fn limit_break_pool(q: &PoolQuery) -> (r: Request)
    ensures
        r@ == (RequestView {
            path: "/api/a-share/special-data/limit-break-pool"@,
            query: q.pair_list(),
        }),
{
    Request { path: "/api/a-share/special-data/limit-break-pool", query: q.pairs() }
}

/// Searches securities by code or name.
pub fn search_tickers(q: &str, exchange: Option<&str>, asset_type: Option<&str>, limit: Option<u32>) -> (r: Request)
    ensures
        r@ == (RequestView {
            path: "/api/meta/tickers/search"@,
            query: one("q"@, q@) + maybe("exchange"@, exchange) + maybe("asset_type"@, asset_type) + maybe_number("limit"@, limit),
        }),
{
    let mut query: Vec<(String, String)> = Vec::new();
    push_pair(&mut query, "q", q);
    push_maybe(&mut query, "exchange", exchange);
    push_maybe(&mut query, "asset_type", asset_type);
    push_maybe_number(&mut query, "limit", limit);
    assert(pair_views(query@) =~= one("q"@, q@) + maybe("exchange"@, exchange) + maybe("asset_type"@, asset_type) + maybe_number("limit"@, limit));
    Request { path: "/api/meta/tickers/search", query }
}

/// A page of the securities of exchanges and asset types.
pub fn list_tickers(exchange: Option<&str>, asset_type: Option<&str>, limit: u32, offset: u32) -> (r: Request)
    ensures
        r@ == (RequestView {
            path: "/api/meta/tickers/list"@,
            query: one("limit"@, text::int_text(limit as int)) + one("offset"@, text::int_text(offset as int)) + maybe("exchange"@, exchange) + maybe("asset_type"@, asset_type),
        }),
{
    let mut query: Vec<(String, String)> = Vec::new();
    push_number(&mut query, "limit", limit as i128);
    push_number(&mut query, "offset", offset as i128);
    push_maybe(&mut query, "exchange", exchange);
    push_maybe(&mut query, "asset_type", asset_type);
    assert(pair_views(query@) =~= one("limit"@, text::int_text(limit as int)) + one("offset"@, text::int_text(offset as int)) + maybe("exchange"@, exchange) + maybe("asset_type"@, asset_type));
    Request { path: "/api/meta/tickers/list", query }
}

/// The trading days of the last year.
pub fn trading_days() -> (r: Request)
    ensures
        r@ == (RequestView {
            path: "/api/a-share/calendar/trading-days"@,
            query: Seq::empty(),
        }),
{
    let query: Vec<(String, String)> = Vec::new();
    
    assert(pair_views(query@) =~= Seq::empty());
    Request { path: "/api/a-share/calendar/trading-days", query }
}

/// Daily bars of a stock.
pub fn price_historical(thscode: &str, start_ms: i64, end_ms: i64, adjust: Adjust, offset: Option<u32>) -> (r: Request)
    ensures
        r@ == (RequestView {
            path: "/api/a-share/prices/historical"@,
            query: one("thscode"@, thscode@) + one("interval"@, "1d"@) + one("start"@, text::int_text(start_ms as int)) + one("end"@, text::int_text(end_ms as int)) + one("adjust"@, adjust.text()) + maybe_number("offset"@, offset),
        }),
{
    let mut query: Vec<(String, String)> = Vec::new();
    push_pair(&mut query, "thscode", thscode);
    push_pair(&mut query, "interval", "1d");
    push_number(&mut query, "start", start_ms as i128);
    push_number(&mut query, "end", end_ms as i128);
    push_pair(&mut query, "adjust", adjust.as_str());
    push_maybe_number(&mut query, "offset", offset);
    assert(pair_views(query@) =~= one("thscode"@, thscode@) + one("interval"@, "1d"@) + one("start"@, text::int_text(start_ms as int)) + one("end"@, text::int_text(end_ms as int)) + one("adjust"@, adjust.text()) + maybe_number("offset"@, offset));
    Request { path: "/api/a-share/prices/historical", query }
}

/// The corporate actions of a stock.
pub fn adjustment_factors(thscode: &str, from: Option<&str>, to: Option<&str>) -> (r: Request)
    ensures
        r@ == (RequestView {
            path: "/api/a-share/corporate-actions/adjustment-factors"@,
            query: one("thscode"@, thscode@) + maybe("from"@, from) + maybe("to"@, to),
        }),
{
    let mut query: Vec<(String, String)> = Vec::new();
    push_pair(&mut query, "thscode", thscode);
    push_maybe(&mut query, "from", from);
    push_maybe(&mut query, "to", to);
    assert(pair_views(query@) =~= one("thscode"@, thscode@) + maybe("from"@, from) + maybe("to"@, to));
    Request { path: "/api/a-share/corporate-actions/adjustment-factors", query }
}

/// Daily bars of an index.
pub fn index_price_historical(thscode: &str, start_ms: i64, end_ms: i64) -> (r: Request)
    ensures
        r@ == (RequestView {
            path: "/api/a-share-index/prices/historical"@,
            query: one("thscode"@, thscode@) + one("interval"@, "1d"@) + one("start"@, text::int_text(start_ms as int)) + one("end"@, text::int_text(end_ms as int)),
        }),
{
    let mut query: Vec<(String, String)> = Vec::new();
    push_pair(&mut query, "thscode", thscode);
    push_pair(&mut query, "interval", "1d");
    push_number(&mut query, "start", start_ms as i128);
    push_number(&mut query, "end", end_ms as i128);
    assert(pair_views(query@) =~= one("thscode"@, thscode@) + one("interval"@, "1d"@) + one("start"@, text::int_text(start_ms as int)) + one("end"@, text::int_text(end_ms as int)));
    Request { path: "/api/a-share-index/prices/historical", query }
}

/// Income statements of a company.
pub fn income_statements(thscode: &str, period: &str, limit: Option<u32>, start: Option<&str>, end: Option<&str>) -> (r: Request)
    ensures
        r@ == (RequestView {
            path: "/api/a-share/financials/income-statements"@,
            query: one("thscode"@, thscode@) + one("period"@, period@) + maybe_number("limit"@, limit) + maybe("start"@, start) + maybe("end"@, end),
        }),
{
    let mut query: Vec<(String, String)> = Vec::new();
    push_pair(&mut query, "thscode", thscode);
    push_pair(&mut query, "period", period);
    push_maybe_number(&mut query, "limit", limit);
    push_maybe(&mut query, "start", start);
    push_maybe(&mut query, "end", end);
    assert(pair_views(query@) =~= one("thscode"@, thscode@) + one("period"@, period@) + maybe_number("limit"@, limit) + maybe("start"@, start) + maybe("end"@, end));
    Request { path: "/api/a-share/financials/income-statements", query }
}

/// Balance sheets of a company.
pub fn balance_sheets(thscode: &str, period: &str, limit: Option<u32>, start: Option<&str>, end: Option<&str>) -> (r: Request)
    ensures
        r@ == (RequestView {
            path: "/api/a-share/financials/balance-sheets"@,
            query: one("thscode"@, thscode@) + one("period"@, period@) + maybe_number("limit"@, limit) + maybe("start"@, start) + maybe("end"@, end),
        }),
{
    let mut query: Vec<(String, String)> = Vec::new();
    push_pair(&mut query, "thscode", thscode);
    push_pair(&mut query, "period", period);
    push_maybe_number(&mut query, "limit", limit);
    push_maybe(&mut query, "start", start);
    push_maybe(&mut query, "end", end);
    assert(pair_views(query@) =~= one("thscode"@, thscode@) + one("period"@, period@) + maybe_number("limit"@, limit) + maybe("start"@, start) + maybe("end"@, end));
    Request { path: "/api/a-share/financials/balance-sheets", query }
}

/// Cash flow statements of a company.
pub fn cash_flow_statements(thscode: &str, period: &str, limit: Option<u32>, start: Option<&str>, end: Option<&str>) -> (r: Request)
    ensures
        r@ == (RequestView {
            path: "/api/a-share/financials/cash-flow-statements"@,
            query: one("thscode"@, thscode@) + one("period"@, period@) + maybe_number("limit"@, limit) + maybe("start"@, start) + maybe("end"@, end),
        }),
{
    let mut query: Vec<(String, String)> = Vec::new();
    push_pair(&mut query, "thscode", thscode);
    push_pair(&mut query, "period", period);
    push_maybe_number(&mut query, "limit", limit);
    push_maybe(&mut query, "start", start);
    push_maybe(&mut query, "end", end);
    assert(pair_views(query@) =~= one("thscode"@, thscode@) + one("period"@, period@) + maybe_number("limit"@, limit) + maybe("start"@, start) + maybe("end"@, end));
    Request { path: "/api/a-share/financials/cash-flow-statements", query }
}

/// Financial indicators of a company.
pub fn financial_indicators(thscode: &str, report: &str) -> (r: Request)
    ensures
        r@ == (RequestView {
            path: "/api/a-share/financials/indicators"@,
            query: one("thscode"@, thscode@) + one("report"@, report@),
        }),
{
    let mut query: Vec<(String, String)> = Vec::new();
    push_pair(&mut query, "thscode", thscode);
    push_pair(&mut query, "report", report);
    assert(pair_views(query@) =~= one("thscode"@, thscode@) + one("report"@, report@));
    Request { path: "/api/a-share/financials/indicators", query }
}

/// The latest valuations of up to 100 stocks.
pub fn valuation_snapshot(thscodes: &Vec<String>) -> (r: Request)
    requires
        thscodes@.len() <= VALUATION_MAX_TOKENS,
    ensures
        r@ == (RequestView {
            path: "/api/a-share/valuations/snapshot"@,
            query: one("thscodes"@, text::joined(text::views(thscodes@), ","@)),
        }),
{
    let mut query: Vec<(String, String)> = Vec::new();
    push_codes(&mut query, "thscodes", thscodes);
    assert(pair_views(query@) =~= one("thscodes"@, text::joined(text::views(thscodes@), ","@)));
    Request { path: "/api/a-share/valuations/snapshot", query }
}

/// Call auctions of stocks.
pub fn auction_snapshot(thscodes: &Vec<String>, stage: Option<&str>) -> (r: Request)
    ensures
        r@ == (RequestView {
            path: "/api/a-share/auction/snapshot"@,
            query: one("thscodes"@, text::joined(text::views(thscodes@), ","@)) + maybe("stage"@, stage),
        }),
{
    let mut query: Vec<(String, String)> = Vec::new();
    push_codes(&mut query, "thscodes", thscodes);
    push_maybe(&mut query, "stage", stage);
    assert(pair_views(query@) =~= one("thscodes"@, text::joined(text::views(thscodes@), ","@)) + maybe("stage"@, stage));
    Request { path: "/api/a-share/auction/snapshot", query }
}

/// The short-term benchmark of the call auction.
pub fn auction_short_term_benchmark(date: Option<&str>) -> (r: Request)
    ensures
        r@ == (RequestView {
            path: "/api/a-share/auction/short-term-benchmark"@,
            query: maybe("date"@, date),
        }),
{
    let mut query: Vec<(String, String)> = Vec::new();
    push_maybe(&mut query, "date", date);
    assert(pair_views(query@) =~= maybe("date"@, date));
    Request { path: "/api/a-share/auction/short-term-benchmark", query }
}

/// The ladder of stocks that were limit-up for days.
pub fn limit_up_ladder() -> (r: Request)
    ensures
        r@ == (RequestView {
            path: "/api/a-share/special-data/limit-up-ladder"@,
            query: Seq::empty(),
        }),
{
    let query: Vec<(String, String)> = Vec::new();
    
    assert(pair_views(query@) =~= Seq::empty());
    Request { path: "/api/a-share/special-data/limit-up-ladder", query }
}

/// The stocks that are looked at most.
pub fn hot_stock_list(period: Option<&str>) -> (r: Request)
    ensures
        r@ == (RequestView {
            path: "/api/a-share/special-data/hot-stock-list"@,
            query: maybe("period"@, period),
        }),
{
    let mut query: Vec<(String, String)> = Vec::new();
    push_maybe(&mut query, "period", period);
    assert(pair_views(query@) =~= maybe("period"@, period));
    Request { path: "/api/a-share/special-data/hot-stock-list", query }
}

/// The stocks that were looked at most on a date.
pub fn hot_stock_list_history(date: &str) -> (r: Request)
    ensures
        r@ == (RequestView {
            path: "/api/a-share/special-data/hot-stock-list-history"@,
            query: one("date"@, date@),
        }),
{
    let mut query: Vec<(String, String)> = Vec::new();
    push_pair(&mut query, "date", date);
    assert(pair_views(query@) =~= one("date"@, date@));
    Request { path: "/api/a-share/special-data/hot-stock-list-history", query }
}

/// The rank of a stock among those looked at most.
pub fn hot_stock_rank_trend(thscode: &str, start_date: &str, end_date: &str) -> (r: Request)
    ensures
        r@ == (RequestView {
            path: "/api/a-share/special-data/hot-stock-rank-trend"@,
            query: one("thscode"@, thscode@) + one("start_date"@, start_date@) + one("end_date"@, end_date@),
        }),
{
    let mut query: Vec<(String, String)> = Vec::new();
    push_pair(&mut query, "thscode", thscode);
    push_pair(&mut query, "start_date", start_date);
    push_pair(&mut query, "end_date", end_date);
    assert(pair_views(query@) =~= one("thscode"@, thscode@) + one("start_date"@, start_date@) + one("end_date"@, end_date@));
    Request { path: "/api/a-share/special-data/hot-stock-rank-trend", query }
}

/// The stocks that rise fastest.
pub fn skyrocket_list(period: Option<&str>) -> (r: Request)
    ensures
        r@ == (RequestView {
            path: "/api/a-share/special-data/skyrocket-list"@,
            query: maybe("period"@, period),
        }),
{
    let mut query: Vec<(String, String)> = Vec::new();
    push_maybe(&mut query, "period", period);
    assert(pair_views(query@) =~= maybe("period"@, period));
    Request { path: "/api/a-share/special-data/skyrocket-list", query }
}

/// The stocks with the most active brokers.
pub fn dragon_tiger_list(board_type: Option<&str>, date: Option<&str>) -> (r: Request)
    ensures
        r@ == (RequestView {
            path: "/api/a-share/special-data/dragon-tiger-list"@,
            query: maybe("board_type"@, board_type) + maybe("date"@, date),
        }),
{
    let mut query: Vec<(String, String)> = Vec::new();
    push_maybe(&mut query, "board_type", board_type);
    push_maybe(&mut query, "date", date);
    assert(pair_views(query@) =~= maybe("board_type"@, board_type) + maybe("date"@, date));
    Request { path: "/api/a-share/special-data/dragon-tiger-list", query }
}

/// Unusual moves of the day.
pub fn anomaly_analysis_list(tag_codes: Option<&str>) -> (r: Request)
    ensures
        r@ == (RequestView {
            path: "/api/a-share/special-data/anomaly-analysis-list"@,
            query: maybe("tag_codes"@, tag_codes),
        }),
{
    let mut query: Vec<(String, String)> = Vec::new();
    push_maybe(&mut query, "tag_codes", tag_codes);
    assert(pair_views(query@) =~= maybe("tag_codes"@, tag_codes));
    Request { path: "/api/a-share/special-data/anomaly-analysis-list", query }
}

/// Unusual moves of stocks.
pub fn anomaly_analysis_stock(thscodes: &Vec<String>) -> (r: Request)
    ensures
        r@ == (RequestView {
            path: "/api/a-share/special-data/anomaly-analysis-stock"@,
            query: one("thscodes"@, text::joined(text::views(thscodes@), ","@)),
        }),
{
    let mut query: Vec<(String, String)> = Vec::new();
    push_codes(&mut query, "thscodes", thscodes);
    assert(pair_views(query@) =~= one("thscodes"@, text::joined(text::views(thscodes@), ","@)));
    Request { path: "/api/a-share/special-data/anomaly-analysis-stock", query }
}

/// The profile of a fund.
pub fn fund_profile(ft: FundType, thscode: &str) -> (r: Request)
    ensures
        r@ == (RequestView {
            path: "/api/fund/profile/detail"@,
            query: one("fund_type"@, ft.text()) + one("thscode"@, thscode@),
        }),
{
    let mut query: Vec<(String, String)> = Vec::new();
    push_pair(&mut query, "fund_type", ft.as_str());
    push_pair(&mut query, "thscode", thscode);
    assert(pair_views(query@) =~= one("fund_type"@, ft.text()) + one("thscode"@, thscode@));
    Request { path: "/api/fund/profile/detail", query }
}

/// The largest holdings of a fund.
pub fn fund_holdings(ft: FundType, thscode: &str) -> (r: Request)
    ensures
        r@ == (RequestView {
            path: "/api/fund/portfolio/holdings"@,
            query: one("fund_type"@, ft.text()) + one("thscode"@, thscode@),
        }),
{
    let mut query: Vec<(String, String)> = Vec::new();
    push_pair(&mut query, "fund_type", ft.as_str());
    push_pair(&mut query, "thscode", thscode);
    assert(pair_views(query@) =~= one("fund_type"@, ft.text()) + one("thscode"@, thscode@));
    Request { path: "/api/fund/portfolio/holdings", query }
}

/// The stocks that a fund held.
pub fn fund_portfolio_stock_history(ft: FundType, thscode: &str, report_type: &str, end_date: &str) -> (r: Request)
    ensures
        r@ == (RequestView {
            path: "/api/fund/portfolio/stock-history"@,
            query: one("fund_type"@, ft.text()) + one("thscode"@, thscode@) + one("report_type"@, report_type@) + one("end_date"@, end_date@),
        }),
{
    let mut query: Vec<(String, String)> = Vec::new();
    push_pair(&mut query, "fund_type", ft.as_str());
    push_pair(&mut query, "thscode", thscode);
    push_pair(&mut query, "report_type", report_type);
    push_pair(&mut query, "end_date", end_date);
    assert(pair_views(query@) =~= one("fund_type"@, ft.text()) + one("thscode"@, thscode@) + one("report_type"@, report_type@) + one("end_date"@, end_date@));
    Request { path: "/api/fund/portfolio/stock-history", query }
}

/// The dates of the stock reports of a fund.
pub fn fund_portfolio_stock_report_dates(ft: FundType, thscode: &str, report_type: Option<&str>) -> (r: Request)
    ensures
        r@ == (RequestView {
            path: "/api/fund/portfolio/stock-report-dates"@,
            query: one("fund_type"@, ft.text()) + one("thscode"@, thscode@) + maybe("report_type"@, report_type),
        }),
{
    let mut query: Vec<(String, String)> = Vec::new();
    push_pair(&mut query, "fund_type", ft.as_str());
    push_pair(&mut query, "thscode", thscode);
    push_maybe(&mut query, "report_type", report_type);
    assert(pair_views(query@) =~= one("fund_type"@, ft.text()) + one("thscode"@, thscode@) + maybe("report_type"@, report_type));
    Request { path: "/api/fund/portfolio/stock-report-dates", query }
}

/// The bonds that a fund held.
pub fn fund_portfolio_bond_history(ft: FundType, thscode: &str, report_type: &str, end_date: &str) -> (r: Request)
    ensures
        r@ == (RequestView {
            path: "/api/fund/portfolio/bond-history"@,
            query: one("fund_type"@, ft.text()) + one("thscode"@, thscode@) + one("report_type"@, report_type@) + one("end_date"@, end_date@),
        }),
{
    let mut query: Vec<(String, String)> = Vec::new();
    push_pair(&mut query, "fund_type", ft.as_str());
    push_pair(&mut query, "thscode", thscode);
    push_pair(&mut query, "report_type", report_type);
    push_pair(&mut query, "end_date", end_date);
    assert(pair_views(query@) =~= one("fund_type"@, ft.text()) + one("thscode"@, thscode@) + one("report_type"@, report_type@) + one("end_date"@, end_date@));
    Request { path: "/api/fund/portfolio/bond-history", query }
}

/// The dates of the bond reports of a fund.
pub fn fund_portfolio_bond_report_dates(ft: FundType, thscode: &str, report_type: Option<&str>) -> (r: Request)
    ensures
        r@ == (RequestView {
            path: "/api/fund/portfolio/bond-report-dates"@,
            query: one("fund_type"@, ft.text()) + one("thscode"@, thscode@) + maybe("report_type"@, report_type),
        }),
{
    let mut query: Vec<(String, String)> = Vec::new();
    push_pair(&mut query, "fund_type", ft.as_str());
    push_pair(&mut query, "thscode", thscode);
    push_maybe(&mut query, "report_type", report_type);
    assert(pair_views(query@) =~= one("fund_type"@, ft.text()) + one("thscode"@, thscode@) + maybe("report_type"@, report_type));
    Request { path: "/api/fund/portfolio/bond-report-dates", query }
}

/// The asset allocation of a fund.
pub fn fund_portfolio_asset_allocation(ft: FundType, thscode: &str) -> (r: Request)
    ensures
        r@ == (RequestView {
            path: "/api/fund/portfolio/asset-allocation"@,
            query: one("fund_type"@, ft.text()) + one("thscode"@, thscode@),
        }),
{
    let mut query: Vec<(String, String)> = Vec::new();
    push_pair(&mut query, "fund_type", ft.as_str());
    push_pair(&mut query, "thscode", thscode);
    assert(pair_views(query@) =~= one("fund_type"@, ft.text()) + one("thscode"@, thscode@));
    Request { path: "/api/fund/portfolio/asset-allocation", query }
}

/// The industry allocation of a fund.
pub fn fund_portfolio_industry_allocation(ft: FundType, thscode: &str) -> (r: Request)
    ensures
        r@ == (RequestView {
            path: "/api/fund/portfolio/industry-allocation"@,
            query: one("fund_type"@, ft.text()) + one("thscode"@, thscode@),
        }),
{
    let mut query: Vec<(String, String)> = Vec::new();
    push_pair(&mut query, "fund_type", ft.as_str());
    push_pair(&mut query, "thscode", thscode);
    assert(pair_views(query@) =~= one("fund_type"@, ft.text()) + one("thscode"@, thscode@));
    Request { path: "/api/fund/portfolio/industry-allocation", query }
}

/// The net asset values of a fund.
pub fn fund_performance_nav(ft: FundType, thscode: &str, range: Option<&str>, nav_type: Option<&str>) -> (r: Request)
    ensures
        r@ == (RequestView {
            path: "/api/fund/performance/nav"@,
            query: one("fund_type"@, ft.text()) + one("thscode"@, thscode@) + maybe("range"@, range) + maybe("nav_type"@, nav_type),
        }),
{
    let mut query: Vec<(String, String)> = Vec::new();
    push_pair(&mut query, "fund_type", ft.as_str());
    push_pair(&mut query, "thscode", thscode);
    push_maybe(&mut query, "range", range);
    push_maybe(&mut query, "nav_type", nav_type);
    assert(pair_views(query@) =~= one("fund_type"@, ft.text()) + one("thscode"@, thscode@) + maybe("range"@, range) + maybe("nav_type"@, nav_type));
    Request { path: "/api/fund/performance/nav", query }
}

/// The returns of a fund.
pub fn fund_performance_returns(ft: FundType, thscode: &str) -> (r: Request)
    ensures
        r@ == (RequestView {
            path: "/api/fund/performance/returns"@,
            query: one("fund_type"@, ft.text()) + one("thscode"@, thscode@),
        }),
{
    let mut query: Vec<(String, String)> = Vec::new();
    push_pair(&mut query, "fund_type", ft.as_str());
    push_pair(&mut query, "thscode", thscode);
    assert(pair_views(query@) =~= one("fund_type"@, ft.text()) + one("thscode"@, thscode@));
    Request { path: "/api/fund/performance/returns", query }
}

/// The performance of a fund over time.
pub fn fund_performance_indicators_historical(ft: FundType, thscode: &str, start_ms: i64, end_ms: i64) -> (r: Request)
    ensures
        r@ == (RequestView {
            path: "/api/fund/performance/indicators-historical"@,
            query: one("fund_type"@, ft.text()) + one("thscode"@, thscode@) + one("start"@, text::int_text(start_ms as int)) + one("end"@, text::int_text(end_ms as int)),
        }),
{
    let mut query: Vec<(String, String)> = Vec::new();
    push_pair(&mut query, "fund_type", ft.as_str());
    push_pair(&mut query, "thscode", thscode);
    push_number(&mut query, "start", start_ms as i128);
    push_number(&mut query, "end", end_ms as i128);
    assert(pair_views(query@) =~= one("fund_type"@, ft.text()) + one("thscode"@, thscode@) + one("start"@, text::int_text(start_ms as int)) + one("end"@, text::int_text(end_ms as int)));
    Request { path: "/api/fund/performance/indicators-historical", query }
}

/// The drawdowns of a fund.
pub fn fund_performance_drawdowns(ft: FundType, thscode: &str) -> (r: Request)
    ensures
        r@ == (RequestView {
            path: "/api/fund/performance/drawdowns"@,
            query: one("fund_type"@, ft.text()) + one("thscode"@, thscode@),
        }),
{
    let mut query: Vec<(String, String)> = Vec::new();
    push_pair(&mut query, "fund_type", ft.as_str());
    push_pair(&mut query, "thscode", thscode);
    assert(pair_views(query@) =~= one("fund_type"@, ft.text()) + one("thscode"@, thscode@));
    Request { path: "/api/fund/performance/drawdowns", query }
}

/// Who holds a fund.
pub fn fund_holders_detail(ft: FundType, thscode: &str, merge_scope: Option<&str>) -> (r: Request)
    ensures
        r@ == (RequestView {
            path: "/api/fund/holders/detail"@,
            query: one("fund_type"@, ft.text()) + one("thscode"@, thscode@) + maybe("merge_scope"@, merge_scope),
        }),
{
    let mut query: Vec<(String, String)> = Vec::new();
    push_pair(&mut query, "fund_type", ft.as_str());
    push_pair(&mut query, "thscode", thscode);
    push_maybe(&mut query, "merge_scope", merge_scope);
    assert(pair_views(query@) =~= one("fund_type"@, ft.text()) + one("thscode"@, thscode@) + maybe("merge_scope"@, merge_scope));
    Request { path: "/api/fund/holders/detail", query }
}

/// The largest holders of a fund.
pub fn fund_holders_top(ft: FundType, thscode: &str, limit: Option<u32>) -> (r: Request)
    ensures
        r@ == (RequestView {
            path: "/api/fund/holders/top"@,
            query: one("fund_type"@, ft.text()) + one("thscode"@, thscode@) + maybe_number("limit"@, limit),
        }),
{
    let mut query: Vec<(String, String)> = Vec::new();
    push_pair(&mut query, "fund_type", ft.as_str());
    push_pair(&mut query, "thscode", thscode);
    push_maybe_number(&mut query, "limit", limit);
    assert(pair_views(query@) =~= one("fund_type"@, ft.text()) + one("thscode"@, thscode@) + maybe_number("limit"@, limit));
    Request { path: "/api/fund/holders/top", query }
}

/// The dividends of a fund.
pub fn fund_dividends(ft: FundType, thscode: &str) -> (r: Request)
    ensures
        r@ == (RequestView {
            path: "/api/fund/corporate-actions/dividends"@,
            query: one("fund_type"@, ft.text()) + one("thscode"@, thscode@),
        }),
{
    let mut query: Vec<(String, String)> = Vec::new();
    push_pair(&mut query, "fund_type", ft.as_str());
    push_pair(&mut query, "thscode", thscode);
    assert(pair_views(query@) =~= one("fund_type"@, ft.text()) + one("thscode"@, thscode@));
    Request { path: "/api/fund/corporate-actions/dividends", query }
}

/// The diagnosis of a fund.
pub fn fund_diagnostics(ft: FundType, thscode: &str) -> (r: Request)
    ensures
        r@ == (RequestView {
            path: "/api/fund/diagnostics/detail"@,
            query: one("fund_type"@, ft.text()) + one("thscode"@, thscode@),
        }),
{
    let mut query: Vec<(String, String)> = Vec::new();
    push_pair(&mut query, "fund_type", ft.as_str());
    push_pair(&mut query, "thscode", thscode);
    assert(pair_views(query@) =~= one("fund_type"@, ft.text()) + one("thscode"@, thscode@));
    Request { path: "/api/fund/diagnostics/detail", query }
}

/// Financial indicators of a fund.
pub fn fund_financials_indicators(ft: FundType, thscode: &str) -> (r: Request)
    ensures
        r@ == (RequestView {
            path: "/api/fund/financials/indicators"@,
            query: one("fund_type"@, ft.text()) + one("thscode"@, thscode@),
        }),
{
    let mut query: Vec<(String, String)> = Vec::new();
    push_pair(&mut query, "fund_type", ft.as_str());
    push_pair(&mut query, "thscode", thscode);
    assert(pair_views(query@) =~= one("fund_type"@, ft.text()) + one("thscode"@, thscode@));
    Request { path: "/api/fund/financials/indicators", query }
}

/// Income statements of a fund.
pub fn fund_financials_income_statements(ft: FundType, thscode: &str) -> (r: Request)
    ensures
        r@ == (RequestView {
            path: "/api/fund/financials/income-statements"@,
            query: one("fund_type"@, ft.text()) + one("thscode"@, thscode@),
        }),
{
    let mut query: Vec<(String, String)> = Vec::new();
    push_pair(&mut query, "fund_type", ft.as_str());
    push_pair(&mut query, "thscode", thscode);
    assert(pair_views(query@) =~= one("fund_type"@, ft.text()) + one("thscode"@, thscode@));
    Request { path: "/api/fund/financials/income-statements", query }
}

/// Balance sheets of a fund.
pub fn fund_financials_balance_sheets(ft: FundType, thscode: &str) -> (r: Request)
    ensures
        r@ == (RequestView {
            path: "/api/fund/financials/balance-sheets"@,
            query: one("fund_type"@, ft.text()) + one("thscode"@, thscode@),
        }),
{
    let mut query: Vec<(String, String)> = Vec::new();
    push_pair(&mut query, "fund_type", ft.as_str());
    push_pair(&mut query, "thscode", thscode);
    assert(pair_views(query@) =~= one("fund_type"@, ft.text()) + one("thscode"@, thscode@));
    Request { path: "/api/fund/financials/balance-sheets", query }
}

/// News about a fund.
pub fn fund_news_article_list(ft: FundType, thscode: &str, limit: Option<u32>, offset: Option<u32>) -> (r: Request)
    ensures
        r@ == (RequestView {
            path: "/api/fund/news/article-list"@,
            query: one("fund_type"@, ft.text()) + one("thscode"@, thscode@) + maybe_number("limit"@, limit) + maybe_number("offset"@, offset),
        }),
{
    let mut query: Vec<(String, String)> = Vec::new();
    push_pair(&mut query, "fund_type", ft.as_str());
    push_pair(&mut query, "thscode", thscode);
    push_maybe_number(&mut query, "limit", limit);
    push_maybe_number(&mut query, "offset", offset);
    assert(pair_views(query@) =~= one("fund_type"@, ft.text()) + one("thscode"@, thscode@) + maybe_number("limit"@, limit) + maybe_number("offset"@, offset));
    Request { path: "/api/fund/news/article-list", query }
}

/// Funds on offer.
pub fn fund_offerings_list(subscribe: &str) -> (r: Request)
    ensures
        r@ == (RequestView {
            path: "/api/fund/offerings/list"@,
            query: one("subscribe"@, subscribe@),
        }),
{
    let mut query: Vec<(String, String)> = Vec::new();
    push_pair(&mut query, "subscribe", subscribe);
    assert(pair_views(query@) =~= one("subscribe"@, subscribe@));
    Request { path: "/api/fund/offerings/list", query }
}

/// The quote of a fund on an exchange.
pub fn fund_market_snapshot(thscode: &str) -> (r: Request)
    ensures
        r@ == (RequestView {
            path: "/api/fund/market/snapshot"@,
            query: one("thscode"@, thscode@),
        }),
{
    let mut query: Vec<(String, String)> = Vec::new();
    push_pair(&mut query, "thscode", thscode);
    assert(pair_views(query@) =~= one("thscode"@, thscode@));
    Request { path: "/api/fund/market/snapshot", query }
}

/// Daily bars of a fund on an exchange.
pub fn fund_market_historical(thscode: &str, start_ms: i64, end_ms: i64, interval: Option<&str>) -> (r: Request)
    ensures
        r@ == (RequestView {
            path: "/api/fund/market/historical"@,
            query: one("thscode"@, thscode@) + one("start"@, text::int_text(start_ms as int)) + one("end"@, text::int_text(end_ms as int)) + maybe("interval"@, interval),
        }),
{
    let mut query: Vec<(String, String)> = Vec::new();
    push_pair(&mut query, "thscode", thscode);
    push_number(&mut query, "start", start_ms as i128);
    push_number(&mut query, "end", end_ms as i128);
    push_maybe(&mut query, "interval", interval);
    assert(pair_views(query@) =~= one("thscode"@, thscode@) + one("start"@, text::int_text(start_ms as int)) + one("end"@, text::int_text(end_ms as int)) + maybe("interval"@, interval));
    Request { path: "/api/fund/market/historical", query }
}

/// A fund company.
pub fn fund_company_detail(company_id: &str) -> (r: Request)
    ensures
        r@ == (RequestView {
            path: "/api/fund/companies/detail"@,
            query: one("company_id"@, company_id@),
        }),
{
    let mut query: Vec<(String, String)> = Vec::new();
    push_pair(&mut query, "company_id", company_id);
    assert(pair_views(query@) =~= one("company_id"@, company_id@));
    Request { path: "/api/fund/companies/detail", query }
}

/// A fund manager.
pub fn fund_manager_detail(manager_id: &str) -> (r: Request)
    ensures
        r@ == (RequestView {
            path: "/api/fund/managers/detail"@,
            query: one("manager_id"@, manager_id@),
        }),
{
    let mut query: Vec<(String, String)> = Vec::new();
    push_pair(&mut query, "manager_id", manager_id);
    assert(pair_views(query@) =~= one("manager_id"@, manager_id@));
    Request { path: "/api/fund/managers/detail", query }
}

/// The career of a fund manager.
pub fn fund_manager_experience(manager_id: &str) -> (r: Request)
    ensures
        r@ == (RequestView {
            path: "/api/fund/managers/experience"@,
            query: one("manager_id"@, manager_id@),
        }),
{
    let mut query: Vec<(String, String)> = Vec::new();
    push_pair(&mut query, "manager_id", manager_id);
    assert(pair_views(query@) =~= one("manager_id"@, manager_id@));
    Request { path: "/api/fund/managers/experience", query }
}

/// The style of a fund manager.
pub fn fund_manager_investment_style(manager_id: &str) -> (r: Request)
    ensures
        r@ == (RequestView {
            path: "/api/fund/managers/investment-style"@,
            query: one("manager_id"@, manager_id@),
        }),
{
    let mut query: Vec<(String, String)> = Vec::new();
    push_pair(&mut query, "manager_id", manager_id);
    assert(pair_views(query@) =~= one("manager_id"@, manager_id@));
    Request { path: "/api/fund/managers/investment-style", query }
}

/// The performance of a fund manager.
pub fn fund_manager_performance(manager_id: &str, range: &str) -> (r: Request)
    ensures
        r@ == (RequestView {
            path: "/api/fund/managers/performance"@,
            query: one("manager_id"@, manager_id@) + one("range"@, range@),
        }),
{
    let mut query: Vec<(String, String)> = Vec::new();
    push_pair(&mut query, "manager_id", manager_id);
    push_pair(&mut query, "range", range);
    assert(pair_views(query@) =~= one("manager_id"@, manager_id@) + one("range"@, range@));
    Request { path: "/api/fund/managers/performance", query }
}

} // verus!
