//! The pages of the web interface.

use vstd::prelude::*;

use crate::text;
use crate::text::{int_string, text_eq};
use crate::web;
use crate::web::esc;

verus! {

/// A link of the navigation, marked where its page is shown.
pub open spec fn link(active: Seq<char>, id: Seq<char>, label: Seq<char>) -> Seq<char> {
    "<a class='"@ + (if id == active {
        "active"@
    } else {
        ""@
    }) + "' href='/"@ + id + "'>"@ + label + "</a>"@
}

fn push_link(out: &mut String, active: &str, id: &str, label: &str)
    ensures
        final(out)@ == old(out)@ + link(active@, id@, label@),
{
    let ghost before = out@;
    out.append("<a class='");
    if text_eq(id, active) {
        out.append("active");
    } else {
        out.append("");
    }
    out.append("' href='/");
    out.append(id);
    out.append("'>");
    out.append(label);
    out.append("</a>");
    assert(out@ =~= before + link(active@, id@, label@));
}

/// A page: the navigation around a body.
pub open spec fn layout_text(title: Seq<char>, active: Seq<char>, body: Seq<char>) -> Seq<char> {
    "<!doctype html><html lang=\"zh\"><head><meta charset=\"utf-8\">\n<meta name=\"viewport\" content=\"width=device-width, initial-scale=1\">\n<title>"@ + title + " · finbox</title>\n<link rel=\"stylesheet\" href=\"/static/style.css\">\n</head><body>\n<header class=\"topbar\">\n  <div class=\"brand\">finbox</div>\n  <nav class=\"mainnav\">"@ + link(active, ""@, "模拟"@) + link(active, "market"@, "行情"@) + link(active, "settings"@, "设置"@) + "</nav>\n  <div class=\"sys-status\" id=\"sys-status\"></div>\n</header>\n<div class=\"statusbar\" id=\"statusbar\"></div>\n<main class=\"content\">"@ + body + "</main>\n<footer class=\"foot\">finbox</footer>\n<script src=\"/static/echarts.min.js\"></script>\n<script>window.ACTIVE_ACCT = localStorage.getItem('finbox_acct') || '';</script>\n<script src=\"/static/app.js\"></script>\n</body></html>"@
}

/// A page: the navigation around a body.
pub fn layout(title: &str, active: &str, body: &str) -> (r: String)
    ensures
        r@ == layout_text(title@, active@, body@),
{
    let mut out = String::new();
    out.append("<!doctype html><html lang=\"zh\"><head><meta charset=\"utf-8\">\n<meta name=\"viewport\" content=\"width=device-width, initial-scale=1\">\n<title>");
    out.append(title);
    out.append(" · finbox</title>\n<link rel=\"stylesheet\" href=\"/static/style.css\">\n</head><body>\n<header class=\"topbar\">\n  <div class=\"brand\">finbox</div>\n  <nav class=\"mainnav\">");
    push_link(&mut out, active, "", "模拟");
    push_link(&mut out, active, "market", "行情");
    push_link(&mut out, active, "settings", "设置");
    out.append("</nav>\n  <div class=\"sys-status\" id=\"sys-status\"></div>\n</header>\n<div class=\"statusbar\" id=\"statusbar\"></div>\n<main class=\"content\">");
    out.append(body);
    out.append("</main>\n<footer class=\"foot\">finbox</footer>\n<script src=\"/static/echarts.min.js\"></script>\n<script>window.ACTIVE_ACCT = localStorage.getItem('finbox_acct') || '';</script>\n<script src=\"/static/app.js\"></script>\n</body></html>");
    assert(out@ =~= layout_text(title@, active@, body@));
    out
}

/// The accounts and the decisions of the day.
pub open spec fn home_page_text() -> Seq<char> {
    layout_text("模拟"@, ""@, "<div class=\"overview-cards\" id=\"overview-cards\"></div>\n<div class=\"panel\">\n  <div class=\"panel-head\"><h2>模拟账户</h2><a class=\"btn-new\" href=\"/accounts/new\">+ 新建账户</a></div>\n  <div class=\"acct-grid\" id=\"acct-grid\"></div>\n  <div class=\"empty\" id=\"acct-empty\" style=\"display:none\">还没有账户，点击右上角「+ 新建账户」开始</div>\n</div>\n<div class=\"panel\">\n  <h2>今日决策动态</h2>\n  <div id=\"decision-feed\" class=\"feed\"></div>\n</div>"@)
}

/// The accounts and the decisions of the day.
pub fn home_page() -> (r: String)
    ensures
        r@ == home_page_text(),
{
    let mut title = String::new();
    title.append("模拟");
    assert(title@ =~= "模拟"@);
    let mut body = String::new();
    body.append("<div class=\"overview-cards\" id=\"overview-cards\"></div>\n<div class=\"panel\">\n  <div class=\"panel-head\"><h2>模拟账户</h2><a class=\"btn-new\" href=\"/accounts/new\">+ 新建账户</a></div>\n  <div class=\"acct-grid\" id=\"acct-grid\"></div>\n  <div class=\"empty\" id=\"acct-empty\" style=\"display:none\">还没有账户，点击右上角「+ 新建账户」开始</div>\n</div>\n<div class=\"panel\">\n  <h2>今日决策动态</h2>\n  <div id=\"decision-feed\" class=\"feed\"></div>\n</div>");
    assert(body@ =~= "<div class=\"overview-cards\" id=\"overview-cards\"></div>\n<div class=\"panel\">\n  <div class=\"panel-head\"><h2>模拟账户</h2><a class=\"btn-new\" href=\"/accounts/new\">+ 新建账户</a></div>\n  <div class=\"acct-grid\" id=\"acct-grid\"></div>\n  <div class=\"empty\" id=\"acct-empty\" style=\"display:none\">还没有账户，点击右上角「+ 新建账户」开始</div>\n</div>\n<div class=\"panel\">\n  <h2>今日决策动态</h2>\n  <div id=\"decision-feed\" class=\"feed\"></div>\n</div>"@);
    layout(title.as_str(), "", body.as_str())
}

/// Charts and the market.
pub open spec fn market_page_text() -> Seq<char> {
    layout_text("行情"@, "market"@, "<div class=\"panel\">\n  <div class=\"index-tabs\" id=\"index-tabs\"></div>\n  <div class=\"searchbar\" style=\"margin-top:12px\">\n    <input id=\"sym-search\" placeholder=\"搜索个股：输入代码或名称，如 600519 / 贵州茅台\" autocomplete=\"off\">\n    <div id=\"sym-suggest\" class=\"suggest\"></div>\n  </div>\n</div>\n<div class=\"market-grid\">\n  <section class=\"panel\">\n    <div class=\"kline-head\">\n      <h2 id=\"kline-name\">加载中…</h2>\n      <span id=\"kline-quote\" class=\"quote\"></span>\n    </div>\n    <div id=\"kline-chart\" class=\"chart chart-lg\"></div>\n  </section>\n  <aside class=\"market-side\">\n    <div class=\"panel\">\n      <h2>涨跌分布</h2>\n      <div id=\"dist-chart\" class=\"chart\" style=\"height:180px\"></div>\n    </div>\n    <div class=\"panel\">\n      <h2>热股榜 TOP10</h2>\n      <div id=\"hot-list\" class=\"hot-list\"><div class=\"empty\">加载中…</div></div>\n    </div>\n  </aside>\n</div>"@)
}

/// Charts and the market.
pub fn market_page() -> (r: String)
    ensures
        r@ == market_page_text(),
{
    let mut title = String::new();
    title.append("行情");
    assert(title@ =~= "行情"@);
    let mut body = String::new();
    body.append("<div class=\"panel\">\n  <div class=\"index-tabs\" id=\"index-tabs\"></div>\n  <div class=\"searchbar\" style=\"margin-top:12px\">\n    <input id=\"sym-search\" placeholder=\"搜索个股：输入代码或名称，如 600519 / 贵州茅台\" autocomplete=\"off\">\n    <div id=\"sym-suggest\" class=\"suggest\"></div>\n  </div>\n</div>\n<div class=\"market-grid\">\n  <section class=\"panel\">\n    <div class=\"kline-head\">\n      <h2 id=\"kline-name\">加载中…</h2>\n      <span id=\"kline-quote\" class=\"quote\"></span>\n    </div>\n    <div id=\"kline-chart\" class=\"chart chart-lg\"></div>\n  </section>\n  <aside class=\"market-side\">\n    <div class=\"panel\">\n      <h2>涨跌分布</h2>\n      <div id=\"dist-chart\" class=\"chart\" style=\"height:180px\"></div>\n    </div>\n    <div class=\"panel\">\n      <h2>热股榜 TOP10</h2>\n      <div id=\"hot-list\" class=\"hot-list\"><div class=\"empty\">加载中…</div></div>\n    </div>\n  </aside>\n</div>");
    assert(body@ =~= "<div class=\"panel\">\n  <div class=\"index-tabs\" id=\"index-tabs\"></div>\n  <div class=\"searchbar\" style=\"margin-top:12px\">\n    <input id=\"sym-search\" placeholder=\"搜索个股：输入代码或名称，如 600519 / 贵州茅台\" autocomplete=\"off\">\n    <div id=\"sym-suggest\" class=\"suggest\"></div>\n  </div>\n</div>\n<div class=\"market-grid\">\n  <section class=\"panel\">\n    <div class=\"kline-head\">\n      <h2 id=\"kline-name\">加载中…</h2>\n      <span id=\"kline-quote\" class=\"quote\"></span>\n    </div>\n    <div id=\"kline-chart\" class=\"chart chart-lg\"></div>\n  </section>\n  <aside class=\"market-side\">\n    <div class=\"panel\">\n      <h2>涨跌分布</h2>\n      <div id=\"dist-chart\" class=\"chart\" style=\"height:180px\"></div>\n    </div>\n    <div class=\"panel\">\n      <h2>热股榜 TOP10</h2>\n      <div id=\"hot-list\" class=\"hot-list\"><div class=\"empty\">加载中…</div></div>\n    </div>\n  </aside>\n</div>"@);
    layout(title.as_str(), "market", body.as_str())
}

/// The form of a new account.
pub open spec fn new_account_page_text() -> Seq<char> {
    layout_text("新建账户"@, ""@, "<section class=\"panel\"><h2>新建模拟账户</h2>\n    <form method=post class=\"form\">\n      <label>账户名称 <input name=name placeholder=\"如：稳健型\"></label>\n      <label>初始资金(元) <input name=capital type=number value=200000></label>\n      <label>自选池(逗号分隔代码) <input name=watchlist></label>\n      <button type=submit>创建</button>\n    </form></section>"@)
}

/// The form of a new account.
pub fn new_account_page() -> (r: String)
    ensures
        r@ == new_account_page_text(),
{
    let mut title = String::new();
    title.append("新建账户");
    assert(title@ =~= "新建账户"@);
    let mut body = String::new();
    body.append("<section class=\"panel\"><h2>新建模拟账户</h2>\n    <form method=post class=\"form\">\n      <label>账户名称 <input name=name placeholder=\"如：稳健型\"></label>\n      <label>初始资金(元) <input name=capital type=number value=200000></label>\n      <label>自选池(逗号分隔代码) <input name=watchlist></label>\n      <button type=submit>创建</button>\n    </form></section>");
    assert(body@ =~= "<section class=\"panel\"><h2>新建模拟账户</h2>\n    <form method=post class=\"form\">\n      <label>账户名称 <input name=name placeholder=\"如：稳健型\"></label>\n      <label>初始资金(元) <input name=capital type=number value=200000></label>\n      <label>自选池(逗号分隔代码) <input name=watchlist></label>\n      <button type=submit>创建</button>\n    </form></section>"@);
    layout(title.as_str(), "", body.as_str())
}

/// There is no such account.
pub open spec fn missing_account_page_text(name: Seq<char>) -> Seq<char> {
    layout_text("账户不存在"@, ""@, "<p class='empty'>账户「"@ + web::escaped(name) + "」不存在，<a href='/'>返回模拟</a></p>"@)
}

/// There is no such account.
pub fn missing_account_page(name: &str) -> (r: String)
    ensures
        r@ == missing_account_page_text(name@),
{
    let mut title = String::new();
    title.append("账户不存在");
    assert(title@ =~= "账户不存在"@);
    let mut body = String::new();
    body.append("<p class='empty'>账户「");
    body.append(esc(name).as_str());
    body.append("」不存在，<a href='/'>返回模拟</a></p>");
    assert(body@ =~= "<p class='empty'>账户「"@ + web::escaped(name@) + "」不存在，<a href='/'>返回模拟</a></p>"@);
    layout(title.as_str(), "", body.as_str())
}

/// An account.
pub open spec fn account_page_text(name: Seq<char>) -> Seq<char> {
    layout_text(name + " · 账户"@, "account"@, "<p><a href=\"/\" class=\"back\">← 返回模拟</a></p>\n<div class=\"panel-head\"><h2 id=\"acct-title\">账户「"@ + web::escaped(name) + "」</h2>\n  <a class=\"btn-ghost\" href=\"/account/"@ + web::escaped(name) + "/edit\">参数设置</a></div>\n<div class=\"cards\" id=\"acct-cards\"></div>\n<div class=\"panel\"><h2>资产曲线</h2><div id=\"equity-chart\" class=\"chart\"></div></div>\n<div class=\"tabs\" id=\"acct-tabs\">\n  <button class=\"tab active\" data-tab=\"positions\">持仓</button>\n  <button class=\"tab\" data-tab=\"trades\">成交</button>\n  <button class=\"tab\" data-tab=\"decisions\">AI 建议</button>\n</div>\n<div class=\"tab-pane\" id=\"tab-positions\"></div>\n<div class=\"tab-pane\" id=\"tab-trades\" style=\"display:none\"></div>\n<div class=\"tab-pane\" id=\"tab-decisions\" style=\"display:none\"></div>"@)
}

/// An account.
pub fn account_page(name: &str) -> (r: String)
    ensures
        r@ == account_page_text(name@),
{
    let mut title = String::new();
    title.append(name);
    title.append(" · 账户");
    assert(title@ =~= name@ + " · 账户"@);
    let mut body = String::new();
    body.append("<p><a href=\"/\" class=\"back\">← 返回模拟</a></p>\n<div class=\"panel-head\"><h2 id=\"acct-title\">账户「");
    body.append(esc(name).as_str());
    body.append("」</h2>\n  <a class=\"btn-ghost\" href=\"/account/");
    body.append(esc(name).as_str());
    body.append("/edit\">参数设置</a></div>\n<div class=\"cards\" id=\"acct-cards\"></div>\n<div class=\"panel\"><h2>资产曲线</h2><div id=\"equity-chart\" class=\"chart\"></div></div>\n<div class=\"tabs\" id=\"acct-tabs\">\n  <button class=\"tab active\" data-tab=\"positions\">持仓</button>\n  <button class=\"tab\" data-tab=\"trades\">成交</button>\n  <button class=\"tab\" data-tab=\"decisions\">AI 建议</button>\n</div>\n<div class=\"tab-pane\" id=\"tab-positions\"></div>\n<div class=\"tab-pane\" id=\"tab-trades\" style=\"display:none\"></div>\n<div class=\"tab-pane\" id=\"tab-decisions\" style=\"display:none\"></div>");
    assert(body@ =~= "<p><a href=\"/\" class=\"back\">← 返回模拟</a></p>\n<div class=\"panel-head\"><h2 id=\"acct-title\">账户「"@ + web::escaped(name@) + "」</h2>\n  <a class=\"btn-ghost\" href=\"/account/"@ + web::escaped(name@) + "/edit\">参数设置</a></div>\n<div class=\"cards\" id=\"acct-cards\"></div>\n<div class=\"panel\"><h2>资产曲线</h2><div id=\"equity-chart\" class=\"chart\"></div></div>\n<div class=\"tabs\" id=\"acct-tabs\">\n  <button class=\"tab active\" data-tab=\"positions\">持仓</button>\n  <button class=\"tab\" data-tab=\"trades\">成交</button>\n  <button class=\"tab\" data-tab=\"decisions\">AI 建议</button>\n</div>\n<div class=\"tab-pane\" id=\"tab-positions\"></div>\n<div class=\"tab-pane\" id=\"tab-trades\" style=\"display:none\"></div>\n<div class=\"tab-pane\" id=\"tab-decisions\" style=\"display:none\"></div>"@);
    layout(title.as_str(), "account", body.as_str())
}

/// The settings of an account.
pub open spec fn account_settings_page_text(name: Seq<char>, capital: Seq<char>, watchlist: Seq<char>, interval: Seq<char>, count: Seq<char>) -> Seq<char> {
    layout_text(name + " · 参数"@, "account"@, "<p><a href=\"/account/"@ + web::escaped(name) + "\" class=\"back\">← 返回账户</a></p>\n<section class=\"panel\"><h2>账户参数 · "@ + web::escaped(name) + "</h2>\n<form method=post action=\"/api/account/"@ + web::escaped(name) + "/settings\" class=\"form\">\n  <label>初始资金(元) <input name=initial_capital value=\""@ + web::escaped(capital) + "\" type=number></label>\n  <label>自选池(逗号分隔) <input name=watchlist value=\""@ + web::escaped(watchlist) + "\"></label>\n  <label>决策间隔(分钟) <input name=decision_interval_minutes value=\""@ + web::escaped(interval) + "\" type=number></label>\n  <label>候选股数量 <input name=candidate_count value=\""@ + web::escaped(count) + "\" type=number></label>\n  <button type=submit>保存</button>\n</form></section>"@)
}

/// The settings of an account.
pub fn account_settings_page(name: &str, capital: &str, watchlist: &str, interval: &str, count: &str) -> (r: String)
    ensures
        r@ == account_settings_page_text(name@, capital@, watchlist@, interval@, count@),
{
    let mut title = String::new();
    title.append(name);
    title.append(" · 参数");
    assert(title@ =~= name@ + " · 参数"@);
    let mut body = String::new();
    body.append("<p><a href=\"/account/");
    body.append(esc(name).as_str());
    body.append("\" class=\"back\">← 返回账户</a></p>\n<section class=\"panel\"><h2>账户参数 · ");
    body.append(esc(name).as_str());
    body.append("</h2>\n<form method=post action=\"/api/account/");
    body.append(esc(name).as_str());
    body.append("/settings\" class=\"form\">\n  <label>初始资金(元) <input name=initial_capital value=\"");
    body.append(esc(capital).as_str());
    body.append("\" type=number></label>\n  <label>自选池(逗号分隔) <input name=watchlist value=\"");
    body.append(esc(watchlist).as_str());
    body.append("\"></label>\n  <label>决策间隔(分钟) <input name=decision_interval_minutes value=\"");
    body.append(esc(interval).as_str());
    body.append("\" type=number></label>\n  <label>候选股数量 <input name=candidate_count value=\"");
    body.append(esc(count).as_str());
    body.append("\" type=number></label>\n  <button type=submit>保存</button>\n</form></section>");
    assert(body@ =~= "<p><a href=\"/account/"@ + web::escaped(name@) + "\" class=\"back\">← 返回账户</a></p>\n<section class=\"panel\"><h2>账户参数 · "@ + web::escaped(name@) + "</h2>\n<form method=post action=\"/api/account/"@ + web::escaped(name@) + "/settings\" class=\"form\">\n  <label>初始资金(元) <input name=initial_capital value=\""@ + web::escaped(capital@) + "\" type=number></label>\n  <label>自选池(逗号分隔) <input name=watchlist value=\""@ + web::escaped(watchlist@) + "\"></label>\n  <label>决策间隔(分钟) <input name=decision_interval_minutes value=\""@ + web::escaped(interval@) + "\" type=number></label>\n  <label>候选股数量 <input name=candidate_count value=\""@ + web::escaped(count@) + "\" type=number></label>\n  <button type=submit>保存</button>\n</form></section>"@);
    layout(title.as_str(), "account", body.as_str())
}

/// The settings.
pub open spec fn settings_page_text(data_key: Seq<char>, model_key: Seq<char>, base_url: Seq<char>, model: Seq<char>, count: usize, seconds: u64) -> Seq<char> {
    layout_text("设置"@, "settings"@, "<section class=\"panel\"><h2>设置</h2>\n        <p class=\"hint\">配置保存后即时生效，无需重启。</p>\n        <form method=post class=\"form\">\n          <label>同花顺数据 Key <input name=hithink_api_key value=\""@ + web::escaped(data_key) + "\" type=text></label>\n          <label>AI Key <input name=llm_api_key value=\""@ + web::escaped(model_key) + "\" type=text></label>\n          <label>AI 服务地址 <input name=llm_base_url value=\""@ + web::escaped(base_url) + "\" type=text></label>\n          <label>AI 模型 <input name=llm_model value=\""@ + web::escaped(model) + "\" type=text></label>\n          <label>候选股数量 <input name=candidate_count value=\""@ + text::int_text(count as int) + "\" type=number></label>\n          <label>行情刷新间隔(秒) <input name=collect_interval_seconds value=\""@ + text::int_text(seconds as int) + "\" type=number></label>\n          <button type=submit>保存</button>\n        </form></section>"@)
}

/// The settings.
pub fn settings_page(data_key: &str, model_key: &str, base_url: &str, model: &str, count: usize, seconds: u64) -> (r: String)
    ensures
        r@ == settings_page_text(data_key@, model_key@, base_url@, model@, count, seconds),
{
    let mut title = String::new();
    title.append("设置");
    assert(title@ =~= "设置"@);
    let mut body = String::new();
    body.append("<section class=\"panel\"><h2>设置</h2>\n        <p class=\"hint\">配置保存后即时生效，无需重启。</p>\n        <form method=post class=\"form\">\n          <label>同花顺数据 Key <input name=hithink_api_key value=\"");
    body.append(esc(data_key).as_str());
    body.append("\" type=text></label>\n          <label>AI Key <input name=llm_api_key value=\"");
    body.append(esc(model_key).as_str());
    body.append("\" type=text></label>\n          <label>AI 服务地址 <input name=llm_base_url value=\"");
    body.append(esc(base_url).as_str());
    body.append("\" type=text></label>\n          <label>AI 模型 <input name=llm_model value=\"");
    body.append(esc(model).as_str());
    body.append("\" type=text></label>\n          <label>候选股数量 <input name=candidate_count value=\"");
    body.append(int_string(count as i128).as_str());
    body.append("\" type=number></label>\n          <label>行情刷新间隔(秒) <input name=collect_interval_seconds value=\"");
    body.append(int_string(seconds as i128).as_str());
    body.append("\" type=number></label>\n          <button type=submit>保存</button>\n        </form></section>");
    assert(body@ =~= "<section class=\"panel\"><h2>设置</h2>\n        <p class=\"hint\">配置保存后即时生效，无需重启。</p>\n        <form method=post class=\"form\">\n          <label>同花顺数据 Key <input name=hithink_api_key value=\""@ + web::escaped(data_key@) + "\" type=text></label>\n          <label>AI Key <input name=llm_api_key value=\""@ + web::escaped(model_key@) + "\" type=text></label>\n          <label>AI 服务地址 <input name=llm_base_url value=\""@ + web::escaped(base_url@) + "\" type=text></label>\n          <label>AI 模型 <input name=llm_model value=\""@ + web::escaped(model@) + "\" type=text></label>\n          <label>候选股数量 <input name=candidate_count value=\""@ + text::int_text(count as int) + "\" type=number></label>\n          <label>行情刷新间隔(秒) <input name=collect_interval_seconds value=\""@ + text::int_text(seconds as int) + "\" type=number></label>\n          <button type=submit>保存</button>\n        </form></section>"@);
    layout(title.as_str(), "settings", body.as_str())
}

} // verus!
